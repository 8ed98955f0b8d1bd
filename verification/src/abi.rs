//! Linux x86-64 numbers shared by the personality's tables.

use vstd::prelude::*;

verus! {

/// A positive Linux error number.
pub type LinuxErrno = u16;

/// What a Linux system call returns to its caller.
pub type LinuxSyscallResult = Result<u64, LinuxErrno>;

pub const ENOENT: LinuxErrno = 2;
pub const ESRCH: LinuxErrno = 3;
pub const EIO: LinuxErrno = 5;
pub const ENOEXEC: LinuxErrno = 8;
pub const EBADF: LinuxErrno = 9;
pub const ECHILD: LinuxErrno = 10;
pub const EAGAIN: LinuxErrno = 11;
pub const ENOMEM: LinuxErrno = 12;
pub const EACCES: LinuxErrno = 13;
pub const EFAULT: LinuxErrno = 14;
pub const EEXIST: LinuxErrno = 17;
pub const ENOTDIR: LinuxErrno = 20;
pub const EISDIR: LinuxErrno = 21;
pub const EINVAL: LinuxErrno = 22;
pub const ENFILE: LinuxErrno = 23;
pub const EMFILE: LinuxErrno = 24;
pub const EFBIG: LinuxErrno = 27;
pub const ENOSPC: LinuxErrno = 28;
pub const EROFS: LinuxErrno = 30;
pub const EPIPE: LinuxErrno = 32;
pub const ENAMETOOLONG: LinuxErrno = 36;
pub const ELOOP: LinuxErrno = 40;
pub const EDESTADDRREQ: LinuxErrno = 89;
pub const EMSGSIZE: LinuxErrno = 90;
pub const EPROTONOSUPPORT: LinuxErrno = 93;
pub const EAFNOSUPPORT: LinuxErrno = 97;
pub const ECONNRESET: LinuxErrno = 104;
pub const EISCONN: LinuxErrno = 106;
pub const ENOTCONN: LinuxErrno = 107;
pub const ETIMEDOUT: LinuxErrno = 110;
pub const ECONNREFUSED: LinuxErrno = 111;
pub const ESTALE: LinuxErrno = 116;

pub const SYS_WRITE: u64 = 1;

/// The wait status of a process that exited with a code.
pub open spec fn exit_code_status(exit_code: u32) -> i32 {
    ((exit_code % 256) * 256) as i32
}

/// The wait status of a process that a signal ended.
pub open spec fn signalled_status(signal: u32) -> i32 {
    (signal % 128) as i32
}

pub fn w_exitcode(exit_code: u32) -> (r: i32)
    ensures
        r == exit_code_status(exit_code),
{
    ((exit_code % 256) * 256) as i32
}

pub fn w_signalled_status(signal: u32) -> (r: i32)
    ensures
        r == signalled_status(signal),
{
    (signal % 128) as i32
}

/// Whether a wait status says that a signal ended the process.
pub fn w_ifsignalled(status: i32) -> (r: bool)
    ensures
        r == (0 < (status & 0x7f) < 0x7f),
{
    let signal: i32 = status & 0x7f;
    0 < signal && signal < 0x7f
}

pub const PROT_NONE: u64 = 0;
pub const PROT_READ: u64 = 1;
pub const PROT_WRITE: u64 = 2;
pub const PROT_EXEC: u64 = 4;

pub const MAP_PRIVATE: u64 = 0x02;
pub const MAP_FIXED: u64 = 0x10;
pub const MAP_ANONYMOUS: u64 = 0x20;

pub const ARCH_SET_FS: u64 = 0x1002;
pub const ARCH_GET_FS: u64 = 0x1003;

/// Bytes of one field of a `struct utsname`, and of the whole.
pub const UTSNAME_FIELD: usize = 65;
pub const UTSNAME_SIZE: usize = 390;

pub const AT_NULL: u64 = 0;
pub const AT_PHDR: u64 = 3;
pub const AT_PHENT: u64 = 4;
pub const AT_PHNUM: u64 = 5;
pub const AT_PAGESZ: u64 = 6;
pub const AT_BASE: u64 = 7;
pub const AT_FLAGS: u64 = 8;
pub const AT_ENTRY: u64 = 9;
pub const AT_UID: u64 = 11;
pub const AT_EUID: u64 = 12;
pub const AT_GID: u64 = 13;
pub const AT_EGID: u64 = 14;
pub const AT_HWCAP: u64 = 16;
pub const AT_SECURE: u64 = 23;
pub const AT_RANDOM: u64 = 25;
pub const AT_EXECFN: u64 = 31;

pub const AF_INET: u16 = 2;
pub const AF_INET6: u16 = 10;

pub const SOCK_STREAM: u32 = 1;
pub const SOCK_DGRAM: u32 = 2;
pub const SOCK_RAW: u32 = 3;
pub const SOCK_NONBLOCK: u32 = 0o4000;
pub const SOCK_CLOEXEC: u32 = 0o2000000;

pub const MSG_TRUNC: u32 = 0x20;
pub const MSG_DONTWAIT: u32 = 0x40;
pub const MSG_NOSIGNAL: u32 = 0x4000;

/// Bytes of a `struct sockaddr_in`.
pub const SOCKADDR_IN_LEN: usize = 16;

pub const O_RDONLY: u32 = 0;
pub const O_WRONLY: u32 = 0o1;
pub const O_RDWR: u32 = 0o2;
pub const O_CREAT: u32 = 0o100;
pub const O_TRUNC: u32 = 0o1000;
pub const O_APPEND: u32 = 0o2000;
pub const O_NONBLOCK: u32 = 0o4000;

pub const S_IFDIR: u32 = 0o040000;
pub const S_IFREG: u32 = 0o100000;
pub const S_IFLNK: u32 = 0o120000;

pub const DT_DIR: u8 = 4;
pub const DT_REG: u8 = 8;
pub const DT_LNK: u8 = 10;

/// The fields of a `struct stat` that the personality reports.
#[derive(Clone, Copy, Debug, PartialEq, Eq, Structural)]
pub struct LinuxStatFields {
    pub st_dev: u64,
    pub st_ino: u64,
    pub st_nlink: u64,
    pub st_mode: u32,
    pub st_uid: u32,
    pub st_gid: u32,
    pub st_rdev: u64,
    pub st_size: i64,
    pub st_blksize: i64,
    pub st_blocks: i64,
}

/// Number of signals.
pub const NSIG: usize = 64;

pub const SIG_BLOCK: i32 = 0;
pub const SIG_UNBLOCK: i32 = 1;
pub const SIG_SETMASK: i32 = 2;

/// A signal disposition.
#[derive(Clone, Copy, Debug, PartialEq, Eq, Structural)]
pub struct Sigaction {
    pub sa_handler: u64,
    pub sa_flags: u64,
    pub sa_restorer: u64,
    pub sa_mask: u64,
}

impl Default for Sigaction {
    fn default() -> (r: Sigaction)
        ensures
            r == (Sigaction { sa_handler: 0, sa_flags: 0, sa_restorer: 0, sa_mask: 0 }),
    {
        Sigaction { sa_handler: 0, sa_flags: 0, sa_restorer: 0, sa_mask: 0 }
    }
}

} // verus!
