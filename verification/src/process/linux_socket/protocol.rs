//! What is said to the network service, and what it answers, as plain values.

use crate::abi::{LinuxErrno, ECONNREFUSED, ECONNRESET, EFAULT, EINVAL, EIO, ETIMEDOUT, SOCKADDR_IN_LEN};
use vstd::prelude::*;

verus! {

/// A session of the network service; zero is none.
#[derive(Clone, Copy, Debug, PartialEq, Eq, Structural)]
pub struct SessionId(pub u64);

/// An internet address and port. The address is read as a number, its first byte the highest.
#[derive(Clone, Copy, Debug, PartialEq, Eq, Structural)]
pub struct SockaddrIn {
    pub addr: u32,
    pub port: u16,
}

impl SockaddrIn {
    /// Any address, and a port that is chosen later.
    pub fn any_ephemeral() -> (r: SockaddrIn)
        ensures
            r == (SockaddrIn { addr: 0, port: 0 }),
    {
        SockaddrIn { addr: 0, port: 0 }
    }
}

/// A socket as the network service knows it.
#[derive(Clone, Copy, Debug, PartialEq, Eq, Structural)]
pub enum SocketKindLinux {
    Udp,
    Tcp,
}

#[derive(Clone, Copy, Debug, PartialEq, Eq, Structural)]
pub enum NetworkRequest {
    Open { kind: SocketKindLinux },
    Connect { session: SessionId, dest: SockaddrIn },
    Send { session: SessionId, payload_len: u32 },
    Receive { session: SessionId, max_len: u32 },
    Close { session: SessionId },
    Resolve,
}

/// Why the network service could not do what it was asked.
#[derive(Clone, Copy, Debug, PartialEq, Eq, Structural)]
pub enum NetworkFailure {
    Unreachable,
    Timeout,
    Reset,
    Other,
}

#[derive(Clone, Copy, Debug, PartialEq, Eq, Structural)]
pub enum NetworkResponse {
    Open { session: SessionId },
    Connect,
    Send { bytes_sent: u32 },
    Receive { payload_len: u32 },
    Error { failure: NetworkFailure },
    Other,
}

/// The error number for a failure of the network service.
pub open spec fn failure_errno(failure: NetworkFailure) -> LinuxErrno {
    match failure {
        NetworkFailure::Unreachable => ECONNREFUSED,
        NetworkFailure::Timeout => ETIMEDOUT,
        NetworkFailure::Reset => ECONNRESET,
        NetworkFailure::Other => EIO,
    }
}

pub fn map_network_error(failure: NetworkFailure) -> (r: LinuxErrno)
    ensures
        r == failure_errno(failure),
{
    match failure {
        NetworkFailure::Unreachable => ECONNREFUSED,
        NetworkFailure::Timeout => ETIMEDOUT,
        NetworkFailure::Reset => ECONNRESET,
        NetworkFailure::Other => EIO,
    }
}

/// The address that a caller gave. `readable` says whether its memory can be read, `decoded` what its
/// bytes say.
pub fn read_sockaddr_in(
    socklen: u32,
    readable: bool,
    decoded: Result<SockaddrIn, LinuxErrno>,
) -> (r: Result<SockaddrIn, LinuxErrno>)
    ensures
        r == address_read(socklen, readable, decoded),
{
    if socklen != SOCKADDR_IN_LEN as u32 {
        return Err(EINVAL);
    }
    if !readable {
        return Err(EFAULT);
    }
    decoded
}

pub open spec fn address_read(
    socklen: u32,
    readable: bool,
    decoded: Result<SockaddrIn, LinuxErrno>,
) -> Result<SockaddrIn, LinuxErrno> {
    if socklen != SOCKADDR_IN_LEN {
        Err(EINVAL)
    } else if !readable {
        Err(EFAULT)
    } else {
        decoded
    }
}

/// Whether an address can be stored: both the address and its length need room.
pub fn check_write_sockaddr_in(addr_writable: bool, len_writable: bool) -> (r: Result<(), LinuxErrno>)
    ensures
        r == (if addr_writable && len_writable {
            Ok::<(), LinuxErrno>(())
        } else {
            Err(EFAULT)
        }),
{
    if !addr_writable || !len_writable {
        return Err(EFAULT);
    }
    Ok(())
}

} // verus!
