//! The executables that are built in, by their paths.

use crate::abi::{LinuxErrno, ENOENT};
use crate::scan::bytes_equal;
use vstd::prelude::*;
use vstd::string::StringSliceAdditionalSpecFns;

verus! {

pub const LINUX_PATH_MAX: usize = 256;

#[derive(Clone, Copy, Debug, PartialEq, Eq, Structural)]
pub enum BuiltInImage {
    Hello,
    ProcProbe,
    ExecArgs,
}

/// A built-in executable, and how many bytes of its path were kept.
#[derive(Clone, Copy, Debug, PartialEq, Eq, Structural)]
pub struct BuiltInExecutable {
    pub image: BuiltInImage,
    pub resolved_path_len: usize,
}

/// The built-in executable with a path, where it was built in.
pub open spec fn built_in_at(path: Seq<u8>, has_proc_probe: bool, has_exec_args: bool) -> Option<
    BuiltInImage,
> {
    if path == "/bin/busybox".spec_bytes() || path == "/bin/sh".spec_bytes() {
        Some(BuiltInImage::Hello)
    } else if path == "/fixture/linux-proc-probe".spec_bytes() && has_proc_probe {
        Some(BuiltInImage::ProcProbe)
    } else if path == "/fixture/linux-exec-args".spec_bytes() && has_exec_args {
        Some(BuiltInImage::ExecArgs)
    } else {
        None
    }
}

/// Finds a built-in executable and keeps its path.
pub fn resolve_built_in(
    path: &[u8],
    resolved_out: &mut [u8; LINUX_PATH_MAX],
    has_proc_probe: bool,
    has_exec_args: bool,
) -> (r: Result<BuiltInExecutable, LinuxErrno>)
    ensures
        match built_in_at(path@, has_proc_probe, has_exec_args) {
            None => r == Err::<BuiltInExecutable, LinuxErrno>(ENOENT) && final(resolved_out)@
                == old(resolved_out)@,
            Some(image) => {
                let len = if path@.len() < LINUX_PATH_MAX {
                    path@.len() as int
                } else {
                    LINUX_PATH_MAX as int
                };
                &&& r is Ok && r->Ok_0.image == image && r->Ok_0.resolved_path_len == len
                &&& forall|i: int|
                    0 <= i < LINUX_PATH_MAX ==> #[trigger] final(resolved_out)@[i] == (if i < len {
                        path@[i]
                    } else {
                        old(resolved_out)@[i]
                    })
            },
        },
{
    let image: BuiltInImage = if bytes_equal(path, "/bin/busybox".as_bytes()) || bytes_equal(
        path,
        "/bin/sh".as_bytes(),
    ) {
        BuiltInImage::Hello
    } else if has_proc_probe && bytes_equal(path, "/fixture/linux-proc-probe".as_bytes()) {
        BuiltInImage::ProcProbe
    } else if has_exec_args && bytes_equal(path, "/fixture/linux-exec-args".as_bytes()) {
        BuiltInImage::ExecArgs
    } else {
        return Err(ENOENT);
    };
    let len: usize = if path.len() < LINUX_PATH_MAX {
        path.len()
    } else {
        LINUX_PATH_MAX
    };
    let mut i: usize = 0;
    while i < len
        invariant
            0 <= i <= len <= LINUX_PATH_MAX,
            len <= path@.len(),
            forall|k: int|
                0 <= k < LINUX_PATH_MAX ==> #[trigger] resolved_out@[k] == (if k < i {
                    path@[k]
                } else {
                    old(resolved_out)@[k]
                }),
        decreases len - i,
    {
        resolved_out[i] = path[i];
        i += 1;
    }
    Ok(BuiltInExecutable { image, resolved_path_len: len })
}

} // verus!
