//! Process and thread lifecycle, and the Linux personality's per-process state.

pub mod domain;
pub mod endings;
pub mod exec_use;
pub mod id_allocator;
pub mod lifecycle;
pub mod linux_exec;
pub mod linux_fd;
pub mod linux_fs;
pub mod linux_image;
pub mod linux_mem;
pub mod linux_proc;
pub mod linux_signal;
pub mod linux_socket;
pub mod memory_use;
pub mod personality;
pub mod records;
pub mod signal_use;
pub mod stdio_payload;
pub mod stdio_projection;

use vstd::prelude::*;

verus! {

/// Tells apart the processes that had one pid, one after the other.
#[derive(Clone, Copy, Debug, PartialEq, Eq, Structural)]
pub struct InstanceGeneration(pub u32);

pub const KERNEL_PROCESS_ID: u64 = 0;

/// Fixed process-registry bound; the Linux fd registry has as many slots.
pub const PROCESS_REGISTRY_CAPACITY: usize = 8;

} // verus!
