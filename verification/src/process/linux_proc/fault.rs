//! Which signal ends a Linux process that faulted.

use super::table::ProcId;
use crate::process::lifecycle::{process_from, Process, ProcessRegistry};
use crate::process::personality::ExecutionPersonality;
use vstd::prelude::*;

verus! {

pub const PAGE_FAULT_VECTOR: u64 = 14;

pub const INVALID_OPCODE_VECTOR: u64 = 6;

pub const GENERAL_PROTECTION_VECTOR: u64 = 13;

pub const SIGILL: u32 = 4;

pub const SIGSEGV: u32 = 11;

/// The signal of a fault.
pub open spec fn fault_signal(vector: u64) -> u32 {
    if vector == INVALID_OPCODE_VECTOR {
        SIGILL
    } else {
        SIGSEGV
    }
}

/// The process that a fault ends, and the signal.
pub open spec fn fault_exit(processes: Seq<Process>, pid: u64, vector: u64) -> Option<(ProcId, u32)> {
    match process_from(processes, pid, 0) {
        None => None,
        Some(i) => if processes[i].execution_personality != ExecutionPersonality::LinuxX86_64 {
            None
        } else {
            Some(
                (
                    ProcId { pid, generation: processes[i].instance_generation },
                    fault_signal(vector),
                ),
            )
        },
    }
}

/// The signal of a fault: illegal instruction for an invalid opcode, else segmentation violation.
pub fn fault_vector_to_signal(vector: u64) -> (r: u32)
    ensures
        r == fault_signal(vector),
{
    if vector == INVALID_OPCODE_VECTOR {
        SIGILL
    } else {
        SIGSEGV
    }
}

/// The process to be published as ended by a signal after a fault, and the signal. None where the pid
/// has no process or not one of the Linux personality.
pub fn linux_fault_exit(registry: &ProcessRegistry, pid: u64, vector: u64) -> (r: Option<
    (ProcId, u32),
>)
    ensures
        r == fault_exit(registry.processes@, pid, vector),
{
    match registry.get(pid) {
        None => None,
        Some(process) => {
            if process.execution_personality != ExecutionPersonality::LinuxX86_64 {
                return None;
            }
            Some(
                (
                    ProcId { pid, generation: process.instance_generation },
                    fault_vector_to_signal(vector),
                ),
            )
        },
    }
}

} // verus!
