//! Which system-call interface a process sees.
//!
//! Personality is assigned by trusted process creation and never taken from system-call arguments.

use super::lifecycle::{process_from, ProcessRegistry};
use crate::sched::{Scheduler, ThreadKind};
use vstd::prelude::*;

verus! {

/// Trusted ABI personality for a userspace process.
#[derive(Clone, Copy, Debug, PartialEq, Eq, Structural)]
pub enum ExecutionPersonality {
    /// Clean-Slate native syscall ABI.
    Native,
    /// Linux x86-64 syscall ABI.
    LinuxX86_64,
}

impl Default for ExecutionPersonality {
    fn default() -> (r: ExecutionPersonality)
        ensures
            r == ExecutionPersonality::Native,
    {
        ExecutionPersonality::Native
    }
}

/// Dispatch target derived from trusted personality.
#[derive(Clone, Copy, Debug, PartialEq, Eq, Structural)]
pub enum SyscallDispatchTarget {
    Native,
    LinuxX86_64,
}

/// Map trusted personality to dispatch target. Does not accept raw register values.
pub fn dispatch_target_for(personality: ExecutionPersonality) -> (r: SyscallDispatchTarget)
    ensures
        r == match personality {
            ExecutionPersonality::Native => SyscallDispatchTarget::Native,
            ExecutionPersonality::LinuxX86_64 => SyscallDispatchTarget::LinuxX86_64,
        },
{
    match personality {
        ExecutionPersonality::Native => SyscallDispatchTarget::Native,
        ExecutionPersonality::LinuxX86_64 => SyscallDispatchTarget::LinuxX86_64,
    }
}

/// The personality of the current thread's process, by the scheduler and the process registry alone.
pub fn current_execution_personality(scheduler: &Scheduler, registry: &ProcessRegistry) -> (r: Result<
    ExecutionPersonality,
    &'static str,
>)
    requires
        scheduler.wf(),
    ensures
        r == match scheduler.current_thread {
            None => Err::<ExecutionPersonality, &'static str>("scheduler had no current thread"),
            Some(index) => {
                let thread = scheduler.threads@[index as int];
                if thread.kind != ThreadKind::User {
                    Err("current thread was not userspace")
                } else {
                    match process_from(registry.processes@, thread.owner_process_id, 0) {
                        None => Err("current process was not present in registry"),
                        Some(i) => Ok(registry.processes@[i].execution_personality),
                    }
                }
            },
        },
{
    let pid: u64 = match scheduler.current_userspace_process_id() {
        Ok(pid) => pid,
        Err(e) => return Err(e),
    };
    match registry.get(pid) {
        Some(process) => Ok(process.execution_personality),
        None => Err("current process was not present in registry"),
    }
}

} // verus!
