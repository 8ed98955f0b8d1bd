//! The dedicated idle thread: it waits with interrupts enabled while all other threads are blocked.

use super::{
    idle_configured, idle_entered, idle_handoff, ids_after, IdleThread, NextTask, Scheduler,
    SchedulerModel, ThreadKind, ThreadState, FRESH_TASK_SENTINEL, IDLE_THREAD_INDEX,
};
use crate::process::id_allocator::IdAllocator;
use crate::process::KERNEL_PROCESS_ID;
use vstd::prelude::*;

verus! {

/// How deep the idle thread may use its stack.
pub const IDLE_STACK_GUARD_BYTES: u64 = 1024;

/// Whether a stack pointer lies within the idle thread's part of its stack.
pub fn idle_stack_within_guard(stack_top: u64, stack_pointer: u64) -> (r: bool)
    ensures
        r == (stack_pointer <= stack_top && stack_pointer + IDLE_STACK_GUARD_BYTES >= stack_top),
{
    let floor: u64 = if stack_top >= IDLE_STACK_GUARD_BYTES {
        stack_top - IDLE_STACK_GUARD_BYTES
    } else {
        0
    };
    !(stack_pointer < floor || stack_pointer > stack_top)
}

impl Scheduler {
    /// Tells the scheduler where the idle thread runs.
    pub fn place_idle_thread(&mut self, stack_top: u64, entry_point: u64)
        requires
            old(self).wf(),
        ensures
            final(self).wf(),
            final(self).model() == (SchedulerModel {
                idle: IdleThread { stack_top, entry_point, ..old(self).idle },
                ..old(self).model()
            }),
    {
        self.idle.stack_top = stack_top;
        self.idle.entry_point = entry_point;
    }

    /// Sets the idle thread's slot up, once.
    pub fn ensure_idle_thread_configured(&mut self, ids: &mut IdAllocator) -> (r: Result<
        (),
        &'static str,
    >)
        requires
            old(self).wf(),
        ensures
            final(self).wf(),
            ({
                let (after, result, took) = idle_configured(old(self).model(), old(ids).next_tid);
                &&& final(self).model() == after
                &&& r == result
                &&& ids_after(*old(ids), *final(ids), took)
            }),
    {
        if self.idle.configured {
            return Ok(());
        }
        if self.threads[IDLE_THREAD_INDEX].state != ThreadState::Empty {
            self.idle.configured = true;
            return Ok(());
        }
        let tid: u64 = match ids.allocate_tid() {
            Ok(tid) => tid,
            Err(e) => return Err(e),
        };
        let stack_top: u64 = self.idle.stack_top;
        let entry: u64 = self.idle.entry_point;
        match self.configure_thread(
            IDLE_THREAD_INDEX,
            tid,
            KERNEL_PROCESS_ID,
            ThreadKind::Kernel,
            stack_top,
            stack_top,
            entry,
        ) {
            Ok(()) => {},
            Err(e) => return Err(e),
        }
        self.threads[IDLE_THREAD_INDEX].state = ThreadState::Empty;
        self.idle.configured = true;
        assert(self.model() =~= idle_configured(old(self).model(), old(ids).next_tid).0);
        Ok(())
    }

    /// Hands the processor to the idle thread, always on a clean stack.
    pub fn handoff_to_idle_thread(&mut self, ids: &mut IdAllocator) -> (r: Result<
        u64,
        &'static str,
    >)
        requires
            old(self).wf(),
        ensures
            final(self).wf(),
            ({
                let (after, result, took) = idle_handoff(old(self).model(), old(ids).next_tid);
                &&& final(self).model() == after
                &&& r == result
                &&& ids_after(*old(ids), *final(ids), took)
            }),
    {
        match self.ensure_idle_thread_configured(ids) {
            Ok(()) => {},
            Err(e) => return Err(e),
        }
        let ghost ready = self.model();
        self.current_thread = Some(IDLE_THREAD_INDEX);
        self.threads[IDLE_THREAD_INDEX].state = ThreadState::Running;
        self.threads[IDLE_THREAD_INDEX].started = true;
        self.next_task = NextTask {
            stack_pointer: self.idle.stack_top,
            entry_point: self.idle.entry_point,
        };
        assert(self.model() =~= idle_entered(ready));
        Ok(FRESH_TASK_SENTINEL)
    }
}

} // verus!
