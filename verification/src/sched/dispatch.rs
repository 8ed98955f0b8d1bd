//! Scheduler bring-up, and what is switched before a thread runs.

use super::{
    empty_thread, fresh_thread, handed_off, next_from, slot_finished, NextTask, Scheduler,
    SchedulerModel, Thread, ThreadKind, ThreadState, FRESH_TASK_SENTINEL, SCHEDULER_THREAD_SLOTS,
};
use crate::process::id_allocator::IdAllocator;
use crate::process::lifecycle::{dispatch_root, Process, ProcessRegistry};
use crate::process::KERNEL_PROCESS_ID;
use vstd::prelude::*;

verus! {

/// What is put in place before a thread runs.
#[derive(Clone, Copy, Debug, PartialEq, Eq, Structural)]
pub struct ThreadDispatch {
    pub root_frame: u64,
    pub kernel_stack_top: u64,
}

/// The scheduler started anew with the two demonstration tasks, and the result of that.
pub open spec fn tasks_placed(
    m: SchedulerModel,
    next_tid: u64,
    stack_pointers: Seq<u64>,
    entries: Seq<u64>,
) -> (SchedulerModel, Result<(), &'static str>) {
    let exhausted = next_tid >= u64::MAX - 1;
    (
        SchedulerModel {
            threads: if exhausted {
                seq![empty_thread(), empty_thread(), empty_thread()]
            } else {
                seq![
                    fresh_thread(
                        next_tid,
                        KERNEL_PROCESS_ID,
                        ThreadKind::Kernel,
                        stack_pointers[0],
                        stack_pointers[0],
                        entries[0],
                        ThreadState::Ready,
                    ),
                    fresh_thread(
                        (next_tid + 1) as u64,
                        KERNEL_PROCESS_ID,
                        ThreadKind::Kernel,
                        stack_pointers[1],
                        stack_pointers[1],
                        entries[1],
                        ThreadState::Ready,
                    ),
                    empty_thread(),
                ]
            },
            current_thread: None,
            preemption_observed: false,
            preemption_logged: false,
            pass_emitted: false,
            next_task: m.next_task,
            idle: m.idle,
        },
        if exhausted {
            Err("thread id space exhausted; IDs are not reused")
        } else {
            Ok(())
        },
    )
}

/// Starts the scheduler anew with the two demonstration tasks. The idle thread and the task that the
/// context switch was to start are kept.
pub fn initialize_scheduler(
    scheduler: &mut Scheduler,
    ids: &mut IdAllocator,
    stack_pointers: [u64; 2],
    entries: [u64; 2],
) -> (r: Result<(), &'static str>)
    ensures
        final(scheduler).wf(),
        (final(scheduler).model(), r) == tasks_placed(
            old(scheduler).model(),
            old(ids).next_tid,
            stack_pointers@,
            entries@,
        ),
        final(ids).next_pid == old(ids).next_pid,
        final(ids).next_tid == (if old(ids).next_tid >= u64::MAX - 1 {
            u64::MAX as int
        } else {
            old(ids).next_tid + 2
        }),
{
    let idle = scheduler.idle;
    let next_task = scheduler.next_task;
    *scheduler = Scheduler::new();
    scheduler.idle = idle;
    scheduler.next_task = next_task;
    let thread_one: u64 = match ids.allocate_tid() {
        Ok(tid) => tid,
        Err(e) => return Err(e),
    };
    let thread_two: u64 = match ids.allocate_tid() {
        Ok(tid) => tid,
        Err(e) => return Err(e),
    };
    match scheduler.configure_kernel_thread(0, thread_one, stack_pointers[0], entries[0]) {
        Ok(()) => {},
        Err(e) => return Err(e),
    }
    match scheduler.configure_kernel_thread(1, thread_two, stack_pointers[1], entries[1]) {
        Ok(()) => {},
        Err(e) => return Err(e),
    }
    Ok(())
}

/// What a thread needs in place: the kernel's root for a kernel thread, its process's for another.
pub open spec fn dispatch_of(
    thread: Thread,
    kernel_root: u64,
    processes: Seq<Process>,
) -> Result<ThreadDispatch, &'static str> {
    match thread.kind {
        ThreadKind::Kernel => if kernel_root == 0 {
            Err("kernel address-space root was not initialized")
        } else {
            Ok(ThreadDispatch {
                root_frame: kernel_root,
                kernel_stack_top: thread.kernel_stack_top,
            })
        },
        ThreadKind::User => match dispatch_root(processes, thread.owner_process_id) {
            Ok(root_frame) => Ok(ThreadDispatch {
                root_frame,
                kernel_stack_top: thread.kernel_stack_top,
            }),
            Err(e) => Err(e),
        },
    }
}

pub fn prepare_thread_dispatch(thread: Thread, kernel_root: u64, registry: &ProcessRegistry) -> (r:
    Result<ThreadDispatch, &'static str>)
    ensures
        r == dispatch_of(thread, kernel_root, registry.processes@),
{
    match thread.kind {
        ThreadKind::Kernel => {
            if kernel_root == 0 {
                return Err("kernel address-space root was not initialized");
            }
            Ok(
                ThreadDispatch {
                    root_frame: kernel_root,
                    kernel_stack_top: thread.kernel_stack_top,
                },
            )
        },
        ThreadKind::User => match registry.userspace_process_root_frame(
            thread.owner_process_id,
        ) {
            Ok(root_frame) => Ok(
                ThreadDispatch { root_frame, kernel_stack_top: thread.kernel_stack_top },
            ),
            Err(e) => Err(e),
        },
    }
}

/// What the current thread needs in place.
pub fn prepare_current_scheduler_thread_dispatch(
    scheduler: &Scheduler,
    kernel_root: u64,
    registry: &ProcessRegistry,
) -> (r: Result<ThreadDispatch, &'static str>)
    requires
        scheduler.wf(),
    ensures
        r == match scheduler.current_thread {
            None => Err::<ThreadDispatch, &'static str>(
                "scheduler had no current thread to dispatch",
            ),
            Some(index) => dispatch_of(
                scheduler.threads@[index as int],
                kernel_root,
                registry.processes@,
            ),
        },
{
    match scheduler.current_thread_descriptor() {
        Ok(thread) => prepare_thread_dispatch(thread, kernel_root, registry),
        Err(e) => Err(e),
    }
}

/// What follows the exit of a task.
#[derive(Clone, Copy, Debug, PartialEq, Eq)]
pub enum TaskExit {
    /// A thread that never ran starts.
    Start { dispatch: ThreadDispatch, next: NextTask },
    /// A thread goes on from its saved stack pointer.
    Resume { dispatch: ThreadDispatch, stack_pointer: u64 },
    /// All tasks are done.
    AllDone,
    /// The kernel must stop.
    Fatal(&'static str),
}

/// The scheduler after the current thread ended, and what runs next.
pub open spec fn task_ended(m: SchedulerModel, kernel_root: u64, processes: Seq<Process>) -> (
    SchedulerModel,
    TaskExit,
) {
    match m.current_thread {
        None => (m, TaskExit::Fatal("thread exit occurred without a current thread")),
        Some(current) => {
            let ended = SchedulerModel {
                threads: m.threads.update(
                    current as int,
                    Thread { state: ThreadState::Exited, ..m.threads[current as int] },
                ),
                ..m
            };
            match next_from(ended.threads, Some(current)) {
                None => (
                    SchedulerModel { current_thread: None, ..ended },
                    if forall|i: int|
                        0 <= i < SCHEDULER_THREAD_SLOTS ==> slot_finished(
                            i,
                            #[trigger] ended.threads[i],
                        ) {
                        TaskExit::AllDone
                    } else {
                        TaskExit::Fatal("scheduler had no runnable thread during task exit")
                    },
                ),
                Some(next) => {
                    let (after, stack_pointer) = handed_off(ended, next);
                    (
                        after,
                        match dispatch_of(
                            after.threads[after.current_thread->0 as int],
                            kernel_root,
                            processes,
                        ) {
                            Err(e) => TaskExit::Fatal(e),
                            Ok(dispatch) => if stack_pointer == FRESH_TASK_SENTINEL {
                                TaskExit::Start { dispatch, next: after.next_task }
                            } else {
                                TaskExit::Resume { dispatch, stack_pointer }
                            },
                        },
                    )
                },
            }
        },
    }
}

/// Ends the current thread and tells what runs next.
pub fn task_exit(scheduler: &mut Scheduler, kernel_root: u64, registry: &ProcessRegistry) -> (r: TaskExit)
    requires
        old(scheduler).wf(),
    ensures
        final(scheduler).wf(),
        (final(scheduler).model(), r) == task_ended(
            old(scheduler).model(),
            kernel_root,
            registry.processes@,
        ),
{
    let next: Option<u64> = match scheduler.finish_current_thread() {
        Ok(next) => next,
        Err(message) => return TaskExit::Fatal(message),
    };
    match next {
        Some(stack_pointer) => match prepare_current_scheduler_thread_dispatch(
            scheduler,
            kernel_root,
            registry,
        ) {
            Err(message) => TaskExit::Fatal(message),
            Ok(dispatch) => {
                if stack_pointer == FRESH_TASK_SENTINEL {
                    TaskExit::Start { dispatch, next: scheduler.next_task }
                } else {
                    TaskExit::Resume { dispatch, stack_pointer }
                }
            },
        },
        None => {
            if scheduler.all_finished() {
                TaskExit::AllDone
            } else {
                TaskExit::Fatal("scheduler had no runnable thread during task exit")
            }
        },
    }
}

} // verus!
