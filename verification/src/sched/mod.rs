//! Round-robin thread scheduler: thread descriptors and the scheduler table.

pub mod dispatch;
pub mod fpu;
pub mod idle;
pub mod stack_guard;
pub mod starting;
pub mod turns;
pub mod wait;

use self::wait::WaitOutcome;
use crate::process::id_allocator::IdAllocator;
use crate::process::KERNEL_PROCESS_ID;
use crate::scan::{count, lemma_count_step, lemma_count_whole};
use vstd::prelude::*;

verus! {

/// Application and userspace thread slots.
pub const TASK_COUNT: usize = 2;

/// With one slot for the idle thread.
pub const SCHEDULER_THREAD_SLOTS: usize = 3;

pub const IDLE_THREAD_INDEX: usize = 2;

/// Preemptions after which a demonstration task ends.
pub const TASK_REQUIRED_PREEMPTIONS: u64 = 2;

/// Steps between two progress reports of a demonstration task.
pub const TASK_PROGRESS_CHUNK: u64 = 4096;

/// In place of a stack pointer: start the next task afresh.
pub const FRESH_TASK_SENTINEL: u64 = 0xffff_ffff_ffff_ffff;

/// In place of a stack pointer: complete the next thread's blocked system call.
pub const SYSCALL_BLOCKED_RESUME_SENTINEL: u64 = 0xffff_ffff_ffff_fffe;

#[derive(Clone, Copy, Debug, PartialEq, Eq, Structural)]
pub enum ThreadState {
    Empty,
    Ready,
    Running,
    Blocked,
    Exiting,
    Exited,
    Reaped,
}

#[derive(Clone, Copy, Debug, PartialEq, Eq, Structural)]
pub enum ThreadKind {
    Kernel,
    User,
}

#[derive(Clone, Copy, Debug, PartialEq, Eq, Structural)]
pub struct Thread {
    pub id: u64,
    pub owner_process_id: u64,
    pub kind: ThreadKind,
    pub kernel_stack_top: u64,
    pub saved_stack_pointer: u64,
    pub launch_entry: u64,
    pub started: bool,
    pub state: ThreadState,
    pub progress_logged: bool,
    pub preemptions: u64,
    pub observed_progress: u64,
    /// The saved system-call frame while blocked inside a system call, else zero.
    pub blocked_syscall_frame: u64,
    pub wait_resume_outcome: WaitOutcome,
}

#[derive(Clone, Copy, Debug, PartialEq, Eq, Structural)]
pub struct ThreadProcessResources {
    pub threads: usize,
    pub runnable_threads: usize,
    pub kernel_stacks: usize,
}

impl Default for ThreadProcessResources {
    fn default() -> (r: ThreadProcessResources)
        ensures
            r == (ThreadProcessResources { threads: 0, runnable_threads: 0, kernel_stacks: 0 }),
    {
        ThreadProcessResources { threads: 0, runnable_threads: 0, kernel_stacks: 0 }
    }
}

/// A thread that was just set up.
pub open spec fn fresh_thread(
    id: u64,
    owner_process_id: u64,
    kind: ThreadKind,
    kernel_stack_top: u64,
    saved_stack_pointer: u64,
    launch_entry: u64,
    state: ThreadState,
) -> Thread {
    Thread {
        id,
        owner_process_id,
        kind,
        kernel_stack_top,
        saved_stack_pointer,
        launch_entry,
        started: false,
        state,
        progress_logged: false,
        preemptions: 0,
        observed_progress: 0,
        blocked_syscall_frame: 0,
        wait_resume_outcome: WaitOutcome::Woken,
    }
}

/// The thread of an unused slot.
pub open spec fn empty_thread() -> Thread {
    fresh_thread(0, 0, ThreadKind::Kernel, 0, 0, 0, ThreadState::Empty)
}

impl Thread {
    pub fn empty() -> (r: Thread)
        ensures
            r == empty_thread(),
    {
        Thread {
            id: 0,
            owner_process_id: 0,
            kind: ThreadKind::Kernel,
            kernel_stack_top: 0,
            saved_stack_pointer: 0,
            launch_entry: 0,
            started: false,
            state: ThreadState::Empty,
            progress_logged: false,
            preemptions: 0,
            observed_progress: 0,
            blocked_syscall_frame: 0,
            wait_resume_outcome: WaitOutcome::Woken,
        }
    }
}

/// Where the next fresh task starts.
#[derive(Clone, Copy, Debug, PartialEq, Eq, Structural)]
pub struct NextTask {
    pub stack_pointer: u64,
    pub entry_point: u64,
}

/// The idle thread's stack and entry, and whether its slot was set up.
#[derive(Clone, Copy, Debug, PartialEq, Eq, Structural)]
pub struct IdleThread {
    pub configured: bool,
    pub stack_top: u64,
    pub entry_point: u64,
}

#[derive(Clone, Copy, Debug)]
pub struct Scheduler {
    pub threads: [Thread; SCHEDULER_THREAD_SLOTS],
    pub current_thread: Option<usize>,
    pub preemption_observed: bool,
    pub preemption_logged: bool,
    pub pass_emitted: bool,
    /// What the context switch starts where it is told to start a fresh task.
    pub next_task: NextTask,
    pub idle: IdleThread,
}

/// What a scheduler holds.
#[verifier::ext_equal]
pub struct SchedulerModel {
    pub threads: Seq<Thread>,
    pub current_thread: Option<usize>,
    pub preemption_observed: bool,
    pub preemption_logged: bool,
    pub pass_emitted: bool,
    pub next_task: NextTask,
    pub idle: IdleThread,
}

pub open spec fn runnable(thread: Thread) -> bool {
    thread.state == ThreadState::Ready || thread.state == ThreadState::Running
}

/// Whether a thread belongs to a process, and its slot is in use.
pub open spec fn owned_by(thread: Thread, process_id: u64) -> bool {
    thread.owner_process_id == process_id && thread.state != ThreadState::Empty
}

/// Whether a thread could still run.
pub open spec fn unfinished(thread: Thread) -> bool {
    runnable(thread) || thread.state == ThreadState::Blocked || thread.state
        == ThreadState::Exiting
}

/// The first runnable thread at `offset` or more slots after `start`, going round; never the idle
/// thread.
pub open spec fn runnable_from(threads: Seq<Thread>, start: int, offset: int) -> Option<usize>
    decreases SCHEDULER_THREAD_SLOTS - offset,
{
    let index = (start + offset) % SCHEDULER_THREAD_SLOTS as int;
    if offset < 0 || offset >= SCHEDULER_THREAD_SLOTS {
        None
    } else if index != IDLE_THREAD_INDEX && runnable(threads[index]) {
        Some(index as usize)
    } else {
        runnable_from(threads, start, offset + 1)
    }
}

/// The runnable thread whose turn comes after the current one.
pub open spec fn next_from(threads: Seq<Thread>, current: Option<usize>) -> Option<usize> {
    runnable_from(
        threads,
        match current {
            Some(index) => (index + 1) % SCHEDULER_THREAD_SLOTS as int,
            None => 0,
        },
        0,
    )
}

/// The first slot at or above `from` with a thread of the id.
pub open spec fn thread_from(threads: Seq<Thread>, id: u64, from: int) -> Option<int>
    decreases threads.len() - from,
{
    if from < 0 || from >= threads.len() {
        None
    } else if threads[from].id == id {
        Some(from)
    } else {
        thread_from(threads, id, from + 1)
    }
}

pub open spec fn any_blocked(threads: Seq<Thread>) -> bool {
    exists|i: int|
        0 <= i < threads.len() && (#[trigger] threads[i]).state == ThreadState::Blocked
}

/// What a switch to a thread hands to the context switch: its stack pointer, or that its blocked
/// system call is to be completed.
pub open spec fn handoff_pointer(thread: Thread) -> u64 {
    if thread.blocked_syscall_frame != 0 {
        SYSCALL_BLOCKED_RESUME_SENTINEL
    } else {
        thread.saved_stack_pointer
    }
}

/// Makes a thread the current one.
pub open spec fn switched(m: SchedulerModel, next: usize) -> SchedulerModel {
    SchedulerModel {
        current_thread: Some(next),
        threads: m.threads.update(
            next as int,
            Thread { state: ThreadState::Running, ..m.threads[next as int] },
        ),
        ..m
    }
}

/// Makes a thread the current one and starts it where it was not started; what the context switch
/// gets.
pub open spec fn handed_off(m: SchedulerModel, next: usize) -> (SchedulerModel, u64) {
    let thread = m.threads[next as int];
    let on = switched(m, next);
    if thread.started {
        (on, handoff_pointer(thread))
    } else {
        let started = SchedulerModel {
            threads: on.threads.update(
                next as int,
                Thread { started: true, ..on.threads[next as int] },
            ),
            ..on
        };
        if thread.kind == ThreadKind::Kernel {
            (
                SchedulerModel {
                    next_task: NextTask {
                        stack_pointer: thread.saved_stack_pointer,
                        entry_point: thread.launch_entry,
                    },
                    ..started
                },
                FRESH_TASK_SENTINEL,
            )
        } else {
            (started, handoff_pointer(thread))
        }
    }
}

/// Sets the idle thread's slot up unless that was done.
pub open spec fn idle_configured(m: SchedulerModel, next_tid: u64) -> (
    SchedulerModel,
    Result<(), &'static str>,
    bool,
) {
    if m.idle.configured {
        (m, Ok(()), false)
    } else if m.threads[IDLE_THREAD_INDEX as int].state != ThreadState::Empty {
        (
            SchedulerModel { idle: IdleThread { configured: true, ..m.idle }, ..m },
            Ok(()),
            false,
        )
    } else if next_tid == u64::MAX {
        (m, Err("thread id space exhausted; IDs are not reused"), false)
    } else {
        (
            SchedulerModel {
                idle: IdleThread { configured: true, ..m.idle },
                threads: m.threads.update(
                    IDLE_THREAD_INDEX as int,
                    fresh_thread(
                        next_tid,
                        KERNEL_PROCESS_ID,
                        ThreadKind::Kernel,
                        m.idle.stack_top,
                        m.idle.stack_top,
                        m.idle.entry_point,
                        ThreadState::Empty,
                    ),
                ),
                ..m
            },
            Ok(()),
            true,
        )
    }
}

/// Makes the idle thread the current one, always on a clean stack.
pub open spec fn idle_entered(m: SchedulerModel) -> SchedulerModel {
    SchedulerModel {
        current_thread: Some(IDLE_THREAD_INDEX),
        threads: m.threads.update(
            IDLE_THREAD_INDEX as int,
            Thread {
                state: ThreadState::Running,
                started: true,
                ..m.threads[IDLE_THREAD_INDEX as int]
            },
        ),
        next_task: NextTask {
            stack_pointer: m.idle.stack_top,
            entry_point: m.idle.entry_point,
        },
        ..m
    }
}

/// The result of handing the processor to the idle thread, and whether that took a thread id.
pub open spec fn idle_handoff(m: SchedulerModel, next_tid: u64) -> (
    SchedulerModel,
    Result<u64, &'static str>,
    bool,
) {
    match idle_configured(m, next_tid) {
        (after, Err(e), took) => (after, Err(e), took),
        (after, Ok(()), took) => (idle_entered(after), Ok(FRESH_TASK_SENTINEL), took),
    }
}

/// The thread after a timer interrupt preempted it: a blocked one keeps what it has.
pub open spec fn preempted(thread: Thread, stack_pointer: u64) -> Thread {
    if thread.state == ThreadState::Blocked {
        thread
    } else {
        Thread {
            saved_stack_pointer: stack_pointer,
            preemptions: (thread.preemptions + 1) as u64,
            state: if thread.state == ThreadState::Running {
                ThreadState::Ready
            } else {
                thread.state
            },
            ..thread
        }
    }
}

/// The result of giving the processor away from a current thread, and whether that took a thread id.
pub open spec fn given_away(m: SchedulerModel, current: usize, next_tid: u64, none: &'static str) -> (
    SchedulerModel,
    Result<u64, &'static str>,
    bool,
) {
    match next_from(m.threads, Some(current)) {
        Some(next) => {
            let (after, pointer) = handed_off(m, next);
            (after, Ok(pointer), false)
        },
        None => if any_blocked(m.threads) {
            idle_handoff(m, next_tid)
        } else {
            (m, Err(none), false)
        },
    }
}

/// The result of a timer interrupt, and whether that took a thread id.
pub open spec fn timer_ticked(m: SchedulerModel, stack_pointer: u64, next_tid: u64) -> (
    SchedulerModel,
    Result<u64, &'static str>,
    bool,
) {
    match m.current_thread {
        None => (m, Err("timer interrupt arrived before a current thread existed"), false),
        Some(current) => if current == IDLE_THREAD_INDEX {
            (
                SchedulerModel {
                    threads: m.threads.update(
                        IDLE_THREAD_INDEX as int,
                        Thread {
                            saved_stack_pointer: stack_pointer,
                            ..m.threads[IDLE_THREAD_INDEX as int]
                        },
                    ),
                    ..m
                },
                Ok(stack_pointer),
                false,
            )
        } else {
            let stopped = SchedulerModel {
                threads: m.threads.update(
                    current as int,
                    preempted(m.threads[current as int], stack_pointer),
                ),
                ..m
            };
            let (after, result, took) = given_away(
                stopped,
                current,
                next_tid,
                "scheduler lost all runnable threads during timer interrupt",
            );
            match next_from(stopped.threads, Some(current)) {
                Some(next) => (
                    SchedulerModel {
                        preemption_observed: m.preemption_observed || next != current,
                        ..after
                    },
                    result,
                    took,
                ),
                None => (after, result, took),
            }
        },
    }
}

/// The result of leaving a blocked thread, and whether that took a thread id.
pub open spec fn block_yielded(m: SchedulerModel, next_tid: u64) -> (
    SchedulerModel,
    Result<u64, &'static str>,
    bool,
) {
    match m.current_thread {
        None => (m, Err("block yield required a current thread"), false),
        Some(current) => if m.threads[current as int].state != ThreadState::Blocked {
            (m, Err("block yield required blocked thread state"), false)
        } else {
            given_away(
                m,
                current,
                next_tid,
                "scheduler lost all runnable threads during block yield",
            )
        },
    }
}

/// The result of leaving the idle thread.
pub open spec fn idle_left(m: SchedulerModel) -> (SchedulerModel, Result<u64, &'static str>) {
    match next_from(m.threads, Some(IDLE_THREAD_INDEX)) {
        None => (m, Err("idle woke without a runnable thread")),
        Some(next) => (
            switched(
                SchedulerModel {
                    threads: m.threads.update(
                        IDLE_THREAD_INDEX as int,
                        Thread {
                            state: ThreadState::Ready,
                            ..m.threads[IDLE_THREAD_INDEX as int]
                        },
                    ),
                    ..m
                },
                next,
            ),
            Ok(handoff_pointer(m.threads[next as int])),
        ),
    }
}

/// The result of switching to the thread whose turn comes next, without starting it.
pub open spec fn turn_given(m: SchedulerModel) -> (SchedulerModel, Result<u64, &'static str>) {
    match next_from(m.threads, m.current_thread) {
        None => (
            m,
            Err(
                if any_blocked(m.threads) {
                    "idle woke without a runnable thread"
                } else {
                    "scheduler lost all runnable threads during idle wake"
                },
            ),
        ),
        Some(next) => (switched(m, next), Ok(handoff_pointer(m.threads[next as int]))),
    }
}

/// The result of starting the first runnable thread.
pub open spec fn first_started(m: SchedulerModel) -> (SchedulerModel, Result<u64, &'static str>) {
    match next_from(m.threads, None) {
        None => (m, Err("scheduler had no runnable threads")),
        Some(next) => (
            SchedulerModel {
                current_thread: Some(next),
                threads: m.threads.update(
                    next as int,
                    Thread {
                        started: true,
                        state: ThreadState::Running,
                        ..m.threads[next as int]
                    },
                ),
                ..m
            },
            Ok(m.threads[next as int].saved_stack_pointer),
        ),
    }
}

/// The result of ending the current thread: what the context switch gets, or none where no thread is
/// left.
pub open spec fn thread_finished(m: SchedulerModel) -> (
    SchedulerModel,
    Result<Option<u64>, &'static str>,
) {
    match m.current_thread {
        None => (m, Err("thread exit occurred without a current thread")),
        Some(current) => {
            let ended = SchedulerModel {
                threads: m.threads.update(
                    current as int,
                    Thread { state: ThreadState::Exited, ..m.threads[current as int] },
                ),
                ..m
            };
            match next_from(ended.threads, Some(current)) {
                None => (SchedulerModel { current_thread: None, ..ended }, Ok(None)),
                Some(next) => {
                    let (after, pointer) = handed_off(ended, next);
                    (after, Ok(Some(pointer)))
                },
            }
        },
    }
}

/// The thread ids after an operation that may have taken one.
pub open spec fn ids_after(before: IdAllocator, after: IdAllocator, took: bool) -> bool {
    after.next_pid == before.next_pid && after.next_tid == before.next_tid + if took {
        1int
    } else {
        0
    }
}

/// Marks the threads that satisfy a condition as exited.
pub open spec fn exited_from(
    threads: Seq<Thread>,
    which: spec_fn(Thread) -> bool,
) -> Seq<Thread> {
    Seq::new(
        threads.len(),
        |i: int|
            if which(threads[i]) {
                Thread { state: ThreadState::Exited, ..threads[i] }
            } else {
                threads[i]
            },
    )
}

/// Whether a thread is retired when another thread of its process ends the process.
pub open spec fn retires(process_id: u64, keep_thread_id: u64) -> spec_fn(Thread) -> bool {
    |thread: Thread|
        thread.owner_process_id == process_id && thread.id != keep_thread_id && (runnable(thread)
            || thread.state == ThreadState::Blocked)
}

/// Whether a thread is ended when its process is forced to exit.
pub open spec fn force_exits(process_id: u64) -> spec_fn(Thread) -> bool {
    |thread: Thread| thread.owner_process_id == process_id && unfinished(thread)
}

/// Whether a thread's slot is emptied when its process is reaped.
pub open spec fn reaps(process_id: u64, index: int, thread: Thread) -> bool {
    index != IDLE_THREAD_INDEX && owned_by(thread, process_id)
}

impl Scheduler {
    pub open spec fn model(&self) -> SchedulerModel {
        SchedulerModel {
            threads: self.threads@,
            current_thread: self.current_thread,
            preemption_observed: self.preemption_observed,
            preemption_logged: self.preemption_logged,
            pass_emitted: self.pass_emitted,
            next_task: self.next_task,
            idle: self.idle,
        }
    }

    /// The current thread has a slot.
    pub open spec fn wf(&self) -> bool {
        match self.current_thread {
            Some(index) => index < SCHEDULER_THREAD_SLOTS,
            None => true,
        }
    }

    pub fn new() -> (r: Scheduler)
        ensures
            r.wf(),
            forall|i: int| 0 <= i < SCHEDULER_THREAD_SLOTS ==> #[trigger] r.threads@[i] == empty_thread(),
            r.current_thread is None,
            !r.preemption_observed && !r.preemption_logged && !r.pass_emitted,
            r.next_task == (NextTask { stack_pointer: 0, entry_point: 0 }),
            r.idle == (IdleThread { configured: false, stack_top: 0, entry_point: 0 }),
    {
        Scheduler {
            threads: [Thread::empty(), Thread::empty(), Thread::empty()],
            current_thread: None,
            preemption_observed: false,
            preemption_logged: false,
            pass_emitted: false,
            next_task: NextTask { stack_pointer: 0, entry_point: 0 },
            idle: IdleThread { configured: false, stack_top: 0, entry_point: 0 },
        }
    }

    pub fn configure_kernel_thread(
        &mut self,
        slot: usize,
        id: u64,
        saved_stack_pointer: u64,
        launch_entry: u64,
    ) -> (r: Result<(), &'static str>)
        requires
            old(self).wf(),
        ensures
            final(self).wf(),
            if slot < SCHEDULER_THREAD_SLOTS {
                &&& r == Ok::<(), &'static str>(())
                &&& final(self).model() == (SchedulerModel {
                    threads: old(self).threads@.update(
                        slot as int,
                        fresh_thread(
                            id,
                            KERNEL_PROCESS_ID,
                            ThreadKind::Kernel,
                            saved_stack_pointer,
                            saved_stack_pointer,
                            launch_entry,
                            ThreadState::Ready,
                        ),
                    ),
                    ..old(self).model()
                })
            } else {
                &&& r == Err::<(), &'static str>("thread slot exceeded fixed scheduler capacity")
                &&& final(self).model() == old(self).model()
            },
    {
        self.configure_thread(
            slot,
            id,
            KERNEL_PROCESS_ID,
            ThreadKind::Kernel,
            saved_stack_pointer,
            saved_stack_pointer,
            launch_entry,
        )
    }

    pub fn configure_thread(
        &mut self,
        slot: usize,
        id: u64,
        owner_process_id: u64,
        kind: ThreadKind,
        kernel_stack_top: u64,
        saved_stack_pointer: u64,
        launch_entry: u64,
    ) -> (r: Result<(), &'static str>)
        requires
            old(self).wf(),
        ensures
            final(self).wf(),
            if slot < SCHEDULER_THREAD_SLOTS {
                &&& r == Ok::<(), &'static str>(())
                &&& final(self).model() == (SchedulerModel {
                    threads: old(self).threads@.update(
                        slot as int,
                        fresh_thread(
                            id,
                            owner_process_id,
                            kind,
                            kernel_stack_top,
                            saved_stack_pointer,
                            launch_entry,
                            ThreadState::Ready,
                        ),
                    ),
                    ..old(self).model()
                })
            } else {
                &&& r == Err::<(), &'static str>("thread slot exceeded fixed scheduler capacity")
                &&& final(self).model() == old(self).model()
            },
    {
        if slot >= SCHEDULER_THREAD_SLOTS {
            return Err("thread slot exceeded fixed scheduler capacity");
        }
        self.threads[slot] = Thread {
            id,
            owner_process_id,
            kind,
            kernel_stack_top,
            saved_stack_pointer,
            launch_entry,
            started: false,
            state: ThreadState::Ready,
            progress_logged: false,
            preemptions: 0,
            observed_progress: 0,
            blocked_syscall_frame: 0,
            wait_resume_outcome: WaitOutcome::Woken,
        };
        assert(self.model() =~= (SchedulerModel {
            threads: old(self).threads@.update(slot as int, self.threads@[slot as int]),
            ..old(self).model()
        }));
        Ok(())
    }

    /// Makes the first runnable thread the current one.
    pub fn start(&mut self) -> (r: Result<u64, &'static str>)
        requires
            old(self).wf(),
        ensures
            final(self).wf(),
            (final(self).model(), r) == first_started(old(self).model()),
    {
        let next: usize = match self.next_runnable_from(None) {
            Some(next) => next,
            None => return Err("scheduler had no runnable threads"),
        };
        self.current_thread = Some(next);
        self.threads[next].started = true;
        self.threads[next].state = ThreadState::Running;
        assert(self.model().threads =~= old(self).threads@.update(
            next as int,
            self.threads@[next as int],
        ));
        Ok(self.threads[next].saved_stack_pointer)
    }

    pub fn current_thread_descriptor(&self) -> (r: Result<Thread, &'static str>)
        requires
            self.wf(),
        ensures
            r == match self.current_thread {
                Some(index) => Ok::<Thread, &'static str>(self.threads@[index as int]),
                None => Err("scheduler had no current thread to dispatch"),
            },
    {
        match self.current_thread {
            Some(index) => Ok(self.threads[index]),
            None => Err("scheduler had no current thread to dispatch"),
        }
    }

    fn thread_position(&self, thread_id: u64) -> (r: Option<usize>)
        ensures
            match thread_from(self.threads@, thread_id, 0) {
                Some(i) => r == Some(i as usize) && 0 <= i < SCHEDULER_THREAD_SLOTS,
                None => r is None,
            },
    {
        let mut i: usize = 0;
        while i < SCHEDULER_THREAD_SLOTS
            invariant
                0 <= i <= SCHEDULER_THREAD_SLOTS,
                thread_from(self.threads@, thread_id, 0) == thread_from(
                    self.threads@,
                    thread_id,
                    i as int,
                ),
            decreases SCHEDULER_THREAD_SLOTS - i,
        {
            if self.threads[i].id == thread_id {
                return Some(i);
            }
            i += 1;
        }
        None
    }

    pub fn set_thread_state(&mut self, thread_id: u64, state: ThreadState) -> (r: Result<
        (),
        &'static str,
    >)
        requires
            old(self).wf(),
        ensures
            final(self).wf(),
            match thread_from(old(self).threads@, thread_id, 0) {
                None => r == Err::<(), &'static str>("thread id did not exist in scheduler")
                    && final(self).model() == old(self).model(),
                Some(i) => r == Ok::<(), &'static str>(()) && final(self).model() == (
                SchedulerModel {
                    threads: old(self).threads@.update(
                        i,
                        Thread { state, ..old(self).threads@[i] },
                    ),
                    ..old(self).model()
                }),
            },
    {
        match self.thread_position(thread_id) {
            Some(i) => {
                self.threads[i].state = state;
                assert(self.model().threads =~= old(self).threads@.update(
                    i as int,
                    self.threads@[i as int],
                ));
                Ok(())
            },
            None => Err("thread id did not exist in scheduler"),
        }
    }

    pub fn update_thread_saved_stack(&mut self, thread_id: u64, saved_stack_pointer: u64) -> (r:
        Result<(), &'static str>)
        requires
            old(self).wf(),
        ensures
            final(self).wf(),
            match thread_from(old(self).threads@, thread_id, 0) {
                None => r == Err::<(), &'static str>(
                    "thread id did not exist while updating saved stack",
                ) && final(self).model() == old(self).model(),
                Some(i) => r == Ok::<(), &'static str>(()) && final(self).model() == (
                SchedulerModel {
                    threads: old(self).threads@.update(
                        i,
                        Thread { saved_stack_pointer, ..old(self).threads@[i] },
                    ),
                    ..old(self).model()
                }),
            },
    {
        match self.thread_position(thread_id) {
            Some(i) => {
                self.threads[i].saved_stack_pointer = saved_stack_pointer;
                assert(self.model().threads =~= old(self).threads@.update(
                    i as int,
                    self.threads@[i as int],
                ));
                Ok(())
            },
            None => Err("thread id did not exist while updating saved stack"),
        }
    }

    pub fn mark_current_thread_exiting(&mut self) -> (r: Result<u64, &'static str>)
        requires
            old(self).wf(),
        ensures
            final(self).wf(),
            match old(self).current_thread {
                None => r == Err::<u64, &'static str>(
                    "scheduler had no current thread to mark exiting",
                ) && final(self).model() == old(self).model(),
                Some(index) => r == Ok::<u64, &'static str>(old(self).threads@[index as int].id)
                    && final(self).model() == (SchedulerModel {
                    threads: old(self).threads@.update(
                        index as int,
                        Thread {
                            state: ThreadState::Exiting,
                            ..old(self).threads@[index as int]
                        },
                    ),
                    ..old(self).model()
                }),
            },
    {
        match self.current_thread {
            Some(index) => {
                self.threads[index].state = ThreadState::Exiting;
                assert(self.model().threads =~= old(self).threads@.update(
                    index as int,
                    self.threads@[index as int],
                ));
                Ok(self.threads[index].id)
            },
            None => Err("scheduler had no current thread to mark exiting"),
        }
    }

    /// Ends the other threads of a process. Returns how many there were.
    pub fn retire_sibling_threads_for_process(&mut self, process_id: u64, keep_thread_id: u64) -> (r:
        usize)
        requires
            old(self).wf(),
        ensures
            final(self).wf(),
            r == count(old(self).threads@, retires(process_id, keep_thread_id)),
            r <= SCHEDULER_THREAD_SLOTS,
            final(self).model() == (SchedulerModel {
                threads: exited_from(old(self).threads@, retires(process_id, keep_thread_id)),
                ..old(self).model()
            }),
    {
        let ghost which = retires(process_id, keep_thread_id);
        let ghost before = self.threads@;
        let mut retired: usize = 0;
        let mut i: usize = 0;
        while i < SCHEDULER_THREAD_SLOTS
            invariant
                0 <= i <= SCHEDULER_THREAD_SLOTS,
                retired <= i,
                before == old(self).threads@,
                before.len() == SCHEDULER_THREAD_SLOTS,
                which == retires(process_id, keep_thread_id),
                retired == count(before.take(i as int), which),
                forall|k: int|
                    0 <= k < i ==> #[trigger] self.threads@[k] == exited_from(before, which)[k],
                forall|k: int| i <= k < SCHEDULER_THREAD_SLOTS ==> #[trigger] self.threads@[k] == before[k],
                self.model() == (SchedulerModel { threads: self.threads@, ..old(self).model() }),
            decreases SCHEDULER_THREAD_SLOTS - i,
        {
            proof {
                lemma_count_step(before, which, i as int);
            }
            let thread = self.threads[i];
            if thread.owner_process_id == process_id && thread.id != keep_thread_id && (thread.state
                == ThreadState::Ready || thread.state == ThreadState::Running || thread.state
                == ThreadState::Blocked) {
                self.threads[i].state = ThreadState::Exited;
                retired += 1;
            }
            i += 1;
        }
        proof {
            lemma_count_whole(before, which);
            assert(self.threads@ =~= exited_from(before, which));
        }
        retired
    }

    /// Ends all threads of a process.
    pub fn force_exit_all_threads_for_process(&mut self, process_id: u64) -> (r: Result<
        usize,
        &'static str,
    >)
        requires
            old(self).wf(),
        ensures
            final(self).wf(),
            final(self).model() == (SchedulerModel {
                threads: exited_from(old(self).threads@, force_exits(process_id)),
                ..old(self).model()
            }),
            ({
                let n = count(old(self).threads@, force_exits(process_id));
                r == (if n == 0 {
                    Err::<usize, &'static str>("process had no live threads to force-exit")
                } else {
                    Ok(n as usize)
                })
            }),
            r is Ok ==> r->Ok_0 <= SCHEDULER_THREAD_SLOTS,
    {
        let ghost which = force_exits(process_id);
        let ghost before = self.threads@;
        let mut exited: usize = 0;
        let mut i: usize = 0;
        while i < SCHEDULER_THREAD_SLOTS
            invariant
                0 <= i <= SCHEDULER_THREAD_SLOTS,
                exited <= i,
                before == old(self).threads@,
                before.len() == SCHEDULER_THREAD_SLOTS,
                which == force_exits(process_id),
                exited == count(before.take(i as int), which),
                forall|k: int|
                    0 <= k < i ==> #[trigger] self.threads@[k] == exited_from(before, which)[k],
                forall|k: int| i <= k < SCHEDULER_THREAD_SLOTS ==> #[trigger] self.threads@[k] == before[k],
                self.model() == (SchedulerModel { threads: self.threads@, ..old(self).model() }),
            decreases SCHEDULER_THREAD_SLOTS - i,
        {
            proof {
                lemma_count_step(before, which, i as int);
            }
            let thread = self.threads[i];
            if thread.owner_process_id == process_id && (thread.state == ThreadState::Ready
                || thread.state == ThreadState::Running || thread.state == ThreadState::Blocked
                || thread.state == ThreadState::Exiting) {
                self.threads[i].state = ThreadState::Exited;
                exited += 1;
            }
            i += 1;
        }
        proof {
            lemma_count_whole(before, which);
            assert(self.threads@ =~= exited_from(before, which));
        }
        if exited == 0 {
            return Err("process had no live threads to force-exit");
        }
        Ok(exited)
    }

    /// The process of the current thread, never taken from system-call arguments.
    pub fn current_userspace_process_id(&self) -> (r: Result<u64, &'static str>)
        requires
            self.wf(),
        ensures
            r == match self.current_thread {
                None => Err::<u64, &'static str>("scheduler had no current thread"),
                Some(index) => if self.threads@[index as int].kind != ThreadKind::User {
                    Err("current thread was not userspace")
                } else {
                    Ok(self.threads@[index as int].owner_process_id)
                },
            },
    {
        match self.current_thread {
            None => Err("scheduler had no current thread"),
            Some(index) => if self.threads[index].kind != ThreadKind::User {
                Err("current thread was not userspace")
            } else {
                Ok(self.threads[index].owner_process_id)
            },
        }
    }

    pub fn resources_for_process(&self, process_id: u64) -> (r: ThreadProcessResources)
        ensures
            r.threads == count(self.threads@, |thread: Thread| owned_by(thread, process_id)),
            r.kernel_stacks == r.threads,
            r.runnable_threads == count(
                self.threads@,
                |thread: Thread| owned_by(thread, process_id) && runnable(thread),
            ),
            r.threads <= SCHEDULER_THREAD_SLOTS,
            r.runnable_threads <= SCHEDULER_THREAD_SLOTS,
    {
        let ghost owned = |thread: Thread| owned_by(thread, process_id);
        let ghost ready = |thread: Thread| owned_by(thread, process_id) && runnable(thread);
        let mut threads: usize = 0;
        let mut runnable_threads: usize = 0;
        let mut i: usize = 0;
        while i < SCHEDULER_THREAD_SLOTS
            invariant
                0 <= i <= SCHEDULER_THREAD_SLOTS,
                threads <= i,
                runnable_threads <= i,
                owned == |thread: Thread| owned_by(thread, process_id),
                ready == |thread: Thread| owned_by(thread, process_id) && runnable(thread),
                threads == count(self.threads@.take(i as int), owned),
                runnable_threads == count(self.threads@.take(i as int), ready),
            decreases SCHEDULER_THREAD_SLOTS - i,
        {
            proof {
                lemma_count_step(self.threads@, owned, i as int);
                lemma_count_step(self.threads@, ready, i as int);
            }
            let thread = self.threads[i];
            if thread.owner_process_id == process_id && thread.state != ThreadState::Empty {
                threads += 1;
                if thread.state == ThreadState::Ready || thread.state == ThreadState::Running {
                    runnable_threads += 1;
                }
            }
            i += 1;
        }
        proof {
            lemma_count_whole(self.threads@, owned);
            lemma_count_whole(self.threads@, ready);
        }
        ThreadProcessResources { threads, runnable_threads, kernel_stacks: threads }
    }

    pub fn occupied_thread_slots(&self) -> (r: usize)
        ensures
            r == count(self.threads@, |thread: Thread| thread.state != ThreadState::Empty),
    {
        let ghost used = |thread: Thread| thread.state != ThreadState::Empty;
        let mut n: usize = 0;
        let mut i: usize = 0;
        while i < SCHEDULER_THREAD_SLOTS
            invariant
                0 <= i <= SCHEDULER_THREAD_SLOTS,
                n <= i,
                used == |thread: Thread| thread.state != ThreadState::Empty,
                n == count(self.threads@.take(i as int), used),
            decreases SCHEDULER_THREAD_SLOTS - i,
        {
            proof {
                lemma_count_step(self.threads@, used, i as int);
            }
            if self.threads[i].state != ThreadState::Empty {
                n += 1;
            }
            i += 1;
        }
        proof {
            lemma_count_whole(self.threads@, used);
        }
        n
    }

    pub fn thread_capacity(&self) -> (r: usize)
        ensures
            r == TASK_COUNT,
    {
        TASK_COUNT
    }

    /// The first unused application slot from a slot on, going round.
    pub fn first_empty_slot_from(&self, start: usize) -> (r: Option<usize>)
        ensures
            r == empty_slot_from(self.threads@, start as int % TASK_COUNT as int, 0),
    {
        let first: usize = start % TASK_COUNT;
        let mut offset: usize = 0;
        while offset < TASK_COUNT
            invariant
                0 <= offset <= TASK_COUNT,
                first == start as int % TASK_COUNT as int,
                first < TASK_COUNT,
                empty_slot_from(self.threads@, start as int % TASK_COUNT as int, 0)
                    == empty_slot_from(self.threads@, first as int, offset as int),
            decreases TASK_COUNT - offset,
        {
            let index: usize = (first + offset) % TASK_COUNT;
            if self.threads[index].state == ThreadState::Empty {
                return Some(index);
            }
            offset += 1;
        }
        None
    }

    /// Empties the slots of a process's threads, which must all have ended.
    pub fn reap_exited_threads(&mut self, process_id: u64) -> (r: Result<usize, &'static str>)
        requires
            old(self).wf(),
        ensures
            final(self).wf(),
            (final(self).model(), r) == reap_result(old(self).model(), process_id),
            r is Ok ==> r->Ok_0 <= TASK_COUNT,
    {
        let mut i: usize = 0;
        while i < SCHEDULER_THREAD_SLOTS
            invariant
                0 <= i <= SCHEDULER_THREAD_SLOTS,
                self.wf(),
                self.model() == old(self).model(),
                forall|k: int|
                    0 <= k < i ==> !((#[trigger] self.threads@[k]).owner_process_id == process_id
                        && unfinished(self.threads@[k])),
            decreases SCHEDULER_THREAD_SLOTS - i,
        {
            let thread = self.threads[i];
            if thread.owner_process_id == process_id && (thread.state == ThreadState::Ready
                || thread.state == ThreadState::Running || thread.state == ThreadState::Blocked
                || thread.state == ThreadState::Exiting) {
                assert(any_unfinished(old(self).threads@, process_id)) by {
                    assert(old(self).threads@[i as int].owner_process_id == process_id);
                }
                return Err("thread remained runnable during process teardown");
            }
            i += 1;
        }
        let ghost before = old(self).threads@;
        let ghost apps = before.take(TASK_COUNT as int);
        let ghost owned = |thread: Thread| owned_by(thread, process_id);
        let mut reaped_count: usize = 0;
        let mut index: usize = 0;
        while index < TASK_COUNT
            invariant
                0 <= index <= TASK_COUNT,
                reaped_count <= index,
                before == old(self).threads@,
                before.len() == SCHEDULER_THREAD_SLOTS,
                apps == before.take(TASK_COUNT as int),
                owned == |thread: Thread| owned_by(thread, process_id),
                reaped_count == count(apps.take(index as int), owned),
                forall|k: int|
                    0 <= k < index ==> #[trigger] self.threads@[k] == (if reaps(
                        process_id,
                        k,
                        before[k],
                    ) {
                        empty_thread()
                    } else {
                        before[k]
                    }),
                forall|k: int| index <= k < SCHEDULER_THREAD_SLOTS ==> #[trigger] self.threads@[k]
                    == before[k],
                self.current_thread == (match old(self).current_thread {
                    Some(c) => if c < index && reaps(process_id, c as int, before[c as int]) {
                        None
                    } else {
                        Some(c)
                    },
                    None => None,
                }),
                self.model() == (SchedulerModel {
                    threads: self.threads@,
                    current_thread: self.current_thread,
                    ..old(self).model()
                }),
                old(self).wf(),
            decreases TASK_COUNT - index,
        {
            proof {
                lemma_count_step(apps, owned, index as int);
            }
            let thread = self.threads[index];
            if thread.owner_process_id == process_id && thread.state != ThreadState::Empty {
                self.threads[index] = Thread::empty();
                match self.current_thread {
                    Some(current) => {
                        if current == index {
                            self.current_thread = None;
                        }
                    },
                    None => {},
                }
                reaped_count += 1;
            }
            index += 1;
        }
        proof {
            lemma_count_whole(apps, owned);
            assert(self.threads@ =~= reaped(old(self).model(), process_id).threads);
        }
        Ok(reaped_count)
    }

    pub fn has_blocked_threads(&self) -> (r: bool)
        ensures
            r == any_blocked(self.threads@),
    {
        let mut i: usize = 0;
        while i < SCHEDULER_THREAD_SLOTS
            invariant
                0 <= i <= SCHEDULER_THREAD_SLOTS,
                forall|k: int|
                    0 <= k < i ==> (#[trigger] self.threads@[k]).state != ThreadState::Blocked,
            decreases SCHEDULER_THREAD_SLOTS - i,
        {
            if self.threads[i].state == ThreadState::Blocked {
                assert(self.threads@[i as int].state == ThreadState::Blocked);
                return true;
            }
            i += 1;
        }
        false
    }

    /// Makes a thread the current one and starts it where it was not started.
    fn hand_off(&mut self, next: usize) -> (r: u64)
        requires
            next < SCHEDULER_THREAD_SLOTS,
        ensures
            final(self).wf(),
            (final(self).model(), r) == handed_off(old(self).model(), next),
    {
        let thread = self.threads[next];
        self.current_thread = Some(next);
        self.threads[next].state = ThreadState::Running;
        assert(self.model() =~= switched(old(self).model(), next));
        if !thread.started {
            let ghost on = self.model();
            self.threads[next].started = true;
            assert(self.threads@ =~= on.threads.update(
                next as int,
                Thread { started: true, ..on.threads[next as int] },
            ));
            if thread.kind == ThreadKind::Kernel {
                self.next_task = NextTask {
                    stack_pointer: thread.saved_stack_pointer,
                    entry_point: thread.launch_entry,
                };
                return FRESH_TASK_SENTINEL;
            }
        }
        self.scheduler_handoff_stack_pointer(thread.saved_stack_pointer, next)
    }

    /// What a switch to a thread hands to the context switch.
    pub fn scheduler_handoff_stack_pointer(&self, next_stack_pointer: u64, thread_index: usize) -> (r:
        u64)
        requires
            thread_index < SCHEDULER_THREAD_SLOTS,
        ensures
            r == (if self.threads@[thread_index as int].blocked_syscall_frame != 0 {
                SYSCALL_BLOCKED_RESUME_SENTINEL
            } else {
                next_stack_pointer
            }),
    {
        if self.threads[thread_index].blocked_syscall_frame != 0 {
            SYSCALL_BLOCKED_RESUME_SENTINEL
        } else {
            next_stack_pointer
        }
    }

    /// Preempts the current thread. Where all threads are blocked the idle thread runs; a tick while
    /// it runs stays with it.
    pub fn on_timer_interrupt(&mut self, current_stack_pointer: u64, ids: &mut IdAllocator) -> (r:
        Result<u64, &'static str>)
        requires
            old(self).wf(),
            old(self).current_thread is Some ==> old(self).threads@[old(self).current_thread->0 as int].preemptions < u64::MAX,
        ensures
            final(self).wf(),
            ({
                let (after, result, took) = timer_ticked(
                    old(self).model(),
                    current_stack_pointer,
                    old(ids).next_tid,
                );
                &&& final(self).model() == after
                &&& r == result
                &&& ids_after(*old(ids), *final(ids), took)
            }),
    {
        let current: usize = match self.current_thread {
            Some(current) => current,
            None => return Err("timer interrupt arrived before a current thread existed"),
        };
        if current == IDLE_THREAD_INDEX {
            return Ok(self.on_timer_interrupt_while_idle(current_stack_pointer));
        }
        let thread = self.threads[current];
        if thread.state != ThreadState::Blocked {
            self.threads[current].saved_stack_pointer = current_stack_pointer;
            self.threads[current].preemptions = thread.preemptions + 1;
            if thread.state == ThreadState::Running {
                self.threads[current].state = ThreadState::Ready;
            }
        }
        assert(self.threads@ =~= old(self).threads@.update(
            current as int,
            preempted(old(self).threads@[current as int], current_stack_pointer),
        ));
        let ghost stopped = self.model();
        let next: usize = match self.next_runnable_from(Some(current)) {
            Some(next) => next,
            None => {
                if self.has_blocked_threads() {
                    return self.handoff_to_idle_thread(ids);
                }
                return Err("scheduler lost all runnable threads during timer interrupt");
            },
        };
        let pointer: u64 = self.hand_off(next);
        if next != current && !self.preemption_observed {
            self.preemption_observed = true;
        }
        Ok(pointer)
    }

    /// Leaves the current thread, which is blocked.
    pub fn yield_from_blocked_thread(&mut self, ids: &mut IdAllocator) -> (r: Result<
        u64,
        &'static str,
    >)
        requires
            old(self).wf(),
        ensures
            final(self).wf(),
            ({
                let (after, result, took) = block_yielded(old(self).model(), old(ids).next_tid);
                &&& final(self).model() == after
                &&& r == result
                &&& ids_after(*old(ids), *final(ids), took)
            }),
    {
        let current: usize = match self.current_thread {
            Some(current) => current,
            None => return Err("block yield required a current thread"),
        };
        if self.threads[current].state != ThreadState::Blocked {
            return Err("block yield required blocked thread state");
        }
        let next: usize = match self.next_runnable_from(Some(current)) {
            Some(next) => next,
            None => {
                if self.has_blocked_threads() {
                    return self.handoff_to_idle_thread(ids);
                }
                return Err("scheduler lost all runnable threads during block yield");
            },
        };
        Ok(self.hand_off(next))
    }

    /// A tick while the idle thread runs: it stays, and looks at deadlines and waiters itself.
    pub fn on_timer_interrupt_while_idle(&mut self, current_stack_pointer: u64) -> (r: u64)
        requires
            old(self).wf(),
        ensures
            final(self).wf(),
            r == current_stack_pointer,
            final(self).model() == (SchedulerModel {
                threads: old(self).threads@.update(
                    IDLE_THREAD_INDEX as int,
                    Thread {
                        saved_stack_pointer: current_stack_pointer,
                        ..old(self).threads@[IDLE_THREAD_INDEX as int]
                    },
                ),
                ..old(self).model()
            }),
    {
        self.threads[IDLE_THREAD_INDEX].saved_stack_pointer = current_stack_pointer;
        assert(self.threads@ =~= old(self).threads@.update(
            IDLE_THREAD_INDEX as int,
            self.threads@[IDLE_THREAD_INDEX as int],
        ));
        current_stack_pointer
    }

    /// Leaves the idle thread for a runnable one.
    pub fn wake_from_idle_loop(&mut self) -> (r: Result<u64, &'static str>)
        requires
            old(self).wf(),
        ensures
            final(self).wf(),
            (final(self).model(), r) == idle_left(old(self).model()),
    {
        match self.next_runnable_from(Some(IDLE_THREAD_INDEX)) {
            Some(next) => {
                self.threads[IDLE_THREAD_INDEX].state = ThreadState::Ready;
                self.current_thread = Some(next);
                self.threads[next].state = ThreadState::Running;
                assert(self.threads@ =~= old(self).threads@.update(
                    IDLE_THREAD_INDEX as int,
                    Thread {
                        state: ThreadState::Ready,
                        ..old(self).threads@[IDLE_THREAD_INDEX as int]
                    },
                ).update(
                    next as int,
                    Thread { state: ThreadState::Running, ..old(self).threads@[next as int] },
                ));
                Ok(
                    self.scheduler_handoff_stack_pointer(
                        self.threads[next].saved_stack_pointer,
                        next,
                    ),
                )
            },
            None => Err("idle woke without a runnable thread"),
        }
    }

    /// Switches to the thread whose turn comes next, without starting it.
    pub fn pick_next_runnable_stack_pointer(&mut self) -> (r: Result<u64, &'static str>)
        requires
            old(self).wf(),
        ensures
            final(self).wf(),
            (final(self).model(), r) == turn_given(old(self).model()),
    {
        let next: usize = match self.next_runnable_from(self.current_thread) {
            Some(next) => next,
            None => {
                if self.has_blocked_threads() {
                    return Err("idle woke without a runnable thread");
                }
                return Err("scheduler lost all runnable threads during idle wake");
            },
        };
        self.current_thread = Some(next);
        self.threads[next].state = ThreadState::Running;
        assert(self.threads@ =~= old(self).threads@.update(
            next as int,
            self.threads@[next as int],
        ));
        Ok(self.scheduler_handoff_stack_pointer(self.threads[next].saved_stack_pointer, next))
    }

    pub fn note_progress(&mut self, thread_id: u64, progress: u64)
        requires
            old(self).wf(),
        ensures
            final(self).wf(),
            final(self).model() == match thread_from(old(self).threads@, thread_id, 0) {
                Some(i) => if progress > old(self).threads@[i].observed_progress {
                    SchedulerModel {
                        threads: old(self).threads@.update(
                            i,
                            Thread { observed_progress: progress, ..old(self).threads@[i] },
                        ),
                        ..old(self).model()
                    }
                } else {
                    old(self).model()
                },
                None => old(self).model(),
            },
    {
        match self.thread_position(thread_id) {
            Some(i) => {
                if progress > self.threads[i].observed_progress {
                    self.threads[i].observed_progress = progress;
                    assert(self.threads@ =~= old(self).threads@.update(
                        i as int,
                        self.threads@[i as int],
                    ));
                }
            },
            None => {},
        }
    }

    pub fn thread_should_exit(&self, thread_id: u64) -> (r: bool)
        ensures
            r == match thread_from(self.threads@, thread_id, 0) {
                Some(i) => self.threads@[i].preemptions >= TASK_REQUIRED_PREEMPTIONS,
                None => false,
            },
    {
        match self.thread_position(thread_id) {
            Some(i) => self.threads[i].preemptions >= TASK_REQUIRED_PREEMPTIONS,
            None => false,
        }
    }

    /// Ends the current thread. What the context switch gets, or none where no thread is left.
    pub fn finish_current_thread(&mut self) -> (r: Result<Option<u64>, &'static str>)
        requires
            old(self).wf(),
        ensures
            final(self).wf(),
            (final(self).model(), r) == thread_finished(old(self).model()),
    {
        let current: usize = match self.current_thread {
            Some(current) => current,
            None => return Err("thread exit occurred without a current thread"),
        };
        self.threads[current].state = ThreadState::Exited;
        assert(self.threads@ =~= old(self).threads@.update(
            current as int,
            self.threads@[current as int],
        ));
        match self.next_runnable_from(Some(current)) {
            None => {
                self.current_thread = None;
                Ok(None)
            },
            Some(next) => Ok(Some(self.hand_off(next))),
        }
    }

    /// Whether no thread is left. Unused and reaped slots count as finished.
    pub fn all_finished(&self) -> (r: bool)
        ensures
            r == forall|i: int|
                0 <= i < SCHEDULER_THREAD_SLOTS ==> slot_finished(i, #[trigger] self.threads@[i]),
    {
        let mut i: usize = 0;
        while i < SCHEDULER_THREAD_SLOTS
            invariant
                0 <= i <= SCHEDULER_THREAD_SLOTS,
                forall|k: int| 0 <= k < i ==> slot_finished(k, #[trigger] self.threads@[k]),
            decreases SCHEDULER_THREAD_SLOTS - i,
        {
            let state = self.threads[i].state;
            let finished: bool = if i == IDLE_THREAD_INDEX {
                state == ThreadState::Empty || state == ThreadState::Ready
            } else {
                state == ThreadState::Exited || state == ThreadState::Empty || state
                    == ThreadState::Reaped
            };
            if !finished {
                assert(!slot_finished(i as int, self.threads@[i as int]));
                return false;
            }
            i += 1;
        }
        true
    }

    /// The runnable thread whose turn comes after the current one.
    pub fn next_runnable_from(&self, current: Option<usize>) -> (r: Option<usize>)
        requires
            current is Some ==> current->0 < SCHEDULER_THREAD_SLOTS,
        ensures
            r == next_from(self.threads@, current),
            r is Some ==> r->0 < TASK_COUNT,
    {
        let start: usize = match current {
            Some(index) => (index + 1) % SCHEDULER_THREAD_SLOTS,
            None => 0,
        };
        let mut offset: usize = 0;
        while offset < SCHEDULER_THREAD_SLOTS
            invariant
                0 <= offset <= SCHEDULER_THREAD_SLOTS,
                start < SCHEDULER_THREAD_SLOTS,
                next_from(self.threads@, current) == runnable_from(
                    self.threads@,
                    start as int,
                    offset as int,
                ),
            decreases SCHEDULER_THREAD_SLOTS - offset,
        {
            let index: usize = (start + offset) % SCHEDULER_THREAD_SLOTS;
            if index != IDLE_THREAD_INDEX && (self.threads[index].state == ThreadState::Ready
                || self.threads[index].state == ThreadState::Running) {
                return Some(index);
            }
            offset += 1;
        }
        None
    }

    /// Which progress marks of a demonstration task are due: that a preemption was seen, and the
    /// task's progress. Each is given once.
    pub fn take_progress_marks(&mut self, task_id: u64) -> (r: (bool, Option<u64>))
        requires
            old(self).wf(),
        ensures
            final(self).wf(),
            r.0 == (old(self).preemption_observed && !old(self).preemption_logged),
            r.1 == match thread_from(old(self).threads@, task_id, 0) {
                Some(i) => progress_mark(old(self).threads@[i]),
                None => None,
            },
            final(self).model() == (SchedulerModel {
                preemption_logged: old(self).preemption_logged || old(self).preemption_observed,
                threads: if r.1 is Some {
                    let i = thread_from(old(self).threads@, task_id, 0)->0;
                    old(self).threads@.update(
                        i,
                        Thread { progress_logged: true, ..old(self).threads@[i] },
                    )
                } else {
                    old(self).threads@
                },
                ..old(self).model()
            }),
    {
        let mut preemption: bool = false;
        if self.preemption_observed && !self.preemption_logged {
            self.preemption_logged = true;
            preemption = true;
        }
        match self.thread_position(task_id) {
            Some(i) => {
                let thread = self.threads[i];
                if thread.preemptions >= TASK_REQUIRED_PREEMPTIONS && !thread.progress_logged
                    && thread.observed_progress != 0 {
                    self.threads[i].progress_logged = true;
                    assert(self.threads@ =~= old(self).threads@.update(
                        i as int,
                        self.threads@[i as int],
                    ));
                    return (preemption, Some(thread.observed_progress));
                }
                (preemption, None)
            },
            None => (preemption, None),
        }
    }

    /// Whether the final report is still to be given. It is given once.
    pub fn take_pass(&mut self) -> (r: bool)
        requires
            old(self).wf(),
        ensures
            final(self).wf(),
            r == !old(self).pass_emitted,
            final(self).model() == (SchedulerModel { pass_emitted: true, ..old(self).model() }),
    {
        let first: bool = !self.pass_emitted;
        self.pass_emitted = true;
        first
    }
}

/// The progress that a demonstration task reports, once it was preempted often enough.
pub open spec fn progress_mark(thread: Thread) -> Option<u64> {
    if thread.preemptions >= TASK_REQUIRED_PREEMPTIONS && !thread.progress_logged
        && thread.observed_progress != 0 {
        Some(thread.observed_progress)
    } else {
        None
    }
}

/// Whether a slot holds no work.
pub open spec fn slot_finished(index: int, thread: Thread) -> bool {
    if index == IDLE_THREAD_INDEX {
        thread.state == ThreadState::Empty || thread.state == ThreadState::Ready
    } else {
        thread.state == ThreadState::Exited || thread.state == ThreadState::Empty || thread.state
            == ThreadState::Reaped
    }
}

/// The first unused application slot at `offset` or more slots after `start`, going round.
pub open spec fn empty_slot_from(threads: Seq<Thread>, start: int, offset: int) -> Option<usize>
    decreases TASK_COUNT - offset,
{
    let index = (start + offset) % TASK_COUNT as int;
    if offset < 0 || offset >= TASK_COUNT {
        None
    } else if threads[index].state == ThreadState::Empty {
        Some(index as usize)
    } else {
        empty_slot_from(threads, start, offset + 1)
    }
}

/// The scheduler without the threads of a process.
pub open spec fn reaped(m: SchedulerModel, process_id: u64) -> SchedulerModel {
    SchedulerModel {
        threads: Seq::new(
            m.threads.len(),
            |i: int|
                if reaps(process_id, i, m.threads[i]) {
                    empty_thread()
                } else {
                    m.threads[i]
                },
        ),
        current_thread: match m.current_thread {
            Some(c) => if reaps(process_id, c as int, m.threads[c as int]) {
                None
            } else {
                Some(c)
            },
            None => None,
        },
        ..m
    }
}

/// Whether a thread of a process could still run.
pub open spec fn any_unfinished(threads: Seq<Thread>, process_id: u64) -> bool {
    exists|i: int|
        0 <= i < threads.len() && (#[trigger] threads[i]).owner_process_id == process_id
            && unfinished(threads[i])
}

/// The result of emptying the slots of a process's threads.
pub open spec fn reap_result(m: SchedulerModel, process_id: u64) -> (
    SchedulerModel,
    Result<usize, &'static str>,
) {
    if any_unfinished(m.threads, process_id) {
        (m, Err("thread remained runnable during process teardown"))
    } else {
        (
            reaped(m, process_id),
            Ok(
                count(
                    m.threads.take(TASK_COUNT as int),
                    |thread: Thread| owned_by(thread, process_id),
                ) as usize,
            ),
        )
    }
}

/// The turn goes to a runnable thread wherever there is one, never to the idle thread, and back to
/// the current thread only where no other is runnable.
pub proof fn law_round_robin(threads: Seq<Thread>, current: usize, other: int)
    requires
        threads.len() == SCHEDULER_THREAD_SLOTS,
        current < SCHEDULER_THREAD_SLOTS,
        0 <= other < TASK_COUNT,
        other != current,
        runnable(threads[other]),
    ensures
        ({
            let next = next_from(threads, Some(current));
            &&& next is Some
            &&& next->0 < TASK_COUNT
            &&& next->0 != current
            &&& runnable(threads[next->0 as int])
        }),
{
    reveal_with_fuel(runnable_from, 4);
}

/// The idle thread runs only where no thread is runnable and some thread is blocked.
pub proof fn law_idle_only_when_all_blocked(m: SchedulerModel, stack_pointer: u64, next_tid: u64)
    requires
        m.threads.len() == SCHEDULER_THREAD_SLOTS,
        m.current_thread is Some,
        m.current_thread->0 < TASK_COUNT,
        timer_ticked(m, stack_pointer, next_tid).0.current_thread == Some(IDLE_THREAD_INDEX),
    ensures
        any_blocked(m.threads),
        forall|i: int|
            0 <= i < TASK_COUNT ==> !runnable(#[trigger] m.threads[i]),
{
    reveal_with_fuel(runnable_from, 4);
    let current = m.current_thread->0;
    let stopped = m.threads.update(
        current as int,
        preempted(m.threads[current as int], stack_pointer),
    );
    assert(stopped[current as int] == preempted(m.threads[current as int], stack_pointer));
    assert forall|i: int| 0 <= i < TASK_COUNT implies !runnable(#[trigger] m.threads[i]) by {
        assert(i == 0 || i == 1);
        assert(!runnable(stopped[i]));
    }
    let b = choose|b: int|
        0 <= b < stopped.len() && (#[trigger] stopped[b]).state == ThreadState::Blocked;
    assert(m.threads[b].state == ThreadState::Blocked);
}

} // verus!
