//! What holds across ticks, blocks and wakes.

use super::wait::{
    blocked, call_completed, call_yielded, cancelled_for, free_slot_from, lemma_swept_slots,
    one_woken, restarts, resumed, swept, timed_out, wakes, woken_by, BlockAction, BlockedResume,
    Deadline, SyscallContext, WaitKey, WaitModel, WaitOutcome, WaiterSlot, WakeState,
    MAX_WAITERS, SYSCALL_INSTRUCTION_BYTES,
};
use super::{
    block_yielded, first_started, idle_left, next_from, preempted, runnable, runnable_from,
    thread_finished, timer_ticked, turn_given, NextTask, SchedulerModel, Thread, ThreadKind,
    ThreadState, FRESH_TASK_SENTINEL, IDLE_THREAD_INDEX, SCHEDULER_THREAD_SLOTS,
    SYSCALL_BLOCKED_RESUME_SENTINEL, TASK_COUNT,
};
use crate::process::lifecycle::{generation_of, Process};
use crate::process::InstanceGeneration;
use vstd::prelude::*;

verus! {

/// Every slot is there, and the current thread has one.
pub open spec fn scheduler_wf(m: SchedulerModel) -> bool {
    &&& m.threads.len() == SCHEDULER_THREAD_SLOTS
    &&& match m.current_thread {
        Some(index) => index < SCHEDULER_THREAD_SLOTS,
        None => true,
    }
}

/// Every place for a waiter is there, and each waiter names a thread slot.
pub open spec fn waits_wf(w: WaitModel) -> bool {
    &&& w.slots.len() == MAX_WAITERS
    &&& w.pending.len() == MAX_WAITERS
    &&& w.resume.len() == SCHEDULER_THREAD_SLOTS
    &&& forall|i: int|
        0 <= i < MAX_WAITERS ==> (#[trigger] w.slots[i]).thread_index < SCHEDULER_THREAD_SLOTS
}

/// The slot of the thread that runs.
pub open spec fn running(m: SchedulerModel) -> int {
    m.current_thread->0 as int
}

/// What the context switch is owed for a thread that gets the processor: a kernel thread that never
/// ran is started at its entry on its stack, a thread inside a blocked system call has the call
/// completed, and any other goes on at its stack pointer.
pub open spec fn owed(thread: Thread, value: u64, next_task: NextTask) -> bool {
    if !thread.started && thread.kind == ThreadKind::Kernel {
        &&& value == FRESH_TASK_SENTINEL
        &&& next_task.stack_pointer == thread.saved_stack_pointer
        &&& next_task.entry_point == thread.launch_entry
    } else if thread.blocked_syscall_frame != 0 {
        value == SYSCALL_BLOCKED_RESUME_SENTINEL
    } else {
        value == thread.saved_stack_pointer
    }
}

/// A tick preempts the thread that runs, notes where it stopped, and gives the processor to a runnable
/// thread, which gets what it is owed; no third thread changes. Only where none is runnable does the
/// idle thread get the processor, always on a clean stack.
pub proof fn law_tick_hands_over(m: SchedulerModel, stack_pointer: u64, next_tid: u64)
    requires
        scheduler_wf(m),
        m.current_thread is Some,
        running(m) != IDLE_THREAD_INDEX,
        m.threads[running(m)].preemptions < u64::MAX,
        timer_ticked(m, stack_pointer, next_tid).1 is Ok,
    ensures
        ({
            let (after, result, _) = timer_ticked(m, stack_pointer, next_tid);
            let old_one = running(m);
            let new_one = running(after);
            let value = result->Ok_0;
            let stopped = if m.threads[old_one].state == ThreadState::Blocked {
                m.threads[old_one]
            } else {
                Thread {
                    saved_stack_pointer: stack_pointer,
                    preemptions: (m.threads[old_one].preemptions + 1) as u64,
                    ..m.threads[old_one]
                }
            };
            &&& scheduler_wf(after)
            &&& after.current_thread is Some
            &&& new_one != old_one ==> after.threads[old_one] == (Thread {
                state: if stopped.state == ThreadState::Running {
                    ThreadState::Ready
                } else {
                    stopped.state
                },
                ..stopped
            })
            &&& forall|k: int|
                0 <= k < SCHEDULER_THREAD_SLOTS && k != old_one && k != new_one
                    ==> #[trigger] after.threads[k] == m.threads[k]
            &&& after.threads[new_one].state == ThreadState::Running
            &&& after.threads[new_one].started
            &&& if new_one == IDLE_THREAD_INDEX {
                &&& value == FRESH_TASK_SENTINEL
                &&& after.next_task.stack_pointer == m.idle.stack_top
                &&& after.next_task.entry_point == m.idle.entry_point
                &&& forall|k: int| 0 <= k < TASK_COUNT ==> !runnable(#[trigger] m.threads[k])
            } else {
                &&& runnable(m.threads[new_one])
                &&& owed(
                    if new_one == old_one {
                        stopped
                    } else {
                        m.threads[new_one]
                    },
                    value,
                    after.next_task,
                )
                &&& new_one == old_one ==> forall|k: int|
                    0 <= k < TASK_COUNT && k != old_one ==> !runnable(#[trigger] m.threads[k])
            }
        }),
{
    reveal_with_fuel(runnable_from, 4);
    let current = m.current_thread->0;
    let held = m.threads.update(
        current as int,
        preempted(m.threads[current as int], stack_pointer),
    );
    if next_from(held, Some(current)) is None {
        super::law_idle_only_when_all_blocked(m, stack_pointer, next_tid);
    }
    assert forall|k: int| 0 <= k < TASK_COUNT && k != current implies held[k] == #[trigger] m.threads[k] by {}
}

/// Leaving a blocked thread gives the processor to a runnable thread, which gets what it is owed, and
/// else to the idle thread on a clean stack; no other thread changes, and the blocked one does not
/// run.
pub proof fn law_block_yield_hands_over(m: SchedulerModel, next_tid: u64)
    requires
        scheduler_wf(m),
        m.current_thread is Some,
        running(m) != IDLE_THREAD_INDEX,
        block_yielded(m, next_tid).1 is Ok,
    ensures
        ({
            let (after, result, _) = block_yielded(m, next_tid);
            let new_one = running(after);
            let value = result->Ok_0;
            &&& scheduler_wf(after)
            &&& m.threads[running(m)].state == ThreadState::Blocked
            &&& after.current_thread is Some
            &&& new_one != running(m)
            &&& forall|k: int|
                0 <= k < SCHEDULER_THREAD_SLOTS && k != new_one ==> #[trigger] after.threads[k]
                    == m.threads[k]
            &&& after.threads[new_one].state == ThreadState::Running
            &&& after.threads[new_one].started
            &&& if new_one == IDLE_THREAD_INDEX {
                &&& value == FRESH_TASK_SENTINEL
                &&& after.next_task.stack_pointer == m.idle.stack_top
                &&& after.next_task.entry_point == m.idle.entry_point
                &&& forall|k: int| 0 <= k < TASK_COUNT ==> !runnable(#[trigger] m.threads[k])
            } else {
                &&& runnable(m.threads[new_one])
                &&& owed(m.threads[new_one], value, after.next_task)
            }
        }),
{
    reveal_with_fuel(runnable_from, 4);
}

/// Ending the thread that runs: it runs no more, and a runnable thread, if there is one, gets what it
/// is owed.
pub proof fn law_finish_hands_over(m: SchedulerModel)
    requires
        scheduler_wf(m),
        m.current_thread is Some,
    ensures
        ({
            let (after, result) = thread_finished(m);
            let ended = running(m);
            &&& result is Ok
            &&& after.threads[ended] == (Thread { state: ThreadState::Exited, ..m.threads[ended] })
            &&& match result->Ok_0 {
                None => {
                    &&& after.current_thread is None
                    &&& forall|k: int|
                        0 <= k < TASK_COUNT && k != ended ==> !runnable(#[trigger] m.threads[k])
                },
                Some(value) => {
                    let new_one = running(after);
                    &&& after.current_thread is Some
                    &&& new_one != ended
                    &&& new_one != IDLE_THREAD_INDEX
                    &&& runnable(m.threads[new_one])
                    &&& after.threads[new_one].state == ThreadState::Running
                    &&& owed(m.threads[new_one], value, after.next_task)
                },
            }
            &&& forall|k: int|
                0 <= k < SCHEDULER_THREAD_SLOTS && k != ended && after.current_thread != Some(
                    k as usize,
                ) ==> #[trigger] after.threads[k] == m.threads[k]
        }),
{
    reveal_with_fuel(runnable_from, 4);
}

/// The result of giving the processor to the next thread without starting it, from the idle thread or
/// from another.
pub open spec fn turn_taken(m: SchedulerModel, from_idle: bool) -> (
    SchedulerModel,
    Result<u64, &'static str>,
) {
    if from_idle {
        idle_left(m)
    } else {
        turn_given(m)
    }
}

/// Leaving the idle thread, or giving the turn away, makes a runnable thread run. A thread inside a
/// blocked system call has the call completed, and any other goes on at its stack pointer; neither is
/// started afresh.
pub proof fn law_turn_goes_to_a_runnable_thread(m: SchedulerModel, from_idle: bool)
    requires
        scheduler_wf(m),
        from_idle ==> m.current_thread == Some(IDLE_THREAD_INDEX),
    ensures
        ({
            let (after, result) = turn_taken(m, from_idle);
            let new_one = running(after);
            &&& result is Ok <==> exists|k: int| 0 <= k < TASK_COUNT && runnable(#[trigger] m.threads[k])
            &&& result is Err ==> after == m
            &&& result is Ok ==> {
                &&& after.current_thread is Some
                &&& new_one < TASK_COUNT
                &&& runnable(m.threads[new_one])
                &&& after.threads[new_one] == (Thread {
                    state: ThreadState::Running,
                    ..m.threads[new_one]
                })
                &&& result->Ok_0 == if m.threads[new_one].blocked_syscall_frame != 0 {
                    SYSCALL_BLOCKED_RESUME_SENTINEL
                } else {
                    m.threads[new_one].saved_stack_pointer
                }
                &&& forall|k: int|
                    0 <= k < TASK_COUNT && k != new_one ==> #[trigger] after.threads[k]
                        == m.threads[k]
            }
        }),
{
    reveal_with_fuel(runnable_from, 4);
    if next_from(m.threads, m.current_thread) is None {
        assert forall|k: int| 0 <= k < TASK_COUNT implies !runnable(#[trigger] m.threads[k]) by {
            assert(k == 0 || k == 1);
        }
    } else {
        assert(runnable(m.threads[next_from(m.threads, m.current_thread)->0 as int]));
    }
}

/// The first thread to run is the runnable one in the lowest slot. It goes on at its stack pointer.
pub proof fn law_start_runs_the_first(m: SchedulerModel)
    requires
        scheduler_wf(m),
    ensures
        ({
            let (after, result) = first_started(m);
            &&& result is Ok <==> exists|k: int| 0 <= k < TASK_COUNT && runnable(#[trigger] m.threads[k])
            &&& result is Ok ==> {
                let first = running(after);
                &&& after.current_thread is Some && first < TASK_COUNT
                &&& runnable(m.threads[first])
                &&& forall|k: int| 0 <= k < first ==> !runnable(#[trigger] m.threads[k])
                &&& result->Ok_0 == m.threads[first].saved_stack_pointer
                &&& after.threads[first].state == ThreadState::Running
                &&& after.threads[first].started
            }
        }),
{
    reveal_with_fuel(runnable_from, 4);
    if next_from(m.threads, None) is None {
        assert forall|k: int| 0 <= k < TASK_COUNT implies !runnable(#[trigger] m.threads[k]) by {
            assert(k == 0 || k == 1);
        }
    } else {
        assert(runnable(m.threads[next_from(m.threads, None)->0 as int]));
    }
}

/// Two runnable threads take turns: the first tick switches to the other, and the second switches
/// back to the first, which goes on exactly where the first tick stopped it.
pub proof fn law_two_threads_take_turns(
    m: SchedulerModel,
    first_stop: u64,
    second_stop: u64,
    next_tid: u64,
)
    requires
        scheduler_wf(m),
        m.current_thread is Some,
        running(m) < TASK_COUNT,
        m.threads[running(m)].state == ThreadState::Running,
        m.threads[running(m)].started,
        m.threads[running(m)].blocked_syscall_frame == 0,
        runnable(m.threads[1 - running(m)]),
        m.threads[running(m)].preemptions < u64::MAX,
        m.threads[1 - running(m)].preemptions < u64::MAX,
    ensures
        ({
            let (once, handed, _) = timer_ticked(m, first_stop, next_tid);
            let (twice, returned, _) = timer_ticked(once, second_stop, next_tid);
            &&& handed is Ok
            &&& running(once) == 1 - running(m)
            &&& once.preemption_observed
            &&& returned == Ok::<u64, &'static str>(first_stop)
            &&& running(twice) == running(m)
            &&& twice.threads[1 - running(m)].saved_stack_pointer == second_stop
        }),
{
    let a = running(m);
    let held = m.threads.update(a, preempted(m.threads[a], first_stop));
    lemma_other_is_next(held, m.current_thread->0);
    law_tick_hands_over(m, first_stop, next_tid);
    let once = timer_ticked(m, first_stop, next_tid).0;
    assert(running(once) == 1 - a);
    let later = once.threads.update(1 - a, preempted(once.threads[1 - a], second_stop));
    lemma_other_is_next(later, once.current_thread->0);
    assert(next_from(later, once.current_thread) == Some(a as usize));
    law_tick_hands_over(once, second_stop, next_tid);
}

/// Of two threads, the other is next where it is runnable.
proof fn lemma_other_is_next(threads: Seq<Thread>, current: usize)
    requires
        threads.len() == SCHEDULER_THREAD_SLOTS,
        current < TASK_COUNT,
        runnable(threads[1 - current]),
    ensures
        next_from(threads, Some(current)) == Some((1 - current) as usize),
{
    reveal_with_fuel(runnable_from, 4);
}

/// A thread other than the one that runs keeps what its blocked call needs through a tick or a block
/// yield, and stays blocked where it was.
pub proof fn law_waiting_thread_is_left_alone(
    m: SchedulerModel,
    stack_pointer: u64,
    next_tid: u64,
    k: int,
)
    requires
        scheduler_wf(m),
        0 <= k < TASK_COUNT,
        m.threads[k].state == ThreadState::Blocked,
    ensures
        timer_ticked(m, stack_pointer, next_tid).0.threads[k] == m.threads[k],
        block_yielded(m, next_tid).0.threads[k] == m.threads[k],
        timer_ticked(m, stack_pointer, next_tid).0.current_thread == Some(k as usize)
            ==> timer_ticked(m, stack_pointer, next_tid).1 is Err,
        block_yielded(m, next_tid).0.current_thread == Some(k as usize) ==> block_yielded(
            m,
            next_tid,
        ).1 is Err,
{
    reveal_with_fuel(runnable_from, 4);
}

/// Waking with `all` reaches a thread exactly where a waiter that satisfies the condition names it,
/// and it was blocked.
proof fn lemma_swept_threads(
    st: WakeState,
    which: spec_fn(WaiterSlot) -> bool,
    outcome: WaitOutcome,
    all: bool,
    from: int,
    t: int,
)
    requires
        0 <= from <= st.slots.len(),
        0 <= t < st.threads.len(),
        forall|i: int|
            0 <= i < st.slots.len() ==> (#[trigger] st.slots[i]).thread_index < st.threads.len(),
    ensures
        ({
            let after = swept(st, which, outcome, all, from);
            &&& after.threads.len() == st.threads.len()
            &&& after.slots.len() == st.slots.len()
            &&& after.threads[t] == st.threads[t] || after.threads[t] == (Thread {
                wait_resume_outcome: outcome,
                state: ThreadState::Ready,
                ..st.threads[t]
            })
            &&& after.threads[t] != st.threads[t] ==> st.threads[t].state == ThreadState::Blocked
                && exists|i: int|
                from <= i < st.slots.len() && which(#[trigger] st.slots[i])
                    && st.slots[i].thread_index == t
            &&& all && st.threads[t].state == ThreadState::Blocked && (exists|i: int|
                from <= i < st.slots.len() && which(#[trigger] st.slots[i])
                    && st.slots[i].thread_index == t) ==> after.threads[t].state
                == ThreadState::Ready && after.threads[t].wait_resume_outcome == outcome
        }),
    decreases st.slots.len() - from,
{
    if from < st.slots.len() {
        if which(st.slots[from]) {
            let mid = one_woken(st, from, outcome);
            if all {
                lemma_swept_threads(mid, which, outcome, all, from + 1, t);
                assert forall|i: int| from + 1 <= i < st.slots.len() implies mid.slots[i]
                    == #[trigger] st.slots[i] by {}
                if exists|i: int|
                    from + 1 <= i < mid.slots.len() && which(#[trigger] mid.slots[i])
                        && mid.slots[i].thread_index == t {
                    let i = choose|i: int|
                        from + 1 <= i < mid.slots.len() && which(#[trigger] mid.slots[i])
                            && mid.slots[i].thread_index == t;
                    assert(which(st.slots[i]));
                }
                if exists|i: int|
                    from <= i < st.slots.len() && which(#[trigger] st.slots[i])
                        && st.slots[i].thread_index == t {
                    let i = choose|i: int|
                        from <= i < st.slots.len() && which(#[trigger] st.slots[i])
                            && st.slots[i].thread_index == t;
                    if i > from {
                        assert(which(mid.slots[i]));
                    }
                }
            } else {
                assert(which(st.slots[from]));
            }
        } else {
            lemma_swept_threads(st, which, outcome, all, from + 1, t);
        }
    }
}

/// A thread that blocks on a key does not run, and waits under that key with its deadline; the other
/// threads and waiters stay as they are.
pub proof fn law_block_waits(
    m: SchedulerModel,
    w: WaitModel,
    processes: Seq<Process>,
    frame: u64,
    key: WaitKey,
    deadline: Option<Deadline>,
    resume: BlockedResume,
)
    requires
        scheduler_wf(m),
        waits_wf(w),
        blocked(m, w, processes, frame, key, deadline, resume).2 == Ok::<BlockAction, &'static str>(
            BlockAction::Yield,
        ),
    ensures
        ({
            let (on, waits, _) = blocked(m, w, processes, frame, key, deadline, resume);
            let i = running(m);
            &&& m.current_thread is Some
            &&& on.current_thread == m.current_thread
            &&& on.threads[i].state == ThreadState::Blocked
            &&& on.threads[i].blocked_syscall_frame == frame
            &&& waits.resume[i] == resume
            &&& waits_wf(waits)
            &&& exists|k: int|
                0 <= k < MAX_WAITERS && !w.slots[k].active && waiting(#[trigger] waits.slots[k], i, key)
                    && waits.slots[k].deadline == deadline && generation_of(
                    processes,
                    waits.slots[k].pid,
                ) == Some(waits.slots[k].generation)
            &&& forall|k: int|
                0 <= k < MAX_WAITERS && w.slots[k].active ==> #[trigger] waits.slots[k] == w.slots[k]
            &&& forall|k: int|
                0 <= k < SCHEDULER_THREAD_SLOTS && k != i ==> #[trigger] on.threads[k]
                    == m.threads[k]
        }),
{
    lemma_free_slot(w.slots, 0);
    let slot = free_slot_from(w.slots, 0)->0;
    let waits = blocked(m, w, processes, frame, key, deadline, resume).1;
    assert(waiting(waits.slots[slot], running(m), key));
}

/// A waiter of a thread for a key.
pub open spec fn waiting(slot: WaiterSlot, thread: int, key: WaitKey) -> bool {
    slot.active && slot.thread_index == thread && slot.key == key
}

proof fn lemma_free_slot(slots: Seq<WaiterSlot>, from: int)
    requires
        0 <= from <= slots.len(),
    ensures
        match free_slot_from(slots, from) {
            Some(i) => from <= i < slots.len() && !slots[i].active,
            None => true,
        },
    decreases slots.len() - from,
{
    if from < slots.len() && slots[from].active {
        lemma_free_slot(slots, from + 1);
    }
}

/// A thread that blocked inside a system call, left the processor and was woken by its key has its
/// call completed when it next gets the processor, from a tick or from the idle thread: block, yield,
/// wake and dispatch together. A wake of all waiters always reaches it; until then it does not run.
pub proof fn law_woken_call_is_completed(
    m: SchedulerModel,
    w: WaitModel,
    processes: Seq<Process>,
    frame: u64,
    key: WaitKey,
    deadline: Option<Deadline>,
    resume: BlockedResume,
    yield_tid: u64,
    all: bool,
    stack_pointer: u64,
    tick_tid: u64,
)
    requires
        scheduler_wf(m),
        waits_wf(w),
        running(m) != IDLE_THREAD_INDEX,
        frame != 0,
        m.threads[running(m)].started || m.threads[running(m)].kind == ThreadKind::User,
        blocked(m, w, processes, frame, key, deadline, resume).2 == Ok::<BlockAction, &'static str>(
            BlockAction::Yield,
        ),
        block_yielded(
            blocked(m, w, processes, frame, key, deadline, resume).0,
            yield_tid,
        ).1 is Ok,
    ensures
        ({
            let i = running(m);
            let (on, waits, _) = blocked(m, w, processes, frame, key, deadline, resume);
            let away = block_yielded(on, yield_tid).0;
            let (woken, after, _) = woken_by(away, waits, processes, key, all);
            let (ticked, ran, _) = timer_ticked(woken, stack_pointer, tick_tid);
            let (left, resumed_at) = idle_left(woken);
            &&& running(away) != i
            &&& all ==> woken.threads[i].state == ThreadState::Ready
            &&& woken.threads[i].state == ThreadState::Ready ==> {
                &&& woken.threads[i].wait_resume_outcome == WaitOutcome::Woken
                &&& woken.threads[i].blocked_syscall_frame == frame
                &&& after.resume[i] == resume
                &&& ran is Ok && running(woken) != IDLE_THREAD_INDEX && running(ticked) == i
                    ==> ran == Ok::<u64, &'static str>(SYSCALL_BLOCKED_RESUME_SENTINEL)
                &&& resumed_at is Ok && running(left) == i ==> resumed_at == Ok::<u64, &'static str>(
                    SYSCALL_BLOCKED_RESUME_SENTINEL,
                )
            }
            &&& woken.threads[i].state != ThreadState::Ready ==> woken.threads[i]
                == on.threads[i]
        }),
{
    let i = running(m);
    let (on, waits, _) = blocked(m, w, processes, frame, key, deadline, resume);
    let away = block_yielded(on, yield_tid).0;
    law_block_waits(m, w, processes, frame, key, deadline, resume);
    law_block_yield_hands_over(on, yield_tid);
    let st = WakeState { slots: waits.slots, threads: away.threads, woken: 0 };
    lemma_swept_threads(st, wakes(key, processes), WaitOutcome::Woken, all, 0, i);
    let k = choose|k: int|
        0 <= k < MAX_WAITERS && !w.slots[k].active && waiting(#[trigger] waits.slots[k], i, key)
            && waits.slots[k].deadline == deadline && generation_of(processes, waits.slots[k].pid)
            == Some(waits.slots[k].generation);
    assert(wakes(key, processes)(waits.slots[k]));
    assert(away.threads[i] == on.threads[i]);
    reveal_with_fuel(runnable_from, 4);
}

/// Whether there is a deadline and it is not later than `now`.
pub open spec fn reached(deadline: Option<Deadline>, now: u64) -> bool {
    deadline matches Some(at) && at.0 <= now
}

/// A wake for another key, or the coming of another deadline, leaves a waiting thread blocked and its
/// waiter in place.
pub proof fn law_other_wakes_pass_by(
    m: SchedulerModel,
    w: WaitModel,
    processes: Seq<Process>,
    key: WaitKey,
    all: bool,
    now_ticks: u64,
    t: int,
)
    requires
        scheduler_wf(m),
        waits_wf(w),
        0 <= t < SCHEDULER_THREAD_SLOTS,
    ensures
        (forall|i: int|
            0 <= i < MAX_WAITERS && (#[trigger] w.slots[i]).active && w.slots[i].thread_index == t
                ==> w.slots[i].key != key) ==> woken_by(m, w, processes, key, all).0.threads[t]
            == m.threads[t],
        (forall|i: int|
            0 <= i < MAX_WAITERS && (#[trigger] w.slots[i]).active && w.slots[i].thread_index == t
                ==> !reached(w.slots[i].deadline, now_ticks))
            ==> timed_out(m, w, now_ticks).0.threads[t] == m.threads[t],
{
    let st = WakeState { slots: w.slots, threads: m.threads, woken: 0 };
    lemma_swept_threads(st, wakes(key, processes), WaitOutcome::Woken, all, 0, t);
    lemma_swept_threads(st, super::wait::expires(now_ticks), WaitOutcome::TimedOut, true, 0, t);
}

/// A blocked thread whose deadline has come becomes ready and learns that it timed out; one whose
/// waits are cancelled becomes ready and learns that.
pub proof fn law_waits_end_with_their_reason(
    m: SchedulerModel,
    w: WaitModel,
    now_ticks: u64,
    pid: u64,
    generation: InstanceGeneration,
    i: int,
)
    requires
        scheduler_wf(m),
        waits_wf(w),
        0 <= i < MAX_WAITERS,
        w.slots[i].active,
        m.threads[w.slots[i].thread_index as int].state == ThreadState::Blocked,
    ensures
        ({
            let t = w.slots[i].thread_index as int;
            &&& reached(w.slots[i].deadline, now_ticks) ==> {
                let (after, waits, _) = timed_out(m, w, now_ticks);
                &&& after.threads[t] == (Thread {
                    state: ThreadState::Ready,
                    wait_resume_outcome: WaitOutcome::TimedOut,
                    ..m.threads[t]
                })
                &&& !waits.slots[i].active
            }
            &&& w.slots[i].pid == pid && w.slots[i].generation == generation ==> {
                let (after, waits, _) = cancelled_for(m, w, pid, generation);
                &&& after.threads[t] == (Thread {
                    state: ThreadState::Ready,
                    wait_resume_outcome: WaitOutcome::Cancelled,
                    ..m.threads[t]
                })
                &&& !waits.slots[i].active
            }
        }),
{
    let st = WakeState { slots: w.slots, threads: m.threads, woken: 0 };
    let t = w.slots[i].thread_index as int;
    let due = super::wait::expires(now_ticks);
    let ours = super::wait::cancels(pid, generation);
    lemma_swept_threads(st, due, WaitOutcome::TimedOut, true, 0, t);
    lemma_swept_threads(st, ours, WaitOutcome::Cancelled, true, 0, t);
    lemma_swept_slots(st, due, WaitOutcome::TimedOut, 0, i);
    lemma_swept_slots(st, ours, WaitOutcome::Cancelled, 0, i);
    if reached(w.slots[i].deadline, now_ticks) {
        assert(due(st.slots[i]));
    }
    if w.slots[i].pid == pid && w.slots[i].generation == generation {
        assert(ours(st.slots[i]));
    }
}

/// The number that a wake returns is the number of waiters that it ended: of all that wait for the key
/// in a live process, or of the first.
pub proof fn law_wakes_are_counted(
    m: SchedulerModel,
    w: WaitModel,
    processes: Seq<Process>,
    key: WaitKey,
    all: bool,
)
    requires
        waits_wf(w),
    ensures
        ({
            let due = |i: int|
                w.slots[i].active && w.slots[i].key == key && generation_of(
                    processes,
                    w.slots[i].pid,
                ) == Some(w.slots[i].generation);
            let (_, after, n) = woken_by(m, w, processes, key, all);
            &&& n == 0 <==> !due(0) && !due(1)
            &&& all ==> n == (if due(0) {
                1int
            } else {
                0
            }) + (if due(1) {
                1int
            } else {
                0
            })
            &&& !all ==> n <= 1
            &&& due(0) ==> !after.slots[0].active
            &&& !all && due(0) ==> after.slots[1] == w.slots[1]
            &&& !due(0) && due(1) ==> !after.slots[1].active
        }),
{
    reveal_with_fuel(swept, 4);
}

/// A wake that came before its waiter lets the next block on that key go on at once: the thread keeps
/// running, has no call to complete, and the wake is used up.
pub proof fn law_early_wake_lets_the_thread_go_on(
    m: SchedulerModel,
    w: WaitModel,
    processes: Seq<Process>,
    key: WaitKey,
    all: bool,
    frame: u64,
    deadline: Option<Deadline>,
    resume: BlockedResume,
)
    requires
        scheduler_wf(m),
        waits_wf(w),
        m.current_thread is Some,
        m.threads[running(m)].state == ThreadState::Running,
        generation_of(processes, m.threads[running(m)].owner_process_id) is Some,
        key.0 != 0,
        forall|i: int| 0 <= i < MAX_WAITERS && (#[trigger] w.slots[i]).active ==> w.slots[i].key != key,
        !w.pending.contains(key.0),
        w.pending.contains(0),
    ensures
        ({
            let (woken, noted, n) = woken_by(m, w, processes, key, all);
            let (on, waits, action) = blocked(
                woken,
                noted,
                processes,
                frame,
                key,
                deadline,
                resume,
            );
            &&& n == 0
            &&& woken.threads == m.threads
            &&& action == Ok::<BlockAction, &'static str>(BlockAction::AlreadyWoken)
            &&& on.threads[running(m)].state == ThreadState::Running
            &&& on.threads[running(m)].blocked_syscall_frame == 0
            &&& waits.slots == w.slots
            &&& !waits.pending.contains(key.0)
        }),
{
    reveal_with_fuel(swept, 4);
    reveal_with_fuel(super::wait::key_from, 4);
    let noted = woken_by(m, w, processes, key, all).1;
    let z = w.pending.index_of(0);
    assert(w.pending[0] != key.0 && w.pending[1] != key.0);
    assert(w.pending[z] == 0);
    assert(z == 0 || z == 1);
    let used = blocked(
        woken_by(m, w, processes, key, all).0,
        noted,
        processes,
        frame,
        key,
        deadline,
        resume,
    ).1.pending;
    assert(used.len() == 2);
    assert(used[0] != key.0 && used[1] != key.0);
}

/// Completing a blocked call tells a native caller the outcome and nothing else: different outcomes
/// give different numbers, and no other register changes. A call to be executed again that timed out
/// returns the value agreed for that, and goes on behind the call. Afterwards the thread has no call
/// to complete.
pub proof fn law_completion_tells_the_outcome(
    m: SchedulerModel,
    w: WaitModel,
    frame: SyscallContext,
    other: SyscallContext,
    outcome: WaitOutcome,
)
    requires
        scheduler_wf(m),
        waits_wf(w),
        m.current_thread is Some,
    ensures
        ({
            let i = running(m);
            let (after, waits, done, at) = call_completed(m, w, frame);
            let learned = m.threads[i].wait_resume_outcome;
            let elsewhere = SchedulerModel {
                threads: m.threads.update(
                    i,
                    Thread { wait_resume_outcome: outcome, ..m.threads[i] },
                ),
                ..m
            };
            &&& at == m.threads[i].blocked_syscall_frame
            &&& after.threads[i] == (Thread { blocked_syscall_frame: 0, ..m.threads[i] })
            &&& forall|k: int|
                0 <= k < SCHEDULER_THREAD_SLOTS && k != i ==> #[trigger] after.threads[k]
                    == m.threads[k]
            &&& waits.slots == w.slots && waits.pending == w.pending
            &&& waits.resume[i] == BlockedResume::NativeOutcome
            &&& w.resume[i] == BlockedResume::NativeOutcome ==> {
                &&& done == (SyscallContext { rax: done.rax, ..frame })
                &&& done.rax == call_completed(elsewhere, w, other).2.rax <==> learned == outcome
            }
            &&& (w.resume[i] matches BlockedResume::RestartSyscall { nr, timeout_rax }) ==> {
                let agreed = w.resume[i]->timeout_rax;
                let number = w.resume[i]->nr;
                if learned == WaitOutcome::TimedOut {
                    done == (SyscallContext { rax: agreed, ..frame })
                } else {
                    frame.user_rip >= SYSCALL_INSTRUCTION_BYTES ==> {
                        &&& done.rax == number
                        &&& done.user_rip + SYSCALL_INSTRUCTION_BYTES == frame.user_rip
                        &&& done == (SyscallContext {
                            rax: done.rax,
                            user_rip: done.user_rip,
                            ..frame
                        })
                    }
                }
            }
        }),
{
}

/// A thread that yields inside a system call without waiting stays ready, and has the call completed
/// when its turn comes again; where no other thread is runnable that is at once.
pub proof fn law_voluntary_yield_comes_back(m: SchedulerModel, w: WaitModel, frame: u64)
    requires
        scheduler_wf(m),
        waits_wf(w),
        m.current_thread is Some,
        running(m) < TASK_COUNT,
        frame != 0,
    ensures
        ({
            let i = running(m);
            let other = 1 - i;
            let (after, waits, result) = call_yielded(m, w, frame);
            &&& result is Ok
            &&& after.threads[i].blocked_syscall_frame == frame
            &&& waits.resume[i] == BlockedResume::NativeOutcome
            &&& runnable(m.threads[other]) ==> running(after) == other && after.threads[i].state
                == ThreadState::Ready
            &&& !runnable(m.threads[other]) ==> running(after) == i && result == Ok::<
                u64,
                &'static str,
            >(SYSCALL_BLOCKED_RESUME_SENTINEL)
            &&& runnable(m.threads[other]) ==> result == Ok::<u64, &'static str>(
                if m.threads[other].blocked_syscall_frame != 0 {
                    SYSCALL_BLOCKED_RESUME_SENTINEL
                } else {
                    m.threads[other].saved_stack_pointer
                },
            )
        }),
{
    reveal_with_fuel(runnable_from, 4);
}

/// The two values that stand in place of a stack pointer are told apart.
pub proof fn law_sentinels_differ()
    ensures
        FRESH_TASK_SENTINEL != SYSCALL_BLOCKED_RESUME_SENTINEL,
{
}

/// Cancelling the waits of a process ends those and no others: a waiter of another process or of another
/// instance stays as it is, and so does a place without a waiter.
pub proof fn law_cancelling_spares_the_others(
    m: SchedulerModel,
    w: WaitModel,
    pid: u64,
    generation: InstanceGeneration,
    i: int,
)
    requires
        0 <= i < w.slots.len(),
    ensures
        ({
            let after = cancelled_for(m, w, pid, generation).1;
            &&& after.slots[i] == w.slots[i] <==> !w.slots[i].active || w.slots[i].pid != pid
                || w.slots[i].generation != generation
            &&& after.slots[i].active ==> w.slots[i].active
            &&& after.pending == w.pending
        }),
{
    let st = WakeState { slots: w.slots, threads: m.threads, woken: 0 };
    lemma_swept_slots(
        st,
        super::wait::cancels(pid, generation),
        WaitOutcome::Cancelled,
        0,
        i,
    );
}

/// A completed call goes back to the instruction that made it exactly where it is to be made again; one
/// that ran out of time is not.
pub proof fn law_restarted_call_is_made_again(
    frame: SyscallContext,
    resume: BlockedResume,
    outcome: WaitOutcome,
)
    requires
        frame.user_rip >= 2,
    ensures
        restarts(resume, outcome) <==> resumed(frame, resume, outcome).user_rip != frame.user_rip,
        restarts(resume, outcome) ==> resumed(frame, resume, outcome).user_rip == frame.user_rip - 2,
        outcome == WaitOutcome::TimedOut ==> !restarts(resume, outcome),
        resume is NativeOutcome ==> !restarts(resume, outcome),
{
}

} // verus!
