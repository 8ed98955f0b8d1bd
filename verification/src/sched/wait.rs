//! Blocking and waking of scheduler threads.
//!
//! A deadline is an absolute count of timer ticks.

use super::{
    reap_result, turn_given, Scheduler, SchedulerModel, Thread, ThreadState, SCHEDULER_THREAD_SLOTS,
    TASK_COUNT,
};
use crate::process::lifecycle::{generation_of, Process, ProcessRegistry};
use crate::process::InstanceGeneration;
use crate::scan::{count, lemma_count_step, lemma_count_whole};
use vstd::prelude::*;

verus! {

/// Names what a blocked thread waits for.
#[derive(Clone, Copy, Debug, PartialEq, Eq, Structural)]
pub struct WaitKey(pub u64);

#[derive(Clone, Copy, Debug, PartialEq, Eq, Structural)]
pub enum WaitOutcome {
    Woken,
    TimedOut,
    Cancelled,
}

#[derive(Clone, Copy, Debug, PartialEq, Eq, Structural)]
pub struct Deadline(pub u64);

pub const MAX_WAITERS: usize = TASK_COUNT;

pub const WOKEN_MAGIC: u64 = 0x0000_4D39_E145_0001;

pub const TIMEOUT_MAGIC: u64 = 0x0000_4D39_E145_0002;

pub const CANCEL_MAGIC: u64 = 0x0000_4D39_E145_0003;

/// The number by which a native caller learns an outcome.
pub open spec fn outcome_code(outcome: WaitOutcome) -> u64 {
    match outcome {
        WaitOutcome::Woken => WOKEN_MAGIC,
        WaitOutcome::TimedOut => TIMEOUT_MAGIC,
        WaitOutcome::Cancelled => CANCEL_MAGIC,
    }
}

pub fn encode_wait_outcome(outcome: WaitOutcome) -> (r: u64)
    ensures
        r == outcome_code(outcome),
{
    match outcome {
        WaitOutcome::Woken => WOKEN_MAGIC,
        WaitOutcome::TimedOut => TIMEOUT_MAGIC,
        WaitOutcome::Cancelled => CANCEL_MAGIC,
    }
}

/// How a blocked system call is completed after its wake.
///
/// The blocked handler's stack is abandoned when it blocks; the scheduler completes the call by
/// editing the saved registers. A native caller sees the outcome. A Linux handler has work to do
/// after the wake, so the call is executed again with its arguments untouched.
#[derive(Clone, Copy, Debug, PartialEq, Eq, Structural)]
pub enum BlockedResume {
    /// The outcome's number goes to `rax`.
    NativeOutcome,
    /// A call that was woken or cancelled is executed again; one that timed out returns
    /// `timeout_rax`.
    RestartSyscall { nr: u64, timeout_rax: u64 },
}

/// Length of the `syscall` instruction: to execute it again is to go back by this.
pub const SYSCALL_INSTRUCTION_BYTES: u64 = 2;

/// The registers saved by a system call.
#[derive(Clone, Copy, Debug, PartialEq, Eq, Structural)]
pub struct SyscallContext {
    pub rax: u64,
    pub rdx: u64,
    pub rbx: u64,
    pub rbp: u64,
    pub rsi: u64,
    pub rdi: u64,
    pub r8: u64,
    pub r9: u64,
    pub r10: u64,
    pub r12: u64,
    pub r13: u64,
    pub r14: u64,
    pub r15: u64,
    pub user_rip: u64,
    pub user_rflags: u64,
    pub user_rsp: u64,
}

/// Whether completing a call means executing it again.
pub open spec fn restarts(resume: BlockedResume, outcome: WaitOutcome) -> bool {
    resume is RestartSyscall && outcome != WaitOutcome::TimedOut
}

/// The saved registers after a call was completed.
pub open spec fn resumed(frame: SyscallContext, resume: BlockedResume, outcome: WaitOutcome) -> SyscallContext {
    match resume {
        BlockedResume::NativeOutcome => SyscallContext { rax: outcome_code(outcome), ..frame },
        BlockedResume::RestartSyscall { nr, timeout_rax } => if outcome == WaitOutcome::TimedOut {
            SyscallContext { rax: timeout_rax, ..frame }
        } else {
            SyscallContext {
                rax: nr,
                user_rip: (frame.user_rip - SYSCALL_INSTRUCTION_BYTES) as u64,
                ..frame
            }
        },
    }
}

/// Completes a call in its saved registers.
pub fn apply_blocked_resume(frame: &mut SyscallContext, resume: BlockedResume, outcome: WaitOutcome)
    requires
        restarts(resume, outcome) ==> old(frame).user_rip >= SYSCALL_INSTRUCTION_BYTES,
    ensures
        *final(frame) == resumed(*old(frame), resume, outcome),
{
    match resume {
        BlockedResume::NativeOutcome => {
            frame.rax = encode_wait_outcome(outcome);
        },
        BlockedResume::RestartSyscall { nr, timeout_rax } => match outcome {
            WaitOutcome::TimedOut => {
                frame.rax = timeout_rax;
            },
            _ => {
                frame.user_rip = frame.user_rip - SYSCALL_INSTRUCTION_BYTES;
                frame.rax = nr;
            },
        },
    }
}

#[derive(Clone, Copy, Debug, PartialEq, Eq, Structural)]
pub struct WaiterSlot {
    pub active: bool,
    pub pid: u64,
    pub generation: InstanceGeneration,
    pub tid: u64,
    pub thread_index: usize,
    pub key: WaitKey,
    pub deadline: Option<Deadline>,
}

pub open spec fn empty_waiter() -> WaiterSlot {
    WaiterSlot {
        active: false,
        pid: 0,
        generation: InstanceGeneration(0),
        tid: 0,
        thread_index: 0,
        key: WaitKey(0),
        deadline: None,
    }
}

/// Who waits for what, wakes that came before their waiter, and how each thread's blocked call is
/// completed.
#[derive(Clone, Copy, Debug)]
pub struct WaitTable {
    pub slots: [WaiterSlot; MAX_WAITERS],
    pub pending_wake_keys: [u64; MAX_WAITERS],
    pub blocked_resume: [BlockedResume; SCHEDULER_THREAD_SLOTS],
}

#[verifier::ext_equal]
pub struct WaitModel {
    pub slots: Seq<WaiterSlot>,
    pub pending: Seq<u64>,
    pub resume: Seq<BlockedResume>,
}

/// The first slot at or above `from` without a waiter.
pub open spec fn free_slot_from(slots: Seq<WaiterSlot>, from: int) -> Option<int>
    decreases slots.len() - from,
{
    if from < 0 || from >= slots.len() {
        None
    } else if !slots[from].active {
        Some(from)
    } else {
        free_slot_from(slots, from + 1)
    }
}

/// The first place at or above `from` with the key.
pub open spec fn key_from(pending: Seq<u64>, key: u64, from: int) -> Option<int>
    decreases pending.len() - from,
{
    if from < 0 || from >= pending.len() {
        None
    } else if pending[from] == key {
        Some(from)
    } else {
        key_from(pending, key, from + 1)
    }
}

/// The pending wakes after one more; zero marks a free place, and a wake that finds none is lost.
pub open spec fn wake_recorded(pending: Seq<u64>, key: u64) -> Seq<u64> {
    if key_from(pending, key, 0) is Some {
        pending
    } else {
        match key_from(pending, 0, 0) {
            Some(i) => pending.update(i, key),
            None => pending,
        }
    }
}

/// The pending wakes after one was used, and whether there was one.
pub open spec fn wake_consumed(pending: Seq<u64>, key: u64) -> (Seq<u64>, bool) {
    match key_from(pending, key, 0) {
        Some(i) => (pending.update(i, 0), true),
        None => (pending, false),
    }
}

/// The threads after one was woken; a thread that is not blocked is left alone.
pub open spec fn thread_woken(threads: Seq<Thread>, index: int, outcome: WaitOutcome) -> Seq<Thread> {
    if threads[index].state != ThreadState::Blocked {
        threads
    } else {
        threads.update(
            index,
            Thread {
                wait_resume_outcome: outcome,
                state: ThreadState::Ready,
                ..threads[index]
            },
        )
    }
}

/// The waiters and threads in the course of a wake, and how many were woken.
#[verifier::ext_equal]
pub struct WakeState {
    pub slots: Seq<WaiterSlot>,
    pub threads: Seq<Thread>,
    pub woken: int,
}

/// Wakes the waiters from slot `from` on that satisfy the condition: all, or the first.
pub open spec fn swept(
    st: WakeState,
    which: spec_fn(WaiterSlot) -> bool,
    outcome: WaitOutcome,
    all: bool,
    from: int,
) -> WakeState
    decreases st.slots.len() - from,
{
    if from < 0 || from >= st.slots.len() {
        st
    } else if !which(st.slots[from]) {
        swept(st, which, outcome, all, from + 1)
    } else {
        let after = one_woken(st, from, outcome);
        if all {
            swept(after, which, outcome, all, from + 1)
        } else {
            after
        }
    }
}

/// Wakes the waiter of a slot.
pub open spec fn one_woken(st: WakeState, slot: int, outcome: WaitOutcome) -> WakeState {
    WakeState {
        slots: st.slots.update(slot, WaiterSlot { active: false, ..st.slots[slot] }),
        threads: thread_woken(st.threads, st.slots[slot].thread_index as int, outcome),
        woken: st.woken + 1,
    }
}

/// A waiter for a key whose process still lives.
pub open spec fn wakes(key: WaitKey, processes: Seq<Process>) -> spec_fn(WaiterSlot) -> bool {
    |slot: WaiterSlot|
        slot.active && slot.key == key && generation_of(processes, slot.pid) == Some(
            slot.generation,
        )
}

/// A waiter of a process.
pub open spec fn cancels(pid: u64, generation: InstanceGeneration) -> spec_fn(WaiterSlot) -> bool {
    |slot: WaiterSlot| slot.active && slot.pid == pid && slot.generation == generation
}

/// A waiter whose deadline has come.
pub open spec fn expires(now_ticks: u64) -> spec_fn(WaiterSlot) -> bool {
    |slot: WaiterSlot| slot.active && deadline_due(slot.deadline, now_ticks)
}

/// Whether any waiter waits for a key.
pub open spec fn awaited(slots: Seq<WaiterSlot>, key: WaitKey) -> bool {
    exists|i: int| 0 <= i < slots.len() && (#[trigger] slots[i]).active && slots[i].key == key
}

pub open spec fn deadline_due(deadline: Option<Deadline>, now_ticks: u64) -> bool {
    match deadline {
        Some(at) => now_ticks >= at.0,
        None => false,
    }
}

pub fn waiter_deadline_due(deadline: Option<Deadline>, now_ticks: u64) -> (r: bool)
    ensures
        r == deadline_due(deadline, now_ticks),
{
    match deadline {
        Some(at) => now_ticks >= at.0,
        None => false,
    }
}

/// The scheduler and the waiters after a wake for a key, of all its waiters or the first, and how many
/// were woken. A wake that finds no waiter is remembered.
pub open spec fn woken_by(
    m: SchedulerModel,
    w: WaitModel,
    processes: Seq<Process>,
    key: WaitKey,
    all: bool,
) -> (SchedulerModel, WaitModel, int) {
    let after = swept(
        WakeState { slots: w.slots, threads: m.threads, woken: 0 },
        wakes(key, processes),
        WaitOutcome::Woken,
        all,
        0,
    );
    (
        SchedulerModel { threads: after.threads, ..m },
        WaitModel {
            slots: after.slots,
            pending: if awaited(w.slots, key) {
                w.pending
            } else {
                wake_recorded(w.pending, key.0)
            },
            ..w
        },
        after.woken,
    )
}

/// The scheduler and the waiters after the waits of a process were cancelled, and how many there were.
pub open spec fn cancelled_for(
    m: SchedulerModel,
    w: WaitModel,
    pid: u64,
    generation: InstanceGeneration,
) -> (SchedulerModel, WaitModel, int) {
    let after = swept(
        WakeState { slots: w.slots, threads: m.threads, woken: 0 },
        cancels(pid, generation),
        WaitOutcome::Cancelled,
        true,
        0,
    );
    (
        SchedulerModel { threads: after.threads, ..m },
        WaitModel { slots: after.slots, ..w },
        after.woken,
    )
}

/// The scheduler and the waiters after the waits whose deadline has come were ended, and how many
/// there were.
pub open spec fn timed_out(m: SchedulerModel, w: WaitModel, now_ticks: u64) -> (
    SchedulerModel,
    WaitModel,
    int,
) {
    let after = swept(
        WakeState { slots: w.slots, threads: m.threads, woken: 0 },
        expires(now_ticks),
        WaitOutcome::TimedOut,
        true,
        0,
    );
    (
        SchedulerModel { threads: after.threads, ..m },
        WaitModel { slots: after.slots, ..w },
        after.woken,
    )
}

/// The scheduler, the waiters and the saved registers after the current thread's blocked call was
/// completed, and where the registers are saved.
pub open spec fn call_completed(m: SchedulerModel, w: WaitModel, frame: SyscallContext) -> (
    SchedulerModel,
    WaitModel,
    SyscallContext,
    u64,
) {
    let i = m.current_thread->0 as int;
    let thread = m.threads[i];
    (
        SchedulerModel {
            threads: m.threads.update(i, Thread { blocked_syscall_frame: 0, ..thread }),
            ..m
        },
        WaitModel { resume: w.resume.update(i, BlockedResume::NativeOutcome), ..w },
        resumed(frame, w.resume[i], thread.wait_resume_outcome),
        thread.blocked_syscall_frame,
    )
}

/// The scheduler and the waiters after the current thread gave the processor away from a system call
/// without waiting, and what the context switch gets.
pub open spec fn call_yielded(m: SchedulerModel, w: WaitModel, frame: u64) -> (
    SchedulerModel,
    WaitModel,
    Result<u64, &'static str>,
) {
    let i = m.current_thread->0 as int;
    let ready = SchedulerModel {
        threads: m.threads.update(
            i,
            Thread {
                blocked_syscall_frame: frame,
                state: ThreadState::Ready,
                ..m.threads[i]
            },
        ),
        ..m
    };
    let (after, result) = turn_given(ready);
    (after, WaitModel { resume: w.resume.update(i, BlockedResume::NativeOutcome), ..w }, result)
}

/// What a thread that asked to block does.
#[derive(Clone, Copy, Debug, PartialEq, Eq, Structural)]
pub enum BlockAction {
    /// It was woken before it blocked and goes on.
    AlreadyWoken,
    /// It is blocked and gives the processor away.
    Yield,
}

/// The result of blocking the current thread, with the scheduler and the waiters afterwards.
pub open spec fn blocked(
    m: SchedulerModel,
    w: WaitModel,
    processes: Seq<Process>,
    frame: u64,
    key: WaitKey,
    deadline: Option<Deadline>,
    resume: BlockedResume,
) -> (SchedulerModel, WaitModel, Result<BlockAction, &'static str>) {
    match m.current_thread {
        None => (m, w, Err("block required a current scheduler thread")),
        Some(index) => {
            let i = index as int;
            let thread = m.threads[i];
            if thread.state != ThreadState::Running {
                (m, w, Err("block required the running thread state"))
            } else {
                let armed = SchedulerModel {
                    threads: m.threads.update(
                        i,
                        Thread { blocked_syscall_frame: frame, ..thread },
                    ),
                    ..m
                };
                let set = WaitModel { resume: w.resume.update(i, resume), ..w };
                match generation_of(processes, thread.owner_process_id) {
                    None => (armed, set, Err("block process had no live generation")),
                    Some(generation) => {
                        let (pending, came) = wake_consumed(w.pending, key.0);
                        if came {
                            (
                                SchedulerModel {
                                    threads: m.threads.update(
                                        i,
                                        Thread { blocked_syscall_frame: 0, ..thread },
                                    ),
                                    ..m
                                },
                                WaitModel {
                                    pending,
                                    resume: w.resume.update(i, BlockedResume::NativeOutcome),
                                    ..w
                                },
                                Ok(BlockAction::AlreadyWoken),
                            )
                        } else {
                            match free_slot_from(w.slots, 0) {
                                None => (armed, set, Err("waiter table exhausted")),
                                Some(slot) => (
                                    SchedulerModel {
                                        threads: m.threads.update(
                                            i,
                                            Thread {
                                                blocked_syscall_frame: frame,
                                                state: ThreadState::Blocked,
                                                ..thread
                                            },
                                        ),
                                        ..m
                                    },
                                    WaitModel {
                                        slots: w.slots.update(
                                            slot,
                                            WaiterSlot {
                                                active: true,
                                                pid: thread.owner_process_id,
                                                generation,
                                                tid: thread.id,
                                                thread_index: index,
                                                key,
                                                deadline,
                                            },
                                        ),
                                        ..set
                                    },
                                    Ok(BlockAction::Yield),
                                ),
                            }
                        }
                    },
                }
            }
        },
    }
}

impl WaitTable {
    pub open spec fn model(&self) -> WaitModel {
        WaitModel {
            slots: self.slots@,
            pending: self.pending_wake_keys@,
            resume: self.blocked_resume@,
        }
    }

    /// Every waiter names a thread slot.
    pub open spec fn wf(&self) -> bool {
        forall|i: int|
            0 <= i < MAX_WAITERS ==> (#[trigger] self.slots@[i]).thread_index
                < SCHEDULER_THREAD_SLOTS
    }

    pub fn new() -> (r: WaitTable)
        ensures
            r.wf(),
            forall|i: int| 0 <= i < MAX_WAITERS ==> #[trigger] r.slots@[i] == empty_waiter(),
            forall|i: int| 0 <= i < MAX_WAITERS ==> #[trigger] r.pending_wake_keys@[i] == 0,
            forall|i: int|
                0 <= i < SCHEDULER_THREAD_SLOTS ==> #[trigger] r.blocked_resume@[i]
                    == BlockedResume::NativeOutcome,
    {
        let slot = WaiterSlot {
            active: false,
            pid: 0,
            generation: InstanceGeneration(0),
            tid: 0,
            thread_index: 0,
            key: WaitKey(0),
            deadline: None,
        };
        WaitTable {
            slots: [slot, slot],
            pending_wake_keys: [0, 0],
            blocked_resume: [
                BlockedResume::NativeOutcome,
                BlockedResume::NativeOutcome,
                BlockedResume::NativeOutcome,
            ],
        }
    }

    pub fn allocate_slot(&self) -> (r: Result<usize, &'static str>)
        ensures
            match free_slot_from(self.slots@, 0) {
                Some(i) => r is Ok && r->Ok_0 == i && i < MAX_WAITERS,
                None => r == Err::<usize, &'static str>("waiter table exhausted"),
            },
    {
        let mut i: usize = 0;
        while i < MAX_WAITERS
            invariant
                0 <= i <= MAX_WAITERS,
                free_slot_from(self.slots@, 0) == free_slot_from(self.slots@, i as int),
            decreases MAX_WAITERS - i,
        {
            if !self.slots[i].active {
                return Ok(i);
            }
            i += 1;
        }
        Err("waiter table exhausted")
    }

    pub fn occupied(&self) -> (r: usize)
        ensures
            r == count(self.slots@, |slot: WaiterSlot| slot.active),
    {
        let ghost active = |slot: WaiterSlot| slot.active;
        let mut n: usize = 0;
        let mut i: usize = 0;
        while i < MAX_WAITERS
            invariant
                0 <= i <= MAX_WAITERS,
                n <= i,
                active == |slot: WaiterSlot| slot.active,
                n == count(self.slots@.take(i as int), active),
            decreases MAX_WAITERS - i,
        {
            proof {
                lemma_count_step(self.slots@, active, i as int);
            }
            if self.slots[i].active {
                n += 1;
            }
            i += 1;
        }
        proof {
            lemma_count_whole(self.slots@, active);
        }
        n
    }

    fn key_position(&self, key: u64) -> (r: Option<usize>)
        ensures
            match key_from(self.pending_wake_keys@, key, 0) {
                Some(i) => r is Some && r->0 == i && i < MAX_WAITERS,
                None => r is None,
            },
    {
        let mut i: usize = 0;
        while i < MAX_WAITERS
            invariant
                0 <= i <= MAX_WAITERS,
                key_from(self.pending_wake_keys@, key, 0) == key_from(
                    self.pending_wake_keys@,
                    key,
                    i as int,
                ),
            decreases MAX_WAITERS - i,
        {
            if self.pending_wake_keys[i] == key {
                return Some(i);
            }
            i += 1;
        }
        None
    }

    /// Remembers a wake that found no waiter.
    pub fn record_pending_wake(&mut self, key: WaitKey)
        requires
            old(self).wf(),
        ensures
            final(self).wf(),
            final(self).model() == (WaitModel {
                pending: wake_recorded(old(self).pending_wake_keys@, key.0),
                ..old(self).model()
            }),
    {
        if self.key_position(key.0).is_some() {
            return;
        }
        match self.key_position(0) {
            Some(i) => {
                self.pending_wake_keys[i] = key.0;
                assert(self.pending_wake_keys@ =~= old(self).pending_wake_keys@.update(
                    i as int,
                    key.0,
                ));
            },
            None => {},
        }
    }

    /// Uses a wake that came before its waiter.
    pub fn consume_pending_wake(&mut self, key: WaitKey) -> (r: bool)
        requires
            old(self).wf(),
        ensures
            final(self).wf(),
            r == wake_consumed(old(self).pending_wake_keys@, key.0).1,
            final(self).model() == (WaitModel {
                pending: wake_consumed(old(self).pending_wake_keys@, key.0).0,
                ..old(self).model()
            }),
    {
        match self.key_position(key.0) {
            Some(i) => {
                self.pending_wake_keys[i] = 0;
                assert(self.pending_wake_keys@ =~= old(self).pending_wake_keys@.update(
                    i as int,
                    0,
                ));
                true
            },
            None => false,
        }
    }

    /// How a thread's blocked call is completed.
    pub fn set_blocked_resume(&mut self, thread_index: usize, resume: BlockedResume)
        requires
            old(self).wf(),
            thread_index < SCHEDULER_THREAD_SLOTS,
        ensures
            final(self).wf(),
            final(self).model() == (WaitModel {
                resume: old(self).blocked_resume@.update(thread_index as int, resume),
                ..old(self).model()
            }),
    {
        self.blocked_resume[thread_index] = resume;
        assert(self.blocked_resume@ =~= old(self).blocked_resume@.update(
            thread_index as int,
            resume,
        ));
    }

    pub fn take_blocked_resume(&mut self, thread_index: usize) -> (r: BlockedResume)
        requires
            old(self).wf(),
            thread_index < SCHEDULER_THREAD_SLOTS,
        ensures
            final(self).wf(),
            r == old(self).blocked_resume@[thread_index as int],
            final(self).model() == (WaitModel {
                resume: old(self).blocked_resume@.update(
                    thread_index as int,
                    BlockedResume::NativeOutcome,
                ),
                ..old(self).model()
            }),
    {
        let resume = self.blocked_resume[thread_index];
        self.set_blocked_resume(thread_index, BlockedResume::NativeOutcome);
        resume
    }

    /// Wakes the waiter of a slot.
    fn wake_slot(&mut self, scheduler: &mut Scheduler, slot: usize, outcome: WaitOutcome)
        requires
            old(self).wf(),
            old(scheduler).wf(),
            slot < MAX_WAITERS,
        ensures
            final(self).wf(),
            final(scheduler).wf(),
            final(self).model() == (WaitModel {
                slots: old(self).slots@.update(
                    slot as int,
                    WaiterSlot { active: false, ..old(self).slots@[slot as int] },
                ),
                ..old(self).model()
            }),
            final(scheduler).model() == (SchedulerModel {
                threads: thread_woken(
                    old(scheduler).threads@,
                    old(self).slots@[slot as int].thread_index as int,
                    outcome,
                ),
                ..old(scheduler).model()
            }),
    {
        let index: usize = self.slots[slot].thread_index;
        self.slots[slot].active = false;
        assert(self.slots@ =~= old(self).slots@.update(
            slot as int,
            WaiterSlot { active: false, ..old(self).slots@[slot as int] },
        ));
        wake_thread_at_index(scheduler, index, outcome);
    }

    /// Wakes the waiters for a key whose processes still live, all or the first. A wake that finds no
    /// waiter at all is remembered. Returns how many were woken.
    fn wake_matching(
        &mut self,
        scheduler: &mut Scheduler,
        registry: &ProcessRegistry,
        key: WaitKey,
        all: bool,
    ) -> (r: usize)
        requires
            old(self).wf(),
            old(scheduler).wf(),
        ensures
            final(self).wf(),
            final(scheduler).wf(),
            (final(scheduler).model(), final(self).model(), r as int) == woken_by(
                old(scheduler).model(),
                old(self).model(),
                registry.processes@,
                key,
                all,
            ),
    {
        let ghost start = WakeState {
            slots: self.slots@,
            threads: scheduler.threads@,
            woken: 0,
        };
        let ghost which = wakes(key, registry.processes@);
        let mut woken: usize = 0;
        let mut found: bool = false;
        let mut stop: bool = false;
        let mut i: usize = 0;
        while i < MAX_WAITERS && !stop
            invariant
                0 <= i <= MAX_WAITERS,
                self.wf(),
                scheduler.wf(),
                woken <= i,
                which == wakes(key, registry.processes@),
                start == (WakeState {
                    slots: old(self).slots@,
                    threads: old(scheduler).threads@,
                    woken: 0,
                }),
                self.model() == (WaitModel { slots: self.slots@, ..old(self).model() }),
                scheduler.model() == (SchedulerModel {
                    threads: scheduler.threads@,
                    ..old(scheduler).model()
                }),
                forall|k: int|
                    i <= k < MAX_WAITERS ==> #[trigger] self.slots@[k] == old(self).slots@[k],
                found == exists|k: int|
                    0 <= k < i && (#[trigger] old(self).slots@[k]).active && old(self).slots@[k].key == key,
                stop ==> found,
                swept(start, which, WaitOutcome::Woken, all, 0) == (if stop {
                    WakeState {
                        slots: self.slots@,
                        threads: scheduler.threads@,
                        woken: woken as int,
                    }
                } else {
                    swept(
                        WakeState {
                            slots: self.slots@,
                            threads: scheduler.threads@,
                            woken: woken as int,
                        },
                        which,
                        WaitOutcome::Woken,
                        all,
                        i as int,
                    )
                }),
            decreases MAX_WAITERS - i,
        {
            let slot = self.slots[i];
            assert(slot == old(self).slots@[i as int]);
            if slot.active && slot.key.0 == key.0 {
                found = true;
                let live: Option<InstanceGeneration> = registry.live_instance_generation(slot.pid);
                let lives: bool = match live {
                    Some(generation) => generation.0 == slot.generation.0,
                    None => false,
                };
                if lives {
                    self.wake_slot(scheduler, i, WaitOutcome::Woken);
                    woken += 1;
                    if !all {
                        stop = true;
                    }
                }
            }
            i += 1;
        }
        if !found {
            self.record_pending_wake(key);
        }
        woken
    }

    pub fn wake_one(
        &mut self,
        scheduler: &mut Scheduler,
        registry: &ProcessRegistry,
        key: WaitKey,
    ) -> (r: usize)
        requires
            old(self).wf(),
            old(scheduler).wf(),
        ensures
            final(self).wf(),
            final(scheduler).wf(),
            (final(scheduler).model(), final(self).model(), r as int) == woken_by(
                old(scheduler).model(),
                old(self).model(),
                registry.processes@,
                key,
                false,
            ),
    {
        self.wake_matching(scheduler, registry, key, false)
    }

    pub fn wake_all(
        &mut self,
        scheduler: &mut Scheduler,
        registry: &ProcessRegistry,
        key: WaitKey,
    ) -> (r: usize)
        requires
            old(self).wf(),
            old(scheduler).wf(),
        ensures
            final(self).wf(),
            final(scheduler).wf(),
            (final(scheduler).model(), final(self).model(), r as int) == woken_by(
                old(scheduler).model(),
                old(self).model(),
                registry.processes@,
                key,
                true,
            ),
    {
        self.wake_matching(scheduler, registry, key, true)
    }

    /// Wakes the waiters of a process as cancelled. Returns how many there were.
    pub fn cancel_waiters_for_process(
        &mut self,
        scheduler: &mut Scheduler,
        pid: u64,
        generation: InstanceGeneration,
    ) -> (r: usize)
        requires
            old(self).wf(),
            old(scheduler).wf(),
        ensures
            final(self).wf(),
            final(scheduler).wf(),
            (final(scheduler).model(), final(self).model(), r as int) == cancelled_for(
                old(scheduler).model(),
                old(self).model(),
                pid,
                generation,
            ),
    {
        let ghost start = WakeState {
            slots: self.slots@,
            threads: scheduler.threads@,
            woken: 0,
        };
        let ghost which = cancels(pid, generation);
        let mut cancelled: usize = 0;
        let mut i: usize = 0;
        while i < MAX_WAITERS
            invariant
                0 <= i <= MAX_WAITERS,
                self.wf(),
                scheduler.wf(),
                cancelled <= i,
                which == cancels(pid, generation),
                start == (WakeState {
                    slots: old(self).slots@,
                    threads: old(scheduler).threads@,
                    woken: 0,
                }),
                self.model() == (WaitModel { slots: self.slots@, ..old(self).model() }),
                scheduler.model() == (SchedulerModel {
                    threads: scheduler.threads@,
                    ..old(scheduler).model()
                }),
                swept(start, which, WaitOutcome::Cancelled, true, 0) == swept(
                    WakeState {
                        slots: self.slots@,
                        threads: scheduler.threads@,
                        woken: cancelled as int,
                    },
                    which,
                    WaitOutcome::Cancelled,
                    true,
                    i as int,
                ),
            decreases MAX_WAITERS - i,
        {
            let slot = self.slots[i];
            if slot.active && slot.pid == pid && slot.generation.0 == generation.0 {
                self.wake_slot(scheduler, i, WaitOutcome::Cancelled);
                cancelled += 1;
            }
            i += 1;
        }
        cancelled
    }

    /// Wakes the waiters whose deadline has come. Returns how many there were.
    pub fn expire_deadlines(&mut self, scheduler: &mut Scheduler, now_ticks: u64) -> (r: usize)
        requires
            old(self).wf(),
            old(scheduler).wf(),
        ensures
            final(self).wf(),
            final(scheduler).wf(),
            (final(scheduler).model(), final(self).model(), r as int) == timed_out(
                old(scheduler).model(),
                old(self).model(),
                now_ticks,
            ),
    {
        let ghost start = WakeState {
            slots: self.slots@,
            threads: scheduler.threads@,
            woken: 0,
        };
        let ghost which = expires(now_ticks);
        let mut expired: usize = 0;
        let mut i: usize = 0;
        while i < MAX_WAITERS
            invariant
                0 <= i <= MAX_WAITERS,
                self.wf(),
                scheduler.wf(),
                expired <= i,
                which == expires(now_ticks),
                start == (WakeState {
                    slots: old(self).slots@,
                    threads: old(scheduler).threads@,
                    woken: 0,
                }),
                self.model() == (WaitModel { slots: self.slots@, ..old(self).model() }),
                scheduler.model() == (SchedulerModel {
                    threads: scheduler.threads@,
                    ..old(scheduler).model()
                }),
                swept(start, which, WaitOutcome::TimedOut, true, 0) == swept(
                    WakeState {
                        slots: self.slots@,
                        threads: scheduler.threads@,
                        woken: expired as int,
                    },
                    which,
                    WaitOutcome::TimedOut,
                    true,
                    i as int,
                ),
            decreases MAX_WAITERS - i,
        {
            let slot = self.slots[i];
            if slot.active && waiter_deadline_due(slot.deadline, now_ticks) {
                self.wake_slot(scheduler, i, WaitOutcome::TimedOut);
                expired += 1;
            }
            i += 1;
        }
        expired
    }

    /// Blocks the current thread inside a native system call.
    pub fn block_current_thread(
        &mut self,
        scheduler: &mut Scheduler,
        registry: &ProcessRegistry,
        frame: u64,
        key: WaitKey,
        deadline: Option<Deadline>,
    ) -> (r: Result<BlockAction, &'static str>)
        requires
            old(self).wf(),
            old(scheduler).wf(),
        ensures
            final(self).wf(),
            final(scheduler).wf(),
            (final(scheduler).model(), final(self).model(), r) == blocked(
                old(scheduler).model(),
                old(self).model(),
                registry.processes@,
                frame,
                key,
                deadline,
                BlockedResume::NativeOutcome,
            ),
    {
        self.block_current_thread_with_resume(
            scheduler,
            registry,
            frame,
            key,
            deadline,
            BlockedResume::NativeOutcome,
        )
    }

    /// Blocks the current thread inside a system call, to be completed as told. Where a wake for the
    /// key came before, it is used and the thread goes on.
    pub fn block_current_thread_with_resume(
        &mut self,
        scheduler: &mut Scheduler,
        registry: &ProcessRegistry,
        frame: u64,
        key: WaitKey,
        deadline: Option<Deadline>,
        resume: BlockedResume,
    ) -> (r: Result<BlockAction, &'static str>)
        requires
            old(self).wf(),
            old(scheduler).wf(),
        ensures
            final(self).wf(),
            final(scheduler).wf(),
            (final(scheduler).model(), final(self).model(), r) == blocked(
                old(scheduler).model(),
                old(self).model(),
                registry.processes@,
                frame,
                key,
                deadline,
                resume,
            ),
    {
        let index: usize = match scheduler.current_thread {
            Some(index) => index,
            None => return Err("block required a current scheduler thread"),
        };
        let thread = scheduler.threads[index];
        if thread.state != ThreadState::Running {
            return Err("block required the running thread state");
        }
        scheduler.threads[index].blocked_syscall_frame = frame;
        assert(scheduler.threads@ =~= old(scheduler).threads@.update(
            index as int,
            Thread { blocked_syscall_frame: frame, ..thread },
        ));
        self.set_blocked_resume(index, resume);
        let generation = match registry.live_instance_generation(thread.owner_process_id) {
            Some(generation) => generation,
            None => return Err("block process had no live generation"),
        };
        if self.consume_pending_wake(key) {
            scheduler.threads[index].blocked_syscall_frame = 0;
            assert(scheduler.threads@ =~= old(scheduler).threads@.update(
                index as int,
                Thread { blocked_syscall_frame: 0, ..thread },
            ));
            self.set_blocked_resume(index, BlockedResume::NativeOutcome);
            assert(self.blocked_resume@ =~= old(self).blocked_resume@.update(
                index as int,
                BlockedResume::NativeOutcome,
            ));
            return Ok(BlockAction::AlreadyWoken);
        }
        let slot: usize = match self.allocate_slot() {
            Ok(slot) => slot,
            Err(e) => return Err(e),
        };
        self.slots[slot] = WaiterSlot {
            active: true,
            pid: thread.owner_process_id,
            generation,
            tid: thread.id,
            thread_index: index,
            key,
            deadline,
        };
        assert(self.slots@ =~= old(self).slots@.update(slot as int, self.slots@[slot as int]));
        scheduler.threads[index].state = ThreadState::Blocked;
        assert(scheduler.threads@ =~= old(scheduler).threads@.update(
            index as int,
            Thread { blocked_syscall_frame: frame, state: ThreadState::Blocked, ..thread },
        ));
        Ok(BlockAction::Yield)
    }

    /// Notes where the current system call's registers are saved.
    pub fn arm_syscall_block_frame(&mut self, scheduler: &mut Scheduler, frame: u64)
        requires
            old(self).wf(),
            old(scheduler).wf(),
            old(scheduler).current_thread is Some,
        ensures
            final(self).wf(),
            final(scheduler).wf(),
            ({
                let i = old(scheduler).current_thread->0 as int;
                &&& final(scheduler).model() == (SchedulerModel {
                    threads: old(scheduler).threads@.update(
                        i,
                        Thread { blocked_syscall_frame: frame, ..old(scheduler).threads@[i] },
                    ),
                    ..old(scheduler).model()
                })
                &&& final(self).model() == (WaitModel {
                    resume: old(self).blocked_resume@.update(i, BlockedResume::NativeOutcome),
                    ..old(self).model()
                })
            }),
    {
        match scheduler.current_thread {
            Some(index) => {
                scheduler.threads[index].blocked_syscall_frame = frame;
                assert(scheduler.threads@ =~= old(scheduler).threads@.update(
                    index as int,
                    scheduler.threads@[index as int],
                ));
                self.set_blocked_resume(index, BlockedResume::NativeOutcome);
            },
            None => {},
        }
    }

    /// Gives the processor away from a system call without waiting for anything. What the context
    /// switch gets.
    pub fn voluntary_yield_from_syscall(&mut self, scheduler: &mut Scheduler, frame: u64) -> (r:
        Result<u64, &'static str>)
        requires
            old(self).wf(),
            old(scheduler).wf(),
            old(scheduler).current_thread is Some,
        ensures
            final(self).wf(),
            final(scheduler).wf(),
            (final(scheduler).model(), final(self).model(), r) == call_yielded(
                old(scheduler).model(),
                old(self).model(),
                frame,
            ),
    {
        self.arm_syscall_block_frame(scheduler, frame);
        match scheduler.current_thread {
            Some(current) => {
                scheduler.threads[current].state = ThreadState::Ready;
                assert(scheduler.threads@ =~= old(scheduler).threads@.update(
                    current as int,
                    scheduler.threads@[current as int],
                ));
                scheduler.pick_next_runnable_stack_pointer()
            },
            None => Err("voluntary yield required current thread"),
        }
    }

    /// Completes the current thread's blocked call in its saved registers, which are `frame`. Returns
    /// where they are saved.
    pub fn complete_blocked_syscall_resume(
        &mut self,
        scheduler: &mut Scheduler,
        frame: &mut SyscallContext,
    ) -> (r: u64)
        requires
            old(self).wf(),
            old(scheduler).wf(),
            old(scheduler).current_thread is Some,
            restarts(
                old(self).blocked_resume@[old(scheduler).current_thread->0 as int],
                old(scheduler).threads@[old(scheduler).current_thread->0 as int].wait_resume_outcome,
            ) ==> old(frame).user_rip >= SYSCALL_INSTRUCTION_BYTES,
        ensures
            final(self).wf(),
            final(scheduler).wf(),
            (final(scheduler).model(), final(self).model(), *final(frame), r) == call_completed(
                old(scheduler).model(),
                old(self).model(),
                *old(frame),
            ),
    {
        match scheduler.current_thread {
            Some(index) => {
                let thread = scheduler.threads[index];
                scheduler.threads[index].blocked_syscall_frame = 0;
                assert(scheduler.threads@ =~= old(scheduler).threads@.update(
                    index as int,
                    scheduler.threads@[index as int],
                ));
                let resume = self.take_blocked_resume(index);
                apply_blocked_resume(frame, resume, thread.wait_resume_outcome);
                thread.blocked_syscall_frame
            },
            None => 0,
        }
    }
}

/// The scheduler and the waiters after the waits of the process that has a pid were cancelled.
pub open spec fn waits_cancelled(
    m: SchedulerModel,
    w: WaitModel,
    processes: Seq<Process>,
    process_id: u64,
) -> (SchedulerModel, WaitModel) {
    match generation_of(processes, process_id) {
        None => (m, w),
        Some(generation) => {
            let after = swept(
                WakeState { slots: w.slots, threads: m.threads, woken: 0 },
                cancels(process_id, generation),
                WaitOutcome::Cancelled,
                true,
                0,
            );
            (
                SchedulerModel { threads: after.threads, ..m },
                WaitModel { slots: after.slots, ..w },
            )
        },
    }
}

impl Scheduler {
    /// Cancels the waits of a process and empties the slots of its threads, which must all have
    /// ended.
    pub fn reap_threads_for_process(
        &mut self,
        waits: &mut WaitTable,
        registry: &ProcessRegistry,
        process_id: u64,
    ) -> (r: Result<usize, &'static str>)
        requires
            old(self).wf(),
            old(waits).wf(),
        ensures
            final(self).wf(),
            final(waits).wf(),
            ({
                let (m, w) = waits_cancelled(
                    old(self).model(),
                    old(waits).model(),
                    registry.processes@,
                    process_id,
                );
                &&& final(waits).model() == w
                &&& (final(self).model(), r) == reap_result(m, process_id)
            }),
            r is Ok ==> r->Ok_0 <= TASK_COUNT,
    {
        match registry.live_instance_generation(process_id) {
            Some(generation) => {
                let _ = waits.cancel_waiters_for_process(self, process_id, generation);
            },
            None => {},
        }
        self.reap_exited_threads(process_id)
    }
}

/// Wakes a thread; one that is not blocked is left alone.
pub fn wake_thread_at_index(scheduler: &mut Scheduler, thread_index: usize, outcome: WaitOutcome)
    requires
        old(scheduler).wf(),
        thread_index < SCHEDULER_THREAD_SLOTS,
    ensures
        final(scheduler).wf(),
        final(scheduler).model() == (SchedulerModel {
            threads: thread_woken(old(scheduler).threads@, thread_index as int, outcome),
            ..old(scheduler).model()
        }),
{
    if scheduler.threads[thread_index].state != ThreadState::Blocked {
        return;
    }
    scheduler.threads[thread_index].wait_resume_outcome = outcome;
    scheduler.threads[thread_index].state = ThreadState::Ready;
    assert(scheduler.threads@ =~= old(scheduler).threads@.update(
        thread_index as int,
        scheduler.threads@[thread_index as int],
    ));
}

/// Waking all waiters that satisfy a condition deactivates exactly those.
pub proof fn lemma_swept_slots(
    st: WakeState,
    which: spec_fn(WaiterSlot) -> bool,
    outcome: WaitOutcome,
    from: int,
    k: int,
)
    requires
        0 <= from <= st.slots.len(),
        0 <= k < st.slots.len(),
    ensures
        swept(st, which, outcome, true, from).slots.len() == st.slots.len(),
        swept(st, which, outcome, true, from).slots[k] == (if from <= k && which(st.slots[k]) {
            WaiterSlot { active: false, ..st.slots[k] }
        } else {
            st.slots[k]
        }),
    decreases st.slots.len() - from,
{
    if from < st.slots.len() {
        if which(st.slots[from]) {
            lemma_swept_slots(one_woken(st, from, outcome), which, outcome, from + 1, k);
        } else {
            lemma_swept_slots(st, which, outcome, from + 1, k);
        }
    }
}

/// A wake for all waiters of a key reaches exactly those whose process still lives; a waiter of an
/// earlier process with the same pid stays as it is.
pub proof fn law_wake_all_reaches_live_waiters(
    slots: Seq<WaiterSlot>,
    threads: Seq<Thread>,
    processes: Seq<Process>,
    key: WaitKey,
    k: int,
)
    requires
        0 <= k < slots.len(),
    ensures
        ({
            let after = swept(
                WakeState { slots, threads, woken: 0 },
                wakes(key, processes),
                WaitOutcome::Woken,
                true,
                0,
            );
            let live = slots[k].active && slots[k].key == key && generation_of(
                processes,
                slots[k].pid,
            ) == Some(slots[k].generation);
            after.slots[k] == (if live {
                WaiterSlot { active: false, ..slots[k] }
            } else {
                slots[k]
            })
        }),
{
    lemma_swept_slots(
        WakeState { slots, threads, woken: 0 },
        wakes(key, processes),
        WaitOutcome::Woken,
        0,
        k,
    );
}

/// After a process's waits were cancelled none of its waiters is left, and no other was touched.
pub proof fn law_cancel_leaves_no_waiter(
    slots: Seq<WaiterSlot>,
    threads: Seq<Thread>,
    pid: u64,
    generation: InstanceGeneration,
    k: int,
)
    requires
        0 <= k < slots.len(),
    ensures
        ({
            let after = swept(
                WakeState { slots, threads, woken: 0 },
                cancels(pid, generation),
                WaitOutcome::Cancelled,
                true,
                0,
            );
            &&& !cancels(pid, generation)(after.slots[k])
            &&& !cancels(pid, generation)(slots[k]) ==> after.slots[k] == slots[k]
        }),
{
    lemma_swept_slots(
        WakeState { slots, threads, woken: 0 },
        cancels(pid, generation),
        WaitOutcome::Cancelled,
        0,
        k,
    );
}

/// After the deadlines were looked at no waiter is overdue, and no other was touched.
pub proof fn law_expiry_leaves_none_overdue(
    slots: Seq<WaiterSlot>,
    threads: Seq<Thread>,
    now_ticks: u64,
    k: int,
)
    requires
        0 <= k < slots.len(),
    ensures
        ({
            let after = swept(
                WakeState { slots, threads, woken: 0 },
                expires(now_ticks),
                WaitOutcome::TimedOut,
                true,
                0,
            );
            &&& !expires(now_ticks)(after.slots[k])
            &&& !expires(now_ticks)(slots[k]) ==> after.slots[k] == slots[k]
        }),
{
    lemma_swept_slots(
        WakeState { slots, threads, woken: 0 },
        expires(now_ticks),
        WaitOutcome::TimedOut,
        0,
        k,
    );
}

/// A wake for one waiter wakes at most one.
pub proof fn law_wake_one_wakes_at_most_one(
    st: WakeState,
    which: spec_fn(WaiterSlot) -> bool,
    outcome: WaitOutcome,
    from: int,
)
    ensures
        st.woken <= swept(st, which, outcome, false, from).woken <= st.woken + 1,
    decreases st.slots.len() - from,
{
    if 0 <= from < st.slots.len() && !which(st.slots[from]) {
        law_wake_one_wakes_at_most_one(st, which, outcome, from + 1);
    }
}

/// A wake that came before its waiter is not lost, as long as there was room to remember it.
pub proof fn law_early_wake_is_kept(pending: Seq<u64>, key: u64)
    requires
        pending.contains(key) || pending.contains(0),
    ensures
        wake_consumed(wake_recorded(pending, key), key).1,
{
    if key_from(pending, key, 0) is None {
        lemma_key_from(pending, key, 0);
        lemma_key_from(pending, 0, 0);
        let i = key_from(pending, 0, 0)->0;
        let after = pending.update(i, key);
        lemma_key_from(after, key, 0);
        assert(after[i] == key);
    }
}

proof fn lemma_key_from(pending: Seq<u64>, key: u64, from: int)
    requires
        0 <= from <= pending.len(),
    ensures
        match key_from(pending, key, from) {
            Some(i) => from <= i < pending.len() && pending[i] == key,
            None => forall|k: int| from <= k < pending.len() ==> pending[k] != key,
        },
    decreases pending.len() - from,
{
    if from < pending.len() && pending[from] != key {
        lemma_key_from(pending, key, from + 1);
    }
}

/// A call that is executed again keeps every register but `rax` and the instruction pointer, which
/// goes back to the `syscall` instruction.
pub proof fn law_restart_keeps_arguments(
    frame: SyscallContext,
    nr: u64,
    timeout_rax: u64,
    outcome: WaitOutcome,
)
    requires
        outcome != WaitOutcome::TimedOut,
        frame.user_rip >= SYSCALL_INSTRUCTION_BYTES,
    ensures
        ({
            let after = resumed(
                frame,
                BlockedResume::RestartSyscall { nr, timeout_rax },
                outcome,
            );
            &&& after.user_rip + SYSCALL_INSTRUCTION_BYTES == frame.user_rip
            &&& after.rax == nr
            &&& after == (SyscallContext { rax: after.rax, user_rip: after.user_rip, ..frame })
        }),
{
}

} // verus!
