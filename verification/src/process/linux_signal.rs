//! Per-process Linux signal disposition and mask state; signals are not delivered.

use crate::abi::{
    LinuxErrno, Sigaction, EINVAL, ENOMEM, NSIG, SIG_BLOCK, SIG_SETMASK, SIG_UNBLOCK,
};
use crate::process::InstanceGeneration;
use crate::sched::TASK_COUNT;
use vstd::prelude::*;

verus! {

pub const LINUX_SIGNAL_MAX_PROCESSES: usize = TASK_COUNT;

/// Size in bytes of a signal set argument.
pub const SIGSET_BYTES: u64 = 8;

#[derive(Clone, Copy, Debug, PartialEq, Eq)]
pub struct SignalState {
    pub actions: [Sigaction; 64],
    pub blocked_mask: u64,
}

#[derive(Clone, Copy, Debug, PartialEq, Eq)]
pub struct SignalSlot {
    pub pid: u64,
    pub generation: InstanceGeneration,
    pub state: SignalState,
}

/// Signal state of the processes that made a signal call.
pub struct Registry {
    pub slots: [Option<SignalSlot>; 2],
}

/// Dispositions by signal (signal 1 first) and the blocked signals.
pub struct SignalModel {
    pub actions: Seq<Sigaction>,
    pub blocked: u64,
}

pub struct SignalSlotModel {
    pub pid: u64,
    pub generation: InstanceGeneration,
    pub state: SignalModel,
}

impl SignalState {
    pub open spec fn model(self) -> SignalModel {
        SignalModel { actions: self.actions@, blocked: self.blocked_mask }
    }
}

pub open spec fn signal_slot(s: Option<SignalSlot>) -> Option<SignalSlotModel> {
    match s {
        None => None,
        Some(slot) => Some(
            SignalSlotModel {
                pid: slot.pid,
                generation: slot.generation,
                state: slot.state.model(),
            },
        ),
    }
}

/// The disposition of a signal that was never set.
pub open spec fn default_action() -> Sigaction {
    Sigaction { sa_handler: 0, sa_flags: 0, sa_restorer: 0, sa_mask: 0 }
}

/// Default dispositions, nothing blocked.
pub open spec fn default_signals() -> SignalModel {
    SignalModel { actions: Seq::new(NSIG as nat, |i: int| default_action()), blocked: 0 }
}

/// The least index at or above `from` of a process instance's state.
pub open spec fn signals_from(
    slots: Seq<Option<SignalSlotModel>>,
    pid: u64,
    generation: InstanceGeneration,
    from: int,
) -> Option<int>
    decreases slots.len() - from,
{
    if from < 0 || from >= slots.len() {
        None
    } else if slots[from] is Some && slots[from]->0.pid == pid && slots[from]->0.generation
        == generation {
        Some(from)
    } else {
        signals_from(slots, pid, generation, from + 1)
    }
}

/// The least index at or above `from` of an empty slot.
pub open spec fn unused_from(slots: Seq<Option<SignalSlotModel>>, from: int) -> Option<int>
    decreases slots.len() - from,
{
    if from < 0 || from >= slots.len() {
        None
    } else if slots[from] is None {
        Some(from)
    } else {
        unused_from(slots, from + 1)
    }
}

/// The signal state of a process instance; one without a slot has the defaults.
pub open spec fn signals_of(
    slots: Seq<Option<SignalSlotModel>>,
    pid: u64,
    generation: InstanceGeneration,
) -> SignalModel {
    match signals_from(slots, pid, generation, 0) {
        Some(i) => slots[i]->0.state,
        None => default_signals(),
    }
}

/// The slot of a process instance, taken with the defaults if it has none.
pub open spec fn signals_ensured(
    slots: Seq<Option<SignalSlotModel>>,
    pid: u64,
    generation: InstanceGeneration,
) -> (Seq<Option<SignalSlotModel>>, Option<int>) {
    match signals_from(slots, pid, generation, 0) {
        Some(i) => (slots, Some(i)),
        None => match unused_from(slots, 0) {
            None => (slots, None),
            Some(i) => (
                slots.update(
                    i,
                    Some(SignalSlotModel { pid, generation, state: default_signals() }),
                ),
                Some(i),
            ),
        },
    }
}

pub open spec fn with_signals(
    slots: Seq<Option<SignalSlotModel>>,
    i: int,
    state: SignalModel,
) -> Seq<Option<SignalSlotModel>> {
    slots.update(i, Some(SignalSlotModel { state, ..slots[i]->0 }))
}

/// Setting and reading a disposition: the registry after it, the disposition before it, and the
/// result.
pub open spec fn action_set(
    slots: Seq<Option<SignalSlotModel>>,
    signum: u64,
    act: Option<Sigaction>,
    sigsetsize: u64,
    pid: u64,
    generation: InstanceGeneration,
) -> (Seq<Option<SignalSlotModel>>, Result<Sigaction, LinuxErrno>) {
    if sigsetsize != SIGSET_BYTES || signum == 0 || signum > NSIG {
        (slots, Err(EINVAL))
    } else {
        let (ensured, slot) = signals_ensured(slots, pid, generation);
        match slot {
            None => (ensured, Err(ENOMEM)),
            Some(i) => {
                let state = ensured[i]->0.state;
                (
                    match act {
                        None => ensured,
                        Some(action) => with_signals(
                            ensured,
                            i,
                            SignalModel {
                                actions: state.actions.update(signum - 1, action),
                                blocked: state.blocked,
                            },
                        ),
                    },
                    Ok(state.actions[signum - 1]),
                )
            },
        }
    }
}

/// The blocked signals after `how` is applied to `set`.
pub open spec fn masked(how: i32, blocked: u64, set: u64) -> Option<u64> {
    if how == SIG_BLOCK {
        Some(blocked | set)
    } else if how == SIG_UNBLOCK {
        Some(blocked & !set)
    } else if how == SIG_SETMASK {
        Some(set)
    } else {
        None
    }
}

/// Setting and reading the blocked signals: the registry after it, the mask before it if the call got
/// that far, and the result.
pub open spec fn mask_set(
    slots: Seq<Option<SignalSlotModel>>,
    how: i32,
    set: Option<u64>,
    sigsetsize: u64,
    pid: u64,
    generation: InstanceGeneration,
) -> (Seq<Option<SignalSlotModel>>, Option<u64>, Result<(), LinuxErrno>) {
    if sigsetsize != SIGSET_BYTES {
        (slots, None, Err(EINVAL))
    } else {
        let (ensured, slot) = signals_ensured(slots, pid, generation);
        match slot {
            None => (ensured, None, Err(ENOMEM)),
            Some(i) => {
                let state = ensured[i]->0.state;
                match set {
                    None => (ensured, Some(state.blocked), Ok(())),
                    Some(bits) => match masked(how, state.blocked, bits) {
                        None => (ensured, Some(state.blocked), Err(EINVAL)),
                        Some(blocked) => (
                            with_signals(
                                ensured,
                                i,
                                SignalModel { actions: state.actions, blocked },
                            ),
                            Some(state.blocked),
                            Ok(()),
                        ),
                    },
                }
            },
        }
    }
}

/// Dropping a process instance's state.
pub open spec fn signals_released(
    slots: Seq<Option<SignalSlotModel>>,
    pid: u64,
    generation: InstanceGeneration,
) -> Seq<Option<SignalSlotModel>> {
    match signals_from(slots, pid, generation, 0) {
        Some(i) => slots.update(i, None),
        None => slots,
    }
}

/// Giving a child the parent's state, or the defaults where the parent has none.
pub open spec fn signals_forked(
    slots: Seq<Option<SignalSlotModel>>,
    parent_pid: u64,
    parent_gen: InstanceGeneration,
    child_pid: u64,
    child_gen: InstanceGeneration,
) -> (Seq<Option<SignalSlotModel>>, Result<(), LinuxErrno>) {
    match signals_from(slots, parent_pid, parent_gen, 0) {
        None => (signals_released(slots, child_pid, child_gen), Ok(())),
        Some(p) => {
            let (ensured, slot) = signals_ensured(slots, child_pid, child_gen);
            match slot {
                None => (ensured, Err(ENOMEM)),
                Some(i) => (with_signals(ensured, i, slots[p]->0.state), Ok(())),
            }
        },
    }
}

pub proof fn lemma_signals_from(
    slots: Seq<Option<SignalSlotModel>>,
    pid: u64,
    generation: InstanceGeneration,
    from: int,
)
    requires
        0 <= from <= slots.len(),
    ensures
        match signals_from(slots, pid, generation, from) {
            Some(i) => from <= i < slots.len() && slots[i] is Some && slots[i]->0.pid == pid
                && slots[i]->0.generation == generation,
            None => forall|i: int|
                from <= i < slots.len() ==> !(#[trigger] slots[i] is Some && slots[i]->0.pid == pid
                    && slots[i]->0.generation == generation),
        },
    decreases slots.len() - from,
{
    if from < slots.len() && !(slots[from] is Some && slots[from]->0.pid == pid
        && slots[from]->0.generation == generation) {
        lemma_signals_from(slots, pid, generation, from + 1);
    }
}

impl Registry {
    pub open spec fn model(&self) -> Seq<Option<SignalSlotModel>> {
        Seq::new(2, |i: int| signal_slot(self.slots@[i]))
    }

    pub fn new() -> (r: Registry)
        ensures
            forall|i: int| 0 <= i < 2 ==> r.slots@[i] is None,
    {
        Registry { slots: [None; 2] }
    }

    /// The slot of a process instance.
    pub fn find(&self, pid: u64, generation: InstanceGeneration) -> (r: Option<usize>)
        ensures
            match signals_from(self.model(), pid, generation, 0) {
                Some(i) => r == Some(i as usize) && 0 <= i < 2 && self.slots@[i] is Some,
                None => r is None,
            },
    {
        let ghost slots = self.model();
        let mut index: usize = 0;
        while index < LINUX_SIGNAL_MAX_PROCESSES
            invariant
                0 <= index <= 2,
                slots == self.model(),
                signals_from(slots, pid, generation, 0) == signals_from(
                    slots,
                    pid,
                    generation,
                    index as int,
                ),
            decreases 2 - index,
        {
            assert(slots[index as int] == signal_slot(self.slots@[index as int]));
            if let Some(entry) = &self.slots[index] {
                if entry.pid == pid && entry.generation == generation {
                    return Some(index);
                }
            }
            index += 1;
        }
        None
    }

    /// The slot of a process instance, taken with the defaults if it has none.
    pub fn ensure(&mut self, pid: u64, generation: InstanceGeneration) -> (r: Result<
        usize,
        LinuxErrno,
    >)
        ensures
            final(self).model() == signals_ensured(old(self).model(), pid, generation).0,
            match signals_ensured(old(self).model(), pid, generation).1 {
                Some(i) => r == Ok::<usize, LinuxErrno>(i as usize) && 0 <= i < 2 && final(self).slots@[i] is Some,
                None => r == Err::<usize, LinuxErrno>(ENOMEM),
            },
    {
        if let Some(index) = self.find(pid, generation) {
            return Ok(index);
        }
        let ghost slots = self.model();
        let mut index: usize = 0;
        while index < LINUX_SIGNAL_MAX_PROCESSES
            invariant
                0 <= index <= 2,
                *self == *old(self),
                slots == self.model(),
                signals_from(slots, pid, generation, 0) is None,
                unused_from(slots, 0) == unused_from(slots, index as int),
            decreases 2 - index,
        {
            assert(slots[index as int] == signal_slot(self.slots@[index as int]));
            if self.slots[index].is_none() {
                let action = Sigaction { sa_handler: 0, sa_flags: 0, sa_restorer: 0, sa_mask: 0 };
                let state = SignalState { actions: [action; 64], blocked_mask: 0 };
                assert(state.actions@ =~= default_signals().actions);
                self.slots[index] = Some(SignalSlot { pid, generation, state });
                assert(self.model() =~= signals_ensured(slots, pid, generation).0);
                return Ok(index);
            }
            index += 1;
        }
        Err(ENOMEM)
    }

    /// The number of processes with signal state.
    pub fn occupied(&self) -> (r: usize)
        ensures
            r == crate::scan::count(self.model(), |s: Option<SignalSlotModel>| s is Some),
    {
        let ghost slots = self.model();
        let ghost p = |s: Option<SignalSlotModel>| s is Some;
        let mut n: usize = 0;
        let mut index: usize = 0;
        assert(slots.take(0) =~= Seq::<Option<SignalSlotModel>>::empty());
        while index < LINUX_SIGNAL_MAX_PROCESSES
            invariant
                0 <= index <= 2,
                slots == self.model(),
                p == (|s: Option<SignalSlotModel>| s is Some),
                n == crate::scan::count(slots.take(index as int), p),
                n <= index,
            decreases 2 - index,
        {
            proof {
                crate::scan::lemma_count_step(slots, p, index as int);
            }
            if self.slots[index].is_some() {
                n += 1;
            }
            index += 1;
        }
        assert(slots.take(2) =~= slots);
        n
    }

    /// Drops a process instance's state; without a slot it has the defaults again.
    pub fn release(&mut self, pid: u64, generation: InstanceGeneration)
        ensures
            final(self).model() == signals_released(old(self).model(), pid, generation),
    {
        let ghost slots = self.model();
        if let Some(index) = self.find(pid, generation) {
            self.slots[index] = None;
            assert(self.model() =~= slots.update(index as int, None));
        }
    }

    /// An exec restores the default dispositions.
    pub fn reset_for_exec(&mut self, pid: u64, generation: InstanceGeneration)
        ensures
            final(self).model() == signals_released(old(self).model(), pid, generation),
    {
        self.release(pid, generation);
    }

    fn put_state(&mut self, index: usize, state: SignalState)
        requires
            index < 2,
            old(self).slots@[index as int] is Some,
        ensures
            final(self).model() == with_signals(old(self).model(), index as int, state.model()),
    {
        let ghost slots = self.model();
        if let Some(slot) = self.slots[index] {
            self.slots[index] = Some(SignalSlot { state, ..slot });
        }
        assert(self.model() =~= with_signals(slots, index as int, state.model()));
    }

    /// Gives a child the parent's signal state.
    pub fn clone_for_fork(
        &mut self,
        parent_pid: u64,
        parent_gen: InstanceGeneration,
        child_pid: u64,
        child_gen: InstanceGeneration,
    ) -> (r: Result<(), LinuxErrno>)
        ensures
            (final(self).model(), r) == signals_forked(
                old(self).model(),
                parent_pid,
                parent_gen,
                child_pid,
                child_gen,
            ),
    {
        let parent = match self.find(parent_pid, parent_gen) {
            Some(index) => self.slots[index],
            None => None,
        };
        match parent {
            Some(slot) => {
                let index: usize = match self.ensure(child_pid, child_gen) {
                    Ok(index) => index,
                    Err(e) => return Err(e),
                };
                self.put_state(index, slot.state);
                Ok(())
            },
            None => {
                self.release(child_pid, child_gen);
                Ok(())
            },
        }
    }

    /// Reads the disposition of a signal into `old_action` and then sets it to `act`.
    pub fn rt_sigaction(
        &mut self,
        signum: u64,
        act: Option<Sigaction>,
        old_action: &mut Sigaction,
        sigsetsize: u64,
        pid: u64,
        generation: InstanceGeneration,
    ) -> (r: Result<(), LinuxErrno>)
        ensures
            ({
                let (slots, before) = action_set(
                    old(self).model(),
                    signum,
                    act,
                    sigsetsize,
                    pid,
                    generation,
                );
                &&& final(self).model() == slots
                &&& match before {
                    Ok(action) => r is Ok && *final(old_action) == action,
                    Err(e) => r == Err::<(), LinuxErrno>(e) && *final(old_action) == *old(old_action),
                }
            }),
    {
        if sigsetsize != SIGSET_BYTES {
            return Err(EINVAL);
        }
        if signum == 0 || signum > NSIG as u64 {
            return Err(EINVAL);
        }
        let index: usize = match self.ensure(pid, generation) {
            Ok(index) => index,
            Err(e) => return Err(e),
        };
        let ghost ensured = self.model();
        if let Some(slot) = self.slots[index] {
            let mut state = slot.state;
            let which: usize = (signum - 1) as usize;
            *old_action = state.actions[which];
            if let Some(action) = act {
                state.actions[which] = action;
                self.put_state(index, state);
            }
        }
        Ok(())
    }

    /// Reads the blocked signals into `old_mask` and then changes them as `how` says.
    pub fn rt_sigprocmask(
        &mut self,
        how: i32,
        set: Option<u64>,
        old_mask: &mut u64,
        sigsetsize: u64,
        pid: u64,
        generation: InstanceGeneration,
    ) -> (r: Result<(), LinuxErrno>)
        ensures
            ({
                let (slots, before, outcome) = mask_set(
                    old(self).model(),
                    how,
                    set,
                    sigsetsize,
                    pid,
                    generation,
                );
                &&& final(self).model() == slots
                &&& r == outcome
                &&& *final(old_mask) == match before {
                    Some(mask) => mask,
                    None => *old(old_mask),
                }
            }),
    {
        if sigsetsize != SIGSET_BYTES {
            return Err(EINVAL);
        }
        let index: usize = match self.ensure(pid, generation) {
            Ok(index) => index,
            Err(e) => return Err(e),
        };
        if let Some(slot) = self.slots[index] {
            let mut state = slot.state;
            *old_mask = state.blocked_mask;
            if let Some(bits) = set {
                if how == SIG_BLOCK {
                    state.blocked_mask = state.blocked_mask | bits;
                } else if how == SIG_UNBLOCK {
                    state.blocked_mask = state.blocked_mask & !bits;
                } else if how == SIG_SETMASK {
                    state.blocked_mask = bits;
                } else {
                    return Err(EINVAL);
                }
                self.put_state(index, state);
            }
        }
        Ok(())
    }
}

/// Whether no process instance has two slots.
pub open spec fn signals_distinct(slots: Seq<Option<SignalSlotModel>>) -> bool {
    forall|i: int, j: int|
        0 <= i < slots.len() && 0 <= j < slots.len() && i != j && #[trigger] slots[i] is Some
            && #[trigger] slots[j] is Some ==> slots[i]->0.pid != slots[j]->0.pid
            || slots[i]->0.generation != slots[j]->0.generation
}

proof fn lemma_signals_unique(
    slots: Seq<Option<SignalSlotModel>>,
    pid: u64,
    generation: InstanceGeneration,
    k: int,
    from: int,
)
    requires
        signals_distinct(slots),
        0 <= from <= k < slots.len(),
        slots[k] is Some,
        slots[k]->0.pid == pid,
        slots[k]->0.generation == generation,
    ensures
        signals_from(slots, pid, generation, from) == Some(k),
    decreases k - from,
{
    if from < k {
        lemma_signals_unique(slots, pid, generation, k, from + 1);
    }
}

proof fn lemma_unused_from(slots: Seq<Option<SignalSlotModel>>, from: int)
    requires
        0 <= from <= slots.len(),
    ensures
        unused_from(slots, from) matches Some(i) ==> from <= i < slots.len() && slots[i] is None,
    decreases slots.len() - from,
{
    if from < slots.len() && slots[from] is Some {
        lemma_unused_from(slots, from + 1);
    }
}

/// A disposition that was set is the one read back.
pub proof fn law_sigaction_round_trip(
    slots: Seq<Option<SignalSlotModel>>,
    signum: u64,
    action: Sigaction,
    pid: u64,
    generation: InstanceGeneration,
)
    requires
        slots.len() == 2,
        signals_distinct(slots),
        forall|i: int|
            0 <= i < 2 && #[trigger] slots[i] is Some ==> slots[i]->0.state.actions.len() == NSIG,
        action_set(slots, signum, Some(action), SIGSET_BYTES, pid, generation).1 is Ok,
    ensures
        action_set(
            action_set(slots, signum, Some(action), SIGSET_BYTES, pid, generation).0,
            signum,
            None,
            SIGSET_BYTES,
            pid,
            generation,
        ).1 == Ok::<Sigaction, LinuxErrno>(action),
{
    lemma_signals_from(slots, pid, generation, 0);
    lemma_unused_from(slots, 0);
    let (ensured, slot) = signals_ensured(slots, pid, generation);
    let i = slot->0;
    let after = action_set(slots, signum, Some(action), SIGSET_BYTES, pid, generation).0;
    lemma_signals_unique(after, pid, generation, i, 0);
}

/// A forked child starts with the parent's signal state.
pub proof fn law_fork_copies_signals(
    slots: Seq<Option<SignalSlotModel>>,
    parent_pid: u64,
    parent_gen: InstanceGeneration,
    child_pid: u64,
    child_gen: InstanceGeneration,
)
    requires
        slots.len() == 2,
        signals_distinct(slots),
        parent_pid != child_pid || parent_gen != child_gen,
        signals_forked(slots, parent_pid, parent_gen, child_pid, child_gen).1 is Ok,
    ensures
        signals_of(
            signals_forked(slots, parent_pid, parent_gen, child_pid, child_gen).0,
            child_pid,
            child_gen,
        ) == signals_of(slots, parent_pid, parent_gen),
{
    lemma_signals_from(slots, parent_pid, parent_gen, 0);
    lemma_signals_from(slots, child_pid, child_gen, 0);
    lemma_unused_from(slots, 0);
    let after = signals_forked(slots, parent_pid, parent_gen, child_pid, child_gen).0;
    match signals_from(slots, parent_pid, parent_gen, 0) {
        None => {
            lemma_signals_from(after, child_pid, child_gen, 0);
            if let Some(k) = signals_from(after, child_pid, child_gen, 0) {
                let i = signals_from(slots, child_pid, child_gen, 0)->0;
                assert(slots[k] is Some && slots[i] is Some);
            }
        },
        Some(p) => {
            let i = signals_ensured(slots, child_pid, child_gen).1->0;
            lemma_signals_unique(after, child_pid, child_gen, i, 0);
        },
    }
}

} // verus!
