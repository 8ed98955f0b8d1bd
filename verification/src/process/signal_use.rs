//! What signal calls do for the process that makes them.

use super::linux_signal::{
    action_set, default_action, lemma_signals_from, mask_set, signals_distinct, signals_from,
    signals_of, signals_released, unused_from, SignalSlotModel, SIGSET_BYTES,
};
use crate::abi::{LinuxErrno, Sigaction, EINVAL, ENOMEM, NSIG};
use crate::process::InstanceGeneration;
use vstd::prelude::*;

verus! {

/// A registry's slots: two, of different process instances, each with a disposition per signal.
pub open spec fn registry_wf(slots: Seq<Option<SignalSlotModel>>) -> bool {
    &&& slots.len() == 2
    &&& signals_distinct(slots)
    &&& forall|i: int|
        0 <= i < 2 && #[trigger] slots[i] is Some ==> slots[i]->0.state.actions.len() == NSIG
}

/// Whether signal `b + 1` is in a set.
pub open spec fn in_set(set: u64, b: u64) -> bool {
    (set >> b) & 1 == 1
}

/// Whether a process instance has signal state, or there is room for it.
pub open spec fn has_room(
    slots: Seq<Option<SignalSlotModel>>,
    pid: u64,
    generation: InstanceGeneration,
) -> bool {
    exists|i: int|
        0 <= i < slots.len() && (#[trigger] slots[i] is None || slots[i]->0.pid == pid
            && slots[i]->0.generation == generation)
}

proof fn lemma_two(slots: Seq<Option<SignalSlotModel>>, pid: u64, generation: InstanceGeneration)
    requires
        slots.len() == 2,
    ensures
        signals_from(slots, pid, generation, 0) == if slots[0] is Some && slots[0]->0.pid == pid
            && slots[0]->0.generation == generation {
            Some(0int)
        } else if slots[1] is Some && slots[1]->0.pid == pid && slots[1]->0.generation
            == generation {
            Some(1int)
        } else {
            None
        },
        unused_from(slots, 0) == if slots[0] is None {
            Some(0int)
        } else if slots[1] is None {
            Some(1int)
        } else {
            None
        },
{
    reveal_with_fuel(signals_from, 4);
    reveal_with_fuel(unused_from, 4);
}

/// Changing the blocked signals gives those before it and does to each signal what was asked: blocking
/// adds the given ones, unblocking removes them, setting leaves just them. Without a set nothing
/// changes. Dispositions, and other processes, are left alone.
pub proof fn law_mask_changes_the_asked_signals(
    slots: Seq<Option<SignalSlotModel>>,
    how: i32,
    set: Option<u64>,
    pid: u64,
    generation: InstanceGeneration,
    b: u64,
    other_pid: u64,
    other_generation: InstanceGeneration,
)
    requires
        registry_wf(slots),
        has_room(slots, pid, generation),
        b < 64,
        other_pid != pid || other_generation != generation,
    ensures
        ({
            let (after, before, r) = mask_set(slots, how, set, SIGSET_BYTES, pid, generation);
            let was = signals_of(slots, pid, generation);
            let now = signals_of(after, pid, generation);
            &&& registry_wf(after)
            &&& before == Some(was.blocked)
            &&& now.actions == was.actions
            &&& signals_of(after, other_pid, other_generation) == signals_of(
                slots,
                other_pid,
                other_generation,
            )
            &&& match set {
                None => r is Ok && now.blocked == was.blocked,
                Some(bits) => {
                    &&& how == 0 ==> r is Ok && in_set(now.blocked, b) == (in_set(was.blocked, b)
                        || in_set(bits, b))
                    &&& how == 1 ==> r is Ok && in_set(now.blocked, b) == (in_set(was.blocked, b)
                        && !in_set(bits, b))
                    &&& how == 2 ==> r is Ok && now.blocked == bits
                    &&& how != 0 && how != 1 && how != 2 ==> r == Err::<(), LinuxErrno>(EINVAL)
                        && now.blocked == was.blocked
                },
            }
        }),
{
    let (after, before, r) = mask_set(slots, how, set, SIGSET_BYTES, pid, generation);
    lemma_two(slots, pid, generation);
    lemma_two(after, pid, generation);
    lemma_two(slots, other_pid, other_generation);
    lemma_two(after, other_pid, other_generation);
    let i = choose|i: int|
        0 <= i < slots.len() && (#[trigger] slots[i] is None || slots[i]->0.pid == pid
            && slots[i]->0.generation == generation);
    let was = signals_of(slots, pid, generation).blocked;
    if let Some(bits) = set {
        assert(b < 64 ==> ((((was | bits) >> b) & 1 == 1) == ((was >> b) & 1 == 1 || (bits >> b) & 1
            == 1)) && ((((was & !bits) >> b) & 1 == 1) == ((was >> b) & 1 == 1 && !((bits >> b) & 1
            == 1)))) by (bit_vector);
    }
}

/// The mask that a call gave can be set again, and is then in force: what was blocked before is blocked
/// after, whatever was done in between.
pub proof fn law_mask_can_be_restored(
    slots: Seq<Option<SignalSlotModel>>,
    how: i32,
    set: u64,
    how_read: i32,
    pid: u64,
    generation: InstanceGeneration,
)
    requires
        registry_wf(slots),
        has_room(slots, pid, generation),
    ensures
        ({
            let (changed, before, _) = mask_set(
                slots,
                how,
                Some(set),
                SIGSET_BYTES,
                pid,
                generation,
            );
            let (back, between, r) = mask_set(
                changed,
                2,
                before,
                SIGSET_BYTES,
                pid,
                generation,
            );
            &&& r is Ok
            &&& between == Some(signals_of(changed, pid, generation).blocked)
            &&& signals_of(back, pid, generation) == signals_of(slots, pid, generation)
            &&& mask_set(back, how_read, None, SIGSET_BYTES, pid, generation).1 == before
        }),
{
    let (changed, before, _) = mask_set(slots, how, Some(set), SIGSET_BYTES, pid, generation);
    lemma_two(slots, pid, generation);
    lemma_two(changed, pid, generation);
    let i = choose|i: int|
        0 <= i < slots.len() && (#[trigger] slots[i] is None || slots[i]->0.pid == pid
            && slots[i]->0.generation == generation);
    law_mask_changes_the_asked_signals(
        slots,
        how,
        Some(set),
        pid,
        generation,
        0,
        if pid == 0 {
            1u64
        } else {
            0u64
        },
        generation,
    );
    let back = mask_set(changed, 2, before, SIGSET_BYTES, pid, generation).0;
    lemma_two(back, pid, generation);
    assert(has_room(changed, pid, generation)) by {
        let k = signals_from(changed, pid, generation, 0)->0;
        assert(changed[k] is Some);
    }
}

/// Setting a disposition gives the one before it and changes that signal's alone: the other signals', the
/// mask and other processes stay. Reading changes none.
pub proof fn law_action_changes_one_signal(
    slots: Seq<Option<SignalSlotModel>>,
    signum: u64,
    act: Option<Sigaction>,
    pid: u64,
    generation: InstanceGeneration,
    other: u64,
    other_pid: u64,
    other_generation: InstanceGeneration,
)
    requires
        registry_wf(slots),
        has_room(slots, pid, generation),
        1 <= signum <= 64,
        1 <= other <= 64,
        other_pid != pid || other_generation != generation,
    ensures
        ({
            let (after, before) = action_set(slots, signum, act, SIGSET_BYTES, pid, generation);
            let was = signals_of(slots, pid, generation);
            let now = signals_of(after, pid, generation);
            &&& registry_wf(after)
            &&& before == Ok::<Sigaction, LinuxErrno>(was.actions[signum - 1])
            &&& now.blocked == was.blocked
            &&& now.actions[other - 1] == if other == signum && act is Some {
                act->0
            } else {
                was.actions[other - 1]
            }
            &&& signals_of(after, other_pid, other_generation) == signals_of(
                slots,
                other_pid,
                other_generation,
            )
        }),
{
    let after = action_set(slots, signum, act, SIGSET_BYTES, pid, generation).0;
    lemma_two(slots, pid, generation);
    lemma_two(after, pid, generation);
    lemma_two(slots, other_pid, other_generation);
    lemma_two(after, other_pid, other_generation);
    let i = choose|i: int|
        0 <= i < slots.len() && (#[trigger] slots[i] is None || slots[i]->0.pid == pid
            && slots[i]->0.generation == generation);
}

/// A signal call is refused, and changes nothing, for a set of another size, for a signal that does not
/// exist, and where there is no room for the process.
pub proof fn law_signal_calls_are_refused(
    slots: Seq<Option<SignalSlotModel>>,
    signum: u64,
    act: Option<Sigaction>,
    how: i32,
    set: Option<u64>,
    sigsetsize: u64,
    pid: u64,
    generation: InstanceGeneration,
)
    requires
        registry_wf(slots),
    ensures
        sigsetsize != 8 || signum < 1 || signum > 64 ==> action_set(
            slots,
            signum,
            act,
            sigsetsize,
            pid,
            generation,
        ) == (slots, Err::<Sigaction, LinuxErrno>(EINVAL)),
        sigsetsize != 8 ==> mask_set(slots, how, set, sigsetsize, pid, generation) == (
            slots,
            None::<u64>,
            Err::<(), LinuxErrno>(EINVAL),
        ),
        sigsetsize == 8 && !has_room(slots, pid, generation) ==> mask_set(
            slots,
            how,
            set,
            sigsetsize,
            pid,
            generation,
        ) == (slots, None::<u64>, Err::<(), LinuxErrno>(ENOMEM)) && (1 <= signum <= 64
            ==> action_set(slots, signum, act, sigsetsize, pid, generation) == (
            slots,
            Err::<Sigaction, LinuxErrno>(ENOMEM),
        )),
{
    lemma_two(slots, pid, generation);
    if !has_room(slots, pid, generation) {
        assert(!(slots[0] is None || slots[0]->0.pid == pid && slots[0]->0.generation
            == generation));
        assert(!(slots[1] is None || slots[1]->0.pid == pid && slots[1]->0.generation
            == generation));
    }
}

/// A process whose signal state is dropped, as an exec and its end do, has every disposition at its
/// default and blocks nothing; another keeps what it had.
pub proof fn law_release_restores_the_defaults(
    slots: Seq<Option<SignalSlotModel>>,
    pid: u64,
    generation: InstanceGeneration,
    signum: u64,
    other_pid: u64,
    other_generation: InstanceGeneration,
)
    requires
        registry_wf(slots),
        1 <= signum <= 64,
        other_pid != pid || other_generation != generation,
    ensures
        ({
            let after = signals_released(slots, pid, generation);
            let now = signals_of(after, pid, generation);
            &&& registry_wf(after)
            &&& now.blocked == 0
            &&& now.actions[signum - 1].sa_handler == 0
            &&& now.actions[signum - 1] == default_action()
            &&& signals_of(after, other_pid, other_generation) == signals_of(
                slots,
                other_pid,
                other_generation,
            )
            &&& signals_from(slots, pid, generation, 0) is Some ==> has_room(
                after,
                other_pid,
                other_generation,
            )
        }),
{
    let after = signals_released(slots, pid, generation);
    if let Some(i) = signals_from(slots, pid, generation, 0) {
        lemma_signals_from(slots, pid, generation, 0);
        assert(after[i] is None);
    }
    lemma_two(slots, pid, generation);
    lemma_two(after, pid, generation);
    lemma_two(slots, other_pid, other_generation);
    lemma_two(after, other_pid, other_generation);
}

} // verus!
