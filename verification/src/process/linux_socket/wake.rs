//! Who is woken when the network service has answered a request.

use crate::process::lifecycle::{Process, ProcessRegistry};
use crate::sched::wait::{
    awaited, swept, wake_recorded, wakes, WaitKey, WaitModel, WaitOutcome, WaitTable, WakeState,
};
use crate::sched::{Scheduler, SchedulerModel};
use vstd::prelude::*;

verus! {

/// Requests whose callers can wait at one time.
pub const REQUEST_WAKE_SLOTS: usize = 16;

#[derive(Clone, Copy, Debug)]
pub struct RequestWakes {
    pub entries: [Option<(u64, WaitKey)>; REQUEST_WAKE_SLOTS],
}

/// Whether an entry is that of a request.
pub open spec fn entry_of(entry: Option<(u64, WaitKey)>, request_id: u64) -> bool {
    entry is Some && (entry->0).0 == request_id
}

/// The first entry of a request at or above `from`.
pub open spec fn wake_from(entries: Seq<Option<(u64, WaitKey)>>, request_id: u64, from: int) -> Option<
    int,
>
    decreases entries.len() - from,
{
    if from < 0 || from >= entries.len() {
        None
    } else if entry_of(entries[from], request_id) {
        Some(from)
    } else {
        wake_from(entries, request_id, from + 1)
    }
}

/// The first unused entry at or above `from`.
pub open spec fn unused_wake_from(entries: Seq<Option<(u64, WaitKey)>>, from: int) -> Option<int>
    decreases entries.len() - from,
{
    if from < 0 || from >= entries.len() {
        None
    } else if entries[from] is None {
        Some(from)
    } else {
        unused_wake_from(entries, from + 1)
    }
}

/// The entries after a request's key was noted. A request for which there is no room is not noted.
pub open spec fn wake_registered(
    entries: Seq<Option<(u64, WaitKey)>>,
    request_id: u64,
    key: WaitKey,
) -> Seq<Option<(u64, WaitKey)>> {
    match wake_from(entries, request_id, 0) {
        Some(i) => entries.update(i, Some((request_id, key))),
        None => match unused_wake_from(entries, 0) {
            Some(i) => entries.update(i, Some((request_id, key))),
            None => entries,
        },
    }
}

/// The entries without those of a request.
pub open spec fn wake_cleared(entries: Seq<Option<(u64, WaitKey)>>, request_id: u64) -> Seq<
    Option<(u64, WaitKey)>,
> {
    Seq::new(
        entries.len(),
        |i: int|
            if entry_of(entries[i], request_id) {
                None
            } else {
                entries[i]
            },
    )
}

/// The waiters, the threads and the number woken after all waiters of a key were woken.
pub open spec fn key_woken(
    w: WaitModel,
    m: SchedulerModel,
    processes: Seq<Process>,
    key: WaitKey,
) -> (WaitModel, SchedulerModel, int) {
    let after = swept(
        WakeState { slots: w.slots, threads: m.threads, woken: 0 },
        wakes(key, processes),
        WaitOutcome::Woken,
        true,
        0,
    );
    (
        WaitModel {
            slots: after.slots,
            pending: if awaited(w.slots, key) {
                w.pending
            } else {
                wake_recorded(w.pending, key.0)
            },
            ..w
        },
        SchedulerModel { threads: after.threads, ..m },
        after.woken,
    )
}

/// The waiters and threads after the entries of a request at or above `from` were served, and how many
/// the last one woke.
pub open spec fn request_woken(
    entries: Seq<Option<(u64, WaitKey)>>,
    w: WaitModel,
    m: SchedulerModel,
    processes: Seq<Process>,
    request_id: u64,
    woken: int,
    from: int,
) -> (WaitModel, SchedulerModel, int)
    decreases entries.len() - from,
{
    if from < 0 || from >= entries.len() {
        (w, m, woken)
    } else if entry_of(entries[from], request_id) {
        let (w1, m1, n) = key_woken(w, m, processes, (entries[from]->0).1);
        request_woken(entries, w1, m1, processes, request_id, n, from + 1)
    } else {
        request_woken(entries, w, m, processes, request_id, woken, from + 1)
    }
}

impl RequestWakes {
    pub fn new() -> (r: RequestWakes)
        ensures
            forall|i: int| 0 <= i < REQUEST_WAKE_SLOTS ==> (#[trigger] r.entries@[i]) is None,
    {
        RequestWakes { entries: [None; REQUEST_WAKE_SLOTS] }
    }

    fn is_entry_of(&self, i: usize, request_id: u64) -> (r: bool)
        requires
            i < REQUEST_WAKE_SLOTS,
        ensures
            r == entry_of(self.entries@[i as int], request_id),
    {
        match self.entries[i] {
            Some((id, _)) => id == request_id,
            None => false,
        }
    }

    /// Notes the key on which the caller of a request waits.
    pub fn register_request_wake(&mut self, request_id: u64, key: WaitKey)
        ensures
            final(self).entries@ == wake_registered(old(self).entries@, request_id, key),
    {
        let mut i: usize = 0;
        while i < REQUEST_WAKE_SLOTS
            invariant
                0 <= i <= REQUEST_WAKE_SLOTS,
                *self == *old(self),
                wake_from(self.entries@, request_id, 0) == wake_from(
                    self.entries@,
                    request_id,
                    i as int,
                ),
            decreases REQUEST_WAKE_SLOTS - i,
        {
            if self.is_entry_of(i, request_id) {
                self.entries[i] = Some((request_id, key));
                return;
            }
            i += 1;
        }
        let mut k: usize = 0;
        while k < REQUEST_WAKE_SLOTS
            invariant
                0 <= k <= REQUEST_WAKE_SLOTS,
                *self == *old(self),
                wake_from(self.entries@, request_id, 0) is None,
                unused_wake_from(self.entries@, 0) == unused_wake_from(self.entries@, k as int),
            decreases REQUEST_WAKE_SLOTS - k,
        {
            if self.entries[k].is_none() {
                self.entries[k] = Some((request_id, key));
                return;
            }
            k += 1;
        }
    }

    /// Forgets the keys of a request.
    pub fn clear_request_wake(&mut self, request_id: u64)
        ensures
            final(self).entries@ == wake_cleared(old(self).entries@, request_id),
    {
        let mut i: usize = 0;
        while i < REQUEST_WAKE_SLOTS
            invariant
                0 <= i <= REQUEST_WAKE_SLOTS,
                forall|k: int|
                    0 <= k < i ==> #[trigger] self.entries@[k] == wake_cleared(
                        old(self).entries@,
                        request_id,
                    )[k],
                forall|k: int|
                    i <= k < REQUEST_WAKE_SLOTS ==> #[trigger] self.entries@[k]
                        == old(self).entries@[k],
            decreases REQUEST_WAKE_SLOTS - i,
        {
            if self.is_entry_of(i, request_id) {
                self.entries[i] = None;
            }
            i += 1;
        }
        assert(self.entries@ =~= wake_cleared(old(self).entries@, request_id));
    }

    /// Wakes the callers that wait for the answer to a request, and forgets their keys.
    pub fn notify_request_complete(
        &mut self,
        waits: &mut WaitTable,
        scheduler: &mut Scheduler,
        registry: &ProcessRegistry,
        request_id: u64,
    ) -> (r: usize)
        requires
            old(waits).wf(),
            old(scheduler).wf(),
        ensures
            final(waits).wf(),
            final(scheduler).wf(),
            final(self).entries@ == wake_cleared(old(self).entries@, request_id),
            (final(waits).model(), final(scheduler).model(), r as int) == request_woken(
                old(self).entries@,
                old(waits).model(),
                old(scheduler).model(),
                registry.processes@,
                request_id,
                0,
                0,
            ),
    {
        let ghost entries = self.entries@;
        let ghost first = request_woken(
            entries,
            waits.model(),
            scheduler.model(),
            registry.processes@,
            request_id,
            0,
            0,
        );
        let mut woken: usize = 0;
        let mut i: usize = 0;
        while i < REQUEST_WAKE_SLOTS
            invariant
                0 <= i <= REQUEST_WAKE_SLOTS,
                entries.len() == REQUEST_WAKE_SLOTS,
                waits.wf(),
                scheduler.wf(),
                first == request_woken(
                    entries,
                    waits.model(),
                    scheduler.model(),
                    registry.processes@,
                    request_id,
                    woken as int,
                    i as int,
                ),
                forall|k: int|
                    0 <= k < i ==> #[trigger] self.entries@[k] == wake_cleared(
                        entries,
                        request_id,
                    )[k],
                forall|k: int|
                    i <= k < REQUEST_WAKE_SLOTS ==> #[trigger] self.entries@[k] == entries[k],
            decreases REQUEST_WAKE_SLOTS - i,
        {
            match self.entries[i] {
                Some((id, key)) => {
                    if id == request_id {
                        woken = waits.wake_all(scheduler, registry, key);
                        self.entries[i] = None;
                    }
                },
                None => {},
            }
            i += 1;
        }
        assert(self.entries@ =~= wake_cleared(entries, request_id));
        woken
    }
}

/// A request that was noted is found, with the key that was noted last.
pub proof fn law_noted_request_is_found(entries: Seq<Option<(u64, WaitKey)>>, request_id: u64, key: WaitKey)
    requires
        wake_from(entries, request_id, 0) is Some || unused_wake_from(entries, 0) is Some,
    ensures
        ({
            let after = wake_registered(entries, request_id, key);
            let i = wake_from(after, request_id, 0);
            i is Some && after[i->0] == Some((request_id, key))
        }),
{
    lemma_wake_from(entries, request_id, 0);
    lemma_unused_wake(entries, 0);
    let i = match wake_from(entries, request_id, 0) {
        Some(i) => i,
        None => unused_wake_from(entries, 0)->0,
    };
    lemma_noted(entries, wake_registered(entries, request_id, key), request_id, i, 0);
}

pub proof fn lemma_wake_from(entries: Seq<Option<(u64, WaitKey)>>, request_id: u64, from: int)
    requires
        0 <= from <= entries.len(),
    ensures
        match wake_from(entries, request_id, from) {
            Some(i) => from <= i < entries.len() && entry_of(entries[i], request_id) && forall|
                k: int,
            |
                from <= k < i ==> !entry_of(#[trigger] entries[k], request_id),
            None => forall|k: int|
                from <= k < entries.len() ==> !entry_of(#[trigger] entries[k], request_id),
        },
    decreases entries.len() - from,
{
    if from < entries.len() && !entry_of(entries[from], request_id) {
        lemma_wake_from(entries, request_id, from + 1);
    }
}

pub proof fn lemma_unused_wake(entries: Seq<Option<(u64, WaitKey)>>, from: int)
    requires
        0 <= from <= entries.len(),
    ensures
        match unused_wake_from(entries, from) {
            Some(i) => from <= i < entries.len() && entries[i] is None,
            None => true,
        },
    decreases entries.len() - from,
{
    if from < entries.len() && entries[from] is Some {
        lemma_unused_wake(entries, from + 1);
    }
}

proof fn lemma_noted(
    before: Seq<Option<(u64, WaitKey)>>,
    after: Seq<Option<(u64, WaitKey)>>,
    request_id: u64,
    i: int,
    from: int,
)
    requires
        0 <= from <= i < before.len(),
        after.len() == before.len(),
        forall|k: int| 0 <= k < before.len() && k != i ==> after[k] == before[k],
        forall|k: int| 0 <= k < i ==> !entry_of(#[trigger] before[k], request_id),
        entry_of(after[i], request_id),
    ensures
        wake_from(after, request_id, from) == Some(i),
    decreases i - from,
{
    if from < i {
        assert(after[from] == before[from]);
        assert(!entry_of(before[from], request_id));
        lemma_noted(before, after, request_id, i, from + 1);
    }
}

} // verus!
