//! Monotonic process and thread identifier allocation.

use vstd::prelude::*;

verus! {

#[derive(Clone, Copy, Debug, PartialEq, Eq, Structural)]
pub struct IdAllocator {
    pub next_pid: u64,
    pub next_tid: u64,
}

/// What taking an id does to the next one, and the id that is taken.
pub open spec fn id_taken(next: u64, exhausted: &'static str) -> (u64, Result<u64, &'static str>) {
    if next == u64::MAX {
        (next, Err(exhausted))
    } else {
        ((next + 1) as u64, Ok(next))
    }
}

/// The ids that `n` attempts to take one give.
pub open spec fn ids_taken(next: u64, n: nat) -> Seq<u64>
    decreases n,
{
    if n == 0 || next == u64::MAX {
        seq![]
    } else {
        seq![next] + ids_taken((next + 1) as u64, (n - 1) as nat)
    }
}

impl IdAllocator {
    pub fn new() -> (r: IdAllocator)
        ensures
            r.next_pid == 1,
            r.next_tid == 1,
    {
        IdAllocator { next_pid: 1, next_tid: 1 }
    }

    /// The next process id. Ids are not reused: once they run out there are no more.
    pub fn allocate_pid(&mut self) -> (r: Result<u64, &'static str>)
        ensures
            final(self).next_tid == old(self).next_tid,
            (final(self).next_pid, r) == id_taken(
                old(self).next_pid,
                "process id space exhausted; IDs are not reused",
            ),
    {
        let pid: u64 = self.next_pid;
        match self.next_pid.checked_add(1) {
            Some(next) => {
                self.next_pid = next;
                Ok(pid)
            },
            None => Err("process id space exhausted; IDs are not reused"),
        }
    }

    /// The next thread id. Ids are not reused: once they run out there are no more.
    pub fn allocate_tid(&mut self) -> (r: Result<u64, &'static str>)
        ensures
            final(self).next_pid == old(self).next_pid,
            (final(self).next_tid, r) == id_taken(
                old(self).next_tid,
                "thread id space exhausted; IDs are not reused",
            ),
    {
        let tid: u64 = self.next_tid;
        match self.next_tid.checked_add(1) {
            Some(next) => {
                self.next_tid = next;
                Ok(tid)
            },
            None => Err("thread id space exhausted; IDs are not reused"),
        }
    }
}

/// Ids are not reused: however many are taken, each is greater than all before it.
pub proof fn law_ids_increase(next: u64, n: nat, i: int, j: int)
    requires
        0 <= i < j < ids_taken(next, n).len(),
    ensures
        next <= ids_taken(next, n)[i] < ids_taken(next, n)[j],
    decreases n,
{
    let rest = ids_taken((next + 1) as u64, (n - 1) as nat);
    assert(ids_taken(next, n) == seq![next] + rest);
    lemma_ids_from((next + 1) as u64, (n - 1) as nat, j - 1);
    if i > 0 {
        law_ids_increase((next + 1) as u64, (n - 1) as nat, i - 1, j - 1);
    }
}

proof fn lemma_ids_from(next: u64, n: nat, i: int)
    requires
        0 <= i < ids_taken(next, n).len(),
    ensures
        next <= ids_taken(next, n)[i],
    decreases n,
{
    if i > 0 {
        lemma_ids_from((next + 1) as u64, (n - 1) as nat, i - 1);
    }
}

} // verus!
