//! The reference counts of open descriptions against the fds that refer to them.

use super::open_description::{
    allocated, description_of, lemma_free_slot, names_live, pool_wf, ref_added, DescriptorKind,
    OpenDescriptionId, OpenStatus, PoolModel, SocketRef,
};
use super::registry::{
    description_opened, dropped, duplicated_above, empty_from, ensured, fd_opened, inherited_by,
    instance_released, lemma_empty_from, lemma_table_from, pid_dropped_from, pid_from,
    socket_installed, table_from, with_table, FdRegistryModel, FdSlotModel,
};
use super::table::{
    cloexec_closed_from, closed, closed_from, console, console_status, duplicated, entry_at,
    inherited_from, lemma_fresh_ref, no_entries, opened_lowest, released_from, stdio_installed,
    FdEntries, FdEntry, FdFlags,
};
use crate::process::InstanceGeneration;
use crate::scan::{count, lemma_count_update, lemma_count_zero};
use vstd::prelude::*;

verus! {

/// Whether an fd entry refers to a description.
pub open spec fn refers(e: Option<FdEntry>, open: OpenDescriptionId) -> bool {
    e is Some && e->0.open == open
}

/// How many fds of a table refer to a description.
pub open spec fn table_refs(t: FdEntries, open: OpenDescriptionId) -> nat {
    count(t, |e: Option<FdEntry>| refers(e, open))
}

pub open spec fn slot_refs(s: Option<FdSlotModel>, open: OpenDescriptionId) -> nat {
    match s {
        None => 0,
        Some(slot) => table_refs(slot.entries, open),
    }
}

/// How many fds of all tables refer to a description.
pub open spec fn total_refs(slots: Seq<Option<FdSlotModel>>, open: OpenDescriptionId) -> nat
    decreases slots.len(),
{
    if slots.len() == 0 {
        0
    } else {
        total_refs(slots.drop_last(), open) + slot_refs(slots.last(), open)
    }
}

/// A description that `n` fds refer to is live and has at least `n` references, exactly `n` where
/// `exact` says so.
pub open spec fn counted(p: PoolModel, open: OpenDescriptionId, n: nat, exact: bool) -> bool {
    &&& n > 0 ==> names_live(p, open)
    &&& names_live(p, open) ==> if exact {
        description_of(p, open).refcount == n
    } else {
        description_of(p, open).refcount >= n
    }
}

pub open spec fn balanced_at(
    t: FdEntries,
    p: PoolModel,
    ext: spec_fn(OpenDescriptionId) -> nat,
    exact: bool,
    open: OpenDescriptionId,
) -> bool {
    counted(p, open, table_refs(t, open) + ext(open), exact)
}

/// Every description is counted for the fds of a table and `ext` fds elsewhere.
pub open spec fn balanced(
    t: FdEntries,
    p: PoolModel,
    ext: spec_fn(OpenDescriptionId) -> nat,
    exact: bool,
) -> bool {
    &&& pool_wf(p)
    &&& t.len() == 16
    &&& forall|open: OpenDescriptionId| #[trigger] balanced_at(t, p, ext, exact, open)
}

pub open spec fn registry_balanced_at(m: FdRegistryModel, exact: bool, open: OpenDescriptionId) -> bool {
    counted(m.pool, open, total_refs(m.slots, open), exact)
}

/// Every open fd refers to a live description whose references cover all fds that share it; with
/// `exact`, the references are those fds and nothing else.
pub open spec fn registry_balanced(m: FdRegistryModel, exact: bool) -> bool {
    &&& pool_wf(m.pool)
    &&& m.slots.len() == 8
    &&& forall|i: int|
        0 <= i < 8 && #[trigger] m.slots[i] is Some ==> m.slots[i]->0.entries.len() == 16
    &&& forall|open: OpenDescriptionId| #[trigger] registry_balanced_at(m, exact, open)
}

proof fn lemma_table_update(t: FdEntries, i: int, v: Option<FdEntry>, open: OpenDescriptionId)
    requires
        0 <= i < t.len(),
    ensures
        table_refs(t.update(i, v), open) == table_refs(t, open) + (if refers(v, open) {
            1int
        } else {
            0int
        }) - (if refers(t[i], open) {
            1int
        } else {
            0int
        }),
        refers(t[i], open) ==> table_refs(t, open) >= 1,
{
    let p = |e: Option<FdEntry>| refers(e, open);
    lemma_count_update(t, p, i, v);
    lemma_count_zero(t, p);
    if refers(t[i], open) {
        assert(p(t[i]));
    }
}

proof fn lemma_no_entries(open: OpenDescriptionId)
    ensures
        table_refs(no_entries(), open) == 0,
{
    lemma_count_zero(no_entries(), |e: Option<FdEntry>| refers(e, open));
}

proof fn lemma_total_update(
    slots: Seq<Option<FdSlotModel>>,
    i: int,
    s: Option<FdSlotModel>,
    open: OpenDescriptionId,
)
    requires
        0 <= i < slots.len(),
    ensures
        total_refs(slots.update(i, s), open) == total_refs(slots, open) - slot_refs(slots[i], open)
            + slot_refs(s, open),
        total_refs(slots, open) >= slot_refs(slots[i], open),
    decreases slots.len(),
{
    if i == slots.len() - 1 {
        assert(slots.update(i, s).drop_last() =~= slots.drop_last());
    } else {
        lemma_total_update(slots.drop_last(), i, s, open);
        assert(slots.update(i, s).drop_last() =~= slots.drop_last().update(i, s));
        assert(slots.update(i, s).last() == slots.last());
    }
}

/// The fds of all tables but the one at slot `i`.
pub open spec fn others(m: FdRegistryModel, i: int) -> spec_fn(OpenDescriptionId) -> nat {
    |open: OpenDescriptionId| (total_refs(m.slots, open) - slot_refs(m.slots[i], open)) as nat
}

proof fn lemma_split(m: FdRegistryModel, i: int, exact: bool)
    requires
        registry_balanced(m, exact),
        0 <= i < 8,
        m.slots[i] is Some,
    ensures
        balanced(m.slots[i]->0.entries, m.pool, others(m, i), exact),
{
    let t = m.slots[i]->0.entries;
    assert forall|open: OpenDescriptionId| #[trigger] balanced_at(
        t,
        m.pool,
        others(m, i),
        exact,
        open,
    ) by {
        assert(registry_balanced_at(m, exact, open));
        lemma_total_update(m.slots, i, m.slots[i], open);
    }
}

proof fn lemma_join(m: FdRegistryModel, i: int, t: FdEntries, p: PoolModel, exact: bool)
    requires
        m.slots.len() == 8,
        0 <= i < 8,
        m.slots[i] is Some,
        forall|k: int|
            0 <= k < 8 && #[trigger] m.slots[k] is Some ==> m.slots[k]->0.entries.len() == 16,
        balanced(t, p, others(m, i), exact),
    ensures
        registry_balanced(with_table(m, i, t, p), exact),
{
    let after = with_table(m, i, t, p);
    assert forall|open: OpenDescriptionId| #[trigger] registry_balanced_at(after, exact, open) by {
        assert(balanced_at(t, p, others(m, i), exact, open));
        lemma_total_update(m.slots, i, after.slots[i], open);
    }
}

proof fn lemma_drop(m: FdRegistryModel, i: int, t: FdEntries, p: PoolModel, exact: bool)
    requires
        m.slots.len() == 8,
        0 <= i < 8,
        m.slots[i] is Some,
        forall|k: int|
            0 <= k < 8 && #[trigger] m.slots[k] is Some ==> m.slots[k]->0.entries.len() == 16,
        balanced(t, p, others(m, i), exact),
        forall|open: OpenDescriptionId| #[trigger] table_refs(t, open) == 0,
    ensures
        registry_balanced(FdRegistryModel { slots: m.slots.update(i, None), pool: p }, exact),
{
    let after = FdRegistryModel { slots: m.slots.update(i, None), pool: p };
    assert forall|open: OpenDescriptionId| #[trigger] registry_balanced_at(after, exact, open) by {
        assert(balanced_at(t, p, others(m, i), exact, open));
        assert(table_refs(t, open) == 0);
        lemma_total_update(m.slots, i, None, open);
    }
}

/// Closing an open fd succeeds and keeps the references counted.
proof fn lemma_closed(
    t: FdEntries,
    p: PoolModel,
    ext: spec_fn(OpenDescriptionId) -> nat,
    exact: bool,
    fd: u64,
)
    requires
        balanced(t, p, ext, exact),
        entry_at(t, fd) is Some,
    ensures
        closed(t, p, fd).2 is Ok,
        balanced(closed(t, p, fd).0, closed(t, p, fd).1, ext, exact),
{
    let open = entry_at(t, fd)->0.open;
    let (t1, p1, r) = closed(t, p, fd);
    assert(balanced_at(t, p, ext, exact, open));
    lemma_table_update(t, fd as int, None, open);
    assert forall|o: OpenDescriptionId| #[trigger] balanced_at(t1, p1, ext, exact, o) by {
        assert(balanced_at(t, p, ext, exact, o));
        lemma_table_update(t, fd as int, None, o);
    }
}

/// Opening a closed fd on a live description keeps the references counted.
proof fn lemma_opened(
    t: FdEntries,
    p: PoolModel,
    ext: spec_fn(OpenDescriptionId) -> nat,
    exact: bool,
    i: int,
    entry: FdEntry,
)
    requires
        balanced(t, p, ext, exact),
        0 <= i < 16,
        t[i] is None,
        ref_added(p, entry.open).1 is Ok,
    ensures
        balanced(t.update(i, Some(entry)), ref_added(p, entry.open).0, ext, exact),
{
    let t1 = t.update(i, Some(entry));
    let p1 = ref_added(p, entry.open).0;
    assert forall|o: OpenDescriptionId| #[trigger] balanced_at(t1, p1, ext, exact, o) by {
        assert(balanced_at(t, p, ext, exact, o));
        lemma_table_update(t, i, Some(entry), o);
    }
}

proof fn lemma_closed_from(t: FdEntries, from: int)
    requires
        0 <= from <= t.len(),
    ensures
        closed_from(t, from) matches Some(i) ==> from <= i < t.len() && t[i] is None,
    decreases t.len() - from,
{
    if from < t.len() && t[from] is Some {
        lemma_closed_from(t, from + 1);
    }
}

proof fn lemma_duplicated(
    t: FdEntries,
    p: PoolModel,
    ext: spec_fn(OpenDescriptionId) -> nat,
    exact: bool,
    old_fd: u64,
    new_fd: u64,
)
    requires
        balanced(t, p, ext, exact),
    ensures
        balanced(
            duplicated(t, p, old_fd, new_fd).0,
            duplicated(t, p, old_fd, new_fd).1,
            ext,
            exact,
        ),
{
    if entry_at(t, old_fd) is Some && old_fd != new_fd {
        let entry = entry_at(t, old_fd)->0;
        let (t1, p1) = if entry_at(t, new_fd) is Some {
            lemma_closed(t, p, ext, exact, new_fd);
            (closed(t, p, new_fd).0, closed(t, p, new_fd).1)
        } else {
            (t, p)
        };
        if new_fd < t.len() && ref_added(p1, entry.open).1 is Ok {
            lemma_opened(
                t1,
                p1,
                ext,
                exact,
                new_fd as int,
                FdEntry { open: entry.open, flags: FdFlags { cloexec: false } },
            );
        }
    }
}

proof fn lemma_inherited(
    parent: FdEntries,
    child: FdEntries,
    p: PoolModel,
    ext: spec_fn(OpenDescriptionId) -> nat,
    exact: bool,
    from: int,
)
    requires
        balanced(child, p, ext, exact),
        parent.len() == 16,
        0 <= from <= 16,
        forall|i: int| from <= i < 16 ==> child[i] is None,
    ensures
        balanced(
            inherited_from(parent, child, p, from).0,
            inherited_from(parent, child, p, from).1,
            ext,
            exact,
        ),
    decreases 16 - from,
{
    if from < 16 {
        match parent[from] {
            None => lemma_inherited(parent, child, p, ext, exact, from + 1),
            Some(entry) => if ref_added(p, entry.open).1 is Ok {
                lemma_opened(child, p, ext, exact, from, entry);
                lemma_inherited(
                    parent,
                    child.update(from, Some(entry)),
                    ref_added(p, entry.open).0,
                    ext,
                    exact,
                    from + 1,
                );
            },
        }
    }
}

proof fn lemma_cloexec(
    t: FdEntries,
    p: PoolModel,
    ext: spec_fn(OpenDescriptionId) -> nat,
    exact: bool,
    from: int,
)
    requires
        balanced(t, p, ext, exact),
        0 <= from <= 16,
    ensures
        balanced(
            cloexec_closed_from(t, p, from).0,
            cloexec_closed_from(t, p, from).1,
            ext,
            exact,
        ),
        forall|i: int|
            0 <= i < 16 ==> (#[trigger] cloexec_closed_from(t, p, from).0[i]) == (if i >= from
                && t[i] is Some && t[i]->0.flags.cloexec {
                None
            } else {
                t[i]
            }),
    decreases 16 - from,
{
    if from < 16 {
        if t[from] is Some && t[from]->0.flags.cloexec {
            lemma_closed(t, p, ext, exact, from as u64);
            lemma_cloexec(
                closed(t, p, from as u64).0,
                closed(t, p, from as u64).1,
                ext,
                exact,
                from + 1,
            );
        } else {
            lemma_cloexec(t, p, ext, exact, from + 1);
        }
    }
}

proof fn lemma_released(
    t: FdEntries,
    p: PoolModel,
    ext: spec_fn(OpenDescriptionId) -> nat,
    exact: bool,
    from: int,
)
    requires
        balanced(t, p, ext, exact),
        0 <= from <= 16,
        forall|i: int| 0 <= i < from ==> t[i] is None,
    ensures
        released_from(t, p, from).2 is Ok,
        balanced(released_from(t, p, from).0, released_from(t, p, from).1, ext, exact),
        forall|i: int| 0 <= i < 16 ==> (#[trigger] released_from(t, p, from).0[i]) is None,
    decreases 16 - from,
{
    if from < 16 {
        if t[from] is None {
            lemma_released(t, p, ext, exact, from + 1);
        } else {
            lemma_closed(t, p, ext, exact, from as u64);
            lemma_released(
                closed(t, p, from as u64).0,
                closed(t, p, from as u64).1,
                ext,
                exact,
                from + 1,
            );
        }
    }
}

proof fn lemma_allocated(
    t: FdEntries,
    p: PoolModel,
    ext: spec_fn(OpenDescriptionId) -> nat,
    exact: bool,
    owner: u64,
    kind: DescriptorKind,
    status: OpenStatus,
)
    requires
        balanced(t, p, ext, exact),
    ensures
        balanced(t, allocated(p, owner, kind, status).0, ext, exact),
{
    lemma_free_slot(p.slots, 0);
    let p1 = allocated(p, owner, kind, status).0;
    assert forall|o: OpenDescriptionId| #[trigger] balanced_at(t, p1, ext, exact, o) by {
        assert(balanced_at(t, p, ext, exact, o));
    }
}

proof fn lemma_allocated_registry(
    m: FdRegistryModel,
    exact: bool,
    owner: u64,
    kind: DescriptorKind,
    status: OpenStatus,
)
    requires
        registry_balanced(m, exact),
    ensures
        registry_balanced(
            FdRegistryModel { slots: m.slots, pool: allocated(m.pool, owner, kind, status).0 },
            exact,
        ),
{
    lemma_free_slot(m.pool.slots, 0);
    let after = FdRegistryModel { slots: m.slots, pool: allocated(m.pool, owner, kind, status).0 };
    assert forall|o: OpenDescriptionId| #[trigger] registry_balanced_at(after, exact, o) by {
        assert(registry_balanced_at(m, exact, o));
    }
}

/// A registry without tables and without descriptions is balanced.
pub proof fn law_empty_registry_balanced(m: FdRegistryModel)
    requires
        pool_wf(m.pool),
        m.slots == Seq::new(8, |i: int| None::<FdSlotModel>),
        forall|i: int| 0 <= i < m.pool.slots.len() ==> !(#[trigger] m.pool.slots[i]).live,
    ensures
        registry_balanced(m, true),
{
    assert forall|o: OpenDescriptionId| #[trigger] registry_balanced_at(m, true, o) by {
        lemma_total_none(m.slots, o);
    }
}

proof fn lemma_total_none(slots: Seq<Option<FdSlotModel>>, open: OpenDescriptionId)
    requires
        forall|i: int| 0 <= i < slots.len() ==> #[trigger] slots[i] is None,
    ensures
        total_refs(slots, open) == 0,
    decreases slots.len(),
{
    if slots.len() > 0 {
        assert(slots[slots.len() - 1] is None);
        assert forall|i: int| 0 <= i < slots.drop_last().len() implies #[trigger] slots.drop_last()[i]
            is None by {
            assert(slots[i] is None);
        }
        lemma_total_none(slots.drop_last(), open);
    }
}

/// Closing an open fd succeeds and keeps the registry balanced.
pub proof fn law_close_keeps_balance(
    m: FdRegistryModel,
    exact: bool,
    pid: u64,
    generation: InstanceGeneration,
    fd: u64,
)
    requires
        registry_balanced(m, exact),
        table_from(m.slots, pid, generation, 0) is Some,
        entry_at(m.slots[table_from(m.slots, pid, generation, 0)->0]->0.entries, fd) is Some,
    ensures
        ({
            let i = table_from(m.slots, pid, generation, 0)->0;
            let (t, p, done) = closed(m.slots[i]->0.entries, m.pool, fd);
            done is Ok && registry_balanced(with_table(m, i, t, p), exact)
        }),
{
    lemma_table_from(m.slots, pid, generation, 0);
    let i = table_from(m.slots, pid, generation, 0)->0;
    lemma_split(m, i, exact);
    lemma_closed(m.slots[i]->0.entries, m.pool, others(m, i), exact, fd);
    let (t, p, done) = closed(m.slots[i]->0.entries, m.pool, fd);
    lemma_join(m, i, t, p, exact);
}

/// `dup2` keeps the registry balanced, whether or not it succeeds.
pub proof fn law_dup2_keeps_balance(
    m: FdRegistryModel,
    exact: bool,
    i: int,
    old_fd: u64,
    new_fd: u64,
)
    requires
        registry_balanced(m, exact),
        0 <= i < 8,
        m.slots[i] is Some,
    ensures
        ({
            let (t, p, done) = duplicated(m.slots[i]->0.entries, m.pool, old_fd, new_fd);
            registry_balanced(with_table(m, i, t, p), exact)
        }),
{
    lemma_split(m, i, exact);
    lemma_duplicated(m.slots[i]->0.entries, m.pool, others(m, i), exact, old_fd, new_fd);
    let (t, p, done) = duplicated(m.slots[i]->0.entries, m.pool, old_fd, new_fd);
    lemma_join(m, i, t, p, exact);
}

/// Duplicating to the lowest fd above a bound keeps the registry balanced.
pub proof fn law_dup_above_keeps_balance(
    m: FdRegistryModel,
    exact: bool,
    i: int,
    old_fd: u64,
    min_fd: u64,
)
    requires
        registry_balanced(m, exact),
        0 <= i < 8,
        m.slots[i] is Some,
    ensures
        ({
            let (t, p, done) = duplicated_above(m.slots[i]->0.entries, m.pool, old_fd, min_fd);
            registry_balanced(with_table(m, i, t, p), exact)
        }),
{
    lemma_split(m, i, exact);
    let t0 = m.slots[i]->0.entries;
    let (t, p, done) = duplicated_above(t0, m.pool, old_fd, min_fd);
    if done is Ok {
        let from = if min_fd < 16 {
            min_fd as int
        } else {
            0
        };
        lemma_closed_from(t0, from);
        lemma_opened(
            t0,
            m.pool,
            others(m, i),
            exact,
            closed_from(t0, from)->0,
            FdEntry { open: entry_at(t0, old_fd)->0.open, flags: FdFlags { cloexec: true } },
        );
    }
    lemma_join(m, i, t, p, exact);
}

/// Opening a description at the lowest closed fd keeps the registry balanced.
pub proof fn law_open_keeps_balance(
    m: FdRegistryModel,
    exact: bool,
    pid: u64,
    generation: InstanceGeneration,
    open: OpenDescriptionId,
    flags: FdFlags,
)
    requires
        registry_balanced(m, exact),
    ensures
        registry_balanced(fd_opened(m, pid, generation, open, flags).0, exact),
{
    lemma_table_from(m.slots, pid, generation, 0);
    if let Some(i) = table_from(m.slots, pid, generation, 0) {
        lemma_split(m, i, exact);
        let t0 = m.slots[i]->0.entries;
        let (t, p, done) = opened_lowest(t0, m.pool, open, flags);
        if done is Ok {
            lemma_closed_from(t0, 0);
            lemma_opened(
                t0,
                m.pool,
                others(m, i),
                exact,
                closed_from(t0, 0)->0,
                FdEntry { open, flags },
            );
        }
        lemma_join(m, i, t, p, exact);
    }
}

/// Making a description and opening it keeps the registry balanced.
pub proof fn law_new_description_keeps_balance(
    m: FdRegistryModel,
    exact: bool,
    pid: u64,
    generation: InstanceGeneration,
    kind: DescriptorKind,
    status: OpenStatus,
    flags: FdFlags,
)
    requires
        registry_balanced(m, exact),
    ensures
        registry_balanced(description_opened(m, pid, generation, kind, status, flags).0, exact),
{
    if table_from(m.slots, pid, generation, 0) is Some {
        let (p, made) = allocated(m.pool, pid, kind, status);
        lemma_allocated_registry(m, exact, pid, kind, status);
        if let Ok(open) = made {
            law_open_keeps_balance(
                FdRegistryModel { slots: m.slots, pool: p },
                exact,
                pid,
                generation,
                open,
                flags,
            );
        }
    }
}

/// Making room for a process instance's table keeps the registry balanced.
pub proof fn law_ensure_keeps_balance(
    m: FdRegistryModel,
    exact: bool,
    pid: u64,
    generation: InstanceGeneration,
)
    requires
        registry_balanced(m, exact),
    ensures
        registry_balanced(ensured(m, pid, generation).0, exact),
        ensured(m, pid, generation).1 matches Ok(i) ==> 0 <= i < 8 && ensured(
            m,
            pid,
            generation,
        ).0.slots[i] is Some,
{
    lemma_table_from(m.slots, pid, generation, 0);
    lemma_empty_from(m.slots, 0);
    let after = ensured(m, pid, generation).0;
    if pid != 0 && table_from(m.slots, pid, generation, 0) is None {
        if let Some(i) = empty_from(m.slots, 0) {
            assert forall|o: OpenDescriptionId| #[trigger] registry_balanced_at(
                after,
                exact,
                o,
            ) by {
                assert(registry_balanced_at(m, exact, o));
                lemma_total_update(m.slots, i, after.slots[i], o);
                lemma_no_entries(o);
            }
        }
    }
}

/// Inheriting into a table without open fds keeps the registry balanced, whether or not it succeeds.
pub proof fn law_inherit_keeps_balance(
    m: FdRegistryModel,
    exact: bool,
    parent_pid: u64,
    parent_gen: InstanceGeneration,
    child_pid: u64,
    child_gen: InstanceGeneration,
)
    requires
        registry_balanced(m, exact),
        table_from(m.slots, child_pid, child_gen, 0) is None,
    ensures
        registry_balanced(
            inherited_by(m, parent_pid, parent_gen, child_pid, child_gen).0,
            exact,
        ),
{
    lemma_table_from(m.slots, parent_pid, parent_gen, 0);
    lemma_empty_from(m.slots, 0);
    law_ensure_keeps_balance(m, exact, child_pid, child_gen);
    if let Some(i) = table_from(m.slots, parent_pid, parent_gen, 0) {
        let (m1, slot) = ensured(m, child_pid, child_gen);
        if let Ok(k) = slot {
            assert(m1.slots[k]->0.entries == no_entries());
            lemma_split(m1, k, exact);
            lemma_inherited(
                m.slots[i]->0.entries,
                no_entries(),
                m1.pool,
                others(m1, k),
                exact,
                0,
            );
            let (t, p, done) = inherited_from(m.slots[i]->0.entries, no_entries(), m1.pool, 0);
            lemma_join(m1, k, t, p, exact);
        }
    }
}

/// Closing the cloexec fds keeps the registry balanced, closes exactly those fds, and leaves every
/// other fd as it was.
pub proof fn law_exec_keeps_balance(m: FdRegistryModel, exact: bool, i: int)
    requires
        registry_balanced(m, exact),
        0 <= i < 8,
        m.slots[i] is Some,
    ensures
        ({
            let t0 = m.slots[i]->0.entries;
            let (t, p) = cloexec_closed_from(t0, m.pool, 0);
            &&& registry_balanced(with_table(m, i, t, p), exact)
            &&& forall|fd: int|
                0 <= fd < 16 ==> (#[trigger] t[fd]) == (if t0[fd] is Some
                    && t0[fd]->0.flags.cloexec {
                    None
                } else {
                    t0[fd]
                })
        }),
{
    lemma_split(m, i, exact);
    lemma_cloexec(m.slots[i]->0.entries, m.pool, others(m, i), exact, 0);
    let (t, p) = cloexec_closed_from(m.slots[i]->0.entries, m.pool, 0);
    lemma_join(m, i, t, p, exact);
}

/// Dropping a table closes all its fds and keeps the registry balanced.
pub proof fn law_drop_keeps_balance(m: FdRegistryModel, exact: bool, i: int)
    requires
        registry_balanced(m, exact),
        0 <= i < 8,
        m.slots[i] is Some,
    ensures
        released_from(m.slots[i]->0.entries, m.pool, 0).2 is Ok,
        registry_balanced(dropped(m, i), exact),
{
    lemma_split(m, i, exact);
    lemma_released(m.slots[i]->0.entries, m.pool, others(m, i), exact, 0);
    let (t, p, done) = released_from(m.slots[i]->0.entries, m.pool, 0);
    assert forall|o: OpenDescriptionId| #[trigger] table_refs(t, o) == 0 by {
        lemma_count_zero(t, |e: Option<FdEntry>| refers(e, o));
    }
    lemma_drop(m, i, t, p, exact);
}

pub proof fn lemma_pid_from(slots: Seq<Option<FdSlotModel>>, pid: u64, from: int)
    requires
        0 <= from <= slots.len(),
    ensures
        pid_from(slots, pid, from) matches Some(i) ==> from <= i < slots.len() && slots[i] is Some,
    decreases slots.len() - from,
{
    if from < slots.len() && !(slots[from] is Some && slots[from]->0.pid == pid) {
        lemma_pid_from(slots, pid, from + 1);
    }
}

/// Releasing a process instance keeps the registry balanced.
pub proof fn law_release_keeps_balance(
    m: FdRegistryModel,
    exact: bool,
    pid: u64,
    generation: InstanceGeneration,
)
    requires
        registry_balanced(m, exact),
    ensures
        registry_balanced(instance_released(m, pid, generation).0, exact),
{
    lemma_table_from(m.slots, pid, generation, 0);
    lemma_pid_from(m.slots, pid, 0);
    match table_from(m.slots, pid, generation, 0) {
        Some(i) => law_drop_keeps_balance(m, exact, i),
        None => if let Some(i) = pid_from(m.slots, pid, 0) {
            law_drop_keeps_balance(m, exact, i);
        },
    }
}

/// Dropping every table of a pid keeps the registry balanced.
pub proof fn law_pid_release_keeps_balance(m: FdRegistryModel, exact: bool, pid: u64, from: int)
    requires
        registry_balanced(m, exact),
        0 <= from <= 8,
    ensures
        registry_balanced(pid_dropped_from(m, pid, from), exact),
    decreases 8 - from,
{
    if from < 8 {
        if m.slots[from] is Some && m.slots[from]->0.pid == pid {
            law_drop_keeps_balance(m, exact, from);
            law_pid_release_keeps_balance(dropped(m, from), exact, pid, from + 1);
        } else {
            law_pid_release_keeps_balance(m, exact, pid, from + 1);
        }
    }
}

/// Once every table is gone, no description has references left: teardown leaks none that an fd ever
/// counted exactly.
pub proof fn law_teardown_leaves_no_references(m: FdRegistryModel, open: OpenDescriptionId)
    requires
        registry_balanced(m, true),
        forall|i: int| 0 <= i < 8 ==> #[trigger] m.slots[i] is None,
        names_live(m.pool, open),
    ensures
        description_of(m.pool, open).refcount == 0,
{
    lemma_total_none(m.slots, open);
    assert(registry_balanced_at(m, true, open));
}

/// Opening a socket keeps every fd covered; its description has one reference that no fd accounts
/// for.
pub proof fn law_socket_keeps_cover(
    m: FdRegistryModel,
    pid: u64,
    generation: InstanceGeneration,
    socket: SocketRef,
    nonblock: bool,
)
    requires
        registry_balanced(m, false),
    ensures
        registry_balanced(socket_installed(m, pid, generation, socket, nonblock).0, false),
{
    law_ensure_keeps_balance(m, false, pid, generation);
    let (m1, slot) = ensured(m, pid, generation);
    if slot is Ok {
        let status = OpenStatus {
            access: super::open_description::OpenAccess::ReadWrite,
            nonblock,
            append: false,
        };
        let kind = DescriptorKind::Socket(socket);
        let (p, made) = allocated(m1.pool, pid, kind, status);
        lemma_allocated_registry(m1, false, pid, kind, status);
        lemma_fresh_ref(m1.pool, pid, kind, status);
        if let Ok(open) = made {
            let m2 = FdRegistryModel { slots: m1.slots, pool: p };
            let m3 = FdRegistryModel { slots: m1.slots, pool: ref_added(p, open).0 };
            assert forall|o: OpenDescriptionId| #[trigger] registry_balanced_at(m3, false, o) by {
                assert(registry_balanced_at(m2, false, o));
            }
            law_open_keeps_balance(m3, false, pid, generation, open, FdFlags { cloexec: false });
        }
    }
}

/// Installing stdio keeps every fd covered. Over a table with open fds it keeps their references,
/// which no fd accounts for any more; over one without, an exact count stays exact.
pub proof fn law_install_keeps_cover(
    m: FdRegistryModel,
    exact: bool,
    i: int,
    pid: u64,
    stdout: u64,
    stderr: u64,
)
    requires
        registry_balanced(m, exact),
        0 <= i < 8,
        m.slots[i] is Some,
        exact ==> m.slots[i]->0.entries == no_entries(),
    ensures
        ({
            let (t, p, done) = stdio_installed(m.pool, pid, stdout, stderr);
            registry_balanced(with_table(m, i, t, p), exact)
        }),
{
    let ext = others(m, i);
    lemma_split(m, i, exact);
    let t0 = no_entries();
    assert(balanced(t0, m.pool, ext, exact)) by {
        assert forall|o: OpenDescriptionId| #[trigger] balanced_at(t0, m.pool, ext, exact, o) by {
            assert(balanced_at(m.slots[i]->0.entries, m.pool, ext, exact, o));
            lemma_no_entries(o);
        }
    }
    let (t, p, done) = stdio_installed(m.pool, pid, stdout, stderr);
    let (p1, out) = allocated(m.pool, pid, console(stdout), console_status());
    lemma_allocated(t0, m.pool, ext, exact, pid, console(stdout), console_status());
    lemma_fresh_ref(m.pool, pid, console(stdout), console_status());
    if let Ok(out_id) = out {
        let (p2, err) = allocated(p1, pid, console(stderr), console_status());
        lemma_allocated(t0, p1, ext, exact, pid, console(stderr), console_status());
        lemma_fresh_ref(p1, pid, console(stderr), console_status());
        if let Ok(err_id) = err {
            let flags = FdFlags { cloexec: false };
            assert(names_live(p1, out_id));
            assert(names_live(p2, out_id));
            lemma_opened(t0, p2, ext, exact, 1, FdEntry { open: out_id, flags });
            let t1 = t0.update(1, Some(FdEntry { open: out_id, flags }));
            let p3 = ref_added(p2, out_id).0;
            lemma_opened(t1, p3, ext, exact, 2, FdEntry { open: err_id, flags });
        }
    }
    lemma_join(m, i, t, p, exact);
}

} // verus!
