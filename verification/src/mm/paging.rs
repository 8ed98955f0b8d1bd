//! Page-table walks over captured page tables.

use super::region::{ReservedRange, MAX_RESERVED_RANGES};
use super::x86::{EntryFrameError, 
    address_of, entry_address, entry_flags, entry_frame, flags_contain, flags_of, frame_of,
    has_flags, is_canonical, lemma_address_of, p1_index, p2_index, p3_index, p4_index,
    FLAG_HUGE_PAGE, FLAG_NO_EXECUTE, FLAG_USER_ACCESSIBLE, FLAG_WRITABLE,
};
use super::{ONE_GIB, PAGE_SIZE, TWO_MIB};
use vstd::prelude::*;

verus! {

/// One page table: the frame that holds it and its entries.
#[derive(Clone, Copy, Debug, PartialEq, Eq)]
pub struct TableFrame {
    pub frame: u64,
    pub entries: [u64; 512],
}

/// The page tables in physical memory. A frame that is not listed holds unused entries only.
#[derive(Debug)]
pub struct TableMemory {
    pub tables: Vec<TableFrame>,
}

/// Flags found on the way to a mapped page.
#[derive(Clone, Copy, Debug, PartialEq, Eq, Structural)]
pub struct PageWalkFlags {
    /// Flags of all levels together.
    pub path: u64,
    /// Flags of the entry that maps the page.
    pub leaf: u64,
    pub all_levels_user_accessible: bool,
    pub all_levels_writable: bool,
}

/// The least index at or above `from` of the table in a frame.
pub open spec fn frame_from(tables: Seq<TableFrame>, frame: u64, from: int) -> Option<int>
    decreases tables.len() - from,
{
    if from < 0 || from >= tables.len() {
        None
    } else if tables[from].frame == frame {
        Some(from)
    } else {
        frame_from(tables, frame, from + 1)
    }
}

/// An entry of the table in a frame.
pub open spec fn entry_in(m: &TableMemory, frame: u64, index: int) -> u64 {
    match frame_from(m.tables@, frame, 0) {
        Some(i) => m.tables@[i].entries@[index],
        None => 0,
    }
}

/// The four indices of an address, level 4 first.
pub open spec fn index_4(address: u64) -> int {
    (address as int / 0x80_0000_0000) % 512
}

pub open spec fn index_3(address: u64) -> int {
    (address as int / 0x4000_0000) % 512
}

pub open spec fn index_2(address: u64) -> int {
    (address as int / 0x20_0000) % 512
}

pub open spec fn index_1(address: u64) -> int {
    (address as int / 0x1000) % 512
}

pub open spec fn user(raw: u64) -> bool {
    has_flags(flags_of(raw), FLAG_USER_ACCESSIBLE)
}

pub open spec fn writable(raw: u64) -> bool {
    has_flags(flags_of(raw), FLAG_WRITABLE)
}

pub open spec fn huge(raw: u64) -> bool {
    has_flags(flags_of(raw), FLAG_HUGE_PAGE)
}

pub open spec fn no_execute(raw: u64) -> bool {
    has_flags(flags_of(raw), FLAG_NO_EXECUTE)
}

/// Where a walk ends: the entries met, level 4 first, the last of them the one that maps the page.
pub open spec fn walk_path(m: &TableMemory, root: u64, address: u64) -> Result<
    Seq<u64>,
    &'static str,
> {
    let e4 = entry_in(m, root, index_4(address));
    if e4 == 0 {
        Err("virtual address was not backed by a valid level-4 entry")
    } else {
        match frame_of(e4) {
            Err(_) => Err("virtual address was not backed by a valid level-3 frame"),
            Ok(f3) => {
                let e3 = entry_in(m, f3, index_3(address));
                if e3 == 0 {
                    Err("virtual address was not backed by a valid level-3 entry")
                } else if huge(e3) {
                    Ok(seq![e4, e3])
                } else {
                    match frame_of(e3) {
                        Err(_) => Err("virtual address was not backed by a valid level-2 frame"),
                        Ok(f2) => {
                            let e2 = entry_in(m, f2, index_2(address));
                            if e2 == 0 {
                                Err("virtual address was not backed by a valid level-2 entry")
                            } else if huge(e2) {
                                Ok(seq![e4, e3, e2])
                            } else {
                                match frame_of(e2) {
                                    Err(_) => Err(
                                        "virtual address was not backed by a valid level-1 frame",
                                    ),
                                    Ok(f1) => {
                                        let e1 = entry_in(m, f1, index_1(address));
                                        if e1 == 0 {
                                            Err("virtual address was not mapped")
                                        } else {
                                            Ok(seq![e4, e3, e2, e1])
                                        }
                                    },
                                }
                            }
                        },
                    }
                }
            },
        }
    }
}

/// Whether a walk reads the table in a frame.
pub open spec fn on_walk(m: &TableMemory, root: u64, address: u64, frame: u64) -> bool {
    let e4 = entry_in(m, root, index_4(address));
    ||| frame == root
    ||| e4 != 0 && match frame_of(e4) {
        Err(_) => false,
        Ok(f3) => {
            let e3 = entry_in(m, f3, index_3(address));
            ||| frame == f3
            ||| e3 != 0 && !huge(e3) && match frame_of(e3) {
                Err(_) => false,
                Ok(f2) => {
                    let e2 = entry_in(m, f2, index_2(address));
                    ||| frame == f2
                    ||| e2 != 0 && !huge(e2) && frame_of(e2) == Ok::<u64, EntryFrameError>(frame)
                },
            }
        },
    }
}

/// A walk finds the same where the tables that it reads are the same.
pub proof fn lemma_walk_agrees(a: &TableMemory, b: &TableMemory, root: u64, address: u64)
    requires
        forall|frame: u64, index: int|
            on_walk(a, root, address, frame) && 0 <= index < 512 ==> #[trigger] entry_in(
                b,
                frame,
                index,
            ) == entry_in(a, frame, index),
    ensures
        walk_path(a, root, address) == walk_path(b, root, address),
{
    assert(on_walk(a, root, address, root));
    let e4 = entry_in(a, root, index_4(address));
    assert(entry_in(b, root, index_4(address)) == e4);
    if e4 != 0 && frame_of(e4) is Ok {
        let f3 = frame_of(e4)->Ok_0;
        assert(on_walk(a, root, address, f3));
        let e3 = entry_in(a, f3, index_3(address));
        assert(entry_in(b, f3, index_3(address)) == e3);
        if e3 != 0 && !huge(e3) && frame_of(e3) is Ok {
            let f2 = frame_of(e3)->Ok_0;
            assert(on_walk(a, root, address, f2));
            let e2 = entry_in(a, f2, index_2(address));
            assert(entry_in(b, f2, index_2(address)) == e2);
            if e2 != 0 && !huge(e2) && frame_of(e2) is Ok {
                let f1 = frame_of(e2)->Ok_0;
                assert(on_walk(a, root, address, f1));
                assert(entry_in(b, f1, index_1(address)) == entry_in(a, f1, index_1(address)));
            }
        }
    }
}

/// The flags of all entries together.
pub open spec fn path_flags(path: Seq<u64>) -> u64
    decreases path.len(),
{
    if path.len() == 0 {
        0
    } else if path.len() == 1 {
        flags_of(path[0])
    } else {
        path_flags(path.drop_last()) | flags_of(path.last())
    }
}

/// What a walk reports of the entries that it met.
pub open spec fn walk_report(path: Seq<u64>) -> PageWalkFlags {
    PageWalkFlags {
        path: path_flags(path),
        leaf: flags_of(path.last()),
        all_levels_user_accessible: forall|i: int| 0 <= i < path.len() ==> user(#[trigger] path[i]),
        all_levels_writable: forall|i: int| 0 <= i < path.len() ==> writable(#[trigger] path[i]),
    }
}

pub open spec fn walked(m: &TableMemory, root: u64, address: u64) -> Result<
    PageWalkFlags,
    &'static str,
> {
    match walk_path(m, root, address) {
        Ok(path) => Ok(walk_report(path)),
        Err(e) => Err(e),
    }
}

/// The physical address behind a virtual one; within a huge page the offset counts, within a 4 KiB
/// page it is the page's.
pub open spec fn leaf_address(m: &TableMemory, root: u64, address: u64) -> Result<
    u64,
    &'static str,
> {
    match walk_path(m, root, address) {
        Err(e) => Err(e),
        Ok(path) => if path.len() == 2 {
            Ok((address_of(path[1]) + address % ONE_GIB) as u64)
        } else if path.len() == 3 {
            Ok((address_of(path[2]) + address % TWO_MIB) as u64)
        } else {
            Ok(address_of(path[3]))
        },
    }
}

impl TableMemory {
    /// An entry of the table in a frame.
    pub fn entry(&self, frame: u64, index: usize) -> (r: u64)
        requires
            index < 512,
        ensures
            r == entry_in(self, frame, index as int),
    {
        let mut i: usize = 0;
        while i < self.tables.len()
            invariant
                0 <= i <= self.tables@.len(),
                index < 512,
                frame_from(self.tables@, frame, 0) == frame_from(self.tables@, frame, i as int),
            decreases self.tables@.len() - i,
        {
            if self.tables[i].frame == frame {
                return self.tables[i].entries[index];
            }
            i += 1;
        }
        0
    }

    /// Puts a table into a frame.
    pub fn set_table(&mut self, frame: u64, entries: [u64; 512])
        ensures
            forall|f: u64, index: int|
                0 <= index < 512 ==> #[trigger] entry_in(final(self), f, index) == (if f == frame {
                    entries@[index]
                } else {
                    entry_in(old(self), f, index)
                }),
    {
        let ghost before = self.tables@;
        let mut i: usize = 0;
        while i < self.tables.len()
            invariant
                0 <= i <= self.tables@.len(),
                self.tables@ == before,
                before == old(self).tables@,
                forall|k: int| 0 <= k < i ==> (#[trigger] before[k]).frame != frame,
            decreases self.tables@.len() - i,
        {
            if self.tables[i].frame == frame {
                let table = TableFrame { frame, entries };
                self.tables.set(i, table);
                proof {
                    assert forall|f: u64, index: int| 0 <= index < 512 implies #[trigger] entry_in(
                        self,
                        f,
                        index,
                    ) == (if f == frame {
                        entries@[index]
                    } else {
                        entry_in(old(self), f, index)
                    }) by {
                        lemma_frames_same(before, self.tables@, f, 0);
                        lemma_frame_found(self.tables@, frame, i as int, 0);
                        lemma_frame_from(self.tables@, f, 0);
                    }
                }
                return;
            }
            i += 1;
        }
        self.tables.push(TableFrame { frame, entries });
        proof {
            let n = before.len() as int;
            assert forall|f: u64, index: int| 0 <= index < 512 implies #[trigger] entry_in(
                self,
                f,
                index,
            ) == (if f == frame {
                entries@[index]
            } else {
                entry_in(old(self), f, index)
            }) by {
                lemma_frame_found(self.tables@, frame, n, 0);
                lemma_frame_pushed(before, self.tables@, f, 0);
                lemma_frame_from(before, f, 0);
            }
        }
    }
}

proof fn lemma_frame_from(tables: Seq<TableFrame>, frame: u64, from: int)
    requires
        0 <= from <= tables.len(),
    ensures
        frame_from(tables, frame, from) matches Some(i) ==> from <= i < tables.len()
            && tables[i].frame == frame,
    decreases tables.len() - from,
{
    if from < tables.len() && tables[from].frame != frame {
        lemma_frame_from(tables, frame, from + 1);
    }
}

proof fn lemma_frame_found(tables: Seq<TableFrame>, frame: u64, i: int, from: int)
    requires
        0 <= from <= i < tables.len(),
        tables[i].frame == frame,
        forall|k: int| 0 <= k < i ==> (#[trigger] tables[k]).frame != frame,
    ensures
        frame_from(tables, frame, from) == Some(i),
    decreases i - from,
{
    if from < i {
        lemma_frame_found(tables, frame, i, from + 1);
    }
}

proof fn lemma_frames_same(a: Seq<TableFrame>, b: Seq<TableFrame>, frame: u64, from: int)
    requires
        a.len() == b.len(),
        0 <= from <= a.len(),
        forall|k: int| 0 <= k < a.len() ==> (#[trigger] a[k]).frame == b[k].frame,
    ensures
        frame_from(a, frame, from) == frame_from(b, frame, from),
    decreases a.len() - from,
{
    if from < a.len() {
        assert(a[from].frame == b[from].frame);
        lemma_frames_same(a, b, frame, from + 1);
    }
}

proof fn lemma_frame_pushed(a: Seq<TableFrame>, b: Seq<TableFrame>, frame: u64, from: int)
    requires
        b.len() == a.len() + 1,
        0 <= from <= a.len(),
        forall|k: int| 0 <= k < a.len() ==> (#[trigger] a[k]) == b[k],
    ensures
        b[a.len() as int].frame != frame ==> frame_from(a, frame, from) == frame_from(
            b,
            frame,
            from,
        ),
    decreases a.len() - from,
{
    if from < a.len() {
        assert(a[from] == b[from]);
        lemma_frame_pushed(a, b, frame, from + 1);
    } else {
        reveal_with_fuel(frame_from, 3);
    }
}

/// The entries met on a walk, level 4 first.
fn walk_entries(m: &TableMemory, root: u64, address: u64) -> (r: Result<Vec<u64>, &'static str>)
    requires
        is_canonical(address),
    ensures
        match walk_path(m, root, address) {
            Ok(path) => r is Ok && r->Ok_0@ == path && 2 <= path.len() <= 4,
            Err(e) => r == Err::<Vec<u64>, &'static str>(e),
        },
{
    let mut path: Vec<u64> = Vec::new();
    let e4: u64 = m.entry(root, p4_index(address));
    if e4 == 0 {
        return Err("virtual address was not backed by a valid level-4 entry");
    }
    let f3: u64 = match entry_frame(e4) {
        Ok(frame) => frame,
        Err(_) => return Err("virtual address was not backed by a valid level-3 frame"),
    };
    path.push(e4);
    let e3: u64 = m.entry(f3, p3_index(address));
    if e3 == 0 {
        return Err("virtual address was not backed by a valid level-3 entry");
    }
    path.push(e3);
    if flags_contain(entry_flags(e3), FLAG_HUGE_PAGE) {
        assert(path@ =~= seq![e4, e3]);
        return Ok(path);
    }
    let f2: u64 = match entry_frame(e3) {
        Ok(frame) => frame,
        Err(_) => return Err("virtual address was not backed by a valid level-2 frame"),
    };
    let e2: u64 = m.entry(f2, p2_index(address));
    if e2 == 0 {
        return Err("virtual address was not backed by a valid level-2 entry");
    }
    path.push(e2);
    if flags_contain(entry_flags(e2), FLAG_HUGE_PAGE) {
        assert(path@ =~= seq![e4, e3, e2]);
        return Ok(path);
    }
    let f1: u64 = match entry_frame(e2) {
        Ok(frame) => frame,
        Err(_) => return Err("virtual address was not backed by a valid level-1 frame"),
    };
    let e1: u64 = m.entry(f1, p1_index(address));
    if e1 == 0 {
        return Err("virtual address was not mapped");
    }
    path.push(e1);
    assert(path@ =~= seq![e4, e3, e2, e1]);
    Ok(path)
}

/// Walks to the page that holds an address and reports the flags on the way.
pub fn walk_page_flags_in_root(m: &TableMemory, root_frame: u64, address: u64) -> (r: Result<
    PageWalkFlags,
    &'static str,
>)
    requires
        is_canonical(address),
    ensures
        r == walked(m, root_frame, address),
{
    let entries = match walk_entries(m, root_frame, address) {
        Ok(entries) => entries,
        Err(e) => return Err(e),
    };
    let ghost path = entries@;
    let n: usize = entries.len();
    let mut flags: u64 = entry_flags(entries[0]);
    let mut all_user: bool = flags_contain(flags, FLAG_USER_ACCESSIBLE);
    let mut all_writable: bool = flags_contain(flags, FLAG_WRITABLE);
    let mut i: usize = 1;
    assert(path.take(1).len() == 1 && path.take(1)[0] == path[0]);
    while i < n
        invariant
            1 <= i <= n,
            n == path.len(),
            entries@ == path,
            flags == path_flags(path.take(i as int)),
            all_user == forall|k: int| 0 <= k < i ==> user(#[trigger] path[k]),
            all_writable == forall|k: int| 0 <= k < i ==> writable(#[trigger] path[k]),
        decreases n - i,
    {
        let level: u64 = entry_flags(entries[i]);
        proof {
            let next = path.take(i + 1);
            assert(next.drop_last() =~= path.take(i as int));
            assert(next.last() == path[i as int]);
            assert(next.len() > 1);
        }
        flags = flags | level;
        all_user = all_user && flags_contain(level, FLAG_USER_ACCESSIBLE);
        all_writable = all_writable && flags_contain(level, FLAG_WRITABLE);
        i += 1;
    }
    assert(path.take(i as int) =~= path);
    Ok(
        PageWalkFlags {
            path: flags,
            leaf: entry_flags(entries[n - 1]),
            all_levels_user_accessible: all_user,
            all_levels_writable: all_writable,
        },
    )
}

/// The flags of all levels on the way to an address.
pub fn page_flags_for_address_in_root(m: &TableMemory, root_frame: u64, address: u64) -> (r: Result<
    u64,
    &'static str,
>)
    requires
        is_canonical(address),
    ensures
        r == match walked(m, root_frame, address) {
            Ok(walk) => Ok::<u64, &'static str>(walk.path),
            Err(e) => Err(e),
        },
{
    match walk_page_flags_in_root(m, root_frame, address) {
        Ok(walk) => Ok(walk.path),
        Err(e) => Err(e),
    }
}

/// The flags of the entry that maps an address.
pub fn leaf_page_flags_for_address_in_root(m: &TableMemory, root_frame: u64, address: u64) -> (r:
    Result<u64, &'static str>)
    requires
        is_canonical(address),
    ensures
        r == match walked(m, root_frame, address) {
            Ok(walk) => Ok::<u64, &'static str>(walk.leaf),
            Err(e) => Err(e),
        },
{
    match walk_page_flags_in_root(m, root_frame, address) {
        Ok(walk) => Ok(walk.leaf),
        Err(e) => Err(e),
    }
}

/// Physical address of the mapped leaf frame (handles 2 MiB and 1 GiB huge leaves).
pub fn leaf_phys_addr_for_address_in_root(m: &TableMemory, root_frame: u64, address: u64) -> (r:
    Result<u64, &'static str>)
    requires
        is_canonical(address),
    ensures
        r == leaf_address(m, root_frame, address),
{
    let entries = match walk_entries(m, root_frame, address) {
        Ok(entries) => entries,
        Err(e) => return Err(e),
    };
    let n: usize = entries.len();
    let leaf: u64 = entries[n - 1];
    proof {
        lemma_address_of(leaf);
    }
    if n == 2 {
        Ok(entry_address(leaf) + address % ONE_GIB)
    } else if n == 3 {
        Ok(entry_address(leaf) + address % TWO_MIB)
    } else {
        Ok(entry_address(leaf))
    }
}

/// The level-2 table on the way to an address.
pub open spec fn level2_table(m: &TableMemory, root: u64, address: u64) -> Result<
    u64,
    &'static str,
> {
    let e4 = entry_in(m, root, index_4(address));
    if e4 == 0 {
        Err("virtual address was not backed by a valid level-4 entry")
    } else {
        match frame_of(e4) {
            Err(_) => Err("virtual address was not backed by a valid level-3 frame"),
            Ok(f3) => {
                let e3 = entry_in(m, f3, index_3(address));
                if e3 == 0 {
                    Err("virtual address was not backed by a valid level-3 entry")
                } else if huge(e3) {
                    Err("virtual address was not backed by a page directory")
                } else {
                    match frame_of(e3) {
                        Err(_) => Err("virtual address was not backed by a valid level-2 frame"),
                        Ok(f2) => Ok(f2),
                    }
                }
            },
        }
    }
}

/// Physical frame of the level-2 table used for a 4 KiB mapping (not a huge leaf).
pub fn level2_table_frame_for_address_in_root(m: &TableMemory, root_frame: u64, address: u64) -> (r:
    Result<u64, &'static str>)
    requires
        is_canonical(address),
    ensures
        r == level2_table(m, root_frame, address),
{
    let e4: u64 = m.entry(root_frame, p4_index(address));
    if e4 == 0 {
        return Err("virtual address was not backed by a valid level-4 entry");
    }
    let f3: u64 = match entry_frame(e4) {
        Ok(frame) => frame,
        Err(_) => return Err("virtual address was not backed by a valid level-3 frame"),
    };
    let e3: u64 = m.entry(f3, p3_index(address));
    if e3 == 0 {
        return Err("virtual address was not backed by a valid level-3 entry");
    }
    if flags_contain(entry_flags(e3), FLAG_HUGE_PAGE) {
        return Err("virtual address was not backed by a page directory");
    }
    match entry_frame(e3) {
        Ok(frame) => Ok(frame),
        Err(_) => Err("virtual address was not backed by a valid level-2 frame"),
    }
}

/// Whether the directory levels on the way to an address allow execution.
pub open spec fn directory_path_executable(m: &TableMemory, root: u64, address: u64) -> Result<
    (),
    &'static str,
> {
    let e4 = entry_in(m, root, index_4(address));
    if e4 == 0 {
        Err("carve-out walk missing level-4 entry")
    } else if no_execute(e4) {
        Err("carve-out walk found NX on level-4 entry")
    } else {
        match frame_of(e4) {
            Err(_) => Err("carve-out walk missing level-3 frame"),
            Ok(f3) => {
                let e3 = entry_in(m, f3, index_3(address));
                if e3 == 0 {
                    Err("carve-out walk missing level-3 entry")
                } else if no_execute(e3) {
                    Err("carve-out walk found NX on level-3 entry")
                } else if huge(e3) {
                    Ok(())
                } else {
                    match frame_of(e3) {
                        Err(_) => Err("carve-out walk missing level-2 frame"),
                        Ok(f2) => {
                            let e2 = entry_in(m, f2, index_2(address));
                            if e2 == 0 {
                                Err("carve-out walk missing level-2 entry")
                            } else if no_execute(e2) {
                                Err("carve-out walk found NX on level-2 entry")
                            } else {
                                Ok(())
                            }
                        },
                    }
                }
            },
        }
    }
}

/// Ensures directory levels on the walk to `address` do not carry NX.
pub fn assert_carve_out_directory_path_has_no_nx(m: &TableMemory, root_frame: u64, address: u64) -> (r:
    Result<(), &'static str>)
    requires
        is_canonical(address),
    ensures
        r == directory_path_executable(m, root_frame, address),
{
    let e4: u64 = m.entry(root_frame, p4_index(address));
    if e4 == 0 {
        return Err("carve-out walk missing level-4 entry");
    }
    if flags_contain(entry_flags(e4), FLAG_NO_EXECUTE) {
        return Err("carve-out walk found NX on level-4 entry");
    }
    let f3: u64 = match entry_frame(e4) {
        Ok(frame) => frame,
        Err(_) => return Err("carve-out walk missing level-3 frame"),
    };
    let e3: u64 = m.entry(f3, p3_index(address));
    if e3 == 0 {
        return Err("carve-out walk missing level-3 entry");
    }
    if flags_contain(entry_flags(e3), FLAG_NO_EXECUTE) {
        return Err("carve-out walk found NX on level-3 entry");
    }
    if flags_contain(entry_flags(e3), FLAG_HUGE_PAGE) {
        return Ok(());
    }
    let f2: u64 = match entry_frame(e3) {
        Ok(frame) => frame,
        Err(_) => return Err("carve-out walk missing level-2 frame"),
    };
    let e2: u64 = m.entry(f2, p2_index(address));
    if e2 == 0 {
        return Err("carve-out walk missing level-2 entry");
    }
    if flags_contain(entry_flags(e2), FLAG_NO_EXECUTE) {
        return Err("carve-out walk found NX on level-2 entry");
    }
    Ok(())
}

/// The page-table frames on the way to a kernel address, and why the walk stopped short if it did.
pub open spec fn mapping_tables(m: &TableMemory, root: u64, address: u64) -> (
    Seq<u64>,
    Option<&'static str>,
) {
    let e4 = entry_in(m, root, index_4(address));
    match frame_of(e4) {
        Err(_) => (
            seq![root],
            Some("kernel address was not backed by a valid level-3 page-table frame"),
        ),
        Ok(f3) => {
            let e3 = entry_in(m, f3, index_3(address));
            if huge(e3) {
                (seq![root, f3], None)
            } else {
                match frame_of(e3) {
                    Err(_) => (
                        seq![root, f3],
                        Some("kernel address was not backed by a valid level-2 page-table frame"),
                    ),
                    Ok(f2) => {
                        let e2 = entry_in(m, f2, index_2(address));
                        if huge(e2) {
                            (seq![root, f3, f2], None)
                        } else {
                            match frame_of(e2) {
                                Err(_) => (
                                    seq![root, f3, f2],
                                    Some(
                                        "kernel address was not backed by a valid level-1 page-table frame",
                                    ),
                                ),
                                Ok(f1) => (seq![root, f3, f2, f1], None),
                            }
                        }
                    },
                }
            }
        },
    }
}

/// The range of one page-table frame.
pub open spec fn table_range(frame: u64) -> ReservedRange {
    ReservedRange { start: frame, end: (frame + PAGE_SIZE) as u64 }
}

/// The reserved ranges after those of `frames` were appended, as many as fit, and whether all did.
pub open spec fn ranges_reserved(ranges: Seq<ReservedRange>, frames: Seq<u64>) -> (
    Seq<ReservedRange>,
    bool,
)
    decreases frames.len(),
{
    if frames.len() == 0 {
        (ranges, true)
    } else {
        let (before, fits) = ranges_reserved(ranges, frames.drop_last());
        if fits && before.len() < MAX_RESERVED_RANGES {
            (before.push(table_range(frames.last())), true)
        } else {
            (before, false)
        }
    }
}

/// Appends the range of one page-table frame.
fn reserve_table(ranges: &mut Vec<ReservedRange>, frame: u64) -> (r: Result<(), &'static str>)
    requires
        frame % 4096 == 0,
        frame <= 0x000f_ffff_ffff_f000,
    ensures
        if old(ranges)@.len() < MAX_RESERVED_RANGES {
            r is Ok && final(ranges)@ == old(ranges)@.push(table_range(frame))
        } else {
            r == Err::<(), &'static str>("reserved range capacity exceeded") && final(ranges)@
                == old(ranges)@
        },
{
    if ranges.len() >= MAX_RESERVED_RANGES {
        return Err("reserved range capacity exceeded");
    }
    let range = ReservedRange::from_base_and_size(frame, PAGE_SIZE);
    assert(range == table_range(frame));
    ranges.push(range);
    Ok(())
}

/// Reserves the page tables on the way to a kernel address.
pub fn reserve_mapping_page_tables(
    m: &TableMemory,
    root_frame: u64,
    ranges: &mut Vec<ReservedRange>,
    virtual_address: u64,
) -> (r: Result<(), &'static str>)
    requires
        is_canonical(virtual_address),
        root_frame % 4096 == 0,
        root_frame <= 0x000f_ffff_ffff_f000,
    ensures
        ({
            let (frames, stopped) = mapping_tables(m, root_frame, virtual_address);
            let (after, fits) = ranges_reserved(old(ranges)@, frames);
            &&& final(ranges)@ == after
            &&& r == (if !fits {
                Err::<(), &'static str>("reserved range capacity exceeded")
            } else {
                match stopped {
                    None => Ok(()),
                    Some(e) => Err(e),
                }
            })
        }),
{
    let ghost before = ranges@;
    proof {
        reveal_with_fuel(ranges_reserved, 5);
    }
    let e4: u64 = m.entry(root_frame, p4_index(virtual_address));
    let ghost (frames, stopped) = mapping_tables(m, root_frame, virtual_address);
    assert(seq![root_frame].drop_last() =~= Seq::<u64>::empty());
    proof {
        lemma_prefix_reserved(before, frames, 1);
    }
    match reserve_table(ranges, root_frame) {
        Ok(()) => {},
        Err(e) => {
            proof {
                lemma_reserved_stuck(before, frames, 1);
            }
            return Err(e);
        },
    }
    assert(ranges@ == ranges_reserved(before, frames.take(1)).0);
    let f3: u64 = match entry_frame(e4) {
        Ok(frame) => frame,
        Err(_) => {
            assert(frames.take(1) =~= frames);
            return Err("kernel address was not backed by a valid level-3 page-table frame");
        },
    };
    proof {
        lemma_address_of(e4);
        lemma_prefix_reserved(before, frames, 2);
    }
    match reserve_table(ranges, f3) {
        Ok(()) => {},
        Err(e) => {
            proof {
                lemma_reserved_stuck(before, frames, 2);
            }
            return Err(e);
        },
    }
    assert(ranges@ == ranges_reserved(before, frames.take(2)).0);
    let e3: u64 = m.entry(f3, p3_index(virtual_address));
    if flags_contain(entry_flags(e3), FLAG_HUGE_PAGE) {
        assert(frames.take(2) =~= frames);
        return Ok(());
    }
    let f2: u64 = match entry_frame(e3) {
        Ok(frame) => frame,
        Err(_) => {
            assert(frames.take(2) =~= frames);
            return Err("kernel address was not backed by a valid level-2 page-table frame");
        },
    };
    proof {
        lemma_address_of(e3);
        lemma_prefix_reserved(before, frames, 3);
    }
    match reserve_table(ranges, f2) {
        Ok(()) => {},
        Err(e) => {
            proof {
                lemma_reserved_stuck(before, frames, 3);
            }
            return Err(e);
        },
    }
    assert(ranges@ == ranges_reserved(before, frames.take(3)).0);
    let e2: u64 = m.entry(f2, p2_index(virtual_address));
    if flags_contain(entry_flags(e2), FLAG_HUGE_PAGE) {
        assert(frames.take(3) =~= frames);
        return Ok(());
    }
    let f1: u64 = match entry_frame(e2) {
        Ok(frame) => frame,
        Err(_) => {
            assert(frames.take(3) =~= frames);
            return Err("kernel address was not backed by a valid level-1 page-table frame");
        },
    };
    proof {
        lemma_address_of(e2);
        lemma_prefix_reserved(before, frames, 4);
    }
    match reserve_table(ranges, f1) {
        Ok(()) => {},
        Err(e) => {
            proof {
                lemma_reserved_stuck(before, frames, 4);
            }
            return Err(e);
        },
    }
    assert(frames.take(4) =~= frames);
    Ok(())
}

proof fn lemma_prefix_reserved(ranges: Seq<ReservedRange>, frames: Seq<u64>, k: int)
    requires
        0 < k <= frames.len(),
    ensures
        frames.take(k).drop_last() == frames.take(k - 1),
        frames.take(k).last() == frames[k - 1],
        ranges_reserved(ranges, frames.take(0)) == (ranges, true),
{
    assert(frames.take(k).drop_last() =~= frames.take(k - 1));
    assert(frames.take(0) =~= Seq::<u64>::empty());
}

proof fn lemma_reserved_stuck(ranges: Seq<ReservedRange>, frames: Seq<u64>, k: int)
    requires
        0 < k <= frames.len(),
        !ranges_reserved(ranges, frames.take(k)).1,
    ensures
        ranges_reserved(ranges, frames) == (ranges_reserved(ranges, frames.take(k)).0, false),
    decreases frames.len() - k,
{
    if k == frames.len() {
        assert(frames.take(k) =~= frames);
    } else {
        assert(frames.take(k + 1).drop_last() =~= frames.take(k));
        lemma_reserved_stuck(ranges, frames, k + 1);
    }
}

/// A page is user accessible only if every level says so: a level without the user bit makes the
/// walk report that not all levels are.
pub proof fn law_user_access_needs_every_level(path: Seq<u64>, level: int)
    requires
        0 <= level < path.len(),
        !user(path[level]),
    ensures
        !walk_report(path).all_levels_user_accessible,
{
}

} // verus!
