//! How addresses are translated.

use super::paging::{
    directory_path_executable, entry_in, index_1, index_2, index_3, index_4, leaf_address,
    level2_table, mapping_tables, no_execute, user, walk_path, walked, writable, TableMemory,
};
use super::user_mapping::{userspace_mappings, RELEVANT_LEAF_FLAGS};
use super::x86::has_flags;
use vstd::prelude::*;

verus! {

/// The four indices and the offset of a user address make it up, so that two addresses with the same ones
/// are the same.
pub proof fn law_indices_make_up_the_address(address: u64, other: u64)
    requires
        address < 0x1_0000_0000_0000,
        other < 0x1_0000_0000_0000,
    ensures
        address == index_4(address) * 0x80_0000_0000 + index_3(address) * 0x4000_0000 + index_2(
            address,
        ) * 0x20_0000 + index_1(address) * 0x1000 + address % 0x1000,
        0 <= index_4(address) < 512 && 0 <= index_3(address) < 512 && 0 <= index_2(address) < 512
            && 0 <= index_1(address) < 512,
        index_4(address) == index_4(other) && index_3(address) == index_3(other) && index_2(address)
            == index_2(other) && index_1(address) == index_1(other) ==> address - address % 0x1000
            == other - other % 0x1000,
{
    lemma_made_up(address);
    lemma_made_up(other);
}

/// Each larger page holds 512 of the next smaller.
proof fn lemma_coarser(x: int)
    requires
        0 <= x,
    ensures
        x / 0x20_0000 == (x / 0x1000) / 512,
        x / 0x4000_0000 == (x / 0x20_0000) / 512,
        x / 0x80_0000_0000 == (x / 0x4000_0000) / 512,
{
    vstd::arithmetic::div_mod::lemma_div_denominator(x, 0x1000, 512);
    vstd::arithmetic::div_mod::lemma_div_denominator(x, 0x20_0000, 512);
    vstd::arithmetic::div_mod::lemma_div_denominator(x, 0x4000_0000, 512);
}

proof fn lemma_made_up(address: u64)
    requires
        address < 0x1_0000_0000_0000,
    ensures
        address == index_4(address) * 0x80_0000_0000 + index_3(address) * 0x4000_0000 + index_2(
            address,
        ) * 0x20_0000 + index_1(address) * 0x1000 + address % 0x1000,
        0 <= index_4(address) < 512 && 0 <= index_3(address) < 512 && 0 <= index_2(address) < 512
            && 0 <= index_1(address) < 512,
{
    let x = address as int;
    lemma_coarser(x);
    let (p1, p2, p3, p4) = (x / 0x1000, x / 0x20_0000, x / 0x4000_0000, x / 0x80_0000_0000);
    lemma_split(p1, p2, p3, p4, x);
}

proof fn lemma_split(p1: int, p2: int, p3: int, p4: int, x: int)
    requires
        0 <= x < 0x1_0000_0000_0000,
        p1 == x / 0x1000,
        p2 == p1 / 512,
        p3 == p2 / 512,
        p4 == p3 / 512,
    ensures
        0 <= p4 < 512,
        p4 % 512 == p4,
        x == p4 * 0x80_0000_0000 + (p3 % 512) * 0x4000_0000 + (p2 % 512) * 0x20_0000 + (p1 % 512)
            * 0x1000 + x % 0x1000,
{
    assert(x == 0x1000 * p1 + x % 0x1000);
    assert(p1 == 512 * p2 + p1 % 512);
    assert(p2 == 512 * p3 + p2 % 512);
    assert(p3 == 512 * p4 + p3 % 512);
}

/// The addresses of one page lead to the same place.
pub proof fn law_page_has_one_place(m: &TableMemory, root: u64, a: u64, b: u64)
    requires
        a as int / 0x1000 == b as int / 0x1000,
    ensures
        walk_path(m, root, a) == walk_path(m, root, b),
        walked(m, root, a) == walked(m, root, b),
        walk_path(m, root, a) is Ok && walk_path(m, root, a)->Ok_0.len() == 4 ==> leaf_address(
            m,
            root,
            a,
        ) == leaf_address(m, root, b),
{
    lemma_coarser(a as int);
    lemma_coarser(b as int);
    lemma_same_indices(a, b);
}

proof fn lemma_same_indices(a: u64, b: u64)
    requires
        a as int / 0x1000 == b as int / 0x1000,
        a as int / 0x20_0000 == b as int / 0x20_0000,
        a as int / 0x4000_0000 == b as int / 0x4000_0000,
        a as int / 0x80_0000_0000 == b as int / 0x80_0000_0000,
    ensures
        index_1(a) == index_1(b),
        index_2(a) == index_2(b),
        index_3(a) == index_3(b),
        index_4(a) == index_4(b),
{
}

/// The addresses of one large page lie as far apart physically as they do virtually.
pub proof fn law_large_page_is_contiguous(m: &TableMemory, root: u64, a: u64, b: u64)
    requires
        walk_path(m, root, a) is Ok,
        walk_path(m, root, a)->Ok_0.len() == 3 && a as int / 0x20_0000 == b as int / 0x20_0000
            || walk_path(m, root, a)->Ok_0.len() == 2 && a as int / 0x4000_0000 == b as int
            / 0x4000_0000,
    ensures
        leaf_address(m, root, a) is Ok && leaf_address(m, root, b) is Ok,
        leaf_address(m, root, b)->Ok_0 - leaf_address(m, root, a)->Ok_0 == b - a,
{
    lemma_coarser(a as int);
    lemma_coarser(b as int);
    let path = walk_path(m, root, a)->Ok_0;
    super::x86::lemma_address_of(path.last());
    assert(walk_path(m, root, b) == walk_path(m, root, a));
}

/// A page is the user's only where every level says so, and writable only where every level does; one
/// level that does not is enough.
pub proof fn law_every_level_has_a_say(m: &TableMemory, root: u64, address: u64, level: int)
    requires
        walk_path(m, root, address) is Ok,
        0 <= level < walk_path(m, root, address)->Ok_0.len(),
    ensures
        ({
            let path = walk_path(m, root, address)->Ok_0;
            let report = walked(m, root, address)->Ok_0;
            &&& walked(m, root, address) is Ok
            &&& 2 <= path.len() <= 4
            &&& !user(path[level]) ==> !report.all_levels_user_accessible
            &&& !writable(path[level]) ==> !report.all_levels_writable
            &&& report.leaf == super::x86::flags_of(path.last())
        }),
{
}

/// An address whose walk meets an unused entry is not mapped.
pub proof fn law_unused_entry_maps_nothing(m: &TableMemory, root: u64, address: u64)
    ensures
        super::paging::entry_in(m, root, index_4(address)) == 0 ==> walk_path(
            m,
            root,
            address,
        ) is Err && leaf_address(m, root, address) is Err,
        walk_path(m, root, address) is Ok ==> forall|i: int|
            0 <= i < walk_path(m, root, address)->Ok_0.len() ==> (#[trigger] walk_path(
                m,
                root,
                address,
            )->Ok_0[i]) != 0,
{
}

/// The tables that a walk passes begin with the root, and the third of them is the one that holds the page
/// directory of the address; addresses of the same gigabyte have it in common, and a path along which code
/// may run has no entry that forbids it.
pub proof fn law_tables_on_the_way(m: &TableMemory, root: u64, a: u64, b: u64)
    requires
        index_4(a) == index_4(b),
        index_3(a) == index_3(b),
    ensures
        mapping_tables(m, root, a).0.len() > 0 && mapping_tables(m, root, a).0[0] == root,
        level2_table(m, root, a) == level2_table(m, root, b),
        level2_table(m, root, a) matches Ok(table) ==> {
            &&& mapping_tables(m, root, a).0.len() > 2
            &&& mapping_tables(m, root, a).0[2] == table
            &&& mapping_tables(m, root, b).0[2] == table
            &&& directory_path_executable(m, root, a) is Ok ==> !no_execute(
                entry_in(m, table, index_2(a)),
            ) && entry_in(m, table, index_2(a)) != 0
        },
        directory_path_executable(m, root, a) is Ok ==> !no_execute(
            entry_in(m, root, index_4(a)),
        ) && !no_execute(entry_in(m, mapping_tables(m, root, a).0[1], index_3(a))),
        index_2(a) == index_2(b) ==> mapping_tables(m, root, a) == mapping_tables(m, root, b)
            && directory_path_executable(m, root, a) == directory_path_executable(m, root, b),
{
}

/// A program whose mappings are in order can run its code but not write it, write its stack but not run it,
/// and does not reach the kernel.
pub proof fn law_program_is_kept_apart(m: &TableMemory, root: u64, code: u64, stack: u64, kernel: u64)
    requires
        userspace_mappings(m, root, code, stack, kernel) is Ok,
    ensures
        walked(m, root, code) is Ok && walked(m, root, stack) is Ok && walked(m, root, kernel) is Ok,
        ({
            let c = walked(m, root, code)->Ok_0;
            let s = walked(m, root, stack)->Ok_0;
            let k = walked(m, root, kernel)->Ok_0;
            &&& has_flags(c.path, 0x4) && has_flags(s.path, 0x4) && !has_flags(k.path, 0x4)
                && !has_flags(k.leaf, 0x4)
            &&& !has_flags(c.leaf, 0x2) && has_flags(s.leaf, 0x2)
            &&& !has_flags(c.leaf, 0x8000_0000_0000_0000) && has_flags(
                s.leaf,
                0x8000_0000_0000_0000,
            )
        }),
        code != stack && kernel != code && kernel != stack,
{
    let leaf = walked(m, root, stack)->Ok_0.leaf;
    assert(leaf & RELEVANT_LEAF_FLAGS == RELEVANT_LEAF_FLAGS ==> leaf & 0x2 == 0x2 && leaf
        & 0x8000_0000_0000_0000 == 0x8000_0000_0000_0000) by (bit_vector);
}

} // verus!
