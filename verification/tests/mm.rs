//! Physical pages, page tables and address spaces.

use clean_slate::mm::address_space::{
    allocate_table_frame, begin_process_address_space, carve_out_page, check_user_mapping,
    clone_kernel_root_entries, collect_kernel_low_page_table_frames, create_process_address_space,
    destroy_process_address_space, first_carve_out_page, identity_page_table_frames,
    map_process_page, next_carve_out_page, push_unique_frame, sanitize_kernel_root_entries,
    unmap_last_user_mapping, unmap_process_page_at, validate_supervisor_only_kernel_root_entries,
    AddressSpaceResourceCounts, CarveOutCursor, CarveOutPage, OwnedUserMapping,
    ProcessAddressSpace, MAX_ADDRESS_SPACE_PAGE_TABLE_FRAMES, MAX_ADDRESS_SPACE_USER_MAPPINGS,
};
use clean_slate::mm::carve_out_shared::{
    collect_two_mib_windows, install_shared_carve_out_page_tables, SharedTableRegistry,
    SharedTwoMiBTable, MAX_SHARED_TWO_MIB_TABLES,
};
use clean_slate::mm::fork_clone::{
    begin_page_copy, finish_page_copy, fork_child_address_space, fork_page_count,
    rollback_child_mappings, user_copy_flags, FORK_PAGE_FLAGS,
};
use clean_slate::mm::frame_allocator::{PageAllocator, PageAllocatorStats};
use clean_slate::mm::kernel_bootstrap::{
    kernel_owned_root, next_physmap_page, physmap_error, physmap_flags, PhysmapPage,
    BRINGUP_PHYSMAP_BYTES, LOCAL_APIC_MMIO_BASE, PHYSMAP_FLAGS,
};
use clean_slate::mm::layout::{
    kernel_map_ptr, phys_to_virt, physmap_mapping_allowed, virt_to_phys_direct_map, CarveOutTable,
    VaRange, LINUX_CONVENTIONAL_USER_VA_LO, MAX_KERNEL_LOW_CARVE_OUTS, PHYSMAP_BASE, PHYSMAP_SPAN,
};
use clean_slate::mm::paging::{
    assert_carve_out_directory_path_has_no_nx, leaf_page_flags_for_address_in_root,
    leaf_phys_addr_for_address_in_root, level2_table_frame_for_address_in_root,
    page_flags_for_address_in_root, reserve_mapping_page_tables, walk_page_flags_in_root,
    TableMemory,
};
use clean_slate::mm::region::{
    MemoryRegion, MemoryRegionKind, NormalizedMemoryMap, ReservedRange, MAX_MEMORY_REGIONS,
};
use clean_slate::mm::user_mapping::{
    relevant_userspace_leaf_flags, validate_user_pointer_range,
    validate_user_writable_pointer_range, validate_userspace_mappings, RELEVANT_LEAF_FLAGS,
};
use clean_slate::mm::x86::{
    FLAG_HUGE_PAGE, FLAG_NO_EXECUTE, FLAG_PRESENT, FLAG_USER_ACCESSIBLE, FLAG_WRITABLE,
};
use clean_slate::mm::{align_down, align_up, PAGE_SIZE, TWO_MIB};

fn usable(start: u64, pages: u64) -> MemoryRegion {
    MemoryRegion { start, end: start + pages * PAGE_SIZE, kind: MemoryRegionKind::Usable }
}

fn reserved(start: u64, pages: u64) -> MemoryRegion {
    MemoryRegion { start, end: start + pages * PAGE_SIZE, kind: MemoryRegionKind::Reserved }
}

fn memory_map(regions: &[MemoryRegion]) -> NormalizedMemoryMap {
    let mut map = NormalizedMemoryMap::default();
    for region in regions {
        map.push_region(*region).expect("region");
    }
    map
}

fn allocator_of(pages: u64) -> PageAllocator {
    PageAllocator::new(&memory_map(&[usable(0x10_0000, pages)])).expect("allocator")
}

#[test]
fn allocator_allocates_and_reuses_freed_pages() {
    let base: u64 = 0x20_0000;
    let map = memory_map(&[usable(base, 4)]);
    let mut allocator = PageAllocator::new(&map).expect("allocator");

    let first = allocator.allocate_page().expect("first page");
    let second = allocator.allocate_page().expect("second page");
    assert_eq!(first, base);
    assert_eq!(second, base + PAGE_SIZE);

    allocator.free_page(first).expect("free page");
    let recycled = allocator.allocate_page().expect("recycled page");
    assert_eq!(recycled, first);

    assert_eq!(
        allocator.stats(),
        PageAllocatorStats { total_pages: 4, allocated_pages: 2, free_pages: 2 }
    );
}

#[test]
fn allocator_rejects_double_free() {
    let mut allocator = allocator_of(4);
    let frame = allocator.allocate_page().expect("allocated page");
    allocator.free_page(frame).expect("first free");
    let second_free = allocator.free_page(frame);
    assert_eq!(second_free, Err("attempted to free an already-free frame"));
}

#[test]
fn allocator_rejects_unallocated_and_unaligned_frees() {
    let mut allocator = allocator_of(4);
    let base: u64 = 0x10_0000;
    let never_allocated = allocator.free_page(base + PAGE_SIZE);
    assert_eq!(
        never_allocated,
        Err("attempted to free a frame that was never allocated")
    );

    let unaligned = allocator.free_page(base + 1);
    assert_eq!(unaligned, Err("attempted to free a non-page-aligned frame"));
}

#[test]
fn allocator_exhaustion_and_reserved_exclusion_are_tracked() {
    let map = memory_map(&[
        usable(0x1000, 1),
        reserved(0x2000, 1),
        usable(0x3000, 2),
        reserved(0x5000, 2),
        usable(0x7000, 2),
    ]);
    let mut allocator = PageAllocator::new(&map).expect("allocator");

    let mut allocated: Vec<u64> = Vec::new();
    while let Some(frame) = allocator.allocate_page() {
        allocated.push(frame);
    }

    assert_eq!(allocated, vec![0x1000, 0x3000, 0x4000, 0x7000, 0x8000]);
    assert_eq!(
        allocator.stats(),
        PageAllocatorStats { total_pages: 5, allocated_pages: 5, free_pages: 0 }
    );
}

#[test]
fn allocator_refuses_frames_it_does_not_manage() {
    let mut allocator = allocator_of(2);
    assert!(allocator.free_page(0x4000_0000).is_err());
    assert!(allocator.contains_usable_frame(0x10_0000));
    assert!(!allocator.contains_usable_frame(0x4000_0000));
    assert_eq!(allocator.region_index_containing(0x10_1000), Some(0));
    assert_eq!(allocator.region_index_containing(0x10_2000), None);
    assert!(!allocator.was_ever_allocated(0x10_0000));
    let frame = allocator.allocate_page().expect("page");
    assert!(allocator.was_ever_allocated(frame));
}

#[test]
fn allocator_never_hands_out_page_zero() {
    let mut allocator = PageAllocator::new(&memory_map(&[usable(0, 2)])).expect("allocator");
    assert_eq!(allocator.allocate_page(), Some(0x1000));
    assert_eq!(allocator.allocate_page(), None);
}

#[test]
fn allocator_needs_a_usable_region() {
    assert!(PageAllocator::new(&memory_map(&[reserved(0x1000, 4)])).is_err());
}

#[test]
fn pushed_regions_are_merged_and_counted() {
    let mut map = memory_map(&[usable(0x1000, 1), usable(0x2000, 2), reserved(0x4000, 1)]);
    assert_eq!(map.regions().len(), 2);
    assert_eq!(map.usable_bytes(), 3 * PAGE_SIZE);
    assert_eq!(map.reserved_bytes(), PAGE_SIZE);
    map.push_region(usable(0x9000, 0)).expect("empty region");
    assert_eq!(map.regions().len(), 2);
    let mut next: u64 = 0x10_0000;
    while map.regions().len() < MAX_MEMORY_REGIONS {
        map.push_region(usable(next, 1)).expect("room");
        next += 2 * PAGE_SIZE;
    }
    assert_eq!(
        map.push_region(usable(next, 1)),
        Err("normalized memory map exceeded fixed region capacity")
    );
}

#[test]
fn reserved_ranges_cover_whole_pages() {
    let range = ReservedRange::from_base_and_size(0x2000, PAGE_SIZE);
    assert_eq!(range, ReservedRange::new(0x2000, 0x3000));
    assert!(!range.is_empty());
    assert!(ReservedRange::from_base_and_size(0x2000, 0).is_empty());
}

#[test]
fn alignment_rounds_to_the_page() {
    assert_eq!(align_down(0x1fff, PAGE_SIZE), 0x1000);
    assert_eq!(align_up(0x1001, PAGE_SIZE), 0x2000);
    assert_eq!(align_up(0x1000, PAGE_SIZE), 0x1000);
}

#[test]
fn kernel_root_sanitization_clears_user_flags_and_user_slots() {
    let user_region_base: u64 = 0x0000_4000_0000_0000;
    let user_slot_index = ((user_region_base >> 39) & 0x1ff) as usize;
    let mut root = [0u64; 512];
    root[0] = 0x1000 | FLAG_PRESENT | FLAG_WRITABLE | FLAG_USER_ACCESSIBLE;
    root[user_slot_index] = 0x2000 | FLAG_PRESENT | FLAG_USER_ACCESSIBLE;

    sanitize_kernel_root_entries(&mut root);

    assert_eq!(root[0] & FLAG_USER_ACCESSIBLE, 0);
    assert_eq!(root[0], 0);
    assert_eq!(root[user_slot_index], 0);
    assert_eq!(validate_supervisor_only_kernel_root_entries(&root), Ok(()));
}

#[test]
fn kernel_root_validation_rejects_inherited_user_accessible_entry() {
    let mut root = [0u64; 512];
    root[511] = 0x3000 | FLAG_PRESENT | FLAG_USER_ACCESSIBLE;

    assert_eq!(
        validate_supervisor_only_kernel_root_entries(&root),
        Err("inherited kernel root entry remained user accessible")
    );
}

#[test]
fn sanitized_root_keeps_the_kernel_half() {
    let mut root = [0u64; 512];
    root[300] = 0x5000 | FLAG_PRESENT | FLAG_WRITABLE | FLAG_USER_ACCESSIBLE;
    root[10] = 0x6000 | FLAG_PRESENT;
    let copy = clone_kernel_root_entries(&root);
    assert_eq!(copy[300], 0x5000 | FLAG_PRESENT | FLAG_WRITABLE);
    assert_eq!(copy[10], 0);
    assert_eq!(validate_supervisor_only_kernel_root_entries(&copy), Ok(()));
}

const CODE_ADDRESS: u64 = 0x0000_4000_0040_0000;

fn slot(address: u64, level: u32) -> usize {
    ((address >> (12 + 9 * level)) & 0x1ff) as usize
}

fn table_with(index: usize, raw: u64) -> [u64; 512] {
    let mut table = [0u64; 512];
    table[index] = raw;
    table
}

fn four_levels(address: u64, leaf_frame: u64, flags: [u64; 4]) -> TableMemory {
    let mut m = TableMemory { tables: Vec::new() };
    m.set_table(0x1000, table_with(slot(address, 3), 0x2000 | flags[0]));
    m.set_table(0x2000, table_with(slot(address, 2), 0x3000 | flags[1]));
    m.set_table(0x3000, table_with(slot(address, 1), 0x9000 | flags[2]));
    m.set_table(0x9000, table_with(slot(address, 0), leaf_frame | flags[3]));
    m
}

#[test]
fn user_access_requires_user_bit_on_each_page_table_level() {
    let user = FLAG_PRESENT | FLAG_USER_ACCESSIBLE;
    let m = four_levels(CODE_ADDRESS, 0x4000, [FLAG_PRESENT, user, user, user]);

    let walk = walk_page_flags_in_root(&m, 0x1000, CODE_ADDRESS).expect("walked mapping");
    assert_ne!(walk.path & FLAG_USER_ACCESSIBLE, 0);
    assert_ne!(walk.leaf & FLAG_USER_ACCESSIBLE, 0);
    assert!(!walk.all_levels_user_accessible);
}

#[test]
fn walk_reads_one_slot_of_each_level() {
    let all = FLAG_PRESENT | FLAG_USER_ACCESSIBLE | FLAG_WRITABLE;
    let address: u64 = 0x0000_4000_8060_3000;
    let m = four_levels(address, 0x7000, [all, all, all, all | FLAG_NO_EXECUTE]);
    let walk = walk_page_flags_in_root(&m, 0x1000, address).expect("walk");
    assert!(walk.all_levels_user_accessible);
    assert!(walk.all_levels_writable);
    assert_eq!(walk.leaf, all | FLAG_NO_EXECUTE);
    assert_eq!(leaf_page_flags_for_address_in_root(&m, 0x1000, address), Ok(walk.leaf));
    assert_eq!(page_flags_for_address_in_root(&m, 0x1000, address), Ok(walk.path));
    assert_eq!(leaf_phys_addr_for_address_in_root(&m, 0x1000, address), Ok(0x7000));
    assert_eq!(leaf_phys_addr_for_address_in_root(&m, 0x1000, address + 0x123), Ok(0x7000));
    assert!(leaf_phys_addr_for_address_in_root(&m, 0x1000, address + PAGE_SIZE).is_err());
    assert!(leaf_phys_addr_for_address_in_root(&m, 0x1000, address + TWO_MIB).is_err());
    assert!(leaf_phys_addr_for_address_in_root(&m, 0x1000, address + (1u64 << 30)).is_err());
    assert!(leaf_phys_addr_for_address_in_root(&m, 0x1000, address + (1u64 << 39)).is_err());
    assert_eq!(level2_table_frame_for_address_in_root(&m, 0x1000, address), Ok(0x3000));
}

#[test]
fn walk_stops_at_a_large_page() {
    let all = FLAG_PRESENT | FLAG_WRITABLE;
    let address: u64 = 0x0000_4000_8060_3000;
    let mut m = TableMemory { tables: Vec::new() };
    m.set_table(0x1000, table_with(slot(address, 3), 0x2000 | all));
    m.set_table(0x2000, table_with(slot(address, 2), 0x3000 | all));
    m.set_table(0x3000, table_with(slot(address, 1), 0x4000_0000 | all | FLAG_HUGE_PAGE));
    let walk = walk_page_flags_in_root(&m, 0x1000, address).expect("walk");
    assert!(walk.all_levels_writable);
    assert!(!walk.all_levels_user_accessible);
    assert_eq!(walk.leaf & FLAG_HUGE_PAGE, FLAG_HUGE_PAGE);
    assert_eq!(
        leaf_phys_addr_for_address_in_root(&m, 0x1000, address),
        Ok(0x4000_0000 + (address & (TWO_MIB - 1) & !(PAGE_SIZE - 1)))
    );
}

#[test]
fn carve_out_directories_must_be_executable() {
    let all = FLAG_PRESENT | FLAG_WRITABLE;
    let good = four_levels(CODE_ADDRESS, 0x4000, [all, all, all, all | FLAG_NO_EXECUTE]);
    assert_eq!(assert_carve_out_directory_path_has_no_nx(&good, 0x1000, CODE_ADDRESS), Ok(()));
    let bad = four_levels(CODE_ADDRESS, 0x4000, [all | FLAG_NO_EXECUTE, all, all, all]);
    assert!(assert_carve_out_directory_path_has_no_nx(&bad, 0x1000, CODE_ADDRESS).is_err());
}

#[test]
fn table_pages_of_a_mapping_are_reserved() {
    let all = FLAG_PRESENT | FLAG_WRITABLE;
    let m = four_levels(CODE_ADDRESS, 0x4000, [all, all, all, all]);
    let mut ranges: Vec<ReservedRange> = Vec::new();
    assert_eq!(reserve_mapping_page_tables(&m, 0x1000, &mut ranges, CODE_ADDRESS), Ok(()));
    for frame in [0x1000u64, 0x2000, 0x3000, 0x9000] {
        assert!(ranges.iter().any(|r| r.start <= frame && frame + PAGE_SIZE <= r.end));
    }
}

#[test]
fn writes_need_every_level_writable() {
    let user = FLAG_PRESENT | FLAG_USER_ACCESSIBLE;
    let all = user | FLAG_WRITABLE;
    let m = four_levels(CODE_ADDRESS, 0x4000, [all, all, all, all]);
    assert_eq!(validate_user_writable_pointer_range(&m, 0x1000, CODE_ADDRESS + 8, 16), Ok(()));
    assert_eq!(
        validate_user_writable_pointer_range(&m, 0x1000, CODE_ADDRESS, 0),
        Err("userspace pointer range length must be non-zero")
    );
    assert_eq!(
        validate_user_writable_pointer_range(&m, 0x1000, u64::MAX - 4, 16),
        Err("userspace pointer range overflowed")
    );
    assert_eq!(
        validate_user_writable_pointer_range(&m, 0x1000, 1 << 63, 16),
        Err("userspace pointer range was outside canonical userspace")
    );
    assert!(
        validate_user_writable_pointer_range(&m, 0x1000, CODE_ADDRESS + 0xff8, 16).is_err()
    );
    for level in 0..4 {
        let mut flags = [all; 4];
        flags[level] = user;
        let m = four_levels(CODE_ADDRESS, 0x4000, flags);
        assert_eq!(validate_user_pointer_range(&m, 0x1000, CODE_ADDRESS + 8, 16), Ok(()));
        assert_eq!(
            validate_user_writable_pointer_range(&m, 0x1000, CODE_ADDRESS + 8, 16),
            Err("userspace pointer range was not mapped as writable")
        );
        flags[level] = FLAG_PRESENT | FLAG_WRITABLE;
        let m = four_levels(CODE_ADDRESS, 0x4000, flags);
        assert_eq!(
            validate_user_writable_pointer_range(&m, 0x1000, CODE_ADDRESS + 8, 16),
            Err("userspace pointer range was not mapped as user accessible")
        );
    }
}

#[test]
fn user_pointers_must_be_mapped_for_users() {
    let user = FLAG_PRESENT | FLAG_USER_ACCESSIBLE | FLAG_WRITABLE;
    let m = four_levels(CODE_ADDRESS, 0x4000, [user, user, user, user]);
    assert_eq!(validate_user_pointer_range(&m, 0x1000, CODE_ADDRESS + 8, 16), Ok(()));
    assert!(validate_user_pointer_range(&m, 0x1000, CODE_ADDRESS + 0xff8, 16).is_err());
    assert!(validate_user_pointer_range(&m, 0x1000, u64::MAX - 4, 16).is_err());
    let kernel = four_levels(CODE_ADDRESS, 0x4000, [user, user, FLAG_PRESENT, user]);
    assert!(validate_user_pointer_range(&kernel, 0x1000, CODE_ADDRESS + 8, 16).is_err());
    assert_eq!(
        relevant_userspace_leaf_flags(user | FLAG_NO_EXECUTE | 0x60),
        (user | FLAG_NO_EXECUTE) & RELEVANT_LEAF_FLAGS
    );
    assert_eq!(
        validate_userspace_mappings(&m, 0x1000, CODE_ADDRESS, CODE_ADDRESS, CODE_ADDRESS),
        Err("userspace code mapping flags were incorrect")
    );
}

#[test]
fn direct_map_round_trips() {
    assert_eq!(phys_to_virt(0x20_0000), PHYSMAP_BASE + 0x20_0000);
    assert_eq!(kernel_map_ptr(0x20_0000), phys_to_virt(0x20_0000));
    assert_eq!(virt_to_phys_direct_map(phys_to_virt(0x20_0000)), Some(0x20_0000));
    assert_eq!(virt_to_phys_direct_map(PHYSMAP_BASE + PHYSMAP_SPAN), None);
    assert!(physmap_mapping_allowed(0x2000, PHYSMAP_BASE + 0x2000));
    assert!(!physmap_mapping_allowed(0, PHYSMAP_BASE));
    assert!(!physmap_mapping_allowed(0x1000, PHYSMAP_BASE + 0x1000));
    assert!(!physmap_mapping_allowed(0x2000, PHYSMAP_BASE + 0x3000));
}

#[test]
fn carve_outs_are_refused_to_users() {
    let mut carve_outs = CarveOutTable::new();
    carve_outs
        .init_kernel_low_carve_outs_from_reserved(&[ReservedRange::new(0x4000_0000, 0x4000_2000)])
        .expect("carve-outs");
    carve_outs.register_kernel_low_carve_out(0x5000_0000, 0x5000_1000).expect("register");
    assert!(carve_outs.va_overlaps_kernel_low_reserved(0x5000_0800, 0x5000_0900));
    assert!(!carve_outs.va_overlaps_kernel_low_reserved(0x5000_1000, 0x5000_2000));
    assert_eq!(carve_outs.virt_to_phys(0x5000_0010), Some(0x5000_0010));
    assert_eq!(carve_outs.virt_to_phys(0x6000_0000), None);
    assert_eq!(carve_outs.assert_conventional_linux_window_clear(), Ok(()));
    assert!(check_user_mapping(&carve_outs, 0x5000_0000).is_err());
    assert_eq!(check_user_mapping(&carve_outs, CODE_ADDRESS), Ok(()));
    carve_outs
        .push_carve_out(VaRange::new(LINUX_CONVENTIONAL_USER_VA_LO, LINUX_CONVENTIONAL_USER_VA_LO + 0x1000))
        .expect("push");
    assert_eq!(
        carve_outs.assert_conventional_linux_window_clear(),
        Err("conventional Linux user window overlaps kernel low carve-out")
    );
    assert!(!VaRange::new(0x1000, 0x2000).overlaps(0x2000, 0x3000));
}

#[test]
fn carve_out_table_is_bounded() {
    let mut carve_outs = CarveOutTable::new();
    for i in 0..MAX_KERNEL_LOW_CARVE_OUTS as u64 {
        let start = 0x10_0000 + 2 * i * PAGE_SIZE;
        carve_outs.push_carve_out(VaRange::new(start, start + PAGE_SIZE)).expect("room");
    }
    assert_eq!(carve_outs.kernel_low_reserved_ranges().len(), MAX_KERNEL_LOW_CARVE_OUTS);
    assert_eq!(
        carve_outs.push_carve_out(VaRange::new(0x9000_0000, 0x9000_1000)),
        Err("kernel low carve-out table capacity exceeded")
    );
}

#[test]
fn carve_out_pages_are_visited_in_order() {
    let mut carve_outs = CarveOutTable::new();
    assert_eq!(first_carve_out_page(&carve_outs), None);
    carve_outs.push_carve_out(VaRange::new(0x4000_0800, 0x4000_1800)).expect("push");
    carve_outs.push_carve_out(VaRange::new(0x5000_0000, 0x5000_1000)).expect("push");
    let mut seen: Vec<u64> = Vec::new();
    let mut cursor = first_carve_out_page(&carve_outs);
    while let Some(at) = cursor {
        seen.push(at.virtual_address);
        cursor = next_carve_out_page(&carve_outs, at);
    }
    assert_eq!(seen, vec![0x4000_0000, 0x4000_1000, 0x5000_0000]);
    assert_eq!(
        first_carve_out_page(&carve_outs),
        Some(CarveOutCursor { range: 0, virtual_address: 0x4000_0000 })
    );
}

#[test]
fn carve_out_pages_lose_the_user_bit() {
    let flags = FLAG_PRESENT | FLAG_WRITABLE | FLAG_USER_ACCESSIBLE;
    assert_eq!(carve_out_page(None, Ok(flags), None), CarveOutPage::Skip);
    assert_eq!(carve_out_page(Some(0x5000), Ok(flags), Some(0x5000)), CarveOutPage::Skip);
    assert_eq!(carve_out_page(Some(0x5000), Err("no leaf"), None), CarveOutPage::Fail("no leaf"));
    match carve_out_page(Some(0x5000), Ok(flags), None) {
        CarveOutPage::Install { frame_address, flags } => {
            assert_eq!(frame_address, 0x5000);
            assert_eq!(flags & FLAG_USER_ACCESSIBLE, 0);
            assert_eq!(flags & FLAG_PRESENT, FLAG_PRESENT);
        }
        other => panic!("unexpected {other:?}"),
    }
}

#[test]
fn kernel_tables_are_collected_once() {
    let all = FLAG_PRESENT | FLAG_WRITABLE;
    let m = four_levels(0x40_0000, 0x4000, [all, all, all, all]);
    let mut frames: Vec<u64> = Vec::new();
    assert_eq!(collect_kernel_low_page_table_frames(&m, 0x1000, &mut frames), Ok(()));
    assert_eq!(frames, vec![0x1000, 0x2000, 0x3000, 0x9000]);
    let space = ProcessAddressSpace::new(0xa000).expect("space");
    assert_eq!(
        identity_page_table_frames(&m, 0x1000, &space),
        Ok(vec![0x1000, 0x2000, 0x3000, 0x9000, 0xa000])
    );
    push_unique_frame(0x2000, &mut frames);
    assert_eq!(frames.len(), 4);
    push_unique_frame(0xb000, &mut frames);
    assert_eq!(frames.len(), 5);
}

#[test]
fn collecting_tables_skips_large_pages_and_refuses_absent_children() {
    let all = FLAG_PRESENT | FLAG_WRITABLE;
    let mut m = TableMemory { tables: Vec::new() };
    m.set_table(0x1000, table_with(0, 0x2000 | all | FLAG_HUGE_PAGE));
    let mut frames: Vec<u64> = Vec::new();
    assert_eq!(collect_kernel_low_page_table_frames(&m, 0x1000, &mut frames), Ok(()));
    assert_eq!(frames, vec![0x1000]);

    m.set_table(0x1000, table_with(0, 0x2000 | FLAG_WRITABLE));
    let mut other: Vec<u64> = Vec::new();
    assert_eq!(
        collect_kernel_low_page_table_frames(&m, 0x1000, &mut other),
        Err("invalid kernel page-table child")
    );
}

#[test]
fn address_space_tracks_what_it_owns() {
    let carve_outs = CarveOutTable::new();
    let mut allocator = allocator_of(16);
    let mut space = begin_process_address_space(&mut allocator).expect("root");
    let table = allocate_table_frame(&mut allocator, &mut space).expect("table");
    let page = allocator.allocate_page().expect("page");
    assert_eq!(map_process_page(&mut space, &carve_outs, CODE_ADDRESS, page, true), Ok(()));
    assert_eq!(
        space.resource_counts(),
        AddressSpaceResourceCounts { user_pages: 1, page_table_frames: 2 }
    );
    assert_eq!(space.user_mapping_count(), 1);
    assert_eq!(
        space.user_mapping_at(0),
        Some(OwnedUserMapping { virtual_address: CODE_ADDRESS, frame_address: page })
    );
    assert_eq!(space.user_mapping_at(1), None);
    assert_eq!(space.page_table_frames, vec![space.root_frame, table]);
    assert!(map_process_page(&mut space, &carve_outs, CODE_ADDRESS + PAGE_SIZE, page, false).is_err());
    assert_eq!(
        unmap_last_user_mapping(&mut space, &mut allocator, Some(page + PAGE_SIZE)),
        Err("rollback unmapped an unexpected frame")
    );
    assert_eq!(unmap_last_user_mapping(&mut space, &mut allocator, Some(page)), Ok(()));
    assert_eq!(
        unmap_last_user_mapping(&mut space, &mut allocator, Some(page)),
        Err("no user mapping available to roll back")
    );
}

#[test]
fn address_space_bounds_are_kept() {
    let mut space = ProcessAddressSpace::new(0x1000).expect("space");
    for i in 0..MAX_ADDRESS_SPACE_USER_MAPPINGS as u64 {
        space.record_user_mapping(0x40_0000 + i * PAGE_SIZE, 0x10_0000 + i * PAGE_SIZE).expect("room");
    }
    assert_eq!(
        space.record_user_mapping(0, 0),
        Err("process address-space mapping tracking capacity exceeded")
    );
    while space.page_table_frames.len() < MAX_ADDRESS_SPACE_PAGE_TABLE_FRAMES {
        space.record_page_table_frame(0x2000).expect("room");
    }
    assert_eq!(
        space.record_page_table_frame(0x3000),
        Err("process address-space page-table tracking capacity exceeded")
    );
}

#[test]
fn destroyed_space_returns_every_page() {
    let carve_outs = CarveOutTable::new();
    let mut allocator = allocator_of(8);
    let before = allocator.stats();
    let mut space = begin_process_address_space(&mut allocator).expect("root");
    allocate_table_frame(&mut allocator, &mut space).expect("table");
    let page = allocator.allocate_page().expect("page");
    map_process_page(&mut space, &carve_outs, CODE_ADDRESS, page, true).expect("map");
    assert_eq!(destroy_process_address_space(&space, &mut allocator, &[Some(page)]), Ok(()));
    assert_eq!(allocator.stats(), before);
}

#[test]
fn failed_clone_gives_the_root_back() {
    let mut allocator = allocator_of(4);
    let before = allocator.stats();
    let space = begin_process_address_space(&mut allocator).expect("root");
    assert_eq!(
        create_process_address_space(space, &mut allocator, Err("clone failed")),
        Err("clone failed")
    );
    assert_eq!(allocator.stats(), before);
    let mut empty = allocator_of(1);
    empty.allocate_page().expect("page");
    assert_eq!(
        begin_process_address_space(&mut empty),
        Err("allocator could not provide a page-table root for a process")
    );
}

#[test]
fn forked_pages_are_copied_one_by_one() {
    let carve_outs = CarveOutTable::new();
    let mut allocator = allocator_of(8);
    let mut parent = begin_process_address_space(&mut allocator).expect("parent");
    let page = allocator.allocate_page().expect("page");
    map_process_page(&mut parent, &carve_outs, CODE_ADDRESS, page, true).expect("map");
    assert_eq!(fork_page_count(&parent, 1), Ok(1));
    assert_eq!(fork_page_count(&parent, 0), Err("fork exceeded LINUX_FORK_MAX_PAGES"));

    let mut child = begin_process_address_space(&mut allocator).expect("child");
    let copy = begin_page_copy(&parent, &mut allocator, 0).expect("copy");
    assert_eq!(copy.flags, FORK_PAGE_FLAGS);
    assert_eq!(user_copy_flags(), FORK_PAGE_FLAGS);
    assert_ne!(copy.new_frame, page);
    assert_eq!(finish_page_copy(&mut child, &carve_outs, &mut allocator, copy, true), Ok(()));
    assert_eq!(
        child.user_mapping_at(0),
        Some(OwnedUserMapping { virtual_address: CODE_ADDRESS, frame_address: copy.new_frame })
    );
    assert_eq!(
        begin_page_copy(&parent, &mut allocator, 1),
        Err("fork parent mapping index out of range")
    );
    let before = allocator.stats();
    let second = begin_page_copy(&parent, &mut allocator, 0).expect("copy");
    assert_eq!(
        finish_page_copy(&mut child, &carve_outs, &mut allocator, second, false),
        Err("fork map into child failed")
    );
    assert_eq!(allocator.stats(), before);
    assert_eq!(
        rollback_child_mappings(&mut child, &mut allocator, 1, &[Some(copy.new_frame)]),
        Ok(())
    );
    assert_eq!(child.user_mapping_count(), 0);
    assert_eq!(
        fork_child_address_space(child, &mut allocator, Err("no"), &[]),
        Err("no")
    );
}

#[test]
fn shared_tables_cover_the_carve_out_windows() {
    let mut carve_outs = CarveOutTable::new();
    carve_outs.push_carve_out(VaRange::new(0x4000_0000, 0x4000_2000)).expect("push");
    carve_outs.push_carve_out(VaRange::new(0x4010_0000, 0x4010_1000)).expect("push");
    carve_outs.push_carve_out(VaRange::new(0x5000_0000, 0x5040_0000)).expect("push");
    assert_eq!(
        collect_two_mib_windows(&carve_outs),
        vec![0x4000_0000, 0x5000_0000, 0x5020_0000]
    );

    let all = FLAG_PRESENT | FLAG_WRITABLE;
    let mut m = four_levels(0x4000_0000, 0x4000_0000, [all, all, all, all]);
    let mut registry = SharedTableRegistry::new();
    let mut one = CarveOutTable::new();
    one.push_carve_out(VaRange::new(0x4000_0000, 0x4000_2000)).expect("push");
    let mut allocator = allocator_of(4);
    assert_eq!(
        install_shared_carve_out_page_tables(&mut registry, &mut m, 0x1000, &one, &mut allocator),
        Ok(())
    );
    assert_eq!(
        registry.shared_two_mib_tables().clone(),
        vec![SharedTwoMiBTable { region_base: 0x4000_0000, frame: 0x10_0000 }]
    );
    assert!(registry.shared_carve_out_page_table_frame(0x10_0000));
    assert!(!registry.shared_carve_out_page_table_frame(0x10_1000));
    assert_eq!(m.entry(0x10_0000, 0) & !0xfff & !FLAG_NO_EXECUTE, 0x4000_0000);
    assert_eq!(m.entry(0x10_0000, 0) & FLAG_USER_ACCESSIBLE, 0);
    assert_eq!(m.entry(0x10_0000, 1), 0);
}

#[test]
fn shared_table_registry_is_bounded() {
    let mut registry = SharedTableRegistry::new();
    for i in 0..MAX_SHARED_TWO_MIB_TABLES as u64 {
        registry.push_shared(i * TWO_MIB, 0x1000 * (i + 1)).expect("room");
    }
    assert_eq!(
        registry.push_shared(0x8000_0000, 0x9000),
        Err("shared carve-out page-table capacity exceeded")
    );
}

#[test]
fn kernel_root_is_supervisor_only() {
    let mut firmware = [0u64; 512];
    firmware[0] = 0x5000 | FLAG_PRESENT | FLAG_WRITABLE | FLAG_USER_ACCESSIBLE;
    firmware[511] = 0x6000 | FLAG_PRESENT | FLAG_USER_ACCESSIBLE;
    let root = kernel_owned_root(&firmware);
    for raw in root {
        assert_eq!(raw & FLAG_USER_ACCESSIBLE, 0);
    }
    assert_eq!(root[0], 0x5000 | FLAG_PRESENT | FLAG_WRITABLE);
}

#[test]
fn direct_map_visits_every_page_once() {
    let mut page = next_physmap_page(None);
    let mut large: u64 = 0;
    let mut small: u64 = 0;
    let mut mmio: u64 = 0;
    while let Some(at) = page {
        match at {
            PhysmapPage::Large(base) => {
                large += 1;
                assert_eq!(base, large * TWO_MIB);
                assert_eq!(physmap_flags(at), PHYSMAP_FLAGS | FLAG_HUGE_PAGE);
                assert_eq!(physmap_error(at), "physmap 2MiB map failed for usable RAM");
            }
            PhysmapPage::Small(base) => {
                small += 1;
                assert_eq!(base, small * PAGE_SIZE);
                assert_eq!(physmap_flags(at), PHYSMAP_FLAGS);
                assert_eq!(physmap_error(at), "physmap map failed for usable RAM");
            }
            PhysmapPage::Mmio(base) => {
                mmio += 1;
                assert_eq!(base, LOCAL_APIC_MMIO_BASE);
                assert_eq!(physmap_error(at), "MMIO physmap map failed");
            }
        }
        page = next_physmap_page(Some(at));
    }
    assert_eq!((large + 1) * TWO_MIB, BRINGUP_PHYSMAP_BYTES);
    assert_eq!((small + 1) * PAGE_SIZE, TWO_MIB);
    assert_eq!(mmio, 1);
}

#[test]
fn a_page_is_unmapped_by_its_address() {
    let carve_outs = CarveOutTable::new();
    let mut allocator = allocator_of(16);
    let mut space = begin_process_address_space(&mut allocator).expect("root");
    let first = allocator.allocate_page().expect("page");
    let second = allocator.allocate_page().expect("page");
    map_process_page(&mut space, &carve_outs, CODE_ADDRESS, first, true).expect("map");
    map_process_page(&mut space, &carve_outs, CODE_ADDRESS + PAGE_SIZE, second, true).expect("map");
    assert_eq!(
        unmap_process_page_at(&mut space, &mut allocator, CODE_ADDRESS - PAGE_SIZE, Some(first)),
        Err("no user mapping at the address")
    );
    assert_eq!(
        unmap_process_page_at(&mut space, &mut allocator, CODE_ADDRESS, None),
        Err("failed to unmap userspace page")
    );
    assert_eq!(
        unmap_process_page_at(&mut space, &mut allocator, CODE_ADDRESS, Some(second)),
        Err("unmapped an unexpected frame")
    );
    assert_eq!(space.user_mapping_count(), 2);
    assert_eq!(unmap_process_page_at(&mut space, &mut allocator, CODE_ADDRESS, Some(first)), Ok(()));
    assert_eq!(
        space.user_mapping_at(0),
        Some(OwnedUserMapping { virtual_address: CODE_ADDRESS + PAGE_SIZE, frame_address: second })
    );
    assert_eq!(allocator.allocate_page(), Some(first));
}

#[test]
fn pages_in_use_all_differ() {
    let mut allocator = allocator_of(8);
    let mut taken = Vec::new();
    while let Some(page) = allocator.allocate_page() {
        assert!(!taken.contains(&page));
        assert!(page >= PAGE_SIZE);
        taken.push(page);
    }
    assert_eq!(taken.len(), 8);
}
