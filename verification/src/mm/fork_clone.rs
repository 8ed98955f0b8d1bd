//! Bounded eager copying of user mappings for a Linux `fork`.

use super::address_space::{
    destroy_process_address_space, map_process_page, page_mapped, torn_down,
    unmap_last_user_mapping, unmap_result, OwnedUserMapping, ProcessAddressSpace,
};
use super::frame_allocator::{page_returned, page_taken, PageAllocator};
use super::layout::CarveOutTable;
use super::x86::{FLAG_NO_EXECUTE, FLAG_PRESENT, FLAG_USER_ACCESSIBLE, FLAG_WRITABLE};
use vstd::prelude::*;

verus! {

/// Pages of a static image with its stack and heap (4 MiB).
pub const LINUX_FORK_MAX_PAGES: usize = 1024;

/// The flags of every page of a child.
pub const FORK_PAGE_FLAGS: u64 = FLAG_PRESENT | FLAG_USER_ACCESSIBLE | FLAG_WRITABLE
    | FLAG_NO_EXECUTE;

/// The flags with which a page is mapped into a child.
pub fn user_copy_flags() -> (r: u64)
    ensures
        r == FORK_PAGE_FLAGS,
{
    FORK_PAGE_FLAGS
}

/// One page to be copied: the parent's page and the frame for the child's copy.
#[derive(Clone, Copy, Debug, PartialEq, Eq, Structural)]
pub struct PageCopy {
    pub source: OwnedUserMapping,
    pub new_frame: u64,
    pub flags: u64,
}

/// The number of pages that a fork copies.
pub fn fork_page_count(parent: &ProcessAddressSpace, max_pages: usize) -> (r: Result<
    usize,
    &'static str,
>)
    ensures
        r == (if parent.user_mappings@.len() > max_pages {
            Err::<usize, &'static str>("fork exceeded LINUX_FORK_MAX_PAGES")
        } else {
            Ok(parent.user_mappings@.len() as usize)
        }),
{
    let count: usize = parent.user_mapping_count();
    if count > max_pages {
        return Err("fork exceeded LINUX_FORK_MAX_PAGES");
    }
    Ok(count)
}

/// Starts the copy of the parent's page at a position: takes a frame for the child. The caller copies
/// the contents and maps the frame.
pub fn begin_page_copy(parent: &ProcessAddressSpace, allocator: &mut PageAllocator, index: usize) -> (r:
    Result<PageCopy, &'static str>)
    requires
        old(allocator).wf(),
    ensures
        final(allocator).wf(),
        final(allocator).regions() == old(allocator).regions(),
        match r {
            Ok(copy) => {
                &&& index < parent.user_mappings@.len()
                &&& copy.source == parent.user_mappings@[index as int]
                &&& copy.flags == FORK_PAGE_FLAGS
                &&& page_taken(old(allocator), final(allocator), Some(copy.new_frame))
            },
            Err(e) => {
                &&& e == (if index >= parent.user_mappings@.len() {
                    "fork parent mapping index out of range"
                } else {
                    "fork could not allocate user page"
                })
                &&& if index >= parent.user_mappings@.len() {
                    *final(allocator) == *old(allocator)
                } else {
                    page_taken(old(allocator), final(allocator), None)
                }
            },
        },
{
    let source = match parent.user_mapping_at(index) {
        Some(mapping) => mapping,
        None => return Err("fork parent mapping index out of range"),
    };
    match allocator.allocate_page() {
        Some(new_frame) => Ok(PageCopy { source, new_frame, flags: user_copy_flags() }),
        None => Err("fork could not allocate user page"),
    }
}

/// Ends the copy of a page. `mapped` says whether the child's page tables took the mapping. Where the
/// child does not record the page its frame goes back, and the pages already copied are to be rolled
/// back.
pub fn finish_page_copy(
    child: &mut ProcessAddressSpace,
    carve_outs: &CarveOutTable,
    allocator: &mut PageAllocator,
    copy: PageCopy,
    mapped: bool,
) -> (r: Result<(), &'static str>)
    requires
        old(child).wf(),
        old(allocator).wf(),
        old(allocator).allocated(copy.new_frame),
    ensures
        final(child).wf(),
        final(allocator).wf(),
        final(allocator).regions() == old(allocator).regions(),
        final(child).root_frame == old(child).root_frame,
        final(child).page_table_frames@ == old(child).page_table_frames@,
        if page_mapped(old(child), carve_outs.ranges@, copy.source.virtual_address, mapped) is Ok {
            &&& r == Ok::<(), &'static str>(())
            &&& final(child).user_mappings@ == old(child).user_mappings@.push(
                OwnedUserMapping {
                    virtual_address: copy.source.virtual_address,
                    frame_address: copy.new_frame,
                },
            )
            &&& *final(allocator) == *old(allocator)
        } else {
            &&& r == Err::<(), &'static str>("fork map into child failed")
            &&& final(child).user_mappings@ == old(child).user_mappings@
            &&& page_returned(old(allocator), final(allocator), copy.new_frame, Ok(()))
        },
{
    match map_process_page(
        child,
        carve_outs,
        copy.source.virtual_address,
        copy.new_frame,
        mapped,
    ) {
        Ok(()) => Ok(()),
        Err(_) => {
            let _ = allocator.free_page(copy.new_frame);
            Err("fork map into child failed")
        },
    }
}

/// The rollback of pages of a child: `k` of them were released, and it ended with `result`.
pub open spec fn rolled_back(
    mappings: Seq<OwnedUserMapping>,
    unmapped: Seq<Option<u64>>,
    pages: int,
    before: &PageAllocator,
    after: &PageAllocator,
    left: Seq<OwnedUserMapping>,
    result: Result<(), &'static str>,
    k: int,
) -> bool {
    &&& 0 <= k <= pages
    &&& k <= mappings.len()
    &&& left == mappings.take(mappings.len() - k)
    &&& after.regions() == before.regions()
    &&& after.available_pages == before.available_pages + k
    &&& after.free_list@.len() == before.free_list@.len() + k
    &&& forall|j: int|
        0 <= j < before.free_list@.len() ==> #[trigger] after.free_list@[j]
            == before.free_list@[j]
    &&& forall|j: int|
        #![trigger mappings[mappings.len() - 1 - j]]
        0 <= j < k ==> after.free_list@[before.free_list@.len() + j] == mappings[mappings.len() - 1
            - j].frame_address
    &&& if k == pages {
        result == Ok::<(), &'static str>(())
    } else {
        result is Err && result == unmap_result(
            left,
            after,
            if k < unmapped.len() {
                unmapped[k]
            } else {
                None
            },
            "no user mapping available to roll back",
            "rollback unmapped an unexpected frame",
        )
    }
}

/// Releases the pages of a child that were mapped last. `unmapped` are the frames that the page
/// tables gave back, the page mapped last first.
pub fn rollback_child_mappings(
    child: &mut ProcessAddressSpace,
    allocator: &mut PageAllocator,
    pages: usize,
    unmapped: &[Option<u64>],
) -> (r: Result<(), &'static str>)
    requires
        old(child).wf(),
        old(allocator).wf(),
    ensures
        final(child).wf(),
        final(allocator).wf(),
        final(child).root_frame == old(child).root_frame,
        final(child).page_table_frames@ == old(child).page_table_frames@,
        exists|k: int| #[trigger]
            rolled_back(
                old(child).user_mappings@,
                unmapped@,
                pages as int,
                old(allocator),
                final(allocator),
                final(child).user_mappings@,
                r,
                k,
            ),
{
    let ghost mappings = child.user_mappings@;
    let mut k: usize = 0;
    assert(child.user_mappings@ =~= mappings.take(mappings.len() as int));
    while k < pages
        invariant
            0 <= k <= pages,
            k <= mappings.len(),
            mappings == old(child).user_mappings@,
            child.wf(),
            allocator.wf(),
            child.root_frame == old(child).root_frame,
            child.page_table_frames@ == old(child).page_table_frames@,
            child.user_mappings@ == mappings.take(mappings.len() - k),
            allocator.regions() == old(allocator).regions(),
            allocator.available_pages == old(allocator).available_pages + k,
            allocator.free_list@.len() == old(allocator).free_list@.len() + k,
            forall|j: int|
                0 <= j < old(allocator).free_list@.len() ==> #[trigger] allocator.free_list@[j]
                    == old(allocator).free_list@[j],
            forall|j: int|
                #![trigger mappings[mappings.len() - 1 - j]]
                0 <= j < k ==> allocator.free_list@[old(allocator).free_list@.len() + j]
                    == mappings[mappings.len() - 1 - j].frame_address,
        decreases pages - k,
    {
        let given: Option<u64> = if k < unmapped.len() {
            unmapped[k]
        } else {
            None
        };
        let ghost held = allocator.free_list@;
        match unmap_last_user_mapping(child, allocator, given) {
            Ok(()) => {},
            Err(e) => {
                let r = Err(e);
                assert(rolled_back(
                    mappings,
                    unmapped@,
                    pages as int,
                    old(allocator),
                    allocator,
                    child.user_mappings@,
                    r,
                    k as int,
                ));
                return r;
            },
        }
        assert(child.user_mappings@ =~= mappings.take(mappings.len() - (k + 1)));
        k += 1;
    }
    let r = Ok(());
    assert(rolled_back(
        mappings,
        unmapped@,
        pages as int,
        old(allocator),
        allocator,
        child.user_mappings@,
        r,
        k as int,
    ));
    r
}

/// Ends the making of a child's address space. `cloned` is what copying the mappings gave; where that
/// failed the child is torn down, whatever comes of it.
pub fn fork_child_address_space(
    child: ProcessAddressSpace,
    allocator: &mut PageAllocator,
    cloned: Result<usize, &'static str>,
    unmapped: &[Option<u64>],
) -> (r: Result<ProcessAddressSpace, &'static str>)
    requires
        child.wf(),
        old(allocator).wf(),
        unmapped@.len() >= child.user_mappings@.len(),
    ensures
        final(allocator).wf(),
        match cloned {
            Ok(_) => r == Ok::<ProcessAddressSpace, &'static str>(child) && *final(allocator)
                == *old(allocator),
            Err(e) => {
                &&& r == Err::<ProcessAddressSpace, &'static str>(e)
                &&& exists|end: Result<(), &'static str>, k: int| #[trigger]
                    torn_down(
                        child.page_table_frames@,
                        child.user_mappings@,
                        unmapped@,
                        old(allocator),
                        final(allocator),
                        end,
                        k,
                    )
            },
        },
{
    match cloned {
        Ok(_) => Ok(child),
        Err(message) => {
            let _ = destroy_process_address_space(&child, allocator, unmapped);
            Err(message)
        },
    }
}

} // verus!
