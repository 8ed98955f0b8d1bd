//! Validation of user-accessible mappings and of user pointer ranges.

use super::paging::{
    leaf_page_flags_for_address_in_root, page_flags_for_address_in_root, walk_page_flags_in_root,
    walked, PageWalkFlags, TableMemory,
};
use super::x86::{
    flags_contain, has_flags, is_canonical, FLAG_NO_EXECUTE, FLAG_PRESENT, FLAG_USER_ACCESSIBLE,
    FLAG_WRITABLE,
};
use super::{align_down, floor_to, lemma_page_alignments, lemma_page_of, PAGE_SIZE, USER_CANONICAL_TOP_EXCLUSIVE};
use vstd::prelude::*;

verus! {

/// The flags that a userspace leaf is judged by.
pub const RELEVANT_LEAF_FLAGS: u64 = FLAG_PRESENT | FLAG_WRITABLE | FLAG_NO_EXECUTE
    | FLAG_USER_ACCESSIBLE;

pub fn relevant_userspace_leaf_flags(flags: u64) -> (r: u64)
    ensures
        r == flags & RELEVANT_LEAF_FLAGS,
{
    flags & RELEVANT_LEAF_FLAGS
}

/// Whether user code reaches the page that a walk found.
pub open spec fn user_reachable(walk: PageWalkFlags) -> bool {
    walk.all_levels_user_accessible && has_flags(walk.leaf, FLAG_PRESENT) && has_flags(
        walk.leaf,
        FLAG_USER_ACCESSIBLE,
    )
}

/// The result of looking at one page of a pointer range.
#[verifier::opaque]
pub open spec fn user_page(m: &TableMemory, root: u64, page: u64) -> Result<(), &'static str> {
    match walked(m, root, page) {
        Err(e) => Err(e),
        Ok(walk) => if user_reachable(walk) {
            Ok(())
        } else {
            Err("userspace pointer range was not mapped as user accessible")
        },
    }
}

/// The result of looking at one page of a pointer range that is to be written.
#[verifier::opaque]
pub open spec fn writable_page(m: &TableMemory, root: u64, page: u64) -> Result<(), &'static str> {
    match walked(m, root, page) {
        Err(e) => Err(e),
        Ok(walk) => if !user_reachable(walk) {
            Err("userspace pointer range was not mapped as user accessible")
        } else if !walk.all_levels_writable {
            Err("userspace pointer range was not mapped as writable")
        } else {
            Ok(())
        },
    }
}

/// The result of looking at the pages from `page` to `last`, one after the other.
pub open spec fn user_pages(m: &TableMemory, root: u64, page: int, last: int) -> Result<
    (),
    &'static str,
>
    decreases (if page < last { last - page } else { 0 }),
{
    match user_page(m, root, page as u64) {
        Err(e) => Err(e),
        Ok(()) => if page >= last {
            Ok(())
        } else {
            user_pages(m, root, page + PAGE_SIZE, last)
        },
    }
}

/// The result of looking at the pages from `page` to `last` that are to be written, one after the
/// other.
pub open spec fn writable_pages(m: &TableMemory, root: u64, page: int, last: int) -> Result<
    (),
    &'static str,
>
    decreases (if page < last { last - page } else { 0 }),
{
    match writable_page(m, root, page as u64) {
        Err(e) => Err(e),
        Ok(()) => if page >= last {
            Ok(())
        } else {
            writable_pages(m, root, page + PAGE_SIZE, last)
        },
    }
}

/// The result of validating a user pointer range.
pub open spec fn pointer_range(m: &TableMemory, root: u64, pointer: u64, length: u64) -> Result<
    (),
    &'static str,
> {
    let last = pointer + length - 1;
    if length == 0 {
        Err("userspace pointer range length must be non-zero")
    } else if last > u64::MAX {
        Err("userspace pointer range overflowed")
    } else if pointer >= USER_CANONICAL_TOP_EXCLUSIVE || last >= USER_CANONICAL_TOP_EXCLUSIVE {
        Err("userspace pointer range was outside canonical userspace")
    } else {
        user_pages(
            m,
            root,
            floor_to(pointer as int, PAGE_SIZE as int),
            floor_to(last, PAGE_SIZE as int),
        )
    }
}

/// The result of validating a user pointer range that is to be written.
pub open spec fn writable_range(m: &TableMemory, root: u64, pointer: u64, length: u64) -> Result<
    (),
    &'static str,
> {
    let last = pointer + length - 1;
    if length == 0 {
        Err("userspace pointer range length must be non-zero")
    } else if last > u64::MAX {
        Err("userspace pointer range overflowed")
    } else if pointer >= USER_CANONICAL_TOP_EXCLUSIVE || last >= USER_CANONICAL_TOP_EXCLUSIVE {
        Err("userspace pointer range was outside canonical userspace")
    } else {
        writable_pages(
            m,
            root,
            floor_to(pointer as int, PAGE_SIZE as int),
            floor_to(last, PAGE_SIZE as int),
        )
    }
}

/// Checks that user code can reach every page of `[pointer, pointer + length)`.
pub fn validate_user_pointer_range(m: &TableMemory, root_frame: u64, pointer: u64, length: u64) -> (r:
    Result<(), &'static str>)
    ensures
        r == pointer_range(m, root_frame, pointer, length),
{
    if length == 0 {
        return Err("userspace pointer range length must be non-zero");
    }
    let end_inclusive: u64 = match pointer.checked_add(length - 1) {
        Some(end) => end,
        None => return Err("userspace pointer range overflowed"),
    };
    if pointer >= USER_CANONICAL_TOP_EXCLUSIVE || end_inclusive >= USER_CANONICAL_TOP_EXCLUSIVE {
        return Err("userspace pointer range was outside canonical userspace");
    }
    proof {
        lemma_page_alignments();
    }
    let first: u64 = align_down(pointer, PAGE_SIZE);
    let end_page: u64 = align_down(end_inclusive, PAGE_SIZE);
    proof {
        lemma_page_of(pointer as int, pointer as int);
        lemma_page_of(pointer as int, end_inclusive as int);
    }
    let mut cursor: u64 = first;
    while cursor < end_page
        invariant
            end_page < USER_CANONICAL_TOP_EXCLUSIVE,
            cursor <= end_page,
            cursor % 4096 == 0,
            end_page % 4096 == 0,
            pointer_range(m, root_frame, pointer, length) == user_pages(
                m,
                root_frame,
                cursor as int,
                end_page as int,
            ),
        decreases end_page - cursor,
    {
        match check_user_page(m, root_frame, cursor) {
            Ok(()) => {},
            Err(e) => return Err(e),
        }
        cursor = cursor + PAGE_SIZE;
    }
    match check_user_page(m, root_frame, cursor) {
        Ok(()) => Ok(()),
        Err(e) => Err(e),
    }
}

/// Looks at one page of a pointer range.
fn check_user_page(m: &TableMemory, root_frame: u64, page: u64) -> (r: Result<(), &'static str>)
    requires
        is_canonical(page),
    ensures
        r == user_page(m, root_frame, page),
{
    proof {
        reveal(user_page);
    }
    let walk = match walk_page_flags_in_root(m, root_frame, page) {
        Ok(walk) => walk,
        Err(e) => return Err(e),
    };
    if !walk.all_levels_user_accessible || !flags_contain(walk.leaf, FLAG_PRESENT)
        || !flags_contain(walk.leaf, FLAG_USER_ACCESSIBLE) {
        return Err("userspace pointer range was not mapped as user accessible");
    }
    Ok(())
}

/// Checks that user code can reach and write every page of `[pointer, pointer + length)`.
pub fn validate_user_writable_pointer_range(
    m: &TableMemory,
    root_frame: u64,
    pointer: u64,
    length: u64,
) -> (r: Result<(), &'static str>)
    ensures
        r == writable_range(m, root_frame, pointer, length),
{
    if length == 0 {
        return Err("userspace pointer range length must be non-zero");
    }
    let end_inclusive: u64 = match pointer.checked_add(length - 1) {
        Some(end) => end,
        None => return Err("userspace pointer range overflowed"),
    };
    if pointer >= USER_CANONICAL_TOP_EXCLUSIVE || end_inclusive >= USER_CANONICAL_TOP_EXCLUSIVE {
        return Err("userspace pointer range was outside canonical userspace");
    }
    proof {
        lemma_page_alignments();
    }
    let first: u64 = align_down(pointer, PAGE_SIZE);
    let end_page: u64 = align_down(end_inclusive, PAGE_SIZE);
    proof {
        lemma_page_of(pointer as int, pointer as int);
        lemma_page_of(pointer as int, end_inclusive as int);
    }
    let mut cursor: u64 = first;
    while cursor < end_page
        invariant
            end_page < USER_CANONICAL_TOP_EXCLUSIVE,
            cursor <= end_page,
            cursor % 4096 == 0,
            end_page % 4096 == 0,
            writable_range(m, root_frame, pointer, length) == writable_pages(
                m,
                root_frame,
                cursor as int,
                end_page as int,
            ),
        decreases end_page - cursor,
    {
        match check_writable_page(m, root_frame, cursor) {
            Ok(()) => {},
            Err(e) => return Err(e),
        }
        cursor = cursor + PAGE_SIZE;
    }
    match check_writable_page(m, root_frame, cursor) {
        Ok(()) => Ok(()),
        Err(e) => Err(e),
    }
}

/// Looks at one page of a pointer range that is to be written.
fn check_writable_page(m: &TableMemory, root_frame: u64, page: u64) -> (r: Result<
    (),
    &'static str,
>)
    requires
        is_canonical(page),
    ensures
        r == writable_page(m, root_frame, page),
{
    proof {
        reveal(writable_page);
    }
    let walk = match walk_page_flags_in_root(m, root_frame, page) {
        Ok(walk) => walk,
        Err(e) => return Err(e),
    };
    if !walk.all_levels_user_accessible || !flags_contain(walk.leaf, FLAG_PRESENT)
        || !flags_contain(walk.leaf, FLAG_USER_ACCESSIBLE) {
        return Err("userspace pointer range was not mapped as user accessible");
    }
    if !walk.all_levels_writable {
        return Err("userspace pointer range was not mapped as writable");
    }
    Ok(())
}

/// The result of judging the mappings of a userspace program: its code must be reachable by user
/// code and neither writable nor non-executable, its stack must be reachable, writable and
/// non-executable, and the kernel must not be reachable.
pub open spec fn userspace_mappings(
    m: &TableMemory,
    root: u64,
    code: u64,
    stack: u64,
    kernel: u64,
) -> Result<(), &'static str> {
    match walked(m, root, code) {
        Err(e) => Err(e),
        Ok(c) => if !has_flags(c.path, FLAG_USER_ACCESSIBLE) || has_flags(c.leaf, FLAG_WRITABLE)
            || has_flags(c.leaf, FLAG_NO_EXECUTE) {
            Err("userspace code mapping flags were incorrect")
        } else {
            match walked(m, root, stack) {
                Err(e) => Err(e),
                Ok(s) => if !has_flags(s.path, FLAG_USER_ACCESSIBLE) || s.leaf & RELEVANT_LEAF_FLAGS
                    != RELEVANT_LEAF_FLAGS {
                    Err("userspace stack mapping flags were incorrect")
                } else {
                    match walked(m, root, kernel) {
                        Err(e) => Err(e),
                        Ok(k) => if has_flags(k.path, FLAG_USER_ACCESSIBLE) || has_flags(
                            k.leaf,
                            FLAG_USER_ACCESSIBLE,
                        ) {
                            Err("kernel mapping unexpectedly became user accessible")
                        } else {
                            Ok(())
                        },
                    }
                },
            }
        },
    }
}

/// Judges the mappings of a userspace program's code and stack and of the kernel.
pub fn validate_userspace_mappings(
    m: &TableMemory,
    root_frame: u64,
    code: u64,
    stack: u64,
    kernel: u64,
) -> (r: Result<(), &'static str>)
    requires
        is_canonical(code),
        is_canonical(stack),
        is_canonical(kernel),
    ensures
        r == userspace_mappings(m, root_frame, code, stack, kernel),
{
    let code_path: u64 = match page_flags_for_address_in_root(m, root_frame, code) {
        Ok(flags) => flags,
        Err(e) => return Err(e),
    };
    let code_leaf: u64 = match leaf_page_flags_for_address_in_root(m, root_frame, code) {
        Ok(flags) => flags,
        Err(e) => return Err(e),
    };
    if !flags_contain(code_path, FLAG_USER_ACCESSIBLE) || flags_contain(code_leaf, FLAG_WRITABLE)
        || flags_contain(code_leaf, FLAG_NO_EXECUTE) {
        return Err("userspace code mapping flags were incorrect");
    }
    let stack_path: u64 = match page_flags_for_address_in_root(m, root_frame, stack) {
        Ok(flags) => flags,
        Err(e) => return Err(e),
    };
    let stack_leaf: u64 = match leaf_page_flags_for_address_in_root(m, root_frame, stack) {
        Ok(flags) => flags,
        Err(e) => return Err(e),
    };
    if !flags_contain(stack_path, FLAG_USER_ACCESSIBLE) || relevant_userspace_leaf_flags(stack_leaf)
        != RELEVANT_LEAF_FLAGS {
        return Err("userspace stack mapping flags were incorrect");
    }
    let kernel_path: u64 = match page_flags_for_address_in_root(m, root_frame, kernel) {
        Ok(flags) => flags,
        Err(e) => return Err(e),
    };
    let kernel_leaf: u64 = match leaf_page_flags_for_address_in_root(m, root_frame, kernel) {
        Ok(flags) => flags,
        Err(e) => return Err(e),
    };
    if flags_contain(kernel_path, FLAG_USER_ACCESSIBLE) || flags_contain(
        kernel_leaf,
        FLAG_USER_ACCESSIBLE,
    ) {
        return Err("kernel mapping unexpectedly became user accessible");
    }
    Ok(())
}

/// A validated pointer range lies below the top of userspace, and user code reaches each of its
/// pages.
pub proof fn law_valid_range_is_user_reachable(
    m: &TableMemory,
    root: u64,
    pointer: u64,
    length: u64,
    address: u64,
)
    requires
        pointer_range(m, root, pointer, length) is Ok,
        pointer <= address < pointer + length,
    ensures
        address < USER_CANONICAL_TOP_EXCLUSIVE,
        user_page(m, root, floor_to(address as int, PAGE_SIZE as int) as u64) is Ok,
{
    lemma_page_of(pointer as int, address as int);
    lemma_page_of(pointer as int, pointer as int);
    lemma_page_of(address as int, pointer + length - 1);
    lemma_pages_reached(
        m,
        root,
        floor_to(pointer as int, PAGE_SIZE as int),
        floor_to(pointer + length - 1, PAGE_SIZE as int),
        floor_to(address as int, PAGE_SIZE as int),
    );
}

/// A range that was validated for writing is also valid for reading, and each of its pages can be
/// written by user code.
pub proof fn law_writable_range_is_valid(
    m: &TableMemory,
    root: u64,
    pointer: u64,
    length: u64,
    address: u64,
)
    requires
        writable_range(m, root, pointer, length) is Ok,
        pointer <= address < pointer + length,
    ensures
        pointer_range(m, root, pointer, length) is Ok,
        writable_page(m, root, floor_to(address as int, PAGE_SIZE as int) as u64) is Ok,
{
    lemma_page_of(pointer as int, address as int);
    lemma_page_of(pointer as int, pointer as int);
    lemma_page_of(address as int, pointer + length - 1);
    lemma_pages_writable(
        m,
        root,
        floor_to(pointer as int, PAGE_SIZE as int),
        floor_to(pointer + length - 1, PAGE_SIZE as int),
        floor_to(address as int, PAGE_SIZE as int),
    );
}

proof fn lemma_pages_writable(m: &TableMemory, root: u64, page: int, last: int, at: int)
    requires
        writable_pages(m, root, page, last) is Ok,
        page % PAGE_SIZE as int == 0,
        last % PAGE_SIZE as int == 0,
        at % PAGE_SIZE as int == 0,
        page <= last,
        at <= last,
    ensures
        user_pages(m, root, page, last) is Ok,
        page <= at ==> writable_page(m, root, at as u64) is Ok,
    decreases last - page,
{
    reveal(user_page);
    reveal(writable_page);
    if page < last {
        lemma_pages_writable(m, root, page + PAGE_SIZE, last, at);
    }
}

proof fn lemma_pages_reached(m: &TableMemory, root: u64, page: int, last: int, at: int)
    requires
        user_pages(m, root, page, last) is Ok,
        page % PAGE_SIZE as int == 0,
        at % PAGE_SIZE as int == 0,
        page <= at <= last,
    ensures
        user_page(m, root, at as u64) is Ok,
    decreases last - page,
{
    if page < at {
        lemma_pages_reached(m, root, page + PAGE_SIZE, last, at);
    }
}

} // verus!
