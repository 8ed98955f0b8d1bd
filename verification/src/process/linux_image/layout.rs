//! Where an image, its stack and its guard page lie.

use super::error::{LinuxImageError, StackLayoutError};
use crate::mm::layout::LINUX_CONVENTIONAL_USER_VA_LO;
use crate::mm::{PAGE_SIZE, USER_CANONICAL_TOP_EXCLUSIVE};
use vstd::prelude::*;

verus! {

/// Start of the one private top-level slot that every process owns.
pub const LINUX_USER_WINDOW_BASE: u64 = 0x0000_4000_0000_0000;

/// Exclusive end of that slot, 512 GiB above its start.
pub const LINUX_USER_WINDOW_END: u64 = 0x0000_4080_0000_0000;

/// Virtual span of one page table.
pub const PAGE_TABLE_SPAN: u64 = 0x20_0000;

/// Virtual span of one page directory.
pub const PAGE_DIRECTORY_SPAN: u64 = 0x4000_0000;

/// Linux user stack size in pages.
pub const LINUX_STACK_PAGES: u64 = 2;

/// Exclusive top of the mapped stack. The last page of the slot stays unmapped.
pub const LINUX_STACK_TOP: u64 = 0x0000_407f_ffff_f000;

/// Lowest mapped stack page.
pub const LINUX_STACK_BASE: u64 = 0x0000_407f_ffff_d000;

/// Guard page directly below the stack: never mapped, so an overflow faults.
pub const LINUX_STACK_GUARD_PAGE: u64 = 0x0000_407f_ffff_c000;

/// From here to the end of the slot lie the guard, the stack and the unmapped top page.
pub const LINUX_STACK_RESERVATION_START: u64 = 0x0000_407f_ffff_c000;

/// Bytes of the initial stack image of a launched program.
pub const LINUX_INITIAL_STACK_IMAGE_BYTES: usize = 256;

/// Upper bound for the stack images of `execve`, which may have several pages.
pub const LINUX_MAX_STACK_IMAGE_BYTES: usize = 0x8000;

/// Auxiliary vector entries of a launched program, without the terminator.
pub const LINUX_AUXV_ENTRIES: usize = 5;

pub const LINUX_MAX_AUXV_ENTRIES: usize = 16;

/// `argv[0]` of a launched program.
pub const LINUX_ARGV0: &'static str = "hello-linux-x86_64";

/// `argv[0]` of a program launched at conventional addresses.
pub const LINUX_LOW_VA_ARGV0: &'static str = "hello-linux-low-x86_64";

/// Exclusive top of the stack of a program at conventional addresses: a few MiB above its image, so
/// that both share page tables.
pub const CONVENTIONAL_STACK_TOP: u64 = 0x0000_0000_0080_0000;

/// The window and the stack of an image.
#[derive(Clone, Copy, Debug, PartialEq, Eq)]
pub struct LinuxImageLayout {
    pub user_region_base: u64,
    pub window_base: u64,
    pub window_end: u64,
    pub stack_top: u64,
    pub stack_base: u64,
    pub stack_guard_page: u64,
    pub stack_reservation_start: u64,
    pub stack_pages: u64,
    pub argv0: &'static str,
}

/// The layout of an image in the private slot.
pub open spec fn legacy_layout() -> LinuxImageLayout {
    LinuxImageLayout {
        user_region_base: LINUX_USER_WINDOW_BASE,
        window_base: LINUX_USER_WINDOW_BASE,
        window_end: LINUX_USER_WINDOW_END,
        stack_top: LINUX_STACK_TOP,
        stack_base: LINUX_STACK_BASE,
        stack_guard_page: LINUX_STACK_GUARD_PAGE,
        stack_reservation_start: LINUX_STACK_RESERVATION_START,
        stack_pages: LINUX_STACK_PAGES,
        argv0: LINUX_ARGV0,
    }
}

/// A layout at conventional addresses with its guard page directly below the stack.
pub open spec fn low_layout(
    user_region_base: u64,
    stack_pages: u64,
    window_base: u64,
    argv0: &'static str,
) -> LinuxImageLayout {
    let stack_base = (CONVENTIONAL_STACK_TOP - stack_pages * PAGE_SIZE) as u64;
    let guard = (stack_base - PAGE_SIZE) as u64;
    LinuxImageLayout {
        user_region_base,
        window_base,
        window_end: USER_CANONICAL_TOP_EXCLUSIVE,
        stack_top: CONVENTIONAL_STACK_TOP,
        stack_base,
        stack_guard_page: guard,
        stack_reservation_start: guard,
        stack_pages,
        argv0,
    }
}

impl LinuxImageLayout {
    /// The layout in the private slot.
    pub fn m8_legacy() -> (r: LinuxImageLayout)
        ensures
            r == legacy_layout(),
    {
        LinuxImageLayout {
            user_region_base: LINUX_USER_WINDOW_BASE,
            window_base: LINUX_USER_WINDOW_BASE,
            window_end: LINUX_USER_WINDOW_END,
            stack_top: LINUX_STACK_TOP,
            stack_base: LINUX_STACK_BASE,
            stack_guard_page: LINUX_STACK_GUARD_PAGE,
            stack_reservation_start: LINUX_STACK_RESERVATION_START,
            stack_pages: LINUX_STACK_PAGES,
            argv0: LINUX_ARGV0,
        }
    }

    /// The layout at conventional addresses.
    pub fn conventional(user_region_base: u64) -> (r: LinuxImageLayout)
        ensures
            r == low_layout(
                user_region_base,
                LINUX_STACK_PAGES,
                LINUX_CONVENTIONAL_USER_VA_LO,
                LINUX_LOW_VA_ARGV0,
            ),
    {
        let stack_base: u64 = CONVENTIONAL_STACK_TOP - LINUX_STACK_PAGES * PAGE_SIZE;
        let stack_guard_page: u64 = stack_base - PAGE_SIZE;
        LinuxImageLayout {
            user_region_base,
            window_base: LINUX_CONVENTIONAL_USER_VA_LO,
            window_end: USER_CANONICAL_TOP_EXCLUSIVE,
            stack_top: CONVENTIONAL_STACK_TOP,
            stack_base,
            stack_guard_page,
            stack_reservation_start: stack_guard_page,
            stack_pages: LINUX_STACK_PAGES,
            argv0: LINUX_LOW_VA_ARGV0,
        }
    }

    /// The layout at conventional addresses with a number of stack pages.
    pub fn conventional_with_stack(user_region_base: u64, stack_pages: u64, window_base: u64) -> (r:
        Result<LinuxImageLayout, LinuxImageError>)
        ensures
            r == (if stack_pages == 0 {
                Err::<LinuxImageLayout, LinuxImageError>(
                    LinuxImageError::InitialStack(StackLayoutError::BufferTooSmall),
                )
            } else if (stack_pages + 1) * PAGE_SIZE > CONVENTIONAL_STACK_TOP {
                Err(LinuxImageError::VaddrOverflow)
            } else {
                Ok(low_layout(user_region_base, stack_pages, window_base, ""))
            }),
    {
        if stack_pages == 0 {
            return Err(LinuxImageError::InitialStack(StackLayoutError::BufferTooSmall));
        }
        let stack_span: u64 = match stack_pages.checked_mul(PAGE_SIZE) {
            Some(span) => span,
            None => return Err(LinuxImageError::VaddrOverflow),
        };
        let stack_base: u64 = match CONVENTIONAL_STACK_TOP.checked_sub(stack_span) {
            Some(base) => base,
            None => return Err(LinuxImageError::VaddrOverflow),
        };
        let stack_guard_page: u64 = match stack_base.checked_sub(PAGE_SIZE) {
            Some(page) => page,
            None => return Err(LinuxImageError::VaddrOverflow),
        };
        Ok(
            LinuxImageLayout {
                user_region_base,
                window_base,
                window_end: USER_CANONICAL_TOP_EXCLUSIVE,
                stack_top: CONVENTIONAL_STACK_TOP,
                stack_base,
                stack_guard_page,
                stack_reservation_start: stack_guard_page,
                stack_pages,
                argv0: "",
            },
        )
    }
}

/// In every layout that can be had, the guard page lies directly below the stack, starts the
/// reservation, and the stack has its pages.
pub proof fn law_guard_below_stack(user_region_base: u64, stack_pages: u64, window_base: u64, argv0: &'static str)
    requires
        (stack_pages + 1) * PAGE_SIZE <= CONVENTIONAL_STACK_TOP,
    ensures
        ({
            let layout = low_layout(user_region_base, stack_pages, window_base, argv0);
            &&& layout.stack_guard_page + PAGE_SIZE == layout.stack_base
            &&& layout.stack_top - layout.stack_base == layout.stack_pages * PAGE_SIZE
            &&& layout.stack_reservation_start == layout.stack_guard_page
        }),
        ({
            let layout = legacy_layout();
            &&& layout.stack_guard_page + PAGE_SIZE == layout.stack_base
            &&& layout.stack_top - layout.stack_base == layout.stack_pages * PAGE_SIZE
            &&& layout.stack_reservation_start == layout.stack_guard_page
        }),
{
}

} // verus!
