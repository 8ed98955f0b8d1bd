//! A first look at the program headers, so that each reason to refuse an image has its own error.

use super::error::{LinuxImageError, LoadPlanError};
use super::layout::{LINUX_USER_WINDOW_BASE, LINUX_USER_WINDOW_END};
use super::load_plan::{Elf64Header, PT_DYNAMIC, PT_INTERP, PT_LOAD};
use crate::mm::{PAGE_SIZE, USER_CANONICAL_TOP_EXCLUSIVE};
use vstd::prelude::*;

verus! {

/// The little-endian number in `n` bytes at an offset.
pub open spec fn le_value(bytes: Seq<u8>, offset: int, n: nat) -> int
    decreases n,
{
    if n == 0 {
        0
    } else {
        bytes[offset] + 256 * le_value(bytes, offset + 1, (n - 1) as nat)
    }
}

/// The number of `n` bytes at an offset, if they are there.
pub open spec fn le_at(bytes: Seq<u8>, offset: int, n: nat) -> Option<int> {
    if 0 <= offset && offset + n <= bytes.len() {
        Some(le_value(bytes, offset, n))
    } else {
        None
    }
}

/// The 32-bit number at an offset, if the bytes are there.
pub fn read_le_u32(bytes: &[u8], offset: usize) -> (r: Option<u32>)
    ensures
        match le_at(bytes@, offset as int, 4) {
            Some(value) => r is Some && r->0 == value,
            None => r is None,
        },
{
    let len: usize = bytes.len();
    if len < 4 || offset > len - 4 {
        return None;
    }
    proof {
        reveal_with_fuel(le_value, 5);
    }
    Some(
        bytes[offset] as u32 + 0x100 * bytes[offset + 1] as u32 + 0x1_0000 * bytes[offset
            + 2] as u32 + 0x100_0000 * bytes[offset + 3] as u32,
    )
}

/// The 64-bit number at an offset, if the bytes are there.
pub fn read_le_u64(bytes: &[u8], offset: usize) -> (r: Option<u64>)
    ensures
        match le_at(bytes@, offset as int, 8) {
            Some(value) => r is Some && r->0 == value,
            None => r is None,
        },
{
    let len: usize = bytes.len();
    if len < 8 || offset > len - 8 {
        return None;
    }
    let low: u32 = match read_le_u32(bytes, offset) {
        Some(low) => low,
        None => return None,
    };
    let high: u32 = match read_le_u32(bytes, offset + 4) {
        Some(high) => high,
        None => return None,
    };
    proof {
        reveal_with_fuel(le_value, 9);
    }
    Some(low as u64 + 0x1_0000_0000 * high as u64)
}

/// Whether a segment may lie where it does. With the private slot it must lie in it.
pub open spec fn segment_range(vaddr: int, memsz: int, slot: bool) -> Result<(), LinuxImageError> {
    let end = vaddr + memsz;
    if end > u64::MAX {
        Err(LinuxImageError::VaddrOverflow)
    } else if vaddr >= USER_CANONICAL_TOP_EXCLUSIVE || end > USER_CANONICAL_TOP_EXCLUSIVE {
        Err(LinuxImageError::KernelHalfVaddr)
    } else if vaddr < PAGE_SIZE {
        Err(LinuxImageError::PageZero)
    } else if slot && vaddr < LINUX_USER_WINDOW_BASE {
        Err(LinuxImageError::IdentityMapVaddr)
    } else if slot && end > LINUX_USER_WINDOW_END {
        Err(LinuxImageError::OutOfWindow)
    } else {
        Ok(())
    }
}

/// What is wrong with the program header at an offset.
pub open spec fn header_at(bytes: Seq<u8>, start: int, slot: bool) -> Result<(), LinuxImageError> {
    let truncated = Err::<(), LinuxImageError>(
        LinuxImageError::LoadPlan(LoadPlanError::TruncatedProgramHeaders),
    );
    match le_at(bytes, start, 4) {
        None => truncated,
        Some(p_type) => if p_type == PT_INTERP {
            Err(LinuxImageError::InterpreterNotAllowed)
        } else if p_type == PT_DYNAMIC {
            Err(LinuxImageError::DynamicNotAllowed)
        } else if p_type != PT_LOAD {
            Ok(())
        } else {
            match (le_at(bytes, start + 0x10, 8), le_at(bytes, start + 0x28, 8)) {
                (Some(vaddr), Some(memsz)) => if memsz == 0 {
                    Ok(())
                } else {
                    segment_range(vaddr, memsz, slot)
                },
                _ => truncated,
            }
        },
    }
}

/// What is wrong with the program headers from `index` on.
pub open spec fn headers_from(bytes: Seq<u8>, header: Elf64Header, slot: bool, index: int) -> Result<
    (),
    LinuxImageError,
>
    decreases header.e_phnum - index,
{
    if index < 0 || index >= header.e_phnum {
        Ok(())
    } else {
        match header_at(bytes, index * header.e_phentsize + header.e_phoff, slot) {
            Err(e) => Err(e),
            Ok(()) => headers_from(bytes, header, slot, index + 1),
        }
    }
}

/// What is wrong with the program headers of a file.
pub open spec fn prescanned(bytes: Seq<u8>, header: Elf64Header, slot: bool) -> Result<
    (),
    LinuxImageError,
> {
    let table_end = header.e_phoff + header.e_phnum * header.e_phentsize;
    if table_end > u64::MAX {
        Err(LinuxImageError::LoadPlan(LoadPlanError::ArithmeticOverflow))
    } else if table_end > bytes.len() {
        Err(LinuxImageError::LoadPlan(LoadPlanError::TruncatedProgramHeaders))
    } else {
        headers_from(bytes, header, slot, 0)
    }
}

fn check_segment_range(vaddr: u64, memsz: u64, slot: bool) -> (r: Result<(), LinuxImageError>)
    ensures
        r == segment_range(vaddr as int, memsz as int, slot),
{
    let end: u64 = match vaddr.checked_add(memsz) {
        Some(end) => end,
        None => return Err(LinuxImageError::VaddrOverflow),
    };
    if vaddr >= USER_CANONICAL_TOP_EXCLUSIVE || end > USER_CANONICAL_TOP_EXCLUSIVE {
        return Err(LinuxImageError::KernelHalfVaddr);
    }
    if vaddr < PAGE_SIZE {
        return Err(LinuxImageError::PageZero);
    }
    if slot && vaddr < LINUX_USER_WINDOW_BASE {
        return Err(LinuxImageError::IdentityMapVaddr);
    }
    if slot && end > LINUX_USER_WINDOW_END {
        return Err(LinuxImageError::OutOfWindow);
    }
    Ok(())
}

fn check_header(bytes: &[u8], start: usize, slot: bool) -> (r: Result<(), LinuxImageError>)
    ensures
        r == header_at(bytes@, start as int, slot),
{
    let p_type: u32 = match read_le_u32(bytes, start) {
        Some(p_type) => p_type,
        None => return Err(LinuxImageError::LoadPlan(LoadPlanError::TruncatedProgramHeaders)),
    };
    if p_type == PT_INTERP {
        return Err(LinuxImageError::InterpreterNotAllowed);
    }
    if p_type == PT_DYNAMIC {
        return Err(LinuxImageError::DynamicNotAllowed);
    }
    if p_type != PT_LOAD {
        return Ok(());
    }
    let len: usize = bytes.len();
    if start > usize::MAX - 0x28 || start + 0x28 > len {
        return Err(LinuxImageError::LoadPlan(LoadPlanError::TruncatedProgramHeaders));
    }
    let p_vaddr: u64 = match read_le_u64(bytes, start + 0x10) {
        Some(p_vaddr) => p_vaddr,
        None => return Err(LinuxImageError::LoadPlan(LoadPlanError::TruncatedProgramHeaders)),
    };
    let p_memsz: u64 = match read_le_u64(bytes, start + 0x28) {
        Some(p_memsz) => p_memsz,
        None => return Err(LinuxImageError::LoadPlan(LoadPlanError::TruncatedProgramHeaders)),
    };
    if p_memsz == 0 {
        return Ok(());
    }
    check_segment_range(p_vaddr, p_memsz, slot)
}

fn prescan(bytes: &[u8], header: &Elf64Header, slot: bool) -> (r: Result<(), LinuxImageError>)
    ensures
        r == prescanned(bytes@, *header, slot),
{
    assert(header.e_phnum * header.e_phentsize <= 0xffff * 0xffff) by (nonlinear_arith)
        requires
            header.e_phnum <= 0xffff,
            header.e_phentsize <= 0xffff,
    ;
    let table: u64 = header.e_phnum as u64 * header.e_phentsize as u64;
    let table_end: u64 = match header.e_phoff.checked_add(table) {
        Some(end) => end,
        None => return Err(LinuxImageError::LoadPlan(LoadPlanError::ArithmeticOverflow)),
    };
    let len: usize = bytes.len();
    if table_end > len as u64 {
        return Err(LinuxImageError::LoadPlan(LoadPlanError::TruncatedProgramHeaders));
    }
    let phoff: usize = header.e_phoff as usize;
    let phentsize: usize = header.e_phentsize as usize;
    let mut start: usize = phoff;
    let mut index: u16 = 0;
    assert(0 * phentsize == 0) by (nonlinear_arith);
    while index < header.e_phnum
        invariant
            0 <= index <= header.e_phnum,
            phoff == header.e_phoff,
            phentsize == header.e_phentsize,
            start == index * phentsize + phoff,
            phoff + header.e_phnum * phentsize <= len,
            prescanned(bytes@, *header, slot) == headers_from(bytes@, *header, slot, index as int),
        decreases header.e_phnum - index,
    {
        match check_header(bytes, start, slot) {
            Ok(()) => {},
            Err(e) => return Err(e),
        }
        assert((index + 1) * phentsize == index * phentsize + phentsize) by (nonlinear_arith);
        assert((index + 1) * phentsize <= header.e_phnum * phentsize) by (nonlinear_arith)
            requires
                index + 1 <= header.e_phnum,
                phentsize >= 0,
        ;
        start = start + phentsize;
        index += 1;
    }
    Ok(())
}

/// Looks at the program headers of an image for the private slot.
pub fn prescan_program_headers(bytes: &[u8], header: &Elf64Header) -> (r: Result<
    (),
    LinuxImageError,
>)
    ensures
        r == prescanned(bytes@, *header, true),
{
    prescan(bytes, header, true)
}

/// Looks at the program headers of an image whose policy has a window of its own.
pub fn prescan_program_headers_minimal(bytes: &[u8], header: &Elf64Header) -> (r: Result<
    (),
    LinuxImageError,
>)
    ensures
        r == prescanned(bytes@, *header, false),
{
    prescan(bytes, header, false)
}

/// An image that passes for the private slot passes the weaker look too.
pub proof fn law_slot_prescan_is_stricter(bytes: Seq<u8>, header: Elf64Header)
    requires
        prescanned(bytes, header, true) is Ok,
    ensures
        prescanned(bytes, header, false) is Ok,
{
    lemma_stricter_from(bytes, header, 0);
}

proof fn lemma_stricter_from(bytes: Seq<u8>, header: Elf64Header, index: int)
    requires
        headers_from(bytes, header, true, index) is Ok,
    ensures
        headers_from(bytes, header, false, index) is Ok,
    decreases header.e_phnum - index,
{
    if 0 <= index < header.e_phnum {
        lemma_stricter_from(bytes, header, index + 1);
    }
}

} // verus!
