//! Program images: validation, layout, the initial stack, and exec.

use clean_slate::abi::{
    AT_ENTRY, AT_NULL, AT_PAGESZ, AT_PHDR, AT_PHENT, AT_PHNUM, EINVAL, ENOEXEC,
};
use clean_slate::mm::address_space::{
    ProcessAddressSpace, KERNEL_CARVE_OUT_PRIVATE_TABLE_FRAMES,
    MAX_ADDRESS_SPACE_PAGE_TABLE_FRAMES, MAX_ADDRESS_SPACE_USER_MAPPINGS,
};
use clean_slate::mm::frame_allocator::PageAllocator;
use clean_slate::mm::region::{MemoryRegion, MemoryRegionKind, NormalizedMemoryMap};
use clean_slate::mm::PAGE_SIZE;
use clean_slate::process::id_allocator::IdAllocator;
use clean_slate::process::lifecycle::{ProcessRegistry, ProcessState};
use clean_slate::process::linux_exec::{
    build_exec_initial_stack, exec_stack_tail, fill_at_random, layout_for_spec,
    launch_linux_process_from_spec, linux_errno_for_exec_error, linux_exec_auxv,
    m8_hello_exec_spec, pick_scheduler_slot_for_relaunch, plan_linux_exec, prepare_linux_image,
    rewrite_syscall_return_for_exec, validate_spec_strings, LinuxExecSpec, PreparedLinuxImage,
    StackTail, AT_RANDOM_BYTES, LINUX_EXEC_MAX_ARGS, LINUX_EXEC_MAX_ENVS,
    LINUX_EXEC_MAX_STACK_PAGES, USER_TEST_RFLAGS,
};
use clean_slate::process::linux_image::construct::{
    build_linux_process_image, stack_image_chunks, LinuxProcessImage,
};
use clean_slate::process::linux_image::demand::page_table_frame_demand;
use clean_slate::process::linux_image::error::{LinuxImageError, LoadPlanError, StackLayoutError};
use clean_slate::process::linux_image::launch::register_linux_process;
use clean_slate::process::linux_image::layout::{
    LinuxImageLayout, CONVENTIONAL_STACK_TOP, LINUX_ARGV0, LINUX_AUXV_ENTRIES,
    LINUX_INITIAL_STACK_IMAGE_BYTES, LINUX_LOW_VA_ARGV0, LINUX_STACK_BASE, LINUX_STACK_GUARD_PAGE,
    LINUX_STACK_PAGES, LINUX_STACK_RESERVATION_START, LINUX_STACK_TOP, LINUX_USER_WINDOW_BASE,
    LINUX_USER_WINDOW_END, PAGE_DIRECTORY_SPAN, PAGE_TABLE_SPAN,
};
use clean_slate::process::linux_image::load_plan::{
    brk_initial_from_load_plan, Elf64Header, LoadPlan, LoadPolicy, LoadSegment, ELF64_PHDR_SIZE,
    MAX_LOAD_SEGMENTS, PT_DYNAMIC, PT_INTERP, PT_LOAD,
};
use clean_slate::process::linux_image::prescan::{read_le_u32, read_le_u64};
use clean_slate::process::linux_image::validate::{
    build_linux_initial_stack, validate_linux_image_with_stack, validate_linux_low_va_image,
    LinuxImagePlan, LinuxInitialStack, StackImage,
};
use clean_slate::process::linux_mem;
use clean_slate::sched::wait::SyscallContext;
use clean_slate::sched::Scheduler;

const FIXTURE_LEN: usize = 704;
const FIXTURE_LOAD_FILESZ: u64 = 0xe5;
const FIXTURE_ENTRY: u64 = 0x0000_4000_0040_0078;
const FIXTURE_IMAGE_BASE: u64 = 0x0000_4000_0040_0000;
const FIXTURE_PHOFF: u64 = 0x40;
const FIXTURE_PHNUM: u16 = 1;
const ELF64_EHDR_SIZE: usize = 64;

const PF_X: u32 = 1;
const PF_W: u32 = 2;
const PF_R: u32 = 4;

const EH_ENTRY: usize = 0x18;
const EH_PHOFF: usize = 0x20;
const EH_PHNUM: usize = 0x38;
const PH_TYPE: usize = 0x00;
const PH_FLAGS: usize = 0x04;
const PH_OFFSET: usize = 0x08;
const PH_VADDR: usize = 0x10;
const PH_FILESZ: usize = 0x20;
const PH_MEMSZ: usize = 0x28;
const PH_ALIGN: usize = 0x30;

fn put_u16(bytes: &mut [u8], offset: usize, value: u16) {
    bytes[offset..offset + 2].copy_from_slice(&value.to_le_bytes());
}

fn put_u32(bytes: &mut [u8], offset: usize, value: u32) {
    bytes[offset..offset + 4].copy_from_slice(&value.to_le_bytes());
}

fn put_u64(bytes: &mut [u8], offset: usize, value: u64) {
    bytes[offset..offset + 8].copy_from_slice(&value.to_le_bytes());
}

fn get_u16(bytes: &[u8], offset: usize) -> u16 {
    u16::from_le_bytes(bytes[offset..offset + 2].try_into().unwrap())
}

fn get_u32(bytes: &[u8], offset: usize) -> u32 {
    u32::from_le_bytes(bytes[offset..offset + 4].try_into().unwrap())
}

fn get_u64(bytes: &[u8], offset: usize) -> u64 {
    u64::from_le_bytes(bytes[offset..offset + 8].try_into().unwrap())
}

fn phdr(index: usize) -> usize {
    FIXTURE_PHOFF as usize + index * usize::from(ELF64_PHDR_SIZE)
}

/// A static program: one read-execute segment that covers the header, its one program header and
/// the code.
fn program_at(base: u64) -> Vec<u8> {
    let mut bytes = vec![0u8; FIXTURE_LEN];
    bytes[..8].copy_from_slice(b"\x7fELF\x02\x01\x01\x00");
    put_u16(&mut bytes, 0x10, 2);
    put_u16(&mut bytes, 0x12, 62);
    put_u32(&mut bytes, 0x14, 1);
    put_u64(&mut bytes, EH_ENTRY, base + 0x78);
    put_u64(&mut bytes, EH_PHOFF, FIXTURE_PHOFF);
    put_u16(&mut bytes, 0x34, ELF64_EHDR_SIZE as u16);
    put_u16(&mut bytes, 0x36, ELF64_PHDR_SIZE);
    put_u16(&mut bytes, EH_PHNUM, FIXTURE_PHNUM);
    let at = phdr(0);
    put_u32(&mut bytes, at + PH_TYPE, PT_LOAD);
    put_u32(&mut bytes, at + PH_FLAGS, PF_R | PF_X);
    put_u64(&mut bytes, at + PH_OFFSET, 0);
    put_u64(&mut bytes, at + PH_VADDR, base);
    put_u64(&mut bytes, at + PH_FILESZ, FIXTURE_LOAD_FILESZ);
    put_u64(&mut bytes, at + PH_MEMSZ, FIXTURE_LOAD_FILESZ);
    put_u64(&mut bytes, at + PH_ALIGN, PAGE_SIZE);
    bytes
}

fn fixture_copy() -> Vec<u8> {
    program_at(FIXTURE_IMAGE_BASE)
}

#[derive(Clone, Copy)]
struct ExtraLoad {
    vaddr: u64,
    filesz: u64,
    memsz: u64,
    flags: u32,
}

/// The program with more segments; the program headers move behind the other bytes and the first
/// segment grows to cover them.
fn fixture_with_extra_loads(extra: &[ExtraLoad]) -> Vec<u8> {
    let mut bytes = fixture_copy();
    let phentsize = usize::from(ELF64_PHDR_SIZE);
    let count = 1 + extra.len();
    let new_phoff = (bytes.len() as u64 + 7) & !7;
    bytes.resize(new_phoff as usize + count * phentsize, 0);
    let original = fixture_copy()[phdr(0)..phdr(1)].to_vec();
    bytes[new_phoff as usize..new_phoff as usize + phentsize].copy_from_slice(&original);
    put_u64(&mut bytes, EH_PHOFF, new_phoff);
    put_u16(&mut bytes, EH_PHNUM, count as u16);
    for (index, load) in extra.iter().enumerate() {
        let at = new_phoff as usize + (index + 1) * phentsize;
        put_u32(&mut bytes, at + PH_TYPE, PT_LOAD);
        put_u32(&mut bytes, at + PH_FLAGS, load.flags);
        put_u64(&mut bytes, at + PH_OFFSET, 0);
        put_u64(&mut bytes, at + PH_VADDR, load.vaddr);
        put_u64(&mut bytes, at + PH_FILESZ, load.filesz);
        put_u64(&mut bytes, at + PH_MEMSZ, load.memsz);
        put_u64(&mut bytes, at + PH_ALIGN, PAGE_SIZE);
    }
    let covered = new_phoff + (count as u64) * u64::from(ELF64_PHDR_SIZE);
    put_u64(&mut bytes, new_phoff as usize + PH_FILESZ, covered);
    put_u64(&mut bytes, new_phoff as usize + PH_MEMSZ, covered);
    bytes
}

fn fixture_with_second_load(vaddr: u64, memsz: u64, flags: u32) -> Vec<u8> {
    fixture_with_extra_loads(&[ExtraLoad { vaddr, filesz: 0, memsz, flags }])
}

/// A reader of static program files, as strict as the loader needs.
fn read_header(bytes: &[u8]) -> Result<Elf64Header, LoadPlanError> {
    if bytes.len() < ELF64_EHDR_SIZE {
        return Err(LoadPlanError::TruncatedHeader);
    }
    if &bytes[..4] != b"\x7fELF" {
        return Err(LoadPlanError::BadMagic);
    }
    if bytes[4] != 2 {
        return Err(LoadPlanError::BadClass);
    }
    if bytes[5] != 1 {
        return Err(LoadPlanError::BadEndian);
    }
    if get_u16(bytes, 0x12) != 62 {
        return Err(LoadPlanError::BadMachine);
    }
    if get_u16(bytes, 0x36) != ELF64_PHDR_SIZE {
        return Err(LoadPlanError::BadPhentsize);
    }
    Ok(Elf64Header {
        e_phoff: get_u64(bytes, EH_PHOFF),
        e_phnum: get_u16(bytes, EH_PHNUM),
        e_phentsize: ELF64_PHDR_SIZE,
    })
}

fn read_plan(bytes: &[u8]) -> Result<LoadPlan, LoadPlanError> {
    let header = read_header(bytes)?;
    if get_u16(bytes, 0x10) != 2 {
        return Err(LoadPlanError::UnsupportedEType);
    }
    let table = u64::from(header.e_phnum) * u64::from(ELF64_PHDR_SIZE);
    let end = header
        .e_phoff
        .checked_add(table)
        .ok_or(LoadPlanError::ArithmeticOverflow)?;
    if end > bytes.len() as u64 {
        return Err(LoadPlanError::TruncatedProgramHeaders);
    }
    let entry = get_u64(bytes, EH_ENTRY);
    let mut segments: Vec<LoadSegment> = Vec::new();
    let mut phdr_vaddr: Option<u64> = None;
    let mut executable = false;
    let mut pages: Vec<u64> = Vec::new();
    for index in 0..usize::from(header.e_phnum) {
        let at = header.e_phoff as usize + index * usize::from(ELF64_PHDR_SIZE);
        if get_u32(bytes, at) != PT_LOAD {
            continue;
        }
        if segments.len() == MAX_LOAD_SEGMENTS {
            return Err(LoadPlanError::SegmentBudgetExceeded);
        }
        let flags = get_u32(bytes, at + PH_FLAGS);
        let offset = get_u64(bytes, at + PH_OFFSET);
        let vaddr = get_u64(bytes, at + PH_VADDR);
        let filesz = get_u64(bytes, at + PH_FILESZ);
        let memsz = get_u64(bytes, at + PH_MEMSZ);
        let align = get_u64(bytes, at + PH_ALIGN);
        if filesz > memsz {
            return Err(LoadPlanError::FileszGreaterThanMemsz);
        }
        let file_end = offset
            .checked_add(filesz)
            .ok_or(LoadPlanError::FileRangeOverflow)?;
        if file_end > bytes.len() as u64 {
            return Err(LoadPlanError::FileRangeBeyondEof);
        }
        if align > 1 {
            if !align.is_power_of_two() {
                return Err(LoadPlanError::AlignmentViolation);
            }
            if vaddr % align != offset % align {
                return Err(LoadPlanError::OffsetVaddrCongruenceViolation);
            }
        }
        if flags & PF_W != 0 && flags & PF_X != 0 {
            return Err(LoadPlanError::WriteExecuteConflict);
        }
        if flags & PF_X != 0 && vaddr <= entry && entry < vaddr + memsz {
            executable = true;
        }
        if offset <= header.e_phoff && end <= file_end {
            phdr_vaddr = phdr_vaddr.or(Some(vaddr + (header.e_phoff - offset)));
        }
        let mut page = vaddr & !(PAGE_SIZE - 1);
        while page < vaddr + memsz {
            if pages.contains(&page) {
                return Err(LoadPlanError::SegmentOverlap);
            }
            pages.push(page);
            page += PAGE_SIZE;
        }
        segments.push(LoadSegment { vaddr, memsz, align });
    }
    if segments.is_empty() {
        return Err(LoadPlanError::NoLoadSegments);
    }
    if !executable {
        return Err(LoadPlanError::EntryOutsideExecutableSegment);
    }
    let image_base = segments.iter().map(|segment| segment.vaddr).min();
    Ok(LoadPlan {
        segments,
        entry,
        phnum: header.e_phnum,
        phdr_vaddr,
        has_interp: false,
        has_dynamic: false,
        image_base,
        mapped_pages: Ok(pages.len() as u64),
    })
}

/// Lays an initial stack out: vectors at the stack pointer, strings and tail up to the top.
/// Returns the addresses of the tail parts too.
fn lay_stack_out(
    size: usize,
    top: u64,
    argv: &[&[u8]],
    envp: &[&[u8]],
    auxv: &[(u64, u64)],
    tail: &[Vec<u8>],
) -> Result<(StackImage, Vec<u64>), StackLayoutError> {
    if auxv.iter().any(|(kind, _)| *kind == AT_NULL) {
        return Err(StackLayoutError::PrematureAtNull);
    }
    let base = top - size as u64;
    let mut bytes = vec![0u8; size];
    let mut cursor = size;
    let mut tail_at: Vec<u64> = Vec::new();
    for blob in tail.iter().rev() {
        cursor = cursor
            .checked_sub(blob.len())
            .ok_or(StackLayoutError::BufferTooSmall)?;
        bytes[cursor..cursor + blob.len()].copy_from_slice(blob);
        tail_at.insert(0, base + cursor as u64);
    }
    let mut pointers: Vec<u64> = Vec::new();
    for string in argv.iter().chain(envp.iter()).rev() {
        cursor = cursor
            .checked_sub(string.len() + 1)
            .ok_or(StackLayoutError::StringOverflow)?;
        bytes[cursor..cursor + string.len()].copy_from_slice(string);
        pointers.insert(0, base + cursor as u64);
    }
    let mut words: Vec<u64> = vec![argv.len() as u64];
    words.extend_from_slice(&pointers[..argv.len()]);
    words.push(0);
    words.extend_from_slice(&pointers[argv.len()..]);
    words.push(0);
    for (kind, value) in auxv {
        words.push(*kind);
        words.push(*value);
    }
    words.push(AT_NULL);
    words.push(0);
    let start = cursor
        .checked_sub(words.len() * 8)
        .ok_or(StackLayoutError::BufferTooSmall)?;
    let rsp = (base + start as u64) & !15;
    if rsp < base {
        return Err(StackLayoutError::BufferTooSmall);
    }
    for (index, word) in words.iter().enumerate() {
        put_u64(&mut bytes, (rsp - base) as usize + index * 8, *word);
    }
    Ok((StackImage { bytes, rsp }, tail_at))
}

fn launch_stack(plan: &LoadPlan, top: u64, argv0: &str) -> Result<StackImage, StackLayoutError> {
    let auxv = [
        (AT_PHDR, plan.phdr_vaddr.unwrap_or(0)),
        (AT_PHENT, 56),
        (AT_PHNUM, u64::from(plan.phnum)),
        (AT_PAGESZ, 4096),
        (AT_ENTRY, plan.entry),
    ];
    lay_stack_out(LINUX_INITIAL_STACK_IMAGE_BYTES, top, &[argv0.as_bytes()], &[], &auxv, &[])
        .map(|(image, _)| image)
}

fn validate_linux_image(bytes: &[u8]) -> Result<LinuxImagePlan, LinuxImageError> {
    let plan = read_plan(bytes);
    let built = match &plan {
        Ok(plan) => launch_stack(plan, LINUX_STACK_TOP, LINUX_ARGV0),
        Err(_) => Err(StackLayoutError::BufferTooSmall),
    };
    clean_slate::process::linux_image::validate::validate_linux_image(
        bytes,
        read_header(bytes),
        plan,
        built,
    )
}

fn conventional_policy() -> LoadPolicy {
    LoadPolicy { user_va_lo: 0x1_0000, user_va_hi: 0x8000_0000_0000 }
}

#[test]
fn policy_is_the_private_slot() {
    let policy = LoadPolicy::linux_m8();
    assert_eq!(policy.user_va_lo, 0x0000_4000_0000_0000);
    assert_eq!(policy.user_va_hi, 0x0000_4080_0000_0000);
    assert!(policy.is_private_slot());
    assert!(!conventional_policy().is_private_slot());
}

#[test]
fn frozen_fixture_validates_with_expected_plan() {
    let plan = validate_linux_image(&fixture_copy()).expect("fixture validates");
    assert_eq!(plan.entry, FIXTURE_ENTRY);
    assert_eq!(plan.plan.segments.len(), 1);
    let segment = plan.plan.segments[0];
    assert_eq!(segment.vaddr, FIXTURE_IMAGE_BASE);
    assert_eq!(segment.memsz, FIXTURE_LOAD_FILESZ);
    assert_eq!(plan.image_pages, 1);
    assert_eq!(plan.mapped_pages(), 1 + LINUX_STACK_PAGES);
    // root + PDPT + (PD, PT) for the code page + (PD, PT) for the stack.
    assert_eq!(plan.page_table_frames, 6);
    assert!(plan.page_table_frames <= MAX_ADDRESS_SPACE_PAGE_TABLE_FRAMES);
    assert!(plan.mapped_pages() <= MAX_ADDRESS_SPACE_USER_MAPPINGS as u64);
    assert!(!plan.plan.has_interp);
    assert!(!plan.plan.has_dynamic);
}

#[test]
fn at_phdr_is_derived_from_first_load_plus_phoff() {
    let plan = validate_linux_image(&fixture_copy()).expect("fixture validates");
    let first = plan.plan.segments[0];
    assert_eq!(plan.phdr_vaddr, first.vaddr + FIXTURE_PHOFF);
    assert_eq!(plan.phdr_vaddr, 0x0000_4000_0040_0040);
    assert_eq!(plan.initial_stack.auxv[0], (AT_PHDR, 0x0000_4000_0040_0040));
}

const LOW_VA_FIXTURE_IMAGE_BASE: u64 = 0x0000_0000_0040_0000;
const LOW_VA_FIXTURE_ENTRY: u64 = 0x0000_0000_0040_0078;

#[test]
fn low_va_fixture_validates_under_conventional_policy() {
    let bytes = program_at(LOW_VA_FIXTURE_IMAGE_BASE);
    let policy = conventional_policy();
    let read = read_plan(&bytes);
    let built = launch_stack(read.as_ref().expect("plan"), CONVENTIONAL_STACK_TOP, LINUX_LOW_VA_ARGV0);
    let plan = validate_linux_low_va_image(&bytes, &policy, read_header(&bytes), read, built)
        .expect("low-VA fixture validates under the conventional policy");
    assert_eq!(plan.entry, LOW_VA_FIXTURE_ENTRY);
    assert_eq!(plan.layout.user_region_base, LOW_VA_FIXTURE_IMAGE_BASE);
    assert_eq!(plan.layout.window_base, policy.user_va_lo);
    assert_eq!(plan.layout.window_end, policy.user_va_hi);
    assert_eq!(plan.layout.argv0, LINUX_LOW_VA_ARGV0);
    let first = plan.plan.segments[0];
    assert_eq!(first.vaddr, LOW_VA_FIXTURE_IMAGE_BASE);
    assert!(first.vaddr >= policy.user_va_lo);
    // Stack sits above the image in the same GiB and never touches page zero.
    assert!(plan.layout.stack_guard_page > LOW_VA_FIXTURE_IMAGE_BASE);
    assert!(plan.layout.stack_top <= 1 << 30);
    assert!(
        plan.page_table_frames + KERNEL_CARVE_OUT_PRIVATE_TABLE_FRAMES
            <= MAX_ADDRESS_SPACE_PAGE_TABLE_FRAMES
    );
    assert!(plan.mapped_pages() <= MAX_ADDRESS_SPACE_USER_MAPPINGS as u64);
}

#[test]
fn low_va_fixture_is_rejected_by_m8_legacy_policy() {
    assert!(
        validate_linux_image(&program_at(LOW_VA_FIXTURE_IMAGE_BASE)).is_err(),
        "the slot policy must not accept a conventional 0x400000 image"
    );
}

#[test]
fn conventional_layout_reserves_guard_below_stack() {
    let layout = LinuxImageLayout::conventional(LOW_VA_FIXTURE_IMAGE_BASE);
    assert_eq!(layout.user_region_base, LOW_VA_FIXTURE_IMAGE_BASE);
    assert_eq!(layout.stack_guard_page + PAGE_SIZE, layout.stack_base);
    assert_eq!(
        layout.stack_top - layout.stack_base,
        LINUX_STACK_PAGES * PAGE_SIZE
    );
    assert_eq!(layout.stack_reservation_start, layout.stack_guard_page);
}

#[test]
fn corpus_bad_magic() {
    let mut bytes = fixture_copy();
    bytes[0] = 0;
    assert_eq!(
        validate_linux_image(&bytes),
        Err(LinuxImageError::LoadPlan(LoadPlanError::BadMagic))
    );
}

#[test]
fn corpus_elfclass32() {
    let mut bytes = fixture_copy();
    bytes[4] = 1;
    assert_eq!(
        validate_linux_image(&bytes),
        Err(LinuxImageError::LoadPlan(LoadPlanError::BadClass))
    );
}

#[test]
fn corpus_big_endian() {
    let mut bytes = fixture_copy();
    bytes[5] = 2;
    assert_eq!(
        validate_linux_image(&bytes),
        Err(LinuxImageError::LoadPlan(LoadPlanError::BadEndian))
    );
}

#[test]
fn corpus_em_aarch64() {
    let mut bytes = fixture_copy();
    put_u16(&mut bytes, 0x12, 183);
    assert_eq!(
        validate_linux_image(&bytes),
        Err(LinuxImageError::LoadPlan(LoadPlanError::BadMachine))
    );
}

#[test]
fn corpus_et_dyn_rejected_as_not_et_exec() {
    let mut bytes = fixture_copy();
    put_u16(&mut bytes, 0x10, 3);
    assert_eq!(
        validate_linux_image(&bytes),
        Err(LinuxImageError::LoadPlan(LoadPlanError::UnsupportedEType))
    );
}

#[test]
fn corpus_truncated_phdr_table() {
    let bytes = fixture_copy();
    assert_eq!(
        validate_linux_image(&bytes[..0x60]),
        Err(LinuxImageError::LoadPlan(
            LoadPlanError::TruncatedProgramHeaders
        ))
    );
}

#[test]
fn corpus_filesz_gt_memsz() {
    let mut bytes = fixture_copy();
    put_u64(&mut bytes, phdr(0) + PH_MEMSZ, 0x80);
    assert_eq!(
        validate_linux_image(&bytes),
        Err(LinuxImageError::LoadPlan(
            LoadPlanError::FileszGreaterThanMemsz
        ))
    );
}

#[test]
fn corpus_overlapping_pt_load_rejected_alias_policy() {
    // A short file whose segments claim more bytes than it has is rejected for that first.
    let mut bytes = fixture_copy()[..200].to_vec();
    put_u64(&mut bytes, phdr(0) + PH_FILESZ, 0x1000);
    put_u64(&mut bytes, phdr(0) + PH_MEMSZ, 0x1000);
    assert_eq!(
        validate_linux_image(&bytes),
        Err(LinuxImageError::LoadPlan(LoadPlanError::FileRangeBeyondEof))
    );
    // A second segment in the code page, with its bytes in the file, is rejected as an overlap.
    let bytes = fixture_with_second_load(FIXTURE_IMAGE_BASE, 0x10, PF_R);
    assert_eq!(
        validate_linux_image(&bytes),
        Err(LinuxImageError::LoadPlan(LoadPlanError::SegmentOverlap))
    );
}

#[test]
fn corpus_has_pt_interp() {
    let mut bytes = fixture_with_second_load(FIXTURE_IMAGE_BASE + 2 * PAGE_SIZE, 0x10, PF_R);
    let phoff = get_u64(&bytes, EH_PHOFF) as usize;
    put_u32(&mut bytes, phoff + 56 + PH_TYPE, PT_INTERP);
    assert_eq!(
        validate_linux_image(&bytes),
        Err(LinuxImageError::InterpreterNotAllowed)
    );
}

#[test]
fn corpus_vaddr_kernel_range() {
    let mut bytes = fixture_copy();
    put_u64(&mut bytes, phdr(0) + PH_VADDR, 0xffff_8000_0040_0000);
    assert_eq!(
        validate_linux_image(&bytes),
        Err(LinuxImageError::KernelHalfVaddr)
    );
}

#[test]
fn corpus_vaddr_page_zero() {
    let mut bytes = fixture_copy();
    put_u64(&mut bytes, phdr(0) + PH_VADDR, 0);
    assert_eq!(validate_linux_image(&bytes), Err(LinuxImageError::PageZero));
}

#[test]
fn corpus_phentsize_wrong() {
    let mut bytes = fixture_copy();
    put_u16(&mut bytes, 0x36, 32);
    assert_eq!(
        validate_linux_image(&bytes),
        Err(LinuxImageError::LoadPlan(LoadPlanError::BadPhentsize))
    );
}

#[test]
fn corpus_offset_beyond_eof() {
    let mut bytes = fixture_copy();
    put_u64(&mut bytes, phdr(0) + PH_OFFSET, 0x10_0000);
    assert_eq!(
        validate_linux_image(&bytes),
        Err(LinuxImageError::LoadPlan(LoadPlanError::FileRangeBeyondEof))
    );
}

#[test]
fn patched_phdr_table_beyond_file_is_truncated() {
    let mut bytes = fixture_copy();
    put_u64(&mut bytes, EH_PHOFF, (FIXTURE_LEN - 8) as u64);
    assert_eq!(
        validate_linux_image(&bytes),
        Err(LinuxImageError::LoadPlan(
            LoadPlanError::TruncatedProgramHeaders
        ))
    );
    let mut bytes = fixture_copy();
    put_u64(&mut bytes, EH_PHOFF, u64::MAX - 8);
    assert_eq!(
        validate_linux_image(&bytes),
        Err(LinuxImageError::LoadPlan(LoadPlanError::ArithmeticOverflow))
    );
}

#[test]
fn patched_file_range_overflow() {
    let mut bytes = fixture_copy();
    put_u64(&mut bytes, phdr(0) + PH_OFFSET, u64::MAX - 4);
    assert_eq!(
        validate_linux_image(&bytes),
        Err(LinuxImageError::LoadPlan(LoadPlanError::FileRangeOverflow))
    );
}

#[test]
fn patched_vaddr_plus_memsz_overflow() {
    let mut bytes = fixture_copy();
    put_u64(&mut bytes, phdr(0) + PH_VADDR, u64::MAX - 0x10);
    put_u64(&mut bytes, phdr(0) + PH_MEMSZ, 0x100);
    assert_eq!(
        clean_slate::process::linux_image::validate::validate_linux_image(
            &bytes,
            read_header(&bytes),
            Err(LoadPlanError::VaddrRangeOverflow),
            Err(StackLayoutError::BufferTooSmall),
        ),
        Err(LinuxImageError::VaddrOverflow)
    );
}

#[test]
fn patched_identity_map_vaddr_is_distinct_from_page_zero() {
    let mut bytes = fixture_copy();
    // The classic base of a static program, below the slot.
    put_u64(&mut bytes, phdr(0) + PH_VADDR, 0x0040_0000);
    assert_eq!(
        validate_linux_image(&bytes),
        Err(LinuxImageError::IdentityMapVaddr)
    );
}

#[test]
fn patched_segment_past_window_end_is_out_of_window() {
    let mut bytes = fixture_copy();
    // Starts inside the slot but memsz runs past its end.
    put_u64(
        &mut bytes,
        phdr(0) + PH_VADDR,
        LINUX_USER_WINDOW_END - PAGE_SIZE,
    );
    put_u64(&mut bytes, phdr(0) + PH_MEMSZ, 2 * PAGE_SIZE);
    assert_eq!(
        validate_linux_image(&bytes),
        Err(LinuxImageError::OutOfWindow)
    );
    // The next slot is outside the window even though canonical.
    let mut bytes = fixture_copy();
    put_u64(&mut bytes, phdr(0) + PH_VADDR, LINUX_USER_WINDOW_END);
    assert_eq!(
        validate_linux_image(&bytes),
        Err(LinuxImageError::OutOfWindow)
    );
}

#[test]
fn patched_pt_dynamic_rejected() {
    let mut bytes = fixture_with_second_load(FIXTURE_IMAGE_BASE + 2 * PAGE_SIZE, 0x10, PF_R);
    let phoff = u64::from_le_bytes(bytes[EH_PHOFF..EH_PHOFF + 8].try_into().unwrap()) as usize;
    put_u32(&mut bytes, phoff + 56 + PH_TYPE, PT_DYNAMIC);
    assert_eq!(
        validate_linux_image(&bytes),
        Err(LinuxImageError::DynamicNotAllowed)
    );
}

#[test]
fn patched_align_two_rejected_below_page_size() {
    let mut bytes = fixture_copy();
    put_u64(&mut bytes, phdr(0) + PH_ALIGN, 2);
    assert_eq!(
        validate_linux_image(&bytes),
        Err(LinuxImageError::AlignmentBelowPageSize)
    );
    // 0 and 1 are accepted (no alignment constraint).
    for align in [0u64, 1] {
        let mut bytes = fixture_copy();
        put_u64(&mut bytes, phdr(0) + PH_ALIGN, align);
        assert!(validate_linux_image(&bytes).is_ok(), "align {align}");
    }
}

#[test]
fn patched_non_power_of_two_align_rejected() {
    let mut bytes = fixture_copy();
    put_u64(&mut bytes, phdr(0) + PH_ALIGN, 0x1800);
    assert_eq!(
        validate_linux_image(&bytes),
        Err(LinuxImageError::LoadPlan(LoadPlanError::AlignmentViolation))
    );
}

#[test]
fn patched_vaddr_offset_congruence_violation() {
    let mut bytes = fixture_copy();
    put_u64(&mut bytes, phdr(0) + PH_VADDR, FIXTURE_IMAGE_BASE + 0x10);
    put_u64(&mut bytes, EH_ENTRY, FIXTURE_ENTRY + 0x10);
    assert_eq!(
        validate_linux_image(&bytes),
        Err(LinuxImageError::LoadPlan(
            LoadPlanError::OffsetVaddrCongruenceViolation
        ))
    );
}

#[test]
fn patched_write_execute_segment_rejected() {
    let mut bytes = fixture_copy();
    put_u32(&mut bytes, phdr(0) + PH_FLAGS, PF_R | PF_W | PF_X);
    assert_eq!(
        validate_linux_image(&bytes),
        Err(LinuxImageError::LoadPlan(
            LoadPlanError::WriteExecuteConflict
        ))
    );
}

#[test]
fn patched_entry_outside_executable_segment() {
    let mut bytes = fixture_copy();
    put_u64(&mut bytes, EH_ENTRY, FIXTURE_IMAGE_BASE + PAGE_SIZE);
    assert_eq!(
        validate_linux_image(&bytes),
        Err(LinuxImageError::LoadPlan(
            LoadPlanError::EntryOutsideExecutableSegment
        ))
    );
    // Entry inside a segment without execute permission is rejected too.
    let mut bytes = fixture_copy();
    put_u32(&mut bytes, phdr(0) + PH_FLAGS, PF_R);
    assert_eq!(
        validate_linux_image(&bytes),
        Err(LinuxImageError::LoadPlan(
            LoadPlanError::EntryOutsideExecutableSegment
        ))
    );
}

#[test]
fn patched_zero_load_segments_rejected() {
    let mut bytes = fixture_copy();
    put_u32(&mut bytes, phdr(0) + PH_TYPE, 4); // PT_NOTE
    assert_eq!(
        validate_linux_image(&bytes),
        Err(LinuxImageError::LoadPlan(LoadPlanError::NoLoadSegments))
    );
}

#[test]
fn patched_segment_count_over_budget_rejected() {
    let extra: Vec<ExtraLoad> = (1..=MAX_LOAD_SEGMENTS as u64)
        .map(|index| ExtraLoad {
            vaddr: FIXTURE_IMAGE_BASE + (index + 1) * PAGE_SIZE,
            filesz: 0,
            memsz: 0x10,
            flags: PF_R | PF_W,
        })
        .collect();
    let bytes = fixture_with_extra_loads(&extra);
    assert_eq!(
        validate_linux_image(&bytes),
        Err(LinuxImageError::LoadPlan(
            LoadPlanError::SegmentBudgetExceeded
        ))
    );
}

#[test]
fn patched_segment_in_stack_reservation_rejected() {
    // Guard page itself.
    let bytes = fixture_with_second_load(LINUX_STACK_GUARD_PAGE, 0x10, PF_R | PF_W);
    assert_eq!(
        validate_linux_image(&bytes),
        Err(LinuxImageError::SegmentOverlapsStackReservation)
    );
    // Stack pages (page-aligned so the congruence rule does not fire first).
    let bytes = fixture_with_second_load(LINUX_STACK_BASE + PAGE_SIZE, 0x10, PF_R | PF_W);
    assert_eq!(
        validate_linux_image(&bytes),
        Err(LinuxImageError::SegmentOverlapsStackReservation)
    );
    // Unmapped top page of the slot.
    let bytes = fixture_with_second_load(LINUX_STACK_TOP, 0x10, PF_R | PF_W);
    assert_eq!(
        validate_linux_image(&bytes),
        Err(LinuxImageError::SegmentOverlapsStackReservation)
    );
    // A segment ending exactly at the reservation start is fine.
    let bytes = fixture_with_second_load(
        LINUX_STACK_RESERVATION_START - PAGE_SIZE,
        PAGE_SIZE,
        PF_R | PF_W,
    );
    let plan = validate_linux_image(&bytes).expect("adjacent segment is allowed");
    assert_eq!(plan.image_pages, 2);
}

#[test]
fn patched_mapping_budget_exceeded_before_mapping() {
    // One page of zeros too many beside code and stack.
    let bss_pages = MAX_ADDRESS_SPACE_USER_MAPPINGS as u64 - LINUX_STACK_PAGES;
    let bytes = fixture_with_second_load(
        FIXTURE_IMAGE_BASE + 2 * PAGE_SIZE,
        bss_pages * PAGE_SIZE,
        PF_R | PF_W,
    );
    assert_eq!(
        validate_linux_image(&bytes),
        Err(LinuxImageError::MappingBudgetExceeded)
    );
    // One page fewer fits exactly.
    let bytes = fixture_with_second_load(
        FIXTURE_IMAGE_BASE + 2 * PAGE_SIZE,
        (bss_pages - 1) * PAGE_SIZE,
        PF_R | PF_W,
    );
    let plan = validate_linux_image(&bytes).expect("exactly at the bound");
    assert_eq!(plan.mapped_pages(), MAX_ADDRESS_SPACE_USER_MAPPINGS as u64);
}

#[test]
fn patched_program_headers_outside_load_rejected() {
    // The segment no longer covers the program headers (still covers the entry).
    let mut bytes = fixture_copy();
    put_u64(&mut bytes, phdr(0) + PH_OFFSET, 0x78);
    put_u64(&mut bytes, phdr(0) + PH_VADDR, FIXTURE_IMAGE_BASE + 0x78);
    put_u64(&mut bytes, phdr(0) + PH_FILESZ, (FIXTURE_LEN - 0x78) as u64);
    put_u64(&mut bytes, phdr(0) + PH_MEMSZ, (FIXTURE_LEN - 0x78) as u64);
    assert_eq!(
        validate_linux_image(&bytes),
        Err(LinuxImageError::ProgramHeadersNotMapped)
    );
}

#[test]
fn empty_and_short_inputs_fail_closed() {
    assert_eq!(
        validate_linux_image(&[]),
        Err(LinuxImageError::LoadPlan(LoadPlanError::TruncatedHeader))
    );
    assert_eq!(
        validate_linux_image(&fixture_copy()[..ELF64_EHDR_SIZE - 1]),
        Err(LinuxImageError::LoadPlan(LoadPlanError::TruncatedHeader))
    );
}

#[test]
fn data_segment_with_zeros_takes_one_page() {
    let bytes = fixture_with_extra_loads(&[ExtraLoad {
        vaddr: FIXTURE_IMAGE_BASE + 2 * PAGE_SIZE,
        filesz: 0x10,
        memsz: 0x40,
        flags: PF_R | PF_W,
    }]);
    let plan = validate_linux_image(&bytes).expect("data segment validates");
    let data = plan.plan.segments[1];
    assert_eq!(data.memsz, 0x40);
    assert_eq!(data.page_span(), Ok((FIXTURE_IMAGE_BASE + 2 * PAGE_SIZE, 1)));
    assert_eq!(plan.image_pages, 2);
    assert_eq!(plan.mapped_pages(), 4);
    assert_eq!(
        brk_initial_from_load_plan(&plan.plan),
        FIXTURE_IMAGE_BASE + 3 * PAGE_SIZE
    );
}

#[test]
fn stack_layout_constants_are_consistent() {
    assert_eq!(LINUX_STACK_TOP, 0x0000_407f_ffff_f000);
    assert_eq!(LINUX_STACK_BASE, LINUX_STACK_TOP - 2 * PAGE_SIZE);
    assert_eq!(LINUX_STACK_GUARD_PAGE, LINUX_STACK_BASE - PAGE_SIZE);
    assert_eq!(LINUX_STACK_RESERVATION_START, LINUX_STACK_GUARD_PAGE);
    // Reservation is strictly inside the window.
    let (window_base, window_end) = (LINUX_USER_WINDOW_BASE, LINUX_USER_WINDOW_END);
    assert!(LINUX_STACK_GUARD_PAGE > window_base);
    assert!(LINUX_STACK_TOP < window_end);
}

#[test]
fn page_table_demand_counts_distinct_tables() {
    // One page: root + PDPT + PD + PT.
    assert_eq!(
        page_table_frame_demand(&[(FIXTURE_IMAGE_BASE, FIXTURE_IMAGE_BASE + PAGE_SIZE)]).unwrap(),
        4
    );
    // Two pages in the same 2 MiB region share PD and PT.
    assert_eq!(
        page_table_frame_demand(&[
            (FIXTURE_IMAGE_BASE, FIXTURE_IMAGE_BASE + PAGE_SIZE),
            (
                FIXTURE_IMAGE_BASE + 8 * PAGE_SIZE,
                FIXTURE_IMAGE_BASE + 9 * PAGE_SIZE
            ),
        ])
        .unwrap(),
        4
    );
    // Code page + stack at the top of the slot: separate PD and PT each.
    assert_eq!(
        page_table_frame_demand(&[
            (FIXTURE_IMAGE_BASE, FIXTURE_IMAGE_BASE + PAGE_SIZE),
            (LINUX_STACK_BASE, LINUX_STACK_TOP),
        ])
        .unwrap(),
        6
    );
    // A range crossing a 2 MiB boundary needs two PTs, one PD.
    assert_eq!(
        page_table_frame_demand(&[(
            FIXTURE_IMAGE_BASE + PAGE_TABLE_SPAN - PAGE_SIZE,
            FIXTURE_IMAGE_BASE + PAGE_TABLE_SPAN + PAGE_SIZE
        )])
        .unwrap(),
        5
    );
    // Empty ranges are ignored.
    assert_eq!(page_table_frame_demand(&[(0x1000, 0x1000)]).unwrap(), 2);
}

#[test]
fn page_table_demand_over_budget_fails_closed() {
    let mut ranges = [(0u64, 0u64); MAX_ADDRESS_SPACE_PAGE_TABLE_FRAMES + 1];
    for (index, range) in ranges.iter_mut().enumerate() {
        let start = FIXTURE_IMAGE_BASE + (index as u64) * PAGE_TABLE_SPAN;
        *range = (start, start + PAGE_SIZE);
    }
    assert_eq!(
        page_table_frame_demand(&ranges),
        Err(LinuxImageError::PageTableBudgetExceeded)
    );
    // A single huge segment is bounded by the same early exit.
    assert_eq!(
        page_table_frame_demand(&[(LINUX_USER_WINDOW_BASE, LINUX_STACK_RESERVATION_START)]),
        Err(LinuxImageError::PageTableBudgetExceeded)
    );
}

#[test]
fn patched_image_page_table_demand_is_exact() {
    // Second segment one 1 GiB region away: needs its own PD and PT.
    // root + PDPT + (PD + PT) code + (PD + PT) data + (PD + PT) stack = 8.
    let bytes =
        fixture_with_second_load(FIXTURE_IMAGE_BASE + PAGE_DIRECTORY_SPAN, 0x10, PF_R | PF_W);
    let plan = validate_linux_image(&bytes).expect("three-region image");
    assert_eq!(plan.page_table_frames, 8);
    assert!(
        plan.page_table_frames
            .saturating_add(KERNEL_CARVE_OUT_PRIVATE_TABLE_FRAMES)
            <= MAX_ADDRESS_SPACE_PAGE_TABLE_FRAMES
    );
    // Same 1 GiB region, different 2 MiB region: shares the PD, needs a PT.
    let bytes = fixture_with_second_load(FIXTURE_IMAGE_BASE + PAGE_TABLE_SPAN, 0x10, PF_R | PF_W);
    let plan = validate_linux_image(&bytes).expect("two-PT image");
    assert_eq!(plan.page_table_frames, 7);
}

#[test]
fn patched_image_over_page_table_budget_rejected() {
    // Only meaningful where the tables of five regions exceed the budget.
    if MAX_ADDRESS_SPACE_PAGE_TABLE_FRAMES >= 12 {
        return;
    }
    let extra: Vec<ExtraLoad> = (1..=3u64)
        .map(|region| ExtraLoad {
            vaddr: FIXTURE_IMAGE_BASE + region * PAGE_DIRECTORY_SPAN,
            filesz: 0,
            memsz: 0x10,
            flags: PF_R | PF_W,
        })
        .collect();
    let bytes = fixture_with_extra_loads(&extra);
    assert_eq!(
        validate_linux_image(&bytes),
        Err(LinuxImageError::PageTableBudgetExceeded)
    );
}

fn read_u64_at(stack: &LinuxInitialStack, vaddr: u64) -> u64 {
    let base = stack.image_base();
    assert!(
        vaddr >= base && vaddr + 8 <= LINUX_STACK_TOP,
        "vaddr {vaddr:#x} outside image"
    );
    let offset = (vaddr - base) as usize;
    u64::from_le_bytes(stack.bytes[offset..offset + 8].try_into().unwrap())
}

#[test]
fn initial_stack_bytes_match_linux_contract() {
    let plan = validate_linux_image(&fixture_copy()).expect("fixture validates");
    let stack = &plan.initial_stack;
    let rsp = stack.rsp;
    assert_eq!(rsp % 16, 0);
    assert!((LINUX_STACK_BASE..LINUX_STACK_TOP).contains(&rsp));
    // The whole image lives in the top stack page.
    assert!(stack.image_base() >= LINUX_STACK_TOP - PAGE_SIZE);

    let mut cursor = rsp;
    assert_eq!(read_u64_at(stack, cursor), 1, "argc");
    cursor += 8;
    let argv0_ptr = read_u64_at(stack, cursor);
    cursor += 8;
    assert_eq!(read_u64_at(stack, cursor), 0, "argv NULL");
    cursor += 8;
    assert_eq!(read_u64_at(stack, cursor), 0, "envp NULL");
    cursor += 8;
    let expected_auxv = [
        (AT_PHDR, 0x0000_4000_0040_0040u64),
        (AT_PHENT, 56),
        (AT_PHNUM, u64::from(FIXTURE_PHNUM)),
        (AT_PAGESZ, 4096),
        (AT_ENTRY, FIXTURE_ENTRY),
    ];
    assert_eq!(stack.auxv[..LINUX_AUXV_ENTRIES], expected_auxv);
    for (a_type, a_val) in expected_auxv {
        assert_eq!(read_u64_at(stack, cursor), a_type);
        assert_eq!(read_u64_at(stack, cursor + 8), a_val);
        cursor += 16;
    }
    assert_eq!(read_u64_at(stack, cursor), AT_NULL);
    assert_eq!(read_u64_at(stack, cursor + 8), 0);
    cursor += 16;
    // Vectors end below the strings; strings end at the stack top.
    assert!(cursor <= argv0_ptr);
    assert!(argv0_ptr >= rsp && argv0_ptr < LINUX_STACK_TOP);
    let str_off = (argv0_ptr - stack.image_base()) as usize;
    assert_eq!(
        &stack.bytes[str_off..str_off + LINUX_ARGV0.len() + 1],
        b"hello-linux-x86_64\0"
    );
    assert_eq!(argv0_ptr + LINUX_ARGV0.len() as u64 + 1, LINUX_STACK_TOP);
    // Bytes below RSP are untouched zeros.
    let rsp_off = (rsp - stack.image_base()) as usize;
    assert!(stack.bytes[..rsp_off].iter().all(|byte| *byte == 0));
}

#[test]
fn initial_stack_every_pointer_is_inside_the_stack_range() {
    let plan = validate_linux_image(&fixture_copy()).expect("fixture validates");
    let stack = &plan.initial_stack;
    let argv0_ptr = read_u64_at(stack, stack.rsp + 8);
    for pointer in [stack.rsp, argv0_ptr] {
        assert!((LINUX_STACK_BASE..LINUX_STACK_TOP).contains(&pointer));
    }
    // The launch RSP the kernel hands to the entry frame is the same value.
    assert_eq!(plan.launch_rsp(), stack.rsp);
}

#[test]
fn initial_stack_rejects_premature_at_null_from_builder() {
    let error = lay_stack_out(
        LINUX_INITIAL_STACK_IMAGE_BYTES,
        LINUX_STACK_TOP,
        &[LINUX_ARGV0.as_bytes()],
        &[],
        &[(AT_NULL, 0)],
        &[],
    )
    .unwrap_err();
    assert_eq!(
        build_linux_initial_stack(
            FIXTURE_ENTRY,
            0,
            1,
            &LinuxImageLayout::m8_legacy(),
            Err(error)
        ),
        Err(LinuxImageError::InitialStack(StackLayoutError::PrematureAtNull))
    );
    assert_eq!(
        LinuxImageError::InitialStack(error),
        LinuxImageError::InitialStack(StackLayoutError::PrematureAtNull)
    );
    assert_eq!(
        LinuxImageError::InitialStack(error).description(),
        "linux image: initial stack auxv contained AT_NULL"
    );
}

#[test]
fn error_descriptions_are_non_empty_and_distinct_for_window_checks() {
    let errors = [
        LinuxImageError::PageZero,
        LinuxImageError::IdentityMapVaddr,
        LinuxImageError::KernelHalfVaddr,
        LinuxImageError::OutOfWindow,
        LinuxImageError::InterpreterNotAllowed,
        LinuxImageError::DynamicNotAllowed,
        LinuxImageError::SegmentOverlapsStackReservation,
        LinuxImageError::MappingBudgetExceeded,
        LinuxImageError::PageTableBudgetExceeded,
        LinuxImageError::GuardPageMapped,
    ];
    for (index, error) in errors.iter().enumerate() {
        assert!(!error.description().is_empty());
        for other in &errors[index + 1..] {
            assert_ne!(error.description(), other.description());
        }
    }
    assert_eq!(
        LinuxImageError::from(LoadPlanError::BadMagic).description(),
        "linux image: bad ELF magic"
    );
    assert_eq!(
        LinuxImageError::SegmentMapping("mapper said no").description(),
        "mapper said no"
    );
}

#[test]
fn a_stack_pointer_outside_the_stack_is_refused() {
    let layout = LinuxImageLayout::m8_legacy();
    let refused = Err(LinuxImageError::InitialStack(StackLayoutError::InvalidStackTop));
    for rsp in [LINUX_STACK_TOP, LINUX_STACK_BASE - 16, LINUX_STACK_BASE + 8] {
        let built = Ok(StackImage { bytes: vec![0u8; 256], rsp });
        assert_eq!(build_linux_initial_stack(FIXTURE_ENTRY, 0, 1, &layout, built), refused);
    }
}

#[test]
fn little_endian_words_are_read_in_bounds() {
    let bytes = [1u8, 2, 3, 4, 5, 6, 7, 8];
    assert_eq!(read_le_u32(&bytes, 4), Some(0x0807_0605));
    assert_eq!(read_le_u64(&bytes, 0), Some(0x0807_0605_0403_0201));
    assert_eq!(read_le_u32(&bytes, 5), None);
    assert_eq!(read_le_u64(&bytes, 1), None);
}

#[test]
fn stack_bytes_are_cut_at_page_bounds() {
    let layout = LinuxImageLayout::conventional_with_stack(0x40_0000, 2, 0x1_0000).expect("layout");
    let stack = LinuxInitialStack {
        stack_top: layout.stack_top,
        bytes: vec![7u8; 5000],
        rsp: layout.stack_top - 64,
        auxv: Vec::new(),
    };
    let chunks = stack_image_chunks(&stack, &layout).expect("chunks");
    let mut next: usize = 0;
    for chunk in &chunks {
        assert_eq!(chunk.offset, next);
        assert_eq!(chunk.page_vaddr % PAGE_SIZE, 0);
        assert!(chunk.in_page + chunk.len as u64 <= PAGE_SIZE);
        next += chunk.len;
    }
    assert_eq!(next, 5000);
    assert_eq!(chunks.len(), 2);
    assert!(LinuxImageLayout::conventional_with_stack(0x40_0000, 0, 0x1_0000).is_err());
    assert_eq!(
        LinuxImageLayout::conventional_with_stack(0x40_0000, u64::MAX, 0x1_0000),
        Err(LinuxImageError::VaddrOverflow)
    );
}

// Exec.

#[test]
fn m8_spec_stack_matches_legacy() {
    let image = fixture_copy();
    let policy = LoadPolicy::linux_m8();
    let argv: [&[u8]; 1] = [LINUX_ARGV0.as_bytes()];
    let spec = m8_hello_exec_spec(&image, &argv, &policy);
    let plan = read_plan(spec.image).expect("plan");
    let layout = layout_for_spec(&spec, plan.image_base.unwrap()).expect("layout");
    let built = launch_stack(&plan, layout.stack_top, LINUX_ARGV0);
    let stack = build_linux_initial_stack(
        plan.entry,
        plan.phdr_vaddr.unwrap(),
        plan.phnum,
        &layout,
        built,
    )
    .expect("stack");
    let legacy = validate_linux_image(&image).expect("legacy");
    assert_eq!(stack.rsp, legacy.initial_stack.rsp);
    assert_eq!(stack.bytes.len(), legacy.initial_stack.bytes.len());
    assert!(validate_linux_image_with_stack(
        spec.image,
        spec.policy,
        layout,
        read_header(spec.image),
        Ok(plan),
        stack
    )
    .is_ok());
}

/// The stack of an exec: laid out once to find the tail, and again with its addresses.
fn exec_stack(
    spec: &LinuxExecSpec<'_>,
    layout: &LinuxImageLayout,
    plan: &LoadPlan,
) -> Result<LinuxInitialStack, LinuxImageError> {
    let (probe, built) = exec_layouts(spec, layout, plan);
    build_exec_initial_stack(layout, plan.entry, plan.phdr_vaddr.unwrap(), plan.phnum, probe, built)
}

fn exec_layouts(
    spec: &LinuxExecSpec<'_>,
    layout: &LinuxImageLayout,
    plan: &LoadPlan,
) -> (Result<StackTail, StackLayoutError>, Result<StackImage, StackLayoutError>) {
    let size = (layout.stack_pages * PAGE_SIZE) as usize;
    let random = fill_at_random(true, &[Some(0x0807_0605_0403_0201), Some(0x1817_1615_1413_1211)]);
    let tail: Vec<Vec<u8>> = exec_stack_tail(spec.exec_filename, &random)
        .iter()
        .map(|blob| {
            let mut bytes = blob.bytes.clone();
            if blob.nul_terminate {
                bytes.push(0);
            }
            bytes
        })
        .collect();
    let auxv = linux_exec_auxv(plan.entry, plan.phdr_vaddr.unwrap(), plan.phnum, 0, 0);
    let probe = lay_stack_out(size, layout.stack_top, spec.argv, spec.envp, &auxv, &tail)
        .map(|(_, at)| StackTail { execfn_vaddr: at[0], random_vaddr: at[1] });
    let built = match probe {
        Ok(found) => {
            let auxv = linux_exec_auxv(
                plan.entry,
                plan.phdr_vaddr.unwrap(),
                plan.phnum,
                found.random_vaddr,
                found.execfn_vaddr,
            );
            lay_stack_out(size, layout.stack_top, spec.argv, spec.envp, &auxv, &tail)
                .map(|(image, _)| image)
        }
        Err(e) => Err(e),
    };
    (probe, built)
}

#[test]
fn low_va_exec_stack_validates() {
    let image = program_at(LOW_VA_FIXTURE_IMAGE_BASE);
    let policy = conventional_policy();
    let argv: &[&[u8]] = &[b"a", b"b", b"c\xff"];
    let env: &[&[u8]] = &[b"K=V", b"X=Y"];
    let spec = LinuxExecSpec {
        image: &image,
        argv,
        envp: env,
        exec_filename: b"/bin/fixture",
        stack_pages: 2,
        policy: &policy,
    };
    let plan = read_plan(spec.image).expect("plan");
    let layout = layout_for_spec(&spec, plan.image_base.unwrap()).expect("layout");
    let stack = exec_stack(&spec, &layout, &plan).expect("stack");
    assert!(validate_linux_image_with_stack(
        spec.image,
        spec.policy,
        layout,
        read_header(spec.image),
        Ok(plan),
        stack
    )
    .is_ok());
}

#[test]
fn exec_args_fixture_stack_has_argv_pointers() {
    let image = program_at(LOW_VA_FIXTURE_IMAGE_BASE);
    let policy = conventional_policy();
    let argv: &[&[u8]] = &[b"linux-exec-args", b"beta", b"gamma\xff"];
    let env: &[&[u8]] = &[b"FOO=bar", b"BAZ=qux"];
    let spec = LinuxExecSpec {
        image: &image,
        argv,
        envp: env,
        exec_filename: b"/fixture/linux-exec-args",
        stack_pages: 2,
        policy: &policy,
    };
    let plan = read_plan(spec.image).expect("plan");
    let layout = layout_for_spec(&spec, plan.image_base.unwrap()).expect("layout");
    let stack = exec_stack(&spec, &layout, &plan).expect("stack");
    let stack_buf_base = stack.stack_top - stack.bytes.len() as u64;
    let rsp_off = (stack.rsp - stack_buf_base) as usize;
    let argc = u64::from_le_bytes(stack.bytes[rsp_off..rsp_off + 8].try_into().unwrap());
    assert_eq!(argc, 3);
    let argv0 = u64::from_le_bytes(stack.bytes[rsp_off + 8..rsp_off + 16].try_into().unwrap());
    assert_ne!(argv0, 0);
    assert!(validate_linux_image_with_stack(
        spec.image,
        spec.policy,
        layout,
        read_header(spec.image),
        Ok(plan),
        stack
    )
    .is_ok());
}

#[test]
fn argv_bounds_enforced() {
    let image = program_at(LOW_VA_FIXTURE_IMAGE_BASE);
    let policy = conventional_policy();
    let argv: Vec<&[u8]> = vec![b"x"; LINUX_EXEC_MAX_ARGS + 1];
    let spec = LinuxExecSpec {
        image: &image,
        argv: &argv,
        envp: &[],
        exec_filename: b"/x",
        stack_pages: 2,
        policy: &policy,
    };
    assert_eq!(
        validate_spec_strings(&spec),
        Err(LinuxImageError::ExecArgvBounds)
    );
}

#[test]
fn prepared_linux_image_has_no_large_inline_buffers() {
    assert!(core::mem::size_of::<PreparedLinuxImage>() <= 1024);
}

#[test]
fn each_bound_of_an_exec_has_its_error() {
    let image = program_at(LOW_VA_FIXTURE_IMAGE_BASE);
    let policy = conventional_policy();
    let argv: &[&[u8]] = &[b"a"];
    let good = LinuxExecSpec {
        image: &image,
        argv,
        envp: &[],
        exec_filename: b"/x",
        stack_pages: 2,
        policy: &policy,
    };
    assert_eq!(validate_spec_strings(&good), Ok(()));
    let none = LinuxExecSpec { argv: &[], ..good };
    assert_eq!(validate_spec_strings(&none), Err(LinuxImageError::ExecArgvBounds));
    let env: Vec<&[u8]> = vec![b"E=1"; LINUX_EXEC_MAX_ENVS + 1];
    let many = LinuxExecSpec { envp: &env, ..good };
    assert_eq!(validate_spec_strings(&many), Err(LinuxImageError::ExecEnvBounds));
    let deep = LinuxExecSpec { stack_pages: LINUX_EXEC_MAX_STACK_PAGES + 1, ..good };
    assert_eq!(validate_spec_strings(&deep), Err(LinuxImageError::ExecStackBounds));
    let big = [b'a'; 1100];
    let long_argv: [&[u8]; 1] = [&big];
    let long = LinuxExecSpec { argv: &long_argv, ..good };
    assert_eq!(validate_spec_strings(&long), Err(LinuxImageError::ExecArgvBounds));
    let plan = plan_linux_exec(&good, &read_plan(&image)).expect("plan");
    assert_eq!(plan.entry, LOW_VA_FIXTURE_ENTRY);
    assert_eq!(plan.phnum, 1);
}

#[test]
fn random_bytes_come_from_both_words() {
    let random = fill_at_random(true, &[Some(0x0807_0605_0403_0201), Some(0x1817_1615_1413_1211)]);
    assert_eq!(
        random,
        [1, 2, 3, 4, 5, 6, 7, 8, 0x11, 0x12, 0x13, 0x14, 0x15, 0x16, 0x17, 0x18]
    );
    assert_eq!(fill_at_random(false, &[Some(1), Some(2)]), [0u8; AT_RANDOM_BYTES]);
    assert_eq!(fill_at_random(true, &[Some(1), None]), [0u8; AT_RANDOM_BYTES]);
}

#[test]
fn exec_rewrites_the_return_frame() {
    let mut frame = SyscallContext {
        rax: 1,
        rdx: 2,
        rbx: 3,
        rbp: 4,
        rsi: 5,
        rdi: 6,
        r8: 7,
        r9: 8,
        r10: 9,
        r12: 10,
        r13: 11,
        r14: 12,
        r15: 13,
        user_rip: 14,
        user_rflags: 15,
        user_rsp: 16,
    };
    rewrite_syscall_return_for_exec(&mut frame, 0x40_0078, 0x7f_ff00);
    assert_eq!(frame.user_rip, 0x40_0078);
    assert_eq!(frame.user_rsp, 0x7f_ff00);
    assert_eq!(frame.user_rflags, USER_TEST_RFLAGS);
    assert_eq!((frame.rax, frame.rdi, frame.rsi, frame.rdx), (0, 0, 0, 0));
}

#[test]
fn exec_errors_become_errnos() {
    assert_eq!(linux_errno_for_exec_error(LinuxImageError::ExecMultiThread), EINVAL);
    assert_eq!(linux_errno_for_exec_error(LinuxImageError::ExecGenerationMismatch), EINVAL);
    assert_eq!(linux_errno_for_exec_error(LinuxImageError::ExecArgvBounds), ENOEXEC);
    assert_eq!(
        linux_errno_for_exec_error(LinuxImageError::LoadPlan(LoadPlanError::BadMagic)),
        ENOEXEC
    );
}

fn allocator_of(pages: u64) -> PageAllocator {
    let mut map = NormalizedMemoryMap::default();
    map.push_region(MemoryRegion {
        start: 0x10_0000,
        end: 0x10_0000 + pages * PAGE_SIZE,
        kind: MemoryRegionKind::Usable,
    })
    .expect("region");
    PageAllocator::new(&map).expect("allocator")
}

fn prepared(allocator: &mut PageAllocator) -> PreparedLinuxImage {
    let image = program_at(LOW_VA_FIXTURE_IMAGE_BASE);
    let policy = conventional_policy();
    let argv: &[&[u8]] = &[b"a"];
    let spec = LinuxExecSpec {
        image: &image,
        argv,
        envp: &[],
        exec_filename: b"/x",
        stack_pages: 2,
        policy: &policy,
    };
    let plan = read_plan(spec.image).expect("plan");
    let layout = layout_for_spec(&spec, LOW_VA_FIXTURE_IMAGE_BASE).expect("layout");
    let (probe, built) = exec_layouts(&spec, &layout, &plan);
    let created = mapped_space(allocator);
    prepare_linux_image(
        allocator,
        &spec,
        read_header(spec.image),
        Ok(plan),
        probe,
        built,
        Ok(created),
        Ok(1),
        Ok(()),
        Ok(()),
        false,
        &[None; 4],
    )
    .expect("prepared")
}

/// An address space with the code page and both stack pages, and a table for each level that they
/// and the kernel's own pages need.
fn mapped_space(allocator: &mut PageAllocator) -> ProcessAddressSpace {
    let root = allocator.allocate_page().expect("root");
    let mut space = ProcessAddressSpace::new(root).expect("space");
    for _ in 0..5 {
        let table = allocator.allocate_page().expect("table");
        space.record_page_table_frame(table).expect("room");
    }
    for page in [LOW_VA_FIXTURE_IMAGE_BASE, CONVENTIONAL_STACK_TOP - 0x2000, CONVENTIONAL_STACK_TOP - 0x1000] {
        let frame = allocator.allocate_page().expect("page");
        space.record_user_mapping(page, frame).expect("room");
    }
    space
}

#[test]
fn prepared_image_becomes_a_process() {
    let mut allocator = allocator_of(12);
    let image = prepared(&mut allocator);
    assert_eq!(image.entry, LOW_VA_FIXTURE_ENTRY);
    assert_eq!(image.brk_initial, LOW_VA_FIXTURE_IMAGE_BASE + PAGE_SIZE);
    let mut registry = ProcessRegistry::new();
    let mut scheduler = Scheduler::new();
    let mut ids = IdAllocator::new();
    let mut mem = linux_mem::Registry::new();
    let launched = launch_linux_process_from_spec(
        &mut registry,
        &mut scheduler,
        &mut ids,
        &mut allocator,
        &mut mem,
        0x5000,
        0,
        image,
        Ok(0x4f00),
        true,
        true,
        &[None; 4],
    )
    .expect("launched");
    assert_eq!((launched.pid, launched.tid), (1, 1));
    assert_eq!(registry.get(1).expect("process").state, ProcessState::Ready);
    assert_eq!(scheduler.threads[0].owner_process_id, 1);
    assert_eq!(mem.occupied_slots(), 1);
}

#[test]
fn failing_launch_keeps_no_process_and_no_page() {
    let mut allocator = allocator_of(8);
    let root = allocator.allocate_page().expect("root");
    let before = allocator.stats().free_pages;
    let image = LinuxProcessImage {
        address_space: ProcessAddressSpace::new(root).expect("space"),
        entry: 0x40_0078,
        launch_rsp: 0x7f_ff00,
        image_pages: 1,
    };
    let mut registry = ProcessRegistry::new();
    let mut scheduler = Scheduler::new();
    let mut ids = IdAllocator { next_pid: 6, next_tid: 9 };
    assert_eq!(
        register_linux_process(
            &mut registry,
            &mut scheduler,
            &mut ids,
            &mut allocator,
            0x5000,
            0,
            image,
            1,
            Err("no entry frame"),
            &[None; 4],
        ),
        Err(LinuxImageError::EntryFrame("no entry frame"))
    );
    assert_eq!(registry.occupied_slots(), 0);
    assert_eq!(allocator.stats().free_pages, before + 1);
    assert_eq!((ids.next_pid, ids.next_tid), (7, 10));
}

#[test]
fn launch_without_thread_ids_uses_up_a_process_id() {
    let mut allocator = allocator_of(8);
    let root = allocator.allocate_page().expect("root");
    let image = LinuxProcessImage {
        address_space: ProcessAddressSpace::new(root).expect("space"),
        entry: 0x40_0078,
        launch_rsp: 0x7f_ff00,
        image_pages: 1,
    };
    let mut registry = ProcessRegistry::new();
    let generation = registry.next_instance_generation;
    let mut scheduler = Scheduler::new();
    let mut ids = IdAllocator { next_pid: 6, next_tid: u64::MAX };
    assert!(register_linux_process(
        &mut registry,
        &mut scheduler,
        &mut ids,
        &mut allocator,
        0x5000,
        0,
        image,
        1,
        Ok(0x4f00),
        &[None; 4],
    )
    .is_err());
    assert_eq!((ids.next_pid, ids.next_tid), (7, u64::MAX));
    assert_eq!(registry.next_instance_generation, generation);
    assert_eq!(registry.occupied_slots(), 0);
}

#[test]
fn failing_image_gives_its_address_space_back() {
    let mut allocator = allocator_of(8);
    let free = allocator.stats().free_pages;
    let root = allocator.allocate_page().expect("root");
    let plan = validate_linux_image(&fixture_copy()).expect("plan");
    assert_eq!(
        build_linux_process_image(
            &mut allocator,
            &plan,
            ProcessAddressSpace::new(root),
            Ok(1),
            Ok(()),
            Ok(()),
            true,
            &[None; 4],
        )
        .map(|image| image.entry),
        Err(LinuxImageError::GuardPageMapped)
    );
    assert_eq!(allocator.stats().free_pages, free);
    assert_eq!(
        build_linux_process_image(
            &mut allocator,
            &plan,
            Err("no space"),
            Ok(1),
            Ok(()),
            Ok(()),
            false,
            &[None; 4],
        )
        .map(|image| image.entry),
        Err(LinuxImageError::AddressSpaceCreation("no space"))
    );
}

#[test]
fn relaunch_takes_a_free_slot_off_the_running_stack() {
    let scheduler = Scheduler::new();
    let stacks = [(0x1000u64, 0x2000u64), (0x3000, 0x4000)];
    let (slot, top) = pick_scheduler_slot_for_relaunch(&scheduler, &stacks, 0x1800).expect("slot");
    assert_eq!(slot, 1);
    assert_eq!(top, 0x4000);
}

#[test]
fn page_table_demand_ignores_order_and_repetition() {
    let base = FIXTURE_IMAGE_BASE;
    let far = base + 0x4000_0000;
    let ranges = [(base, base + 0x30_0000), (far, far + PAGE_SIZE), (base, base)];
    let wanted = page_table_frame_demand(&ranges).unwrap();
    assert_eq!(wanted, 2 + 3 + 2);
    assert_eq!(page_table_frame_demand(&[ranges[1], ranges[0]]).unwrap(), wanted);
    assert_eq!(
        page_table_frame_demand(&[ranges[0], ranges[1], ranges[0], ranges[1]]).unwrap(),
        wanted
    );
    assert_eq!(
        page_table_frame_demand(&[
            (base + PAGE_SIZE, base + 0x30_0000),
            (base, base + PAGE_SIZE),
            ranges[1]
        ])
        .unwrap(),
        wanted
    );
}
