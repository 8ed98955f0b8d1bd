//! Memory, signals, children, pipes, fork and teardown of Linux processes.

use clean_slate::abi::{
    w_exitcode, w_ifsignalled, Sigaction, ARCH_GET_FS, ARCH_SET_FS, EAGAIN, ECHILD, EFAULT, EINVAL,
    ENOENT, ENOMEM, EPIPE, ESRCH, MAP_ANONYMOUS, MAP_FIXED, MAP_PRIVATE, PROT_READ, PROT_WRITE,
    SIG_BLOCK, SIG_SETMASK, SIG_UNBLOCK,
};
use clean_slate::ipc::IpcProcessResources;
use clean_slate::mm::address_space::ProcessAddressSpace;
use clean_slate::mm::frame_allocator::PageAllocator;
use clean_slate::mm::layout::CarveOutTable;
use clean_slate::mm::region::{MemoryRegion, MemoryRegionKind, NormalizedMemoryMap};
use clean_slate::mm::PAGE_SIZE;
use clean_slate::process::domain::{
    begin_teardown_by_id, begin_teardown_of_current, holder_exit_notice, registered_pids,
    release_linux_state, remaining_owned_resource_count, resource_snapshot,
    teardown_current_process, teardown_process_by_id,
};
use clean_slate::process::id_allocator::IdAllocator;
use clean_slate::process::lifecycle::{Process, ProcessRegistry, ProcessState, ResourceDomain};
use clean_slate::process::linux_exec::{
    begin_commit_exec, commit_exec, ExecCommit, PreparedLinuxImage,
};
use clean_slate::process::linux_fd::open_description::{PipeEnd, PipeId, PipeRef};
use clean_slate::process::linux_fd::registry::LinuxFdRegistry;
use clean_slate::process::linux_image::layout::LinuxImageLayout;
use clean_slate::process::linux_mem::{
    begin_zero_page, encode_utsname_fields, finish_zero_page, next_page_down, next_page_up,
    unmap_all, unmap_one_page, utsname_for_user, zero_page_flags, BrkPlan, PageStep, PrctlAction,
    UnmapRange, LINUX_BRK_MAX_BYTES, LINUX_MEM_MAX_PROCESSES, LINUX_MMAP_MAX_PAGES,
    LINUX_MMAP_WINDOW_TOP,
};
use clean_slate::process::linux_proc::exec_resolve::{resolve_built_in, BuiltInImage};
use clean_slate::process::linux_proc::exit_publish::{
    publish_linux_exit, publish_linux_signalled_exit,
};
use clean_slate::process::linux_proc::fault::{
    fault_vector_to_signal, linux_fault_exit, GENERAL_PROTECTION_VECTOR, INVALID_OPCODE_VECTOR,
    PAGE_FAULT_VECTOR, SIGILL, SIGSEGV,
};
use clean_slate::process::linux_proc::fork::{
    abort_fork_child, begin_fork, delegate_all_caps, finish_fork, register_fork_child,
};
use clean_slate::process::linux_proc::pipe::{
    open_pipe_refs, pipe_ref_to_handle, read_pipe, reader_wait_key, release_pipe_end,
    wait_key_for_parent, write_pipe, writer_wait_key, PipePool, PipeReadOutcome, PipeWriteOutcome,
    LINUX_PIPE_CAPACITY, LINUX_PIPE_MAX,
};
use clean_slate::process::linux_proc::table::{
    exit_status_word, register_launched_linux_process, LinuxProcessTable, ProcId,
    LINUX_PROC_MAX_CHILDREN_PER_PARENT,
};
use clean_slate::process::linux_proc::wait::{linux_wait4, WaitAction, WNOHANG};
use clean_slate::process::linux_signal::LINUX_SIGNAL_MAX_PROCESSES;
use clean_slate::process::personality::ExecutionPersonality;
use clean_slate::process::{linux_mem, linux_signal, InstanceGeneration};
use clean_slate::sched::wait::{Deadline, SyscallContext, WaitTable};
use clean_slate::sched::{Scheduler, ThreadKind, ThreadState};

const GEN: InstanceGeneration = InstanceGeneration(1);

fn id(pid: u64) -> ProcId {
    ProcId { pid, generation: GEN }
}

fn nobody() -> ProcId {
    ProcId { pid: 0, generation: InstanceGeneration(0) }
}

fn allocator_of(pages: u64) -> PageAllocator {
    let mut map = NormalizedMemoryMap::default();
    map.push_region(MemoryRegion {
        start: 0x10_0000,
        end: 0x10_0000 + pages * PAGE_SIZE,
        kind: MemoryRegionKind::Usable,
    })
    .expect("region");
    PageAllocator::new(&map).expect("allocator")
}

fn linux_process(id: u64, resource_domain: ResourceDomain) -> Process {
    Process {
        id,
        instance_generation: InstanceGeneration(0),
        state: ProcessState::Running,
        resource_domain,
        live_threads: 1,
        exit_status: None,
        execution_personality: ExecutionPersonality::LinuxX86_64,
    }
}

fn running(pid: u64) -> ProcessRegistry {
    let mut registry = ProcessRegistry::new();
    registry
        .insert(linux_process(pid, ResourceDomain::with_root_frame(pid, 0x9000)))
        .expect("insert");
    registry
}

// Memory.

#[test]
fn legacy_mmap_window_constants_below_conventional_stack() {
    assert!(LINUX_MMAP_WINDOW_TOP <= 0x0080_0000);
}

#[test]
fn new_registry_is_empty() {
    let registry = linux_mem::Registry::new();
    assert!(registry.slots.iter().all(|slot| slot.is_none()));
}

fn with_memory(pid: u64) -> (linux_mem::Registry, ProcessRegistry, InstanceGeneration) {
    let allocator_space = ProcessAddressSpace::new(0x9000).expect("space");
    let mut processes = ProcessRegistry::new();
    processes
        .insert(linux_process(pid, ResourceDomain::with_address_space(pid, allocator_space)))
        .expect("insert");
    let generation = processes.instance_generation(pid).expect("generation");
    let mut mem = linux_mem::Registry::new();
    let layout = LinuxImageLayout::conventional(0x40_0000);
    mem.init_for_image(pid, generation, &layout, 0x40_1000).expect("init");
    (mem, processes, generation)
}

#[test]
fn heap_grows_and_shrinks_within_its_bound() {
    let (mut mem, processes, generation) = with_memory(5);
    assert_eq!(mem.sys_brk(0, 5, generation, &processes, true), Ok(BrkPlan::Keep(0x40_1000)));
    let grow = mem.sys_brk(0x40_3800, 5, generation, &processes, true).expect("grow");
    assert_eq!(
        grow,
        BrkPlan::Grow { from: 0x40_1000, to: 0x40_4000, new_end: 0x40_3800 }
    );
    assert_eq!(mem.complete_brk(5, generation, grow, Err(ENOMEM)), Err(ENOMEM));
    assert_eq!(mem.sys_brk(0, 5, generation, &processes, true), Ok(BrkPlan::Keep(0x40_1000)));
    assert_eq!(mem.complete_brk(5, generation, grow, Ok(())), Ok(0x40_3800));
    assert_eq!(mem.sys_brk(0x40_3800, 5, generation, &processes, true), Ok(BrkPlan::Keep(0x40_3800)));
    assert_eq!(
        mem.sys_brk(0x40_1001 + LINUX_BRK_MAX_BYTES, 5, generation, &processes, true),
        Err(ENOMEM)
    );
    let shrink = mem.sys_brk(0x40_2000, 5, generation, &processes, true).expect("shrink");
    assert!(matches!(shrink, BrkPlan::Shrink { new_end: 0x40_2000, .. }));
    assert!(mem.sys_brk(0x40_2000, 5, generation, &processes, false).is_err());
}

#[test]
fn mappings_are_placed_high_and_found_again() {
    let (mut mem, processes, generation) = with_memory(5);
    let anonymous = MAP_PRIVATE | MAP_ANONYMOUS;
    let prot = PROT_READ | PROT_WRITE;
    let plan = mem
        .sys_mmap(0, 2 * PAGE_SIZE, prot, anonymous, -1, 0, 5, generation, &processes, true)
        .expect("plan");
    assert_eq!(plan.page_count, 2);
    assert_eq!(plan.map_end - plan.map_addr, 2 * PAGE_SIZE);
    assert_eq!(plan.flags, zero_page_flags(true, false));
    let at = mem.complete_mmap(5, generation, plan, Ok(())).expect("map");
    assert_eq!(at, plan.map_addr);
    let next = mem
        .sys_mmap(0, PAGE_SIZE, prot, anonymous, -1, 0, 5, generation, &processes, true)
        .expect("plan");
    assert!(next.map_end <= plan.map_addr || next.map_addr >= plan.map_end);
    assert_eq!(
        mem.sys_mmap(0x123, PAGE_SIZE, prot, anonymous | MAP_FIXED, -1, 0, 5, generation, &processes, true),
        Err(EINVAL)
    );
    assert_eq!(
        mem.sys_mmap(
            0,
            (LINUX_MMAP_MAX_PAGES + 1) * PAGE_SIZE,
            prot,
            anonymous,
            -1,
            0,
            5,
            generation,
            &processes,
            true
        ),
        Err(ENOMEM)
    );
    assert_eq!(
        mem.sys_mmap(0, 0, prot, anonymous, -1, 0, 5, generation, &processes, true),
        Err(EINVAL)
    );
    let range = mem
        .sys_munmap(plan.map_addr, 2 * PAGE_SIZE, 5, generation, &processes, true)
        .expect("range");
    assert_eq!(range, UnmapRange { start: plan.map_addr, end: plan.map_end });
    assert_eq!(mem.complete_munmap(5, generation, range, Ok(())), Ok(0));
}

#[test]
fn memory_of_a_process_is_given_up_once() {
    let (mut mem, _, generation) = with_memory(5);
    let state = mem.take_for_process(5, generation).expect("state");
    assert_eq!(unmap_all(&state).len(), 1);
    assert!(mem.take_for_process(5, generation).is_none());
    assert_eq!(mem.occupied_slots(), 0);
    for pid in 0..LINUX_MEM_MAX_PROCESSES as u64 {
        mem.ensure(pid, GEN).expect("room");
    }
    assert_eq!(mem.ensure(99, GEN), Err(ENOMEM));
}

#[test]
fn forked_memory_is_a_copy() {
    let (mut mem, _, generation) = with_memory(5);
    mem.clone_for_fork(5, generation, 6, GEN).expect("fork");
    let child = mem.take_for_process(6, GEN).expect("child");
    assert_eq!((child.brk_base, child.brk_end), (0x40_1000, 0x40_1000));
    assert!(mem.find(5, generation).is_some());
}

#[test]
fn thread_pointer_and_deadlines_are_kept() {
    let (mut mem, _, generation) = with_memory(5);
    assert_eq!(
        mem.sys_arch_prctl(ARCH_SET_FS, 0x7000, 5, generation, true),
        Ok(PrctlAction::SetFsBase(0x7000))
    );
    assert_eq!(mem.fs_base_to_apply(5, generation), Some(0x7000));
    assert_eq!(
        mem.sys_arch_prctl(ARCH_GET_FS, 0x8000, 5, generation, true),
        Ok(PrctlAction::StoreFsBase { addr: 0x8000, fs_base: 0x7000 })
    );
    assert_eq!(mem.sys_arch_prctl(ARCH_GET_FS, 0x8000, 5, generation, false), Err(EINVAL));
    assert_eq!(mem.sys_arch_prctl(0x9999, 0, 5, generation, true), Err(EINVAL));
    assert_eq!(mem.sys_set_tid_address(0x100, 5, generation), Ok(5));
    mem.set_pending_sleep_deadline(5, generation, Some(Deadline(9)));
    assert_eq!(mem.pending_sleep_deadline(5, generation), Some(Deadline(9)));
    assert_eq!(mem.pending_poll_deadline(5, generation), None);
    mem.set_pending_poll_deadline(5, generation, Some(Deadline(4)));
    assert_eq!(mem.pending_poll_deadline(5, generation), Some(Deadline(4)));
}

#[test]
fn pages_are_walked_up_and_down() {
    let range = UnmapRange { start: 0x1000, end: 0x3000 };
    assert_eq!(next_page_up(range, None), PageStep::At(0x1000));
    assert_eq!(next_page_up(range, Some(0x1000)), PageStep::At(0x2000));
    assert_eq!(next_page_up(range, Some(0x2000)), PageStep::Done);
    assert_eq!(next_page_down(0x1000, 0x3000, None), PageStep::At(0x2000));
    assert_eq!(next_page_down(0x1000, 0x3000, Some(0x2000)), PageStep::At(0x1000));
    assert_eq!(next_page_down(0x1000, 0x3000, Some(0x1000)), PageStep::Done);
    assert_eq!(unmap_one_page(false, false), Ok(()));
    assert_eq!(unmap_one_page(true, true), Ok(()));
    assert!(unmap_one_page(true, false).is_err());
}

#[test]
fn zeroed_pages_are_recorded() {
    let mut allocator = allocator_of(1);
    let frame = begin_zero_page(&mut allocator).expect("frame");
    assert_eq!(begin_zero_page(&mut allocator), Err(ENOMEM));
    let mut space = ProcessAddressSpace::new(0x9000).expect("space");
    let carve_outs = CarveOutTable::new();
    assert!(finish_zero_page(&mut space, &carve_outs, 0x40_0000, frame, false).is_err());
    assert_eq!(finish_zero_page(&mut space, &carve_outs, 0x40_0000, frame, true), Ok(()));
    assert_eq!(space.user_mapping_count(), 1);
}

#[test]
fn system_names_are_padded_fields() {
    let encoded = encode_utsname_fields([b"Linux", b"node", b"6", b"v", b"x86_64", b""]);
    assert_eq!(&encoded[..6], b"Linux\0");
    assert_eq!(&encoded[65..70], b"node\0");
    assert_eq!(&encoded[260..267], b"x86_64\0");
    assert_eq!(utsname_for_user(false), Err(EFAULT));
    assert_eq!(&utsname_for_user(true).expect("names")[..5], b"Linux");
}

// Signals.

#[test]
fn sigaction_round_trip() {
    let mut registry = linux_signal::Registry::new();
    let gen = InstanceGeneration(1);
    let action = Sigaction { sa_handler: 0x1000, sa_flags: 4, sa_restorer: 0, sa_mask: 0x10 };
    let mut old = Sigaction::default();
    registry
        .rt_sigaction(17, Some(action), &mut old, 8, 5, gen)
        .expect("set");
    let mut old2 = Sigaction::default();
    registry
        .rt_sigaction(17, None, &mut old2, 8, 5, gen)
        .expect("get");
    assert_eq!(old2, action);
    let mut mask_old = 0u64;
    registry
        .rt_sigprocmask(SIG_BLOCK, Some(0x08), &mut mask_old, 8, 5, gen)
        .expect("mask");
    assert_eq!(mask_old, 0);
}

#[test]
fn new_registry_is_empty_and_release_returns_to_baseline() {
    let mut registry = linux_signal::Registry::new();
    assert_eq!(registry.occupied(), 0);
    let gen = InstanceGeneration(1);
    let mut old = 0u64;
    registry
        .rt_sigprocmask(SIG_BLOCK, Some(0x08), &mut old, 8, 7, gen)
        .expect("mask");
    assert_eq!(registry.occupied(), 1);
    registry.release(7, gen);
    assert_eq!(registry.occupied(), 0);
}

#[test]
fn full_registry_fails_closed_with_enomem() {
    let mut registry = linux_signal::Registry::new();
    let gen = InstanceGeneration(1);
    let mut old = 0u64;
    for pid in 0..LINUX_SIGNAL_MAX_PROCESSES as u64 {
        registry
            .rt_sigprocmask(SIG_BLOCK, Some(0), &mut old, 8, pid, gen)
            .expect("slot");
    }
    let extra = LINUX_SIGNAL_MAX_PROCESSES as u64;
    assert_eq!(
        registry.rt_sigprocmask(SIG_BLOCK, Some(0), &mut old, 8, extra, gen),
        Err(ENOMEM)
    );
    assert_eq!(registry.clone_for_fork(0, gen, extra, gen), Err(ENOMEM));
}

#[test]
fn fork_copies_parent_state_or_defaults() {
    let mut registry = linux_signal::Registry::new();
    let gen = InstanceGeneration(1);
    let mut old = 0u64;
    registry
        .rt_sigprocmask(SIG_BLOCK, Some(0x20), &mut old, 8, 1, gen)
        .expect("parent");
    registry.clone_for_fork(1, gen, 2, gen).expect("fork");
    let mut child_mask = 0u64;
    registry
        .rt_sigprocmask(SIG_BLOCK, None, &mut child_mask, 8, 2, gen)
        .expect("child");
    assert_eq!(child_mask, 0x20);
    let occupied = registry.occupied();
    registry.clone_for_fork(9, gen, 3, gen).expect("default parent");
    assert_eq!(registry.occupied(), occupied);
}

#[test]
fn signal_masks_are_blocked_unblocked_and_set() {
    let mut registry = linux_signal::Registry::new();
    let mut old = 0u64;
    registry.rt_sigprocmask(SIG_SETMASK, Some(0x30), &mut old, 8, 1, GEN).expect("set");
    registry.rt_sigprocmask(SIG_UNBLOCK, Some(0x10), &mut old, 8, 1, GEN).expect("unblock");
    assert_eq!(old, 0x30);
    registry.rt_sigprocmask(SIG_BLOCK, Some(0x01), &mut old, 8, 1, GEN).expect("block");
    assert_eq!(old, 0x20);
    registry.rt_sigprocmask(SIG_BLOCK, None, &mut old, 8, 1, GEN).expect("read");
    assert_eq!(old, 0x21);
    assert_eq!(registry.rt_sigprocmask(9, Some(1), &mut old, 8, 1, GEN), Err(EINVAL));
    assert_eq!(registry.rt_sigprocmask(SIG_BLOCK, Some(1), &mut old, 4, 1, GEN), Err(EINVAL));
    let mut action = Sigaction::default();
    assert_eq!(registry.rt_sigaction(0, None, &mut action, 8, 1, GEN), Err(EINVAL));
    assert_eq!(registry.rt_sigaction(65, None, &mut action, 8, 1, GEN), Err(EINVAL));
}

// Children.

#[test]
fn zombie_reap_and_stale_generation() {
    let registry = ProcessRegistry::new();
    let mut table = LinuxProcessTable::new();
    let init = id(11);
    let parent = id(12);
    let child = id(13);
    table.register(init, nobody()).unwrap();
    table.register(parent, init).unwrap();
    table.register(child, parent).unwrap();
    table.publish_exit(child, w_exitcode(3));
    let found = table.find_zombie_child(parent, -1, &registry).expect("zombie");
    assert_eq!(found.0.pid, 13);
    assert_eq!(found.1, 768);
    table.reap_zombie(child);
    assert!(!table.has_child_in_wait_set(parent, -1));
}

#[test]
fn signalled_zombie_wait_status_is_sigsegv() {
    let registry = ProcessRegistry::new();
    let mut table = LinuxProcessTable::new();
    let init = id(20);
    let parent = id(21);
    let child = id(22);
    table.register(init, nobody()).unwrap();
    table.register(parent, init).unwrap();
    table.register(child, parent).unwrap();
    table.publish_exit(child, exit_status_word(0, Some(11)));
    let found = table
        .find_zombie_child(parent, child.pid as i64, &registry)
        .expect("zombie");
    assert_eq!(found.1, 11);
    assert!(w_ifsignalled(found.1));
}

#[test]
fn stale_generation_zombie_is_ignored_when_registry_generation_differs() {
    let mut registry = ProcessRegistry::new();
    let mut table = LinuxProcessTable::new();
    let init = id(1);
    let parent = id(2);
    let child_stale = id(3);
    table.register(init, nobody()).unwrap();
    table.register(parent, init).unwrap();
    table.register(child_stale, parent).unwrap();
    table.publish_exit(child_stale, w_exitcode(9));
    registry.next_instance_generation = InstanceGeneration(2);
    let mut process = linux_process(3, ResourceDomain::with_root_frame(3, 0x3000));
    process.instance_generation = InstanceGeneration(2);
    process.state = ProcessState::Ready;
    registry.insert(process).unwrap();
    assert!(table.find_zombie_child(parent, 3, &registry).is_none());
}

#[test]
fn waiting_reports_each_child_once() {
    let registry = ProcessRegistry::new();
    let mut table = LinuxProcessTable::new();
    register_launched_linux_process(&mut table, 5, GEN).expect("root");
    assert_eq!(linux_wait4(&mut table, &registry, id(5), -1, true, 0, true), WaitAction::Fail(ECHILD));
    table.register(id(6), id(5)).expect("child");
    assert_eq!(table.parent_of(id(6)), Some(id(5)));
    assert_eq!(table.getppid(id(6)), 5);
    assert_eq!(
        linux_wait4(&mut table, &registry, id(5), -1, true, WNOHANG, true),
        WaitAction::NothingYet
    );
    assert_eq!(
        linux_wait4(&mut table, &registry, id(5), 6, true, 0, true),
        WaitAction::Block(wait_key_for_parent(5))
    );
    table.publish_exit(id(6), w_exitcode(2));
    assert_eq!(
        linux_wait4(&mut table, &registry, id(5), 6, true, 0, true),
        WaitAction::Reaped { pid: 6, status: Some(512) }
    );
    assert_eq!(linux_wait4(&mut table, &registry, id(5), -1, true, 0, true), WaitAction::Fail(ECHILD));
    table.register(id(7), id(5)).expect("child");
    table.publish_exit(id(7), w_exitcode(2));
    assert_eq!(
        linux_wait4(&mut table, &registry, id(5), 7, true, 0, false),
        WaitAction::Fail(EFAULT)
    );
}

#[test]
fn a_parent_has_a_bounded_number_of_children() {
    let mut table = LinuxProcessTable::new();
    table.register(id(1), nobody()).expect("root");
    for pid in 0..LINUX_PROC_MAX_CHILDREN_PER_PARENT as u64 {
        table.register(id(10 + pid), id(1)).expect("child");
    }
    assert!(table.register(id(99), id(1)).is_err());
}

#[test]
fn exits_wake_the_waiting_parent() {
    let mut registry = running(5);
    registry
        .insert(linux_process(6, ResourceDomain::with_root_frame(6, 0xa000)))
        .expect("child");
    let parent = ProcId { pid: 5, generation: registry.instance_generation(5).expect("parent") };
    let child = ProcId { pid: 6, generation: registry.instance_generation(6).expect("child") };
    let mut table = LinuxProcessTable::new();
    table.register(parent, nobody()).expect("parent");
    table.register(child, parent).expect("child");
    let mut scheduler = Scheduler::new();
    scheduler
        .configure_thread(0, 11, 5, ThreadKind::User, 0x1000, 0x1000, 0x1000)
        .expect("thread");
    scheduler.start().expect("start");
    let mut waits = WaitTable::new();
    waits
        .block_current_thread(&mut scheduler, &registry, 0x800, wait_key_for_parent(5), None)
        .expect("block");
    publish_linux_exit(&mut table, &mut waits, &mut scheduler, &registry, child, 7, false);
    assert_eq!(scheduler.threads[0].state, ThreadState::Ready);
    assert!(table.has_child_in_wait_set(parent, 6));
}

#[test]
fn signalled_exits_are_reported_and_wake_the_parent() {
    let mut registry = running(5);
    registry
        .insert(linux_process(6, ResourceDomain::with_root_frame(6, 0xa000)))
        .expect("child");
    let parent = ProcId { pid: 5, generation: registry.instance_generation(5).expect("parent") };
    let child = ProcId { pid: 6, generation: registry.instance_generation(6).expect("child") };
    let mut table = LinuxProcessTable::new();
    table.register(parent, nobody()).expect("parent");
    table.register(child, parent).expect("child");
    table.register(id(7), child).expect("grandchild");
    let mut scheduler = Scheduler::new();
    scheduler
        .configure_thread(0, 11, 5, ThreadKind::User, 0x1000, 0x1000, 0x1000)
        .expect("thread");
    scheduler.start().expect("start");
    let mut waits = WaitTable::new();
    waits
        .block_current_thread(&mut scheduler, &registry, 0x800, wait_key_for_parent(5), None)
        .expect("block");
    publish_linux_signalled_exit(&mut table, &mut waits, &mut scheduler, &registry, child, SIGSEGV);
    assert_eq!(scheduler.threads[0].state, ThreadState::Ready);
    assert!(table.require_proc_slot(child).is_err());
    assert!(table.require_proc_slot(id(7)).is_err());
    assert_eq!(
        linux_wait4(&mut table, &registry, parent, 6, true, 0, true),
        WaitAction::Reaped { pid: 6, status: Some(11) }
    );
    assert!(w_ifsignalled(11));
}

#[test]
fn faults_end_a_process_by_signal() {
    assert_eq!(fault_vector_to_signal(PAGE_FAULT_VECTOR), SIGSEGV);
    assert_eq!(fault_vector_to_signal(GENERAL_PROTECTION_VECTOR), SIGSEGV);
    assert_eq!(fault_vector_to_signal(INVALID_OPCODE_VECTOR), SIGILL);
    let registry = running(5);
    let (who, signal) = linux_fault_exit(&registry, 5, PAGE_FAULT_VECTOR).expect("exit");
    assert_eq!((who.pid, signal), (5, SIGSEGV));
    assert_eq!(linux_fault_exit(&registry, 6, PAGE_FAULT_VECTOR), None);
}

#[test]
fn built_in_programs_are_found_by_path() {
    let mut out = [0u8; 256];
    let found = resolve_built_in(b"/bin/sh", &mut out, false, false).expect("shell");
    assert_eq!(found.image, BuiltInImage::Hello);
    assert_eq!(&out[..found.resolved_path_len], b"/bin/sh");
    assert_eq!(
        resolve_built_in(b"/fixture/linux-proc-probe", &mut out, true, false).expect("probe").image,
        BuiltInImage::ProcProbe
    );
    assert_eq!(
        resolve_built_in(b"/fixture/linux-proc-probe", &mut out, false, true),
        Err(ENOENT)
    );
}

// Pipes.

#[test]
fn ring_wrap_partial_write_eof_epipe() {
    let mut pool = PipePool::new();
    let handle = pool.alloc_pipe().unwrap();
    pool.add_reader(handle);
    pool.add_writer(handle);
    let mut buf = [0u8; 16];
    assert_eq!(pool.write_from(handle, &[b'h', b'i']).unwrap(), 2);
    assert_eq!(pool.read_into(handle, &mut buf).unwrap(), 2);
    pool.release_end(handle, PipeEnd::Write);
    assert_eq!(pool.read_into(handle, &mut buf).unwrap(), 0);
    pool.release_end(handle, PipeEnd::Read);
    assert!(matches!(
        pool.write_from(handle, b"x"),
        Err(PipeWriteOutcome::Epipe) | Err(PipeWriteOutcome::Stale)
    ));
}

#[test]
fn pipes_deliver_bytes_in_order_across_the_ring_end() {
    let mut pool = PipePool::new();
    let handle = pool.alloc_pipe().expect("pipe");
    pool.add_reader(handle);
    pool.add_writer(handle);
    let mut buf = [0u8; LINUX_PIPE_CAPACITY];
    assert_eq!(pool.read_into(handle, &mut buf), Err(PipeReadOutcome::Block));
    let big = [7u8; LINUX_PIPE_CAPACITY + 10];
    assert_eq!(pool.write_from(handle, &big), Ok(LINUX_PIPE_CAPACITY));
    assert!(!pool.writable(handle));
    assert_eq!(pool.write_from(handle, b"x"), Err(PipeWriteOutcome::Block));
    assert_eq!(pool.read_into(handle, &mut buf[..1000]), Ok(1000));
    assert_eq!(pool.write_from(handle, b"abcdef"), Ok(6));
    assert_eq!(pool.read_into(handle, &mut buf), Ok(30));
    assert_eq!(&buf[24..30], b"abcdef");
    assert!(!pool.readable(handle));
    assert_ne!(reader_wait_key(handle), writer_wait_key(handle));
}

#[test]
fn pipe_ends_are_counted_through_their_references() {
    let mut pool = PipePool::new();
    let (read, write) = open_pipe_refs(&mut pool).expect("pipe");
    assert_eq!(pipe_ref_to_handle(read), pipe_ref_to_handle(write));
    assert_eq!(write_pipe(&mut pool, write, b"ok"), Ok(2));
    let mut buf = [0u8; 4];
    assert_eq!(read_pipe(&mut pool, read, &mut buf), Ok(2));
    assert_eq!(read_pipe(&mut pool, read, &mut buf), Err(EAGAIN));
    release_pipe_end(&mut pool, read);
    assert_eq!(write_pipe(&mut pool, write, b"ok"), Err(EPIPE));
    release_pipe_end(&mut pool, write);
    assert_eq!(pool.live_count(), 0);
    for _ in 0..LINUX_PIPE_MAX {
        open_pipe_refs(&mut pool).expect("room");
    }
    assert_eq!(open_pipe_refs(&mut pool), Err(EAGAIN));
    let stale = PipeRef { pipe: PipeId { index: 0, generation: 0 }, end: PipeEnd::Read };
    assert!(read_pipe(&mut pool, stale, &mut buf).is_err());
}

// Fork, exec and teardown.

#[test]
fn forked_child_is_registered_and_can_be_given_up() {
    let mut registry = ProcessRegistry::new();
    registry
        .insert(linux_process(
            5,
            ResourceDomain::with_address_space(5, ProcessAddressSpace::new(0x9000).expect("space")),
        ))
        .expect("insert");
    let parent = ProcId { pid: 5, generation: registry.instance_generation(5).expect("parent") };
    let mut table = LinuxProcessTable::new();
    assert_eq!(begin_fork(&table, &registry, 8), Err(ESRCH));
    assert_eq!(begin_fork(&table, &running(5), 5), Err(EINVAL));
    register_launched_linux_process(&mut table, 5, parent.generation).expect("parent");
    assert_eq!(begin_fork(&table, &registry, 5), Ok(()));
    let mut scheduler = Scheduler::new();
    let mut ids = IdAllocator { next_pid: 6, next_tid: 9 };
    let mut allocator = allocator_of(4);
    let root = allocator.allocate_page().expect("root");
    let free = allocator.stats().free_pages;
    let child = register_fork_child(
        &mut registry,
        &mut scheduler,
        &mut ids,
        &mut allocator,
        ProcessAddressSpace::new(root),
        Ok(0x4f00),
        0x40_0078,
        0x5000,
        0,
        &[None; 4],
    )
    .expect("child");
    assert_eq!((child.pid, child.tid), (6, 9));
    let child_id = ProcId { pid: child.pid, generation: child.generation };
    let mut fds = LinuxFdRegistry::new();
    let mut mem = linux_mem::Registry::new();
    let mut signals = linux_signal::Registry::new();
    let refused =
        finish_fork(&mut table, &mut fds, &mut mem, &mut signals, parent, child_id, false, true)
            .expect_err("descriptors");
    assert_eq!((refused.errno, refused.unmap.len()), (EAGAIN, 0));
    abort_fork_child(&mut registry, &mut scheduler, &mut allocator, child.pid, &[None; 4]);
    assert!(registry.get(6).is_none());
    assert_eq!(allocator.stats().free_pages, free + 1);
    assert_eq!(scheduler.resources_for_process(6).threads, 0);
    mem.ensure(5, parent.generation).expect("memory of the parent");
    assert_eq!(
        finish_fork(&mut table, &mut fds, &mut mem, &mut signals, parent, child_id, true, true),
        Ok(6)
    );
    assert_eq!(table.getppid(child_id), 5);
}

#[test]
fn capabilities_are_delegated_together_or_not_at_all() {
    assert_eq!(delegate_all_caps(&[Some(3), Some(4)], 8), Ok(vec![3, 4]));
    assert_eq!(delegate_all_caps(&[Some(3), None, Some(4)], 8), Err(vec![3]));
}

fn blank_frame() -> SyscallContext {
    SyscallContext {
        rax: 59,
        rdx: 0,
        rbx: 0,
        rbp: 0,
        rsi: 0,
        rdi: 0,
        r8: 0,
        r9: 0,
        r10: 0,
        r12: 0,
        r13: 0,
        r14: 0,
        r15: 0,
        user_rip: 0x1000,
        user_rflags: 0,
        user_rsp: 0x2000,
    }
}

#[test]
fn exec_replaces_the_space_and_keeps_the_process() {
    let mut allocator = allocator_of(8);
    let old_root = allocator.allocate_page().expect("old root");
    let new_root = allocator.allocate_page().expect("new root");
    let mut registry = ProcessRegistry::new();
    registry
        .insert(linux_process(
            5,
            ResourceDomain::with_address_space(5, ProcessAddressSpace::new(old_root).expect("old")),
        ))
        .expect("insert");
    let generation = registry.instance_generation(5).expect("generation");
    let mut mem = linux_mem::Registry::new();
    let mut signals = linux_signal::Registry::new();
    let mut fds = LinuxFdRegistry::new();
    fds.install(5, generation, 1, 1).expect("stdio");
    fds.set_fd_cloexec(5, generation, 2, true).expect("cloexec");
    let mut mask = 0u64;
    signals.rt_sigprocmask(SIG_BLOCK, Some(8), &mut mask, 8, 5, generation).expect("mask");
    begin_commit_exec(&registry, &mut mem, &mut signals, 5, generation).expect("begin");
    let prepared = PreparedLinuxImage {
        address_space: ProcessAddressSpace::new(new_root).expect("new"),
        entry: 0x40_0078,
        launch_rsp: 0x7f_ff00,
        image_pages: 1,
        page_table_frames: 1,
        brk_initial: 0x40_1000,
        layout: LinuxImageLayout::conventional(0x40_0000),
    };
    let mut frame = blank_frame();
    assert_eq!(
        commit_exec(
            &mut frame,
            &mut registry,
            &mut mem,
            &mut fds,
            &mut allocator,
            5,
            generation,
            prepared,
            &[None; 4],
        ),
        Ok(ExecCommit::Done)
    );
    assert_eq!((frame.user_rip, frame.user_rsp, frame.rax), (0x40_0078, 0x7f_ff00, 0));
    assert_eq!(registry.instance_generation(5), Some(generation));
    assert_eq!(registry.get(5).expect("process").address_space_root(), new_root);
    assert!(matches!(fds.open_fd_entry(5, generation, 1), Ok(Some(_))));
    assert!(matches!(fds.open_fd_entry(5, generation, 2), Ok(None)));
    assert_eq!(allocator.allocate_page(), Some(old_root));
}

fn no_ipc() -> IpcProcessResources {
    IpcProcessResources { owned_endpoints: 0, held_capabilities: 0 }
}

#[test]
fn teardown_leaves_nothing_behind() {
    let mut allocator = allocator_of(4);
    let free = allocator.stats().free_pages;
    let root = allocator.allocate_page().expect("root");
    let mut registry = ProcessRegistry::new();
    registry
        .insert(linux_process(
            7,
            ResourceDomain::with_address_space(7, ProcessAddressSpace::new(root).expect("space")),
        ))
        .expect("insert");
    let mut scheduler = Scheduler::new();
    scheduler
        .configure_thread(0, 11, 7, ThreadKind::User, 0x1000, 0x1000, 0x1000)
        .expect("thread");
    scheduler.start().expect("start");
    let mut waits = WaitTable::new();
    let start =
        begin_teardown_of_current(&mut scheduler, &mut registry, 3, false).expect("start");
    assert_eq!(start.process_id, 7);
    let snapshot = resource_snapshot(&registry, &scheduler, no_ipc(), 7).expect("snapshot");
    assert_eq!(snapshot.page_table_frames, 1);
    let (result, next) = teardown_current_process(
        &mut scheduler,
        &mut waits,
        &mut registry,
        &mut allocator,
        0x5000,
        start,
        3,
        snapshot,
        Ok(no_ipc()),
        &[None; 4],
    )
    .expect("teardown");
    assert_eq!((result.process_id, result.exit_status), (7, 3));
    assert!(next.is_none());
    assert_eq!(remaining_owned_resource_count(&registry, &scheduler, no_ipc(), 7), 0);
    assert_eq!(allocator.stats().free_pages, free);
    assert_eq!(registered_pids(&registry), Vec::<u64>::new());
}

#[test]
fn another_process_can_be_torn_down() {
    let mut allocator = allocator_of(4);
    let root = allocator.allocate_page().expect("root");
    let mut registry = ProcessRegistry::new();
    registry
        .insert(linux_process(
            7,
            ResourceDomain::with_address_space(7, ProcessAddressSpace::new(root).expect("space")),
        ))
        .expect("insert");
    let generation = registry.instance_generation(7).expect("generation");
    let mut scheduler = Scheduler::new();
    scheduler
        .configure_thread(0, 11, 7, ThreadKind::User, 0x1000, 0x1000, 0x1000)
        .expect("thread");
    let mut waits = WaitTable::new();
    assert_eq!(registered_pids(&registry), vec![7]);
    assert!(begin_teardown_by_id(&mut scheduler, &mut registry, 7, 9, true).is_err());
    begin_teardown_by_id(&mut scheduler, &mut registry, 7, 9, false).expect("begin");
    let mut fds = LinuxFdRegistry::new();
    fds.install(7, generation, 1, 1).expect("stdio");
    let mut mem = linux_mem::Registry::new();
    mem.ensure(7, generation).expect("memory");
    let mut signals = linux_signal::Registry::new();
    signals.ensure(7, generation).expect("signals");
    let mut table = LinuxProcessTable::new();
    register_launched_linux_process(&mut table, 7, generation).expect("table");
    release_linux_state(&registry, &mut fds, &mut mem, &mut signals, &mut table, 7);
    assert_eq!((fds.occupied(), mem.occupied_slots(), signals.occupied()), (0, 0, 0));
    let snapshot = resource_snapshot(&registry, &scheduler, no_ipc(), 7).expect("snapshot");
    let result = teardown_process_by_id(
        &mut scheduler,
        &mut waits,
        &mut registry,
        &mut allocator,
        7,
        9,
        snapshot,
        Ok(no_ipc()),
        &[None; 4],
    )
    .expect("teardown");
    assert_eq!(result.exit_status, 9);
    assert!(registry.get(7).is_none());
    assert_eq!(
        begin_teardown_by_id(&mut scheduler, &mut registry, 7, 9, false),
        Err("teardown target process was missing from registry")
    );
    assert_eq!(holder_exit_notice(0, 0, Some(generation)), None);
    assert_eq!(holder_exit_notice(1, 2, Some(generation)), None);
    assert_eq!(holder_exit_notice(0, 2, Some(InstanceGeneration(6))), Some(6));
}

#[test]
fn an_unmapped_range_can_be_mapped_again() {
    let (mut mem, processes, generation) = with_memory(5);
    let anonymous = MAP_PRIVATE | MAP_ANONYMOUS;
    let mut starts = Vec::new();
    for _ in 0..2 {
        let plan = mem
            .sys_mmap(0, 3 * PAGE_SIZE, PROT_READ, anonymous, -1, 0, 5, generation, &processes, true)
            .expect("plan");
        starts.push(mem.complete_mmap(5, generation, plan, Ok(())).expect("map"));
        assert!(mem.slots.iter().flatten().all(|slot| slot.state.mmap_pages <= LINUX_MMAP_MAX_PAGES));
    }
    let range = mem
        .sys_munmap(starts[0], 3 * PAGE_SIZE, 5, generation, &processes, true)
        .expect("range");
    mem.complete_munmap(5, generation, range, Ok(())).expect("unmap");
    let state = mem.slots.iter().flatten().next().expect("state").state;
    assert!(state
        .mmap_regions
        .iter()
        .take(state.mmap_region_count)
        .all(|region| region.end <= range.start || region.start >= range.end));
    let again = mem
        .sys_mmap(0, 3 * PAGE_SIZE, PROT_READ, anonymous, -1, 0, 5, generation, &processes, true)
        .expect("plan");
    assert_eq!(again.map_addr, starts[0]);
}

#[test]
fn children_are_in_the_group_of_their_tree() {
    let mut table = LinuxProcessTable::new();
    table.register(id(11), nobody()).unwrap();
    table.register(id(12), id(11)).unwrap();
    table.register(id(20), nobody()).unwrap();
    assert_eq!(table.pgid_of(id(11)), Some(11));
    assert_eq!(table.pgid_of(id(12)), Some(11));
    assert_eq!(table.pgid_of(id(20)), Some(20));
    assert_eq!(table.pgid_of(id(13)), None);
    assert_eq!(table.getppid(id(12)), 11);
}
