//! Processes, their identifiers and their personalities.

use clean_slate::abi::SYS_WRITE;
use clean_slate::process::id_allocator::IdAllocator;
use clean_slate::process::lifecycle::{
    begin_thread_exit, finalize_process_exit, reap_process, reap_process_record, Process,
    ProcessRegistry, ProcessState, ResourceDomain,
};
use clean_slate::process::personality::{
    current_execution_personality, dispatch_target_for, ExecutionPersonality,
    SyscallDispatchTarget,
};
use clean_slate::process::stdio_payload::{
    build_m9_stdio_block, build_m9_stdio_inner, fnv1a32, M9_STDIO_BLOCK_LEN, M9_STDIO_INNER_LEN,
    M9_STDIO_SENTINEL_START_LEN,
};
use clean_slate::process::{InstanceGeneration, PROCESS_REGISTRY_CAPACITY};
use clean_slate::sched::wait::WaitOutcome;
use clean_slate::sched::{Scheduler, Thread, ThreadKind, ThreadState};

fn process(id: u64, state: ProcessState, live_threads: u16, root_frame: u64) -> Process {
    Process {
        id,
        instance_generation: InstanceGeneration(0),
        state,
        resource_domain: ResourceDomain::with_root_frame(id, root_frame),
        live_threads,
        exit_status: None,
        execution_personality: ExecutionPersonality::Native,
    }
}

fn running_thread(id: u64, owner_process_id: u64, stack: u64, launch_entry: u64) -> Thread {
    Thread {
        id,
        owner_process_id,
        kind: ThreadKind::User,
        kernel_stack_top: stack,
        saved_stack_pointer: stack,
        launch_entry,
        started: true,
        state: ThreadState::Running,
        progress_logged: false,
        preemptions: 0,
        observed_progress: 0,
        blocked_syscall_frame: 0,
        wait_resume_outcome: WaitOutcome::Woken,
    }
}

#[test]
fn id_allocator_issues_monotonic_non_reused_ids() {
    let mut ids = IdAllocator::new();
    assert_eq!(ids.allocate_pid().expect("pid 1"), 1);
    assert_eq!(ids.allocate_pid().expect("pid 2"), 2);
    assert_eq!(ids.allocate_tid().expect("tid 1"), 1);
    assert_eq!(ids.allocate_tid().expect("tid 2"), 2);
}

#[test]
fn id_allocator_runs_out_instead_of_reusing() {
    let mut ids = IdAllocator { next_pid: u64::MAX, next_tid: u64::MAX };
    assert!(ids.allocate_pid().is_err());
    assert!(ids.allocate_tid().is_err());
}

#[test]
fn process_and_thread_lifecycle_transitions_cover_fault_exit_and_reap() {
    let mut process = process(9, ProcessState::Running, 1, 0x2000);
    let mut thread = running_thread(13, process.id, 0x3000, 0x4000);

    assert!(begin_thread_exit(&mut process, &mut thread, 1, true).expect("fault exit transition"));
    reap_process(&mut process, &mut thread).expect("reap transition");

    assert_eq!(process.state, ProcessState::Reaped);
    assert_eq!(thread.state, ThreadState::Reaped);
    assert_eq!(process.exit_status, Some(1));
    assert_eq!(process.live_threads, 0);
    assert_eq!(thread.owner_process_id, process.id);
}

#[test]
fn first_thread_exit_keeps_multi_thread_process_alive() {
    let mut process = process(5, ProcessState::Running, 2, 0x3000);
    let mut thread = running_thread(41, process.id, 0x5000, 0x6000);

    assert!(!begin_thread_exit(&mut process, &mut thread, 0, false).expect("thread exit"));
    assert_eq!(thread.state, ThreadState::Exited);
    assert_eq!(process.live_threads, 1);
    assert_eq!(process.state, ProcessState::Running);
    assert_eq!(process.exit_status, None);

    let mut final_thread = running_thread(42, process.id, 0x7000, 0x8000);
    assert!(
        begin_thread_exit(&mut process, &mut final_thread, 9, false).expect("final thread exit")
    );
    assert_eq!(process.live_threads, 0);
    assert_eq!(process.state, ProcessState::Exited);
    assert_eq!(process.exit_status, Some(9));
}

#[test]
fn process_registry_lookup_and_dispatchability_follow_process_state() {
    let mut registry = ProcessRegistry::new();
    let process_id: u64 = 17;
    registry
        .insert(process(process_id, ProcessState::Ready, 1, 0x9000))
        .expect("insert");
    assert_eq!(
        registry.get(process_id).expect("process").address_space_root(),
        0x9000
    );
    assert!(matches!(
        registry.get(process_id).expect("process").state,
        ProcessState::Ready
    ));

    registry.get_mut(process_id).expect("mut process").state = ProcessState::Exited;
    assert!(matches!(
        registry.get(process_id).expect("process").state,
        ProcessState::Exited
    ));
}

#[test]
fn process_registry_releases_reaped_slots_for_reuse() {
    let mut registry = ProcessRegistry::new();
    let mut exited = process(17, ProcessState::Exited, 0, 0x9000);
    exited.exit_status = Some(0);
    reap_process_record(&mut exited).expect("reap");
    registry.insert(exited).expect("insert");
    assert_eq!(registry.occupied_slots(), 1);
    registry.release_reaped(17).expect("release slot");
    assert_eq!(registry.occupied_slots(), 0);
    registry
        .insert(process(18, ProcessState::Ready, 1, 0xa000))
        .expect("reuse slot");
}

#[test]
fn process_registry_assigns_new_instance_generation_on_pid_reuse() {
    let mut registry = ProcessRegistry::new();
    let mut first = process(17, ProcessState::Exited, 0, 0x9000);
    first.exit_status = Some(0);
    reap_process_record(&mut first).expect("reap first");
    registry.insert(first).expect("insert first");
    let first_generation = registry.instance_generation(17).expect("first generation");
    registry.release_reaped(17).expect("release first slot");

    registry
        .insert(process(17, ProcessState::Ready, 1, 0xa000))
        .expect("insert replacement");
    let replacement_generation = registry
        .instance_generation(17)
        .expect("replacement generation");
    assert!(replacement_generation.0 > first_generation.0);
}

#[test]
fn process_registry_rejects_instance_generation_overflow() {
    let mut registry = ProcessRegistry::new();
    registry.next_instance_generation = InstanceGeneration(u32::MAX);
    let result = registry.insert(process(99, ProcessState::Ready, 1, 0xb000));
    assert_eq!(result, Err("process instance generation exhausted"));
}

#[test]
fn fault_termination_requires_sibling_retirement_before_final_exit() {
    let mut scheduler = Scheduler::new();
    scheduler
        .configure_thread(0, 90, 33, ThreadKind::User, 0x1000, 0x1000, 0x1000)
        .expect("thread one");
    scheduler
        .configure_thread(1, 91, 33, ThreadKind::User, 0x2000, 0x2000, 0x2000)
        .expect("thread two");
    scheduler.current_thread = Some(0);
    scheduler.threads[0].state = ThreadState::Running;
    scheduler.threads[1].state = ThreadState::Ready;

    let mut process = process(33, ProcessState::Running, 2, 0x9000);
    let mut current = scheduler.threads[0];
    assert!(!begin_thread_exit(&mut process, &mut current, 1, true).expect("fault current thread"));
    assert_eq!(process.state, ProcessState::Faulted);
    assert_eq!(process.live_threads, 1);

    let retired = scheduler.retire_sibling_threads_for_process(33, 90);
    assert_eq!(retired, 1);
    assert_eq!(scheduler.threads[1].state, ThreadState::Exited);
    process.live_threads -= retired as u16;
    finalize_process_exit(&mut process, 1).expect("finalize process exit");
    assert_eq!(process.live_threads, 0);
    assert_eq!(process.state, ProcessState::Exited);
    assert_eq!(process.exit_status, Some(1));
}

#[test]
fn registry_is_bounded_and_refuses_a_second_process_of_one_id() {
    let mut registry = ProcessRegistry::new();
    for id in 1..=PROCESS_REGISTRY_CAPACITY as u64 {
        registry.insert(process(id, ProcessState::Ready, 1, 0x1000 * id)).expect("room");
    }
    assert!(registry.insert(process(99, ProcessState::Ready, 1, 0x9000)).is_err());
    assert!(registry.release_reaped(1).is_err());
    assert_eq!(registry.find_by_address_space_root(0x3000).expect("found").id, 3);
    assert_eq!(registry.userspace_process_root_frame(4), Ok(0x4000));
    assert!(registry.userspace_process_root_frame(77).is_err());
    registry.clear();
    assert_eq!(registry.occupied_slots(), 0);
}

#[test]
fn lifecycle_refuses_out_of_order_transitions() {
    let mut ready = process(3, ProcessState::Ready, 1, 0x2000);
    assert!(reap_process_record(&mut ready).is_err());
    let mut stranger = running_thread(1, 4, 0x1000, 0x1000);
    let mut running = process(3, ProcessState::Running, 1, 0x2000);
    assert!(begin_thread_exit(&mut running, &mut stranger, 0, false).is_err());
    assert!(finalize_process_exit(&mut running, 0).is_err());
}

#[test]
fn overlapping_syscall_number_one_is_routed_by_personality_only() {
    let native_nr_read_u64: u64 = 1;
    assert_eq!(native_nr_read_u64, SYS_WRITE);

    let native_target = dispatch_target_for(ExecutionPersonality::Native);
    let linux_target = dispatch_target_for(ExecutionPersonality::LinuxX86_64);
    assert_eq!(native_target, SyscallDispatchTarget::Native);
    assert_eq!(linux_target, SyscallDispatchTarget::LinuxX86_64);
    assert_ne!(native_target, linux_target);

    match (native_target, native_nr_read_u64) {
        (SyscallDispatchTarget::Native, 1) => {}
        _ => panic!("native personality must own native nr 1"),
    }
    match (linux_target, SYS_WRITE) {
        (SyscallDispatchTarget::LinuxX86_64, 1) => {}
        _ => panic!("linux personality must own linux nr 1"),
    }
}

#[test]
fn default_personality_is_native() {
    assert_eq!(ExecutionPersonality::default(), ExecutionPersonality::Native);
}

#[test]
fn personality_is_that_of_the_running_process() {
    let mut registry = ProcessRegistry::new();
    let mut linux = process(7, ProcessState::Running, 1, 0x9000);
    linux.execution_personality = ExecutionPersonality::LinuxX86_64;
    registry.insert(linux).expect("insert");
    let mut scheduler = Scheduler::new();
    assert!(current_execution_personality(&scheduler, &registry).is_err());
    scheduler
        .configure_thread(0, 90, 7, ThreadKind::User, 0x1000, 0x1000, 0x1000)
        .expect("thread");
    scheduler.start().expect("start");
    assert_eq!(
        current_execution_personality(&scheduler, &registry),
        Ok(ExecutionPersonality::LinuxX86_64)
    );
}

#[test]
fn block_fnv_is_stable() {
    let block = build_m9_stdio_block();
    let block_fnv = fnv1a32(&block);
    assert_eq!(block_fnv, fnv1a32(&build_m9_stdio_block()));
    assert_eq!(block_fnv, 0x736c_e50e);
    assert_eq!(fnv1a32(&build_m9_stdio_inner()), 0x8f4e_8b26);
    println!("M9_STDIO_BLOCK_FNV={block_fnv:#010x}");
}

#[test]
fn inner_emoji_straddles_ipc_chunk_boundary_in_block() {
    // Byte 64 of the block is the first of the second message.
    assert_eq!(M9_STDIO_SENTINEL_START_LEN, 11);
    let emoji_start_in_block = M9_STDIO_SENTINEL_START_LEN + 50;
    assert_eq!(emoji_start_in_block, 61);
    assert_eq!(&build_m9_stdio_block()[61..65], &[0xF0, 0x9F, 0x98, 0x80]);
}

#[test]
fn payload_is_framed_by_its_sentinels() {
    let block = build_m9_stdio_block();
    assert_eq!(block.len(), M9_STDIO_BLOCK_LEN);
    assert_eq!(&block[..11], b"<<M9BYTES>>");
    assert_eq!(&block[11..11 + M9_STDIO_INNER_LEN], &build_m9_stdio_inner());
    assert_eq!(&block[151..], b"<<END>>");
    assert_eq!(fnv1a32(b""), 0x811c_9dc5);
    assert_eq!(fnv1a32(b"a"), 0xe40c_292c);
}
