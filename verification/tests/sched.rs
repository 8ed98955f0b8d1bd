//! The scheduler, waiting threads and register state.

use clean_slate::process::id_allocator::IdAllocator;
use clean_slate::process::lifecycle::{Process, ProcessRegistry, ProcessState, ResourceDomain};
use clean_slate::process::personality::ExecutionPersonality;
use clean_slate::process::InstanceGeneration;
use clean_slate::sched::dispatch::{
    initialize_scheduler, prepare_current_scheduler_thread_dispatch, prepare_thread_dispatch,
    task_exit, TaskExit, ThreadDispatch,
};
use clean_slate::sched::fpu::{
    default_area, user_fpu_cr4, FpuState, FxArea, CR4_OSFXSR, CR4_OSXMMEXCPT, CR4_OSXSAVE,
    DEFAULT_FCW, DEFAULT_MXCSR,
};
use clean_slate::sched::idle::{idle_stack_within_guard, IDLE_STACK_GUARD_BYTES};
use clean_slate::sched::stack_guard::{
    guard_intact, stack_high_water, task_stack_overrun, task_stack_position,
    TASK_STACK_GUARD_QWORD,
};
use clean_slate::sched::wait::{
    apply_blocked_resume, encode_wait_outcome, waiter_deadline_due, BlockAction, BlockedResume,
    Deadline, SyscallContext, WaitKey, WaitOutcome, WaitTable, WaiterSlot, CANCEL_MAGIC,
    MAX_WAITERS, TIMEOUT_MAGIC, WOKEN_MAGIC,
};
use clean_slate::sched::{
    Scheduler, ThreadKind, ThreadProcessResources, ThreadState, FRESH_TASK_SENTINEL,
    IDLE_THREAD_INDEX, SCHEDULER_THREAD_SLOTS, TASK_COUNT,
};

fn two_tasks() -> Scheduler {
    let mut scheduler = Scheduler::new();
    scheduler.configure_kernel_thread(0, 1, 0x1000, 0x1000).expect("task 1");
    scheduler.configure_kernel_thread(1, 2, 0x2000, 0x2000).expect("task 2");
    scheduler
}

fn registry_with(id: u64) -> ProcessRegistry {
    let mut registry = ProcessRegistry::new();
    registry
        .insert(Process {
            id,
            instance_generation: InstanceGeneration(0),
            state: ProcessState::Running,
            resource_domain: ResourceDomain::with_root_frame(id, 0x9000),
            live_threads: 1,
            exit_status: None,
            execution_personality: ExecutionPersonality::Native,
        })
        .expect("insert");
    registry
}

#[test]
fn idle_timer_ticks_stay_on_idle_stack_until_app_wake() {
    let mut ids = IdAllocator::new();
    let mut scheduler = two_tasks();
    scheduler
        .configure_kernel_thread(IDLE_THREAD_INDEX, 9_999, 0x3000, 0x3000)
        .expect("idle");
    scheduler.threads[0].state = ThreadState::Blocked;
    scheduler.threads[1].state = ThreadState::Blocked;
    scheduler.threads[IDLE_THREAD_INDEX].started = true;
    scheduler.threads[IDLE_THREAD_INDEX].state = ThreadState::Running;
    scheduler.current_thread = Some(IDLE_THREAD_INDEX);
    let idle_rsp: u64 = 0x3010;
    for tick in 0..200 {
        let result = scheduler
            .on_timer_interrupt(idle_rsp, &mut ids)
            .unwrap_or_else(|_| panic!("tick {tick}"));
        assert_eq!(result, idle_rsp, "tick {tick}");
        if tick == 150 {
            scheduler.threads[0].state = ThreadState::Ready;
            assert_eq!(
                scheduler.wake_from_idle_loop().expect("wake"),
                0x1000,
                "tick {tick}"
            );
            break;
        }
    }
}

#[test]
fn timer_tick_runs_unrelated_ready_thread_while_peer_blocked() {
    let mut ids = IdAllocator::new();
    let mut scheduler = two_tasks();
    scheduler.current_thread = Some(0);
    scheduler.threads[0].state = ThreadState::Blocked;
    scheduler.threads[1].state = ThreadState::Ready;
    scheduler.threads[1].started = true;
    assert_eq!(scheduler.on_timer_interrupt(0x1110, &mut ids).expect("tick"), 0x2000);
    assert_eq!(scheduler.current_thread, Some(1));
    assert_eq!(scheduler.threads[1].state, ThreadState::Running);
}

#[test]
fn scheduler_round_robins_and_tracks_preemption_progress() {
    let mut ids = IdAllocator::new();
    let mut scheduler = two_tasks();

    assert_eq!(scheduler.start().expect("start"), 0x1000);
    scheduler.note_progress(1, 10);
    assert_eq!(
        scheduler.on_timer_interrupt(0x1110, &mut ids).expect("tick 1"),
        FRESH_TASK_SENTINEL
    );
    scheduler.note_progress(2, 20);
    assert_eq!(scheduler.on_timer_interrupt(0x2220, &mut ids).expect("tick 2"), 0x1110);
    scheduler.note_progress(1, 30);
    assert_eq!(scheduler.on_timer_interrupt(0x1130, &mut ids).expect("tick 3"), 0x2220);

    assert!(scheduler.preemption_observed);
    assert!(scheduler.thread_should_exit(1));
    assert!(!scheduler.thread_should_exit(2));
}

#[test]
fn scheduler_removes_finished_tasks_without_losing_remaining_work() {
    let mut scheduler = two_tasks();

    scheduler.start().expect("start");
    scheduler.current_thread = Some(0);
    scheduler.threads[0].state = ThreadState::Running;
    scheduler.threads[0].observed_progress = 7;
    assert_eq!(
        scheduler.finish_current_thread().expect("finish"),
        Some(FRESH_TASK_SENTINEL)
    );
    assert_eq!(scheduler.current_thread, Some(1));
    assert_eq!(scheduler.threads[0].state, ThreadState::Exited);
    assert!(scheduler.threads[1].started);

    scheduler.threads[1].state = ThreadState::Running;
    scheduler.current_thread = Some(1);
    scheduler.threads[1].observed_progress = 9;
    assert_eq!(scheduler.finish_current_thread().expect("finish"), None);
    assert!(scheduler.all_finished());
}

#[test]
fn all_finished_treats_empty_and_reaped_slots_as_done() {
    let mut scheduler = Scheduler::new();
    scheduler.configure_kernel_thread(0, 1, 0x1000, 0x1000).expect("task 1");
    scheduler.threads[0].state = ThreadState::Exited;
    assert!(scheduler.all_finished());
    scheduler.threads[0].state = ThreadState::Reaped;
    assert!(scheduler.all_finished());
    // A table with empty slots only is finished too.
    let empty = Scheduler::new();
    assert!(empty.all_finished());
    let mut ready = Scheduler::new();
    ready.configure_kernel_thread(0, 1, 0x1000, 0x1000).expect("ready again");
    assert!(!ready.all_finished());
}

#[test]
fn scheduler_can_track_user_and_kernel_thread_ownership_independently() {
    let mut ids = IdAllocator::new();
    let mut scheduler = Scheduler::new();
    scheduler
        .configure_thread(0, 11, 0, ThreadKind::Kernel, 0x1000, 0x1000, 0x1000)
        .expect("kernel thread");
    scheduler
        .configure_thread(1, 22, 7, ThreadKind::User, 0x2000, 0x2000, 0x2000)
        .expect("user thread");

    assert_eq!(scheduler.threads[0].kind, ThreadKind::Kernel);
    assert_eq!(scheduler.threads[0].owner_process_id, 0);
    assert_eq!(scheduler.threads[1].kind, ThreadKind::User);
    assert_eq!(scheduler.threads[1].owner_process_id, 7);
    assert_eq!(scheduler.start().expect("start"), 0x1000);
    assert_eq!(scheduler.on_timer_interrupt(0x1010, &mut ids).expect("tick"), 0x2000);
}

#[test]
fn process_resource_helpers_count_and_reap_owned_threads() {
    let mut waits = WaitTable::new();
    let registry = ProcessRegistry::new();
    let mut scheduler = Scheduler::new();
    scheduler
        .configure_thread(0, 11, 7, ThreadKind::User, 0x1000, 0x1000, 0x1000)
        .expect("thread one");
    scheduler
        .configure_thread(1, 12, 7, ThreadKind::User, 0x2000, 0x2000, 0x2000)
        .expect("thread two");
    scheduler.threads[0].state = ThreadState::Exited;
    scheduler.threads[1].state = ThreadState::Ready;
    scheduler.current_thread = Some(1);

    let resources = scheduler.resources_for_process(7);
    assert_eq!(resources.threads, 2);
    assert_eq!(resources.runnable_threads, 1);
    assert_eq!(resources.kernel_stacks, 2);
    assert_eq!(
        scheduler.reap_threads_for_process(&mut waits, &registry, 7),
        Err("thread remained runnable during process teardown")
    );

    scheduler.threads[1].state = ThreadState::Exited;
    assert_eq!(
        scheduler.reap_threads_for_process(&mut waits, &registry, 7).expect("reap"),
        2
    );
    assert!(scheduler.current_thread.is_none());
    assert_eq!(
        scheduler.resources_for_process(7),
        ThreadProcessResources::default()
    );
}

#[test]
fn round_robin_visits_every_ready_thread() {
    let scheduler = two_tasks();
    assert_eq!(scheduler.next_runnable_from(None), Some(0));
    assert_eq!(scheduler.next_runnable_from(Some(0)), Some(1));
    assert_eq!(scheduler.next_runnable_from(Some(1)), Some(0));
    assert_eq!(scheduler.thread_capacity(), TASK_COUNT);
    assert_eq!(scheduler.occupied_thread_slots(), 2);
    assert_eq!(scheduler.first_empty_slot_from(0), None);
    assert!(!scheduler.has_blocked_threads());
}

#[test]
fn blocked_threads_leave_the_idle_thread() {
    let mut ids = IdAllocator::new();
    let mut scheduler = two_tasks();
    scheduler.place_idle_thread(0x3000, 0x3000);
    scheduler.start().expect("start");
    scheduler.threads[0].state = ThreadState::Blocked;
    scheduler.threads[1].state = ThreadState::Blocked;
    assert!(scheduler.yield_from_blocked_thread(&mut ids).is_ok());
    assert_eq!(scheduler.current_thread, Some(IDLE_THREAD_INDEX));
    assert_eq!(scheduler.on_timer_interrupt_while_idle(0x2ff0), 0x2ff0);
    assert!(idle_stack_within_guard(0x10000, 0x10000 - 8));
    assert!(IDLE_STACK_GUARD_BYTES > 0);
}

#[test]
fn configuring_refuses_slots_out_of_range_and_starting_an_empty_table() {
    let mut scheduler = Scheduler::new();
    assert!(scheduler
        .configure_thread(SCHEDULER_THREAD_SLOTS, 1, 0, ThreadKind::Kernel, 0x1000, 0x1000, 0x1000)
        .is_err());
    assert!(scheduler.start().is_err());
    assert!(scheduler.current_thread_descriptor().is_err());
    assert!(scheduler.current_userspace_process_id().is_err());
    assert!(scheduler.mark_current_thread_exiting().is_err());
    assert!(scheduler.set_thread_state(5, ThreadState::Ready).is_err());
    assert!(scheduler.update_thread_saved_stack(5, 0x1000).is_err());
    assert!(scheduler.finish_current_thread().is_err());
    assert!(scheduler.pick_next_runnable_stack_pointer().is_err());
}

#[test]
fn one_process_is_forced_out_without_touching_the_other() {
    let mut scheduler = Scheduler::new();
    scheduler
        .configure_thread(0, 11, 7, ThreadKind::User, 0x1000, 0x1000, 0x1000)
        .expect("thread one");
    scheduler
        .configure_thread(1, 12, 8, ThreadKind::User, 0x2000, 0x2000, 0x2000)
        .expect("thread two");
    assert_eq!(scheduler.force_exit_all_threads_for_process(7), Ok(1));
    assert_eq!(scheduler.threads[0].state, ThreadState::Exited);
    assert_eq!(scheduler.threads[1].state, ThreadState::Ready);
    assert_eq!(scheduler.reap_exited_threads(7), Ok(1));
    assert_eq!(scheduler.threads[0].state, ThreadState::Empty);
    assert_eq!(scheduler.first_empty_slot_from(0), Some(0));
}

#[test]
fn dispatch_takes_the_owner_address_space() {
    let registry = registry_with(7);
    let mut scheduler = Scheduler::new();
    scheduler
        .configure_thread(0, 11, 7, ThreadKind::User, 0x1000, 0x800, 0x1000)
        .expect("thread");
    scheduler.start().expect("start");
    let thread = scheduler.current_thread_descriptor().expect("current");
    let expected = ThreadDispatch { root_frame: 0x9000, kernel_stack_top: 0x1000 };
    assert_eq!(prepare_thread_dispatch(thread, 0x5000, &registry), Ok(expected));
    assert_eq!(
        prepare_current_scheduler_thread_dispatch(&scheduler, 0x5000, &registry),
        Ok(expected)
    );
    assert!(prepare_thread_dispatch(thread, 0x5000, &ProcessRegistry::new()).is_err());
    let kernel = two_tasks().threads[0];
    assert_eq!(
        prepare_thread_dispatch(kernel, 0x5000, &registry).expect("kernel").root_frame,
        0x5000
    );
}

#[test]
fn a_new_start_keeps_the_idle_thread_and_the_next_task() {
    let mut ids = IdAllocator { next_pid: 3, next_tid: 7 };
    let mut scheduler = two_tasks();
    scheduler.start().expect("start");
    scheduler.preemption_observed = true;
    scheduler.preemption_logged = true;
    scheduler.pass_emitted = true;
    scheduler.next_task.stack_pointer = 0x7000;
    scheduler.next_task.entry_point = 0x7700;
    scheduler.idle.configured = true;
    scheduler.idle.stack_top = 0x8000;
    initialize_scheduler(&mut scheduler, &mut ids, [0x1000, 0x2000], [0x1100, 0x2200]).expect("init");
    assert_eq!(scheduler.next_task.stack_pointer, 0x7000);
    assert_eq!(scheduler.next_task.entry_point, 0x7700);
    assert!(scheduler.idle.configured);
    assert_eq!(scheduler.idle.stack_top, 0x8000);
    assert_eq!(scheduler.current_thread, None);
    assert!(!scheduler.preemption_observed);
    assert!(!scheduler.preemption_logged);
    assert!(!scheduler.pass_emitted);
    assert_eq!((scheduler.threads[0].id, scheduler.threads[1].id), (7, 8));
    assert_eq!(scheduler.threads[2].state, ThreadState::Empty);
    ids.next_tid = u64::MAX - 1;
    assert!(
        initialize_scheduler(&mut scheduler, &mut ids, [0x1000, 0x2000], [0x1100, 0x2200]).is_err()
    );
    assert_eq!(scheduler.next_task.entry_point, 0x7700);
    assert!(scheduler.threads.iter().all(|thread| thread.state == ThreadState::Empty));
    assert_eq!((ids.next_pid, ids.next_tid), (3, u64::MAX));
}

#[test]
fn demo_tasks_end_one_after_the_other() {
    let registry = ProcessRegistry::new();
    let mut ids = IdAllocator::new();
    let mut scheduler = Scheduler::new();
    initialize_scheduler(&mut scheduler, &mut ids, [0x1000, 0x2000], [0x1100, 0x2200]).expect("init");
    assert_eq!(
        task_exit(&mut scheduler, 0x5000, &registry),
        TaskExit::Fatal("thread exit occurred without a current thread")
    );
    scheduler.start().expect("start");
    match task_exit(&mut scheduler, 0x5000, &registry) {
        TaskExit::Start { dispatch, next } => {
            assert_eq!(dispatch.root_frame, 0x5000);
            assert_eq!(next.entry_point, 0x2200);
        }
        other => panic!("unexpected {other:?}"),
    }
    assert_eq!(task_exit(&mut scheduler, 0x5000, &registry), TaskExit::AllDone);
}

#[test]
fn progress_marks_are_taken_once() {
    let mut ids = IdAllocator::new();
    let mut scheduler = two_tasks();
    scheduler.start().expect("start");
    scheduler.note_progress(1, 10);
    scheduler.on_timer_interrupt(0x1110, &mut ids).expect("tick");
    scheduler.note_progress(2, 20);
    scheduler.on_timer_interrupt(0x2220, &mut ids).expect("tick");
    assert_eq!(scheduler.take_progress_marks(1).1, None);
    scheduler.note_progress(1, 30);
    scheduler.on_timer_interrupt(0x1130, &mut ids).expect("tick");
    assert_eq!(scheduler.take_progress_marks(1).1, Some(30));
    assert_eq!(scheduler.take_progress_marks(1), (false, None));
}

#[test]
fn default_area_matches_architectural_reset_image() {
    let area = default_area();
    assert_eq!(&area.0[0..2], &DEFAULT_FCW.to_le_bytes());
    assert_eq!(&area.0[24..28], &DEFAULT_MXCSR.to_le_bytes());
    assert!(area.0[2..24].iter().all(|byte| *byte == 0));
    assert!(area.0[28..].iter().all(|byte| *byte == 0));
    assert_eq!(core::mem::align_of::<FxArea>(), 16);
}

fn area_of(byte: u8) -> FxArea {
    let mut area = default_area();
    area.0 = [byte; 512];
    area
}

#[test]
fn register_state_follows_its_thread() {
    let mut fpu = FpuState::new();
    let loaded = fpu.activate_user_slot(0, area_of(9)).expect("reset image");
    assert_eq!(loaded.0, default_area().0);
    assert!(fpu.activate_user_slot(0, area_of(1)).is_none());
    let other = fpu.activate_user_slot(1, area_of(1)).expect("reset image");
    assert_eq!(other.0, default_area().0);
    let back = fpu.activate_user_slot(0, area_of(2)).expect("saved image");
    assert_eq!(back.0, [1u8; 512]);
    fpu.inherit_for_fork(0, 2, area_of(3));
    assert_eq!(fpu.areas[2].0, [3u8; 512]);
    let reset = fpu.reset_for_exec(0).expect("owner is reset");
    assert_eq!(reset.0, default_area().0);
    fpu.reset_slot(0);
    assert_eq!(fpu.owner, None);
    assert_eq!(user_fpu_cr4(CR4_OSXSAVE), CR4_OSFXSR | CR4_OSXMMEXCPT);
}

#[test]
fn stack_guard_words_show_an_overrun() {
    let words = [TASK_STACK_GUARD_QWORD; 4];
    assert!(guard_intact(&words));
    let mut broken = words;
    broken[3] = 0;
    assert!(!guard_intact(&broken));
    assert_eq!(task_stack_position(0x1000, 0x1000, 0x2800), Some((1, 0x800)));
    assert_eq!(task_stack_position(0x1000, 0x1000, 0x800), None);
    assert!(!task_stack_overrun(0x1000, 0x1000, 0x100, 0x1800, &words));
    assert!(task_stack_overrun(0x1000, 0x1000, 0x100, 0x1800, &broken));
    assert!(task_stack_overrun(0x1000, 0x1000, 0x100, 0x1080, &words));
    let mut stack = [0u8; 64];
    assert_eq!(stack_high_water(&stack, 8), 0);
    stack[40] = 1;
    assert_eq!(stack_high_water(&stack, 8), 24);
}

fn frame_at(user_rip: u64) -> SyscallContext {
    SyscallContext {
        rax: 0xdead,
        rdx: 3,
        rbx: 0,
        rbp: 0,
        rsi: 2,
        rdi: 1,
        r8: 5,
        r9: 6,
        r10: 4,
        r12: 0,
        r13: 0,
        r14: 0,
        r15: 0,
        user_rip,
        user_rflags: 0x202,
        user_rsp: 0x7fff_0000,
    }
}

#[test]
fn native_resume_encodes_outcome_and_leaves_rip_alone() {
    let mut frame = frame_at(0x40_1000);
    apply_blocked_resume(&mut frame, BlockedResume::NativeOutcome, WaitOutcome::TimedOut);
    assert_eq!(frame.rax, encode_wait_outcome(WaitOutcome::TimedOut));
    assert_eq!(frame.user_rip, 0x40_1000);
}

#[test]
fn restart_resume_reexecutes_syscall_with_arguments_intact() {
    for outcome in [WaitOutcome::Woken, WaitOutcome::Cancelled] {
        let mut frame = frame_at(0x40_1002);
        apply_blocked_resume(
            &mut frame,
            BlockedResume::RestartSyscall { nr: 7, timeout_rax: u64::MAX },
            outcome,
        );
        assert_eq!(frame.user_rip, 0x40_1000, "rip backs up over `syscall`");
        assert_eq!(frame.rax, 7, "rax carries the syscall number again");
        assert_eq!((frame.rdi, frame.rsi, frame.rdx), (1, 2, 3));
        assert_eq!((frame.r10, frame.r8, frame.r9), (4, 5, 6));
        assert_eq!(frame.user_rsp, 0x7fff_0000);
        assert_eq!(frame.user_rflags, 0x202);
    }
}

#[test]
fn restart_resume_completes_with_timeout_result_on_deadline() {
    let mut frame = frame_at(0x40_1002);
    let timeout_rax = (-110i64) as u64; // -ETIMEDOUT
    apply_blocked_resume(
        &mut frame,
        BlockedResume::RestartSyscall { nr: 7, timeout_rax },
        WaitOutcome::TimedOut,
    );
    assert_eq!(frame.user_rip, 0x40_1002, "no restart on timeout");
    assert_eq!(frame.rax, timeout_rax);
}

#[test]
fn outcomes_are_told_apart() {
    assert_eq!(encode_wait_outcome(WaitOutcome::Woken), WOKEN_MAGIC);
    assert_eq!(encode_wait_outcome(WaitOutcome::TimedOut), TIMEOUT_MAGIC);
    assert_eq!(encode_wait_outcome(WaitOutcome::Cancelled), CANCEL_MAGIC);
}

#[test]
fn pending_wake_is_consumed_on_block_register() {
    let mut table = WaitTable::new();
    let key = WaitKey(99);
    table.record_pending_wake(key);
    assert!(table.consume_pending_wake(key));
    assert!(!table.consume_pending_wake(key));
}

#[test]
fn waiter_capacity_matches_task_count() {
    assert_eq!(MAX_WAITERS, TASK_COUNT);
}

#[test]
fn waiter_table_capacity_exhaustion_fails_closed() {
    let mut table = WaitTable::new();
    for _ in 0..MAX_WAITERS {
        let index = table.allocate_slot().expect("slot");
        table.slots[index].active = true;
    }
    assert_eq!(table.allocate_slot(), Err("waiter table exhausted"));
}

#[test]
fn waiter_deadline_due_only_at_or_after_tick() {
    assert!(!waiter_deadline_due(Some(Deadline(5)), 4));
    assert!(waiter_deadline_due(Some(Deadline(5)), 5));
    assert!(!waiter_deadline_due(None, 100));
}

#[test]
fn wake_before_block_pending_wake_race() {
    let mut table = WaitTable::new();
    let key = WaitKey(77);
    table.record_pending_wake(key);
    assert!(table.consume_pending_wake(key));
}

#[test]
fn cancel_waiters_table_scan_clears_matching_pid_and_generation() {
    let mut scheduler = Scheduler::new();
    let mut table = WaitTable::new();
    let slot = table.allocate_slot().expect("slot");
    table.slots[slot] = WaiterSlot {
        active: true,
        pid: 42,
        generation: InstanceGeneration(3),
        tid: 1,
        thread_index: 0,
        key: WaitKey(1),
        deadline: None,
    };
    let other = table.allocate_slot().expect("slot");
    table.slots[other] = WaiterSlot {
        active: true,
        pid: 43,
        generation: InstanceGeneration(1),
        tid: 2,
        thread_index: 1,
        key: WaitKey(2),
        deadline: None,
    };
    assert_eq!(
        table.cancel_waiters_for_process(&mut scheduler, 42, InstanceGeneration(3)),
        1
    );
    assert!(!table.slots[slot].active);
    assert!(table.slots[other].active);
}

#[test]
fn stale_generation_wake_denied_when_live_generation_missing() {
    let registry = ProcessRegistry::new();
    let slot_generation = InstanceGeneration(1);
    let live: Option<InstanceGeneration> = registry.live_instance_generation(42);
    assert_eq!(live, None);
    assert_ne!(live, Some(slot_generation));

    let mut scheduler = Scheduler::new();
    let mut table = WaitTable::new();
    table.slots[0] = WaiterSlot {
        active: true,
        pid: 42,
        generation: slot_generation,
        tid: 1,
        thread_index: 0,
        key: WaitKey(1),
        deadline: None,
    };
    assert_eq!(table.wake_all(&mut scheduler, &registry, WaitKey(1)), 0);
}

fn waiting() -> (Scheduler, WaitTable, ProcessRegistry) {
    let registry = registry_with(7);
    let mut scheduler = Scheduler::new();
    scheduler
        .configure_thread(0, 11, 7, ThreadKind::User, 0x1000, 0x1000, 0x1000)
        .expect("thread one");
    scheduler
        .configure_thread(1, 12, 7, ThreadKind::User, 0x2000, 0x2000, 0x2000)
        .expect("thread two");
    scheduler.start().expect("start");
    (scheduler, WaitTable::new(), registry)
}

#[test]
fn blocked_thread_is_woken_by_its_key() {
    let (mut scheduler, mut waits, registry) = waiting();
    assert_eq!(
        waits.block_current_thread(&mut scheduler, &registry, 0x800, WaitKey(5), None),
        Ok(BlockAction::Yield)
    );
    assert_eq!(scheduler.threads[0].state, ThreadState::Blocked);
    assert_eq!(waits.occupied(), 1);
    assert_eq!(waits.wake_one(&mut scheduler, &registry, WaitKey(6)), 0);
    assert_eq!(waits.wake_one(&mut scheduler, &registry, WaitKey(5)), 1);
    assert_eq!(scheduler.threads[0].state, ThreadState::Ready);
    assert_eq!(scheduler.threads[0].wait_resume_outcome, WaitOutcome::Woken);
    assert_eq!(waits.occupied(), 0);
}

#[test]
fn early_wake_is_not_lost() {
    let (mut scheduler, mut waits, registry) = waiting();
    assert_eq!(waits.wake_all(&mut scheduler, &registry, WaitKey(5)), 0);
    assert_eq!(
        waits.block_current_thread(&mut scheduler, &registry, 0x800, WaitKey(5), None),
        Ok(BlockAction::AlreadyWoken)
    );
    assert_eq!(scheduler.threads[0].state, ThreadState::Running);
}

#[test]
fn overdue_waiters_time_out() {
    let (mut scheduler, mut waits, registry) = waiting();
    waits
        .block_current_thread_with_resume(
            &mut scheduler,
            &registry,
            0x800,
            WaitKey(5),
            Some(Deadline(10)),
            BlockedResume::RestartSyscall { nr: 35, timeout_rax: 0 },
        )
        .expect("block");
    assert_eq!(waits.expire_deadlines(&mut scheduler, 9), 0);
    assert_eq!(waits.expire_deadlines(&mut scheduler, 10), 1);
    assert_eq!(scheduler.threads[0].wait_resume_outcome, WaitOutcome::TimedOut);
    assert_eq!(
        waits.take_blocked_resume(0),
        BlockedResume::RestartSyscall { nr: 35, timeout_rax: 0 }
    );
    assert_eq!(waits.take_blocked_resume(0), BlockedResume::NativeOutcome);
}

#[test]
fn blocking_needs_a_running_thread_of_a_live_process() {
    let mut waits = WaitTable::new();
    let mut scheduler = Scheduler::new();
    let registry = ProcessRegistry::new();
    assert_eq!(
        waits.block_current_thread(&mut scheduler, &registry, 0x800, WaitKey(5), None),
        Err("block required a current scheduler thread")
    );
    let (mut running, mut table, _) = waiting();
    assert_eq!(
        table.block_current_thread(&mut running, &registry, 0x800, WaitKey(5), None),
        Err("block process had no live generation")
    );
    running.threads[0].state = ThreadState::Ready;
    assert_eq!(
        table.block_current_thread(&mut running, &registry, 0x800, WaitKey(5), None),
        Err("block required the running thread state")
    );
}
