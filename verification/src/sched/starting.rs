//! What holds when threads start and end, and of the stacks they run on.

use super::dispatch::{dispatch_of, task_ended, tasks_placed, TaskExit, ThreadDispatch};
use super::stack_guard::{lowest_used, overrun, stack_position, TASK_STACK_GUARD_QWORD};
use super::{
    idle_handoff, next_from, owned_by, reap_result, slot_finished, unfinished, SchedulerModel,
    Thread, ThreadKind, ThreadState, FRESH_TASK_SENTINEL,
};
use crate::process::lifecycle::{process_from, Process, ProcessState};
use crate::process::linux_proc::fault::{fault_exit, fault_signal};
use crate::process::personality::ExecutionPersonality;
use vstd::prelude::*;

verus! {

/// The scheduler starts with two kernel threads that can run, each with its own number, stack and entry,
/// and with nothing running. The idle thread stays where it was put.
pub proof fn law_tasks_start_ready(
    m: SchedulerModel,
    next_tid: u64,
    stack_pointers: Seq<u64>,
    entries: Seq<u64>,
    k: int,
)
    requires
        next_tid < u64::MAX - 1,
        stack_pointers.len() == 2,
        entries.len() == 2,
        0 <= k < 2,
    ensures
        ({
            let (after, r) = tasks_placed(m, next_tid, stack_pointers, entries);
            let t = after.threads[k];
            &&& r is Ok
            &&& after.threads.len() == 3
            &&& t.id == next_tid + k
            &&& t.owner_process_id == 0
            &&& t.kind == ThreadKind::Kernel
            &&& t.state == ThreadState::Ready
            &&& !t.started
            &&& t.saved_stack_pointer == stack_pointers[k]
            &&& t.kernel_stack_top == stack_pointers[k]
            &&& t.launch_entry == entries[k]
            &&& t.blocked_syscall_frame == 0
            &&& after.threads[0].id != after.threads[1].id
            &&& after.threads[2].state == ThreadState::Empty
            &&& after.current_thread is None
            &&& after.idle == m.idle && after.next_task == m.next_task
        }),
        tasks_placed(m, u64::MAX, stack_pointers, entries).1 is Err,
{
}

/// A thread runs on its own kernel stack under the root of its process; a kernel thread runs under the
/// kernel's root, which must be there. A thread whose process cannot be dispatched does not run.
pub proof fn law_thread_runs_under_its_own_root(
    thread: Thread,
    kernel_root: u64,
    processes: Seq<Process>,
)
    ensures
        ({
            let r = dispatch_of(thread, kernel_root, processes);
            let p = process_from(processes, thread.owner_process_id, 0);
            &&& r is Ok ==> r->Ok_0.kernel_stack_top == thread.kernel_stack_top
            &&& thread.kind == ThreadKind::Kernel ==> (r is Ok <==> kernel_root != 0) && (r is Ok
                ==> r->Ok_0.root_frame == kernel_root)
            &&& thread.kind == ThreadKind::User ==> (r is Ok <==> p is Some && (processes[p->0].state
                == ProcessState::Ready || processes[p->0].state == ProcessState::Running)) && (r is Ok
                ==> r->Ok_0.root_frame == processes[p->0].resource_domain.root_frame)
        }),
{
}

/// The exit of a task ends that thread alone. Where another can run, that one is current and runs under
/// its own root: from its start where it never ran, else from where it was. All are done only where every
/// slot is.
pub proof fn law_exit_ends_the_current_task(
    m: SchedulerModel,
    kernel_root: u64,
    processes: Seq<Process>,
    current: usize,
    j: int,
)
    requires
        m.threads.len() == 3,
        m.current_thread == Some(current),
        current < 3,
        0 <= j < 3,
        forall|i: int|
            0 <= i < 3 ==> (#[trigger] m.threads[i]).saved_stack_pointer != FRESH_TASK_SENTINEL,
    ensures
        ({
            let (after, exit) = task_ended(m, kernel_root, processes);
            &&& after.threads.len() == 3
            &&& after.current_thread != Some(current) ==> after.threads[current as int].state
                == ThreadState::Exited
            &&& after.current_thread is None && j != current ==> after.threads[j] == m.threads[j]
            &&& after.current_thread is None ==> exit == TaskExit::AllDone || exit is Fatal
            &&& exit == TaskExit::AllDone ==> j != current ==> slot_finished(j, m.threads[j])
            &&& exit matches TaskExit::Start { dispatch, next } ==> {
                let n = after.current_thread->0 as int;
                &&& 0 <= n < 3
                &&& after.threads[n].state == ThreadState::Running && after.threads[n].started
                &&& Ok::<ThreadDispatch, &'static str>(dispatch) == dispatch_of(
                    after.threads[n],
                    kernel_root,
                    processes,
                )
            }
            &&& exit matches TaskExit::Resume { dispatch, stack_pointer } ==> {
                let n = after.current_thread->0 as int;
                &&& 0 <= n < 3
                &&& after.threads[n].state == ThreadState::Running
                &&& m.threads[n].blocked_syscall_frame == 0 ==> stack_pointer
                    == m.threads[n].saved_stack_pointer
                &&& Ok::<ThreadDispatch, &'static str>(dispatch) == dispatch_of(
                    after.threads[n],
                    kernel_root,
                    processes,
                )
            }
        }),
{
    let ended = m.threads.update(
        current as int,
        Thread { state: ThreadState::Exited, ..m.threads[current as int] },
    );
    reveal_with_fuel(super::runnable_from, 4);
    if next_from(ended, Some(current)) is None {
        let exit = task_ended(m, kernel_root, processes).1;
        if exit == TaskExit::AllDone {
            assert(slot_finished(j, ended[j]));
        }
    }
}

/// The place of a stack pointer among the task stacks tells where it is: the start of its stack and its
/// offset, which lies in the stack. A pointer below the stacks, or above them, has none.
pub proof fn law_stack_position_locates(base: u64, size: u64, rsp: u64)
    requires
        size > 0,
        base + 3 * size <= u64::MAX,
    ensures
        match stack_position(base, size, rsp) {
            Some((slot, offset)) => slot < 3 && offset < size && base + slot * size + offset == rsp,
            None => rsp < base || rsp >= base + 3 * size,
        },
{
    if rsp >= base {
        let d = rsp - base;
        vstd::arithmetic::div_mod::lemma_fundamental_div_mod(d, size as int);
        vstd::arithmetic::div_mod::lemma_mod_division_less_than_divisor(d, size as int);
        let q = d / size as int;
        assert(q >= 0) by {
            vstd::arithmetic::div_mod::lemma_div_pos_is_pos(d, size as int);
        }
        assert(q * size == size * q) by (nonlinear_arith);
        if q >= 3 {
            assert(size * q >= 3 * size) by (nonlinear_arith)
                requires
                    q >= 3,
                    size > 0,
            ;
        }
    }
}

/// A stack counts as overrun exactly where its pointer lies in it and the pointer reached the guard or a
/// word of the guard was changed.
pub proof fn law_overrun_is_noticed(base: u64, size: u64, guard: u64, rsp: u64, words: Seq<u64>, i: int)
    requires
        size > 0,
        0 <= i < words.len(),
        stack_position(base, size, rsp) is Some,
    ensures
        words[i] != TASK_STACK_GUARD_QWORD ==> overrun(base, size, guard, rsp, words),
        (stack_position(base, size, rsp)->0).1 < guard ==> overrun(base, size, guard, rsp, words),
        !overrun(base, size, guard, rsp, words) ==> words[i] == TASK_STACK_GUARD_QWORD && (
        stack_position(base, size, rsp)->0).1 >= guard,
        rsp < base ==> !overrun(base, size, guard, rsp, words),
{
}

/// Below the lowest used byte of a stack every byte is zero, and that byte is not.
pub proof fn law_lowest_used_byte(stack: Seq<u8>, from: int, j: int)
    requires
        0 <= from <= stack.len(),
    ensures
        from <= lowest_used(stack, from) <= stack.len(),
        from <= j < lowest_used(stack, from) ==> stack[j] == 0,
        lowest_used(stack, from) < stack.len() ==> stack[lowest_used(stack, from)] != 0,
    decreases stack.len() - from,
{
    if from < stack.len() && stack[from] == 0 {
        law_lowest_used_byte(stack, from + 1, j);
    }
}

/// A fault ends a process of the Linux personality under its own generation: with the signal for an
/// illegal instruction where the opcode was invalid, else with that for a bad access. It ends no other.
pub proof fn law_fault_ends_linux_processes(processes: Seq<Process>, pid: u64, vector: u64)
    ensures
        ({
            let p = process_from(processes, pid, 0);
            let r = fault_exit(processes, pid, vector);
            &&& r is Some <==> p is Some && processes[p->0].execution_personality
                == ExecutionPersonality::LinuxX86_64
            &&& r matches Some((id, signal)) ==> id.pid == pid && id.generation
                == processes[p->0].instance_generation && signal == fault_signal(vector)
        }),
        fault_signal(6) == 4,
        vector != 6 ==> fault_signal(vector) == 11,
{
}

/// The processor is handed to the idle thread on a clean stack, whatever it did before: it is the current
/// one and starts at its entry. Its slot is set up once, under a number of its own, and no other thread
/// changes.
pub proof fn law_idle_starts_clean(m: SchedulerModel, next_tid: u64, j: int)
    requires
        m.threads.len() == 3,
        0 <= j < 2,
    ensures
        ({
            let (after, r, took) = idle_handoff(m, next_tid);
            &&& r is Ok ==> {
                &&& r->Ok_0 == FRESH_TASK_SENTINEL
                &&& after.current_thread == Some(2usize)
                &&& after.next_task.stack_pointer == m.idle.stack_top
                &&& after.next_task.entry_point == m.idle.entry_point
                &&& after.threads[2].state == ThreadState::Running
                &&& after.idle.configured
                &&& !idle_handoff(after, next_tid).2
            }
            &&& r is Err ==> after == m && next_tid == u64::MAX
            &&& took ==> after.threads[2].id == next_tid && after.threads[2].owner_process_id == 0
                && !m.idle.configured
            &&& after.threads[j] == m.threads[j]
        }),
{
}

/// Reaping a process's threads empties their slots and no others, once none of them may go on; until then
/// it changes nothing.
pub proof fn law_reaping_empties_the_slots(m: SchedulerModel, pid: u64, j: int)
    requires
        m.threads.len() == 3,
        0 <= j < 3,
        m.current_thread matches Some(c) ==> c < 3,
    ensures
        ({
            let (after, r) = reap_result(m, pid);
            &&& r is Err ==> after == m
            &&& r is Err <==> exists|i: int|
                0 <= i < 3 && (#[trigger] m.threads[i]).owner_process_id == pid && unfinished(
                    m.threads[i],
                )
            &&& r is Ok && j < 2 && owned_by(m.threads[j], pid) ==> after.threads[j].state
                == ThreadState::Empty && after.current_thread != Some(j as usize)
            &&& m.threads[j].owner_process_id != pid ==> after.threads[j] == m.threads[j]
            &&& m.current_thread == Some(j as usize) && m.threads[j].owner_process_id != pid
                ==> after.current_thread == m.current_thread
        }),
{
}

} // verus!
