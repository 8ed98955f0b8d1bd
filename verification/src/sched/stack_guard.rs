//! The tripwire at the bottom of each kernel task stack.

use super::SCHEDULER_THREAD_SLOTS;
use vstd::prelude::*;

verus! {

/// The word that fills the guard of a task stack.
pub const TASK_STACK_GUARD_QWORD: u64 = 0x5354_4b47_5541_5244;

/// Where a stack pointer lies among the task stacks: the slot and the offset within its stack.
pub open spec fn stack_position(base: u64, stack_size: u64, rsp: u64) -> Option<(usize, u64)> {
    if rsp < base || (rsp - base) / stack_size as int >= SCHEDULER_THREAD_SLOTS {
        None
    } else {
        Some(
            (
                ((rsp - base) / stack_size as int) as usize,
                ((rsp - base) % stack_size as int) as u64,
            ),
        )
    }
}

pub fn task_stack_position(base: u64, stack_size: u64, rsp: u64) -> (r: Option<(usize, u64)>)
    requires
        stack_size > 0,
    ensures
        r == stack_position(base, stack_size, rsp),
{
    if rsp < base {
        return None;
    }
    let offset: u64 = rsp - base;
    let slot: u64 = offset / stack_size;
    if slot >= SCHEDULER_THREAD_SLOTS as u64 {
        return None;
    }
    Some((slot as usize, offset % stack_size))
}

/// Whether every word of a guard still holds the tripwire.
pub fn guard_intact(words: &[u64]) -> (r: bool)
    ensures
        r == forall|i: int| 0 <= i < words@.len() ==> #[trigger] words@[i] == TASK_STACK_GUARD_QWORD,
{
    let mut i: usize = 0;
    while i < words.len()
        invariant
            0 <= i <= words@.len(),
            forall|k: int| 0 <= k < i ==> #[trigger] words@[k] == TASK_STACK_GUARD_QWORD,
        decreases words@.len() - i,
    {
        if words[i] != TASK_STACK_GUARD_QWORD {
            return false;
        }
        i += 1;
    }
    true
}

/// Whether the stack that holds a stack pointer was overrun.
pub open spec fn overrun(base: u64, stack_size: u64, guard_bytes: u64, rsp: u64, words: Seq<u64>) -> bool {
    match stack_position(base, stack_size, rsp) {
        None => false,
        Some((_, offset)) => offset < guard_bytes || exists|i: int|
            0 <= i < words.len() && #[trigger] words[i] != TASK_STACK_GUARD_QWORD,
    }
}

/// Whether the stack that holds a stack pointer was overrun: its guard is damaged, or the pointer
/// lies in it. `words` are the guard's words, `guard_bytes` its size. A pointer outside the task
/// stacks overruns none.
pub fn task_stack_overrun(base: u64, stack_size: u64, guard_bytes: u64, rsp: u64, words: &[u64]) -> (r:
    bool)
    requires
        stack_size > 0,
    ensures
        r == overrun(base, stack_size, guard_bytes, rsp, words@),
{
    match task_stack_position(base, stack_size, rsp) {
        None => false,
        Some((_, offset)) => !guard_intact(words) || offset < guard_bytes,
    }
}

/// How much of a stack was ever used: all above its lowest byte that is not zero, below the guard
/// nothing counts.
pub open spec fn lowest_used(stack: Seq<u8>, from: int) -> int
    decreases stack.len() - from,
{
    if from < 0 || from >= stack.len() || stack[from] != 0 {
        from
    } else {
        lowest_used(stack, from + 1)
    }
}

pub fn stack_high_water(stack: &[u8], guard_bytes: usize) -> (r: usize)
    requires
        guard_bytes <= stack@.len(),
    ensures
        r == stack@.len() - lowest_used(stack@, guard_bytes as int),
{
    let mut at: usize = guard_bytes;
    while at < stack.len()
        invariant
            guard_bytes <= at <= stack@.len(),
            lowest_used(stack@, guard_bytes as int) == lowest_used(stack@, at as int),
        decreases stack@.len() - at,
    {
        if stack[at] != 0 {
            return stack.len() - at;
        }
        at += 1;
    }
    stack.len() - at
}

} // verus!
