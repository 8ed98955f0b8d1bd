//! The decisions of `wait4`.

use super::pipe::wait_key_for_parent;
use super::table::{
    child_awaited, forgotten, zombie_found, LinuxProcessTable, ProcId, TableModel,
};
use crate::abi::{LinuxErrno, ECHILD, EFAULT};
use crate::process::lifecycle::{Process, ProcessRegistry};
use crate::sched::wait::WaitKey;
use vstd::prelude::*;

verus! {

pub const WNOHANG: u64 = 1;

/// What a `wait4` does.
#[derive(Clone, Copy, Debug, PartialEq, Eq, Structural)]
pub enum WaitAction {
    /// Returns a child's pid; its status goes to the caller where it asked for it.
    Reaped { pid: u64, status: Option<i32> },
    /// Returns zero: no child has ended.
    NothingYet,
    Fail(LinuxErrno),
    /// Waits for a child to end, and then is executed again.
    Block(WaitKey),
}

/// The children that a wait asks for: process groups count as any child.
pub open spec fn wait_filter(wait_pid: i64) -> i64 {
    if wait_pid > 0 {
        wait_pid
    } else {
        -1i64
    }
}

/// The result of a `wait4`, with the table afterwards. `status_writable` says whether the status could
/// be written to the caller's memory.
pub open spec fn waited(
    m: TableModel,
    parent: ProcId,
    wait_pid: i64,
    wants_status: bool,
    options: u64,
    status_writable: bool,
    processes: Seq<Process>,
) -> (TableModel, WaitAction) {
    let filter = wait_filter(wait_pid);
    if !child_awaited(m, parent, -1i64) {
        (m, WaitAction::Fail(ECHILD))
    } else {
        match zombie_found(m, parent, filter, processes) {
            (marked, Some((child, status))) => if wants_status && !status_writable {
                (marked, WaitAction::Fail(EFAULT))
            } else {
                (
                    TableModel { slots: forgotten(marked.slots, child), ..marked },
                    WaitAction::Reaped {
                        pid: child.pid,
                        status: if wants_status {
                            Some(status)
                        } else {
                            None
                        },
                    },
                )
            },
            (marked, None) => if options & WNOHANG != 0 {
                (marked, WaitAction::NothingYet)
            } else if !child_awaited(marked, parent, filter) {
                (marked, WaitAction::Fail(ECHILD))
            } else {
                (marked, WaitAction::Block(WaitKey((0x50u64 << 56) | parent.pid)))
            },
        }
    }
}

/// Decides a `wait4` by a parent. `wants_status` says whether the caller gave a place for the status,
/// and `status_writable` whether user memory there can be written.
pub fn linux_wait4(
    table: &mut LinuxProcessTable,
    registry: &ProcessRegistry,
    parent: ProcId,
    wait_pid: i64,
    wants_status: bool,
    options: u64,
    status_writable: bool,
) -> (r: WaitAction)
    ensures
        (final(table).model(), r) == waited(
            old(table).model(),
            parent,
            wait_pid,
            wants_status,
            options,
            status_writable,
            registry.processes@,
        ),
{
    let filter: i64 = if wait_pid > 0 {
        wait_pid
    } else {
        -1i64
    };
    if !table.has_child_in_wait_set(parent, -1) {
        return WaitAction::Fail(ECHILD);
    }
    match table.find_zombie_child(parent, filter, registry) {
        Some((child, status)) => {
            if wants_status && !status_writable {
                return WaitAction::Fail(EFAULT);
            }
            table.reap_zombie(child);
            return WaitAction::Reaped {
                pid: child.pid,
                status: if wants_status {
                    Some(status)
                } else {
                    None
                },
            };
        },
        None => {},
    }
    if options & WNOHANG != 0 {
        return WaitAction::NothingYet;
    }
    if !table.has_waitable_children(parent, filter) {
        return WaitAction::Fail(ECHILD);
    }
    WaitAction::Block(wait_key_for_parent(parent.pid))
}

} // verus!
