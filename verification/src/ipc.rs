//! What the Linux fd layer sees of the IPC endpoints: message bounds, and how a send ends.

use vstd::prelude::*;

verus! {

/// Longest IPC message.
pub const IPC_MAX_MESSAGE_BYTES: usize = 64;

#[derive(Clone, Copy, Debug, PartialEq, Eq, Structural)]
pub enum IpcEndpointKind {
    Mailbox,
    ConsoleSink,
}

#[derive(Clone, Copy, Debug, PartialEq, Eq, Structural)]
pub enum IpcSendError {
    InvalidCapability,
    StaleCapability,
    Unauthorized,
    InvalidMessageLength,
}

/// A message that was delivered.
#[derive(Clone, Copy, Debug, PartialEq, Eq, Structural)]
pub struct IpcSendResult {
    pub endpoint_kind: IpcEndpointKind,
    pub bytes_sent: usize,
}

/// IPC resources that a process owns or holds.
#[derive(Clone, Copy, Debug, PartialEq, Eq, Structural)]
pub struct IpcProcessResources {
    pub owned_endpoints: usize,
    pub held_capabilities: usize,
}

} // verus!
