//! Brokering of a socket's requests to the network service.
//!
//! A request runs in steps: `begin_broker` tells whether it is submitted or already under way,
//! `broker_submitted` notes its number, and `broker_polled` tells what came of it. A caller that has to
//! wait begins again when it is woken.

use super::pool::{linux_socket_request_wait_key, request_key, LINUX_TCP_CONNECT_TIMEOUT_TICKS};
use super::protocol::{NetworkRequest, NetworkResponse};
use super::wake::{wake_cleared, wake_registered, RequestWakes};
use crate::abi::{LinuxErrno, EACCES, EAGAIN, EINVAL, ENFILE, ESTALE};
use crate::sched::wait::{Deadline, WaitKey};
use vstd::prelude::*;

verus! {

/// A capability that a process may hold.
#[derive(Clone, Copy, Debug, PartialEq, Eq, Structural)]
pub struct CapabilityRecord {
    pub live: bool,
    pub holder: u64,
    /// Whether it is one for the network.
    pub network: bool,
    /// Whether it gives access to the device itself.
    pub raw_device: bool,
    pub handle: Option<u64>,
}

/// Whether a capability lets a process use the network as a client.
pub open spec fn client_capability(record: CapabilityRecord, holder: u64) -> bool {
    record.live && record.holder == holder && record.network && !record.raw_device
}

/// The first such capability at or above `from`.
pub open spec fn client_from(records: Seq<CapabilityRecord>, holder: u64, from: int) -> Option<int>
    decreases records.len() - from,
{
    if from < 0 || from >= records.len() {
        None
    } else if client_capability(records[from], holder) {
        Some(from)
    } else {
        client_from(records, holder, from + 1)
    }
}

/// The handle with which a process uses the network as a client.
pub fn network_client_handle(records: &[CapabilityRecord], holder: u64) -> (r: Option<u64>)
    ensures
        r == match client_from(records@, holder, 0) {
            Some(i) => records@[i].handle,
            None => None,
        },
{
    let mut i: usize = 0;
    while i < records.len()
        invariant
            0 <= i <= records@.len(),
            client_from(records@, holder, 0) == client_from(records@, holder, i as int),
        decreases records@.len() - i,
    {
        let record = records[i];
        if record.live && record.holder == holder && record.network && !record.raw_device {
            return record.handle;
        }
        i += 1;
    }
    None
}

/// Why the bridge to the network service did not take or answer a request.
#[derive(Clone, Copy, Debug, PartialEq, Eq, Structural)]
pub enum NetBridgeError {
    QueueFull,
    Unauthorized,
    InvalidRequest,
    BufferTooSmall,
    Pending,
    NotService,
}

pub open spec fn bridge_errno(error: NetBridgeError) -> LinuxErrno {
    match error {
        NetBridgeError::QueueFull => ENFILE,
        NetBridgeError::Unauthorized => EACCES,
        NetBridgeError::InvalidRequest => EINVAL,
        NetBridgeError::BufferTooSmall => EINVAL,
        NetBridgeError::Pending => EAGAIN,
        NetBridgeError::NotService => EACCES,
    }
}

pub fn bridge_err(error: NetBridgeError) -> (r: LinuxErrno)
    ensures
        r == bridge_errno(error),
{
    match error {
        NetBridgeError::QueueFull => ENFILE,
        NetBridgeError::Unauthorized => EACCES,
        NetBridgeError::InvalidRequest => EINVAL,
        NetBridgeError::BufferTooSmall => EINVAL,
        NetBridgeError::Pending => EAGAIN,
        NetBridgeError::NotService => EACCES,
    }
}

/// Why an operation on the network was not allowed.
#[derive(Clone, Copy, Debug, PartialEq, Eq, Structural)]
pub enum DenialReason {
    StaleGeneration,
    Other,
}

pub open spec fn denied_errno(reason: DenialReason) -> LinuxErrno {
    match reason {
        DenialReason::StaleGeneration => ESTALE,
        DenialReason::Other => EACCES,
    }
}

pub fn denial_errno(reason: DenialReason) -> (r: LinuxErrno)
    ensures
        r == denied_errno(reason),
{
    match reason {
        DenialReason::StaleGeneration => ESTALE,
        DenialReason::Other => EACCES,
    }
}

/// What a request needs to be allowed.
#[derive(Clone, Copy, Debug, PartialEq, Eq, Structural)]
pub enum NetworkOp {
    Connect,
    Send,
    Receive,
    Resolve,
}

pub open spec fn op_of(request: NetworkRequest) -> NetworkOp {
    match request {
        NetworkRequest::Open { .. } => NetworkOp::Connect,
        NetworkRequest::Connect { .. } => NetworkOp::Connect,
        NetworkRequest::Send { .. } => NetworkOp::Send,
        NetworkRequest::Receive { .. } => NetworkOp::Receive,
        NetworkRequest::Close { .. } => NetworkOp::Receive,
        NetworkRequest::Resolve => NetworkOp::Resolve,
    }
}

pub fn network_op_for(request: &NetworkRequest) -> (r: NetworkOp)
    ensures
        r == op_of(*request),
{
    match request {
        NetworkRequest::Open { .. } => NetworkOp::Connect,
        NetworkRequest::Connect { .. } => NetworkOp::Connect,
        NetworkRequest::Send { .. } => NetworkOp::Send,
        NetworkRequest::Receive { .. } => NetworkOp::Receive,
        NetworkRequest::Close { .. } => NetworkOp::Receive,
        NetworkRequest::Resolve => NetworkOp::Resolve,
    }
}

/// Whether a request belongs to a session.
pub open spec fn session_scoped(request: NetworkRequest) -> bool {
    request is Connect || request is Send || request is Receive || request is Close
}

/// The generation for which a request must be allowed: for one that belongs to a session that of the
/// network service that lives now, for others the caller's.
pub fn session_generation_for_broker(
    request: &NetworkRequest,
    caller_session: Option<u64>,
    live_service: Option<u32>,
) -> (r: Option<u64>)
    ensures
        r == (if session_scoped(*request) {
            match live_service {
                Some(generation) => Some(generation as u64),
                None => None::<u64>,
            }
        } else {
            caller_session
        }),
{
    let scoped: bool = match request {
        NetworkRequest::Connect { .. } => true,
        NetworkRequest::Send { .. } => true,
        NetworkRequest::Receive { .. } => true,
        NetworkRequest::Close { .. } => true,
        _ => false,
    };
    if scoped {
        match live_service {
            Some(generation) => Some(generation as u64),
            None => None,
        }
    } else {
        caller_session
    }
}

/// What is done with a request next.
#[derive(Clone, Copy, Debug, PartialEq, Eq, Structural)]
pub enum BrokerStep {
    /// It is submitted for the process generation.
    Submit { generation: u64 },
    /// It is under way already and is asked after.
    Poll { request_id: u64, generation: u64 },
}

/// The next step of a request, or why there is none.
pub open spec fn broker_step(
    inflight_request_id: Option<u64>,
    handle: Option<u64>,
    authorized: Result<(), DenialReason>,
    generation: Option<u64>,
) -> Result<BrokerStep, LinuxErrno> {
    if handle is None {
        Err(EACCES)
    } else if authorized is Err {
        Err(denied_errno(authorized->Err_0))
    } else {
        match generation {
            None => Err(EACCES),
            Some(generation) => match inflight_request_id {
                Some(request_id) => Ok(BrokerStep::Poll { request_id, generation }),
                None => Ok(BrokerStep::Submit { generation }),
            },
        }
    }
}

/// Begins a request, or takes up one that is under way. `handle` is the process's capability,
/// `authorized` whether the operation is allowed with it, `generation` that of the process.
pub fn begin_broker(
    inflight_request_id: Option<u64>,
    handle: Option<u64>,
    authorized: Result<(), DenialReason>,
    generation: Option<u64>,
) -> (r: Result<BrokerStep, LinuxErrno>)
    ensures
        r == broker_step(inflight_request_id, handle, authorized, generation),
{
    if handle.is_none() {
        return Err(EACCES);
    }
    match authorized {
        Ok(()) => {},
        Err(reason) => return Err(denial_errno(reason)),
    }
    match generation {
        None => Err(EACCES),
        Some(generation) => match inflight_request_id {
            Some(request_id) => Ok(BrokerStep::Poll { request_id, generation }),
            None => Ok(BrokerStep::Submit { generation }),
        },
    }
}

/// The noted wakes, the request under way and the result after a request was submitted.
pub open spec fn request_noted(
    entries: Seq<Option<(u64, WaitKey)>>,
    inflight: Option<u64>,
    submitted: Result<u64, NetBridgeError>,
) -> (Seq<Option<(u64, WaitKey)>>, Option<u64>, Result<u64, LinuxErrno>) {
    match submitted {
        Err(e) => (entries, inflight, Err(bridge_errno(e))),
        Ok(request_id) => (
            wake_registered(entries, request_id, request_key(request_id)),
            Some(request_id),
            Ok(request_id),
        ),
    }
}

/// Takes note of a request that was submitted, and of the key on which its caller waits.
pub fn broker_submitted(
    wakes: &mut RequestWakes,
    inflight_request_id: &mut Option<u64>,
    submitted: Result<u64, NetBridgeError>,
) -> (r: Result<u64, LinuxErrno>)
    ensures
        (final(wakes).entries@, *final(inflight_request_id), r) == request_noted(
            old(wakes).entries@,
            *old(inflight_request_id),
            submitted,
        ),
{
    match submitted {
        Err(e) => Err(bridge_err(e)),
        Ok(request_id) => {
            *inflight_request_id = Some(request_id);
            wakes.register_request_wake(request_id, linux_socket_request_wait_key(request_id));
            Ok(request_id)
        },
    }
}

/// What came of a request.
#[derive(Clone, Copy, Debug, PartialEq, Eq, Structural)]
pub enum BrokerEnd {
    Answered(NetworkResponse),
    /// The caller waits on the key, until the deadline where there is one.
    Wait { key: WaitKey, deadline: Option<Deadline> },
    Failed(LinuxErrno),
}

/// The noted wakes, the request under way and the end after a request was asked after.
pub open spec fn request_polled(
    entries: Seq<Option<(u64, WaitKey)>>,
    inflight: Option<u64>,
    request_id: u64,
    polled: Result<NetworkResponse, NetBridgeError>,
    times_out: bool,
    now_ticks: u64,
) -> (Seq<Option<(u64, WaitKey)>>, Option<u64>, BrokerEnd) {
    if polled == Err::<NetworkResponse, NetBridgeError>(NetBridgeError::Pending) {
        (
            entries,
            inflight,
            BrokerEnd::Wait {
                key: request_key(request_id),
                deadline: if times_out {
                    Some(Deadline(connect_deadline(now_ticks)))
                } else {
                    None
                },
            },
        )
    } else {
        (
            wake_cleared(entries, request_id),
            None,
            match polled {
                Ok(response) => BrokerEnd::Answered(response),
                Err(e) => BrokerEnd::Failed(bridge_errno(e)),
            },
        )
    }
}

/// What asking after a request gave. `times_out` says whether a caller waits for a limited time only;
/// `now_ticks` is the time.
pub fn broker_polled(
    wakes: &mut RequestWakes,
    inflight_request_id: &mut Option<u64>,
    request_id: u64,
    polled: Result<NetworkResponse, NetBridgeError>,
    times_out: bool,
    now_ticks: u64,
) -> (r: BrokerEnd)
    ensures
        (final(wakes).entries@, *final(inflight_request_id), r) == request_polled(
            old(wakes).entries@,
            *old(inflight_request_id),
            request_id,
            polled,
            times_out,
            now_ticks,
        ),
{
    match polled {
        Ok(response) => {
            *inflight_request_id = None;
            wakes.clear_request_wake(request_id);
            BrokerEnd::Answered(response)
        },
        Err(NetBridgeError::Pending) => {
            let deadline: Option<Deadline> = if times_out {
                let ticks: u64 = match now_ticks.checked_add(LINUX_TCP_CONNECT_TIMEOUT_TICKS) {
                    Some(ticks) => ticks,
                    None => u64::MAX,
                };
                Some(Deadline(ticks))
            } else {
                None
            };
            BrokerEnd::Wait { key: linux_socket_request_wait_key(request_id), deadline }
        },
        Err(e) => {
            *inflight_request_id = None;
            wakes.clear_request_wake(request_id);
            BrokerEnd::Failed(bridge_err(e))
        },
    }
}

/// When a caller that waits for a limited time gives up.
pub open spec fn connect_deadline(now_ticks: u64) -> u64 {
    if now_ticks + LINUX_TCP_CONNECT_TIMEOUT_TICKS > u64::MAX {
        u64::MAX
    } else {
        (now_ticks + LINUX_TCP_CONNECT_TIMEOUT_TICKS) as u64
    }
}

/// A request that is under way is never submitted a second time: whenever its caller goes on, it is
/// asked after under its own number.
pub proof fn law_restart_reuses_the_request(
    request_id: u64,
    handle: Option<u64>,
    authorized: Result<(), DenialReason>,
    generation: Option<u64>,
)
    requires
        broker_step(Some(request_id), handle, authorized, generation) is Ok,
    ensures
        broker_step(Some(request_id), handle, authorized, generation)->Ok_0 == (BrokerStep::Poll {
            request_id,
            generation: generation->0,
        }),
{
}

} // verus!
