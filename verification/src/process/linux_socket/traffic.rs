//! What holds of a socket's traffic over several calls.

use super::broker::{
    bridge_errno, broker_step, client_from, connect_deadline, denied_errno, op_of,
    request_noted, request_polled, session_scoped, BrokerEnd, BrokerStep, CapabilityRecord,
    DenialReason, NetBridgeError, NetworkOp,
};
use super::pool::{
    in_use, lemma_closed_from, readiness_of, receiving_from, request_key, restart_from,
    socket_made, socket_readiness, socket_released, LinuxSocketId, SocketModel, SocketState,
};
use super::protocol::{
    address_read, failure_errno, NetworkFailure, NetworkRequest, NetworkResponse, SockaddrIn,
    SocketKindLinux,
};
use super::syscalls::{
    connect_begun, connect_finished, socket_asked, socket_begun, socket_behind, socket_bound,
    socket_finished, SocketOpen,
};
use super::tcp::{stream_begun, stream_finished, stream_write_begun, StreamStep};
use super::udp::{
    datagram_pushed, datagram_taken, prefetch_completed, receive_armed, receive_errno,
    receive_request, send_connected, send_request, sendto_begun,
};
use super::wake::{entry_of, lemma_wake_from, request_woken, wake_from};
use crate::abi::{
    LinuxErrno, EACCES, EAFNOSUPPORT, EAGAIN, EBADF, ECONNREFUSED, ECONNRESET, EDESTADDRREQ,
    EFAULT, EINVAL, EISCONN, ENFILE, ENOTCONN, EPROTONOSUPPORT, ESTALE, ETIMEDOUT,
};
use crate::process::lifecycle::Process;
use crate::process::linux_fd::descriptors::{law_socket_fd_leads_to_the_socket, registry_wf};
use crate::process::linux_fd::open_description::SocketRef;
use crate::process::linux_fd::registry::{socket_installed, FdRegistryModel};
use crate::process::InstanceGeneration;
use crate::sched::wait::{WaitKey, WaitModel};
use crate::sched::SchedulerModel;
use vstd::prelude::*;

verus! {

/// A socket that is made is its maker's: of the asked kind, without a session, an address or anything to
/// read. No socket in use had its id, and the others stay as they are. Only where all are in use is there
/// none.
pub proof fn law_made_socket_is_blank(
    slots: Seq<SocketModel>,
    pid: u64,
    generation: u32,
    kind: SocketKindLinux,
    other: LinuxSocketId,
)
    requires
        slots.len() == 8,
        in_use(slots, other),
    ensures
        ({
            let (after, r) = socket_made(slots, pid, generation, kind);
            &&& r is Err <==> forall|i: int|
                0 <= i < 8 ==> (#[trigger] slots[i]).state != SocketState::Closed
            &&& r is Err ==> after == slots && r->Err_0 == ENFILE
            &&& r matches Ok(id) ==> {
                let s = after[id.index as int];
                &&& id.index < 8
                &&& !in_use(slots, id)
                &&& in_use(after, id)
                &&& s.kind == kind && s.owner_pid == pid && s.owner_generation == generation
                &&& s.state == SocketState::Unbound
                &&& s.session.0 == 0
                &&& s.remote is None && s.m7_dest is None
                &&& s.inflight is None && s.pending_rx_req is None && s.rx_error is None
                &&& s.queue.len() == 0 && s.stream.len() == 0 && !s.tcp_eof
                &&& in_use(after, other) && after[other.index as int] == slots[other.index as int]
            }
        }),
{
    lemma_closed_from(slots, 0);
}

/// A socket that is given up is not in use any more; its session is to be closed where it has one, and
/// the others stay as they are. An id that names none gives nothing up.
pub proof fn law_released_socket_is_gone(slots: Seq<SocketModel>, id: LinuxSocketId, other: LinuxSocketId)
    requires
        slots.len() == 8,
        other.index != id.index,
    ensures
        ({
            let (after, close) = socket_released(slots, id);
            let before = slots[id.index as int];
            &&& in_use(slots, id) ==> !in_use(after, id)
            &&& in_use(slots, id) && before.session.0 != 0 ==> close is Some && close->0.session
                == before.session && close->0.session_generation == before.session_generation
                && close->0.owner_pid == before.owner_pid
            &&& in_use(slots, id) && before.session.0 == 0 ==> close is None
            &&& !in_use(slots, id) ==> close is None && after == slots
            &&& in_use(after, other) == in_use(slots, other)
            &&& other.index < 8 ==> after[other.index as int] == slots[other.index as int]
            &&& readiness_of(after, id).readable ==> !in_use(slots, id)
        }),
{
}

/// Datagrams come out as they went in and in the order they came: a second one behind a first.
pub proof fn law_datagrams_pass_in_order(socket: SocketModel, a: Seq<u8>, b: Seq<u8>, room: usize)
    requires
        socket.queue.len() == 0,
        a.len() <= 512,
        b.len() <= 512,
        a.len() <= room,
        b.len() <= room,
    ensures
        ({
            let held = datagram_pushed(datagram_pushed(socket, a), b);
            let (one, first) = datagram_taken(held, room);
            let (two, second) = datagram_taken(one, room);
            &&& first == Some(Ok::<(Seq<u8>, nat), LinuxErrno>((a, a.len())))
            &&& second == Some(Ok::<(Seq<u8>, nat), LinuxErrno>((b, b.len())))
            &&& two.queue.len() == 0
            &&& two.rx_dropped == socket.rx_dropped
        }),
{
    let held = datagram_pushed(datagram_pushed(socket, a), b);
    assert(a.take(a.len() as int) =~= a);
    assert(b.take(b.len() as int) =~= b);
    let one = datagram_taken(held, room).0;
    assert(one.queue[0] == b);
}

/// A datagram that is longer than the reader's room loses its end, and the reader learns how long it was;
/// the next read gives the next datagram. One that comes to a full queue is lost and counted, and those
/// that wait stay.
pub proof fn law_long_and_late_datagrams(socket: SocketModel, bytes: Seq<u8>, room: usize)
    requires
        socket.queue.len() > 0,
    ensures
        ({
            let (after, taken) = datagram_taken(socket, room);
            let oldest = socket.queue[0];
            &&& taken is Some && taken->0 is Ok
            &&& (taken->0->Ok_0).1 == oldest.len()
            &&& (taken->0->Ok_0).0.len() <= room
            &&& (taken->0->Ok_0).0.len() == room || (taken->0->Ok_0).0 == oldest
            &&& forall|k: int|
                0 <= k < (taken->0->Ok_0).0.len() ==> (#[trigger] (taken->0->Ok_0).0[k]) == oldest[k]
            &&& after.queue == socket.queue.drop_first()
            &&& after.rx_error == socket.rx_error
        }),
        socket.queue.len() == 2 ==> datagram_pushed(socket, bytes).queue == socket.queue && (
        socket.rx_dropped < u32::MAX ==> datagram_pushed(socket, bytes).rx_dropped
            == socket.rx_dropped + 1),
        socket.queue.len() < 2 ==> datagram_pushed(socket, bytes).rx_dropped == socket.rx_dropped,
{
    let (after, taken) = datagram_taken(socket, room);
    let oldest = socket.queue[0];
    assert(oldest.take(oldest.len() as int) =~= oldest);
    assert(after.queue =~= socket.queue.drop_first());
}

/// What answers a receive request is what the next read gives: its bytes, or its error, once. A request
/// that is still pending changes nothing, and an answer without a request neither.
pub proof fn law_answer_reaches_the_reader(
    socket: SocketModel,
    payload: Seq<u8>,
    len: u32,
    failure: NetworkFailure,
    room: usize,
)
    requires
        socket.queue.len() == 0,
        socket.rx_error is None,
        socket.pending_rx_req is Some,
        payload.len() == 4096,
        len <= 512,
        len <= room,
    ensures
        ({
            let (got, changed) = prefetch_completed(
                socket,
                Ok(NetworkResponse::Receive { payload_len: len }),
                payload,
            );
            let read = datagram_taken(got, room).1;
            let (bad, _) = prefetch_completed(
                socket,
                Ok(NetworkResponse::Error { failure }),
                payload,
            );
            let (told, error) = datagram_taken(bad, room);
            &&& changed
            &&& got.pending_rx_req is None
            &&& read == Some(
                Ok::<(Seq<u8>, nat), LinuxErrno>((payload.take(len as int), len as nat)),
            )
            &&& error == Some(
                Err::<(Seq<u8>, nat), LinuxErrno>(
                    if failure == NetworkFailure::Timeout {
                        EAGAIN
                    } else {
                        super::protocol::failure_errno(failure)
                    },
                ),
            )
            &&& datagram_taken(told, room).1 is None
            &&& bad.pending_rx_req is None
        }),
        prefetch_completed(socket, Err(NetBridgeError::Pending), payload) == (socket, false),
{
    let bytes = payload.take(len as int);
    assert(bytes.take(bytes.len() as int) =~= bytes);
    let got = prefetch_completed(
        socket,
        Ok(NetworkResponse::Receive { payload_len: len }),
        payload,
    ).0;
    assert(got.queue[0] == bytes);
}

/// One receive request is kept under way while there is room: it is asked for once the service knows
/// where the socket sends, not again until it is answered, and again then.
pub proof fn law_receive_is_kept_under_way(
    socket: SocketModel,
    request_id: u64,
    len: u32,
    payload: Seq<u8>,
)
    requires
        receive_request(socket) is Some,
        payload.len() == 4096,
    ensures
        receive_request(socket)->0 == (NetworkRequest::Receive {
            session: socket.session,
            max_len: 512,
        }),
        socket.m7_dest is Some,
        ({
            let (armed, r) = receive_armed(socket, Ok(request_id));
            let after = prefetch_completed(
                armed,
                Ok(NetworkResponse::Receive { payload_len: len }),
                payload,
            ).0;
            &&& r is Ok
            &&& armed.pending_rx_req == Some(request_id)
            &&& receive_request(armed) is None
            &&& after.queue.len() == socket.queue.len() + 1
            &&& receive_request(after) is Some <==> socket.queue.len() == 0
        }),
{
}

/// A read of a stream takes the first bytes that wait and leaves the others; two reads give what one of
/// both sizes would. It reaches the end only when all bytes were read, and stays there.
pub proof fn law_stream_is_read_in_order(socket: SocketModel, a: u64, b: u64, nonblock: bool)
    requires
        a > 0,
        b > 0,
        a + b < 0x1_0000,
        socket.stream.len() > 0,
    ensures
        ({
            let (one, first) = stream_begun(socket, a, nonblock);
            let (two, second) = stream_begun(one, b, nonblock);
            &&& first matches StreamStep::Bytes(x) && x.len() > 0 && x.len() <= a && x + one.stream
                == socket.stream
            &&& first->Bytes_0.len() == a || one.stream.len() == 0
            &&& one.stream.len() > 0 ==> (second matches StreamStep::Bytes(y) && first->Bytes_0 + y
                + two.stream == socket.stream)
            &&& one.stream.len() == 0 && !socket.tcp_eof && nonblock ==> second
                == StreamStep::Failed(EAGAIN)
            &&& one.stream.len() == 0 && socket.tcp_eof ==> second == StreamStep::Bytes(
                Seq::<u8>::empty(),
            ) && two == one
            &&& one.tcp_eof == socket.tcp_eof && one.session == socket.session
        }),
{
    let (one, first) = stream_begun(socket, a, nonblock);
    let (two, second) = stream_begun(one, b, nonblock);
    assert(first->Bytes_0 + one.stream =~= socket.stream);
    if one.stream.len() > 0 {
        assert(second->Bytes_0 + two.stream =~= one.stream);
        assert(first->Bytes_0 + second->Bytes_0 + two.stream =~= socket.stream);
    }
}

/// A read for which the service is asked is for the socket's own session and for no more bytes than the
/// caller wants or a message carries. It gives the first bytes of the answer; an answer without bytes is
/// the end, which later reads find without asking again.
pub proof fn law_stream_answer_is_handed_on(
    socket: SocketModel,
    asked: u64,
    len: u32,
    payload: Seq<u8>,
    nonblock: bool,
)
    requires
        socket.stream.len() == 0,
        !socket.tcp_eof,
        len <= payload.len(),
        asked > 0,
    ensures
        stream_begun(socket, asked, false).1 matches StreamStep::Ask(
            NetworkRequest::Receive { session, max_len },
        ) && session == socket.session && max_len <= 4096 && max_len <= asked && (max_len == 4096
            || max_len == asked),
        ({
            let (after, r) = stream_finished(
                socket,
                asked,
                NetworkResponse::Receive { payload_len: len },
                payload,
            );
            &&& r is Ok
            &&& r->Ok_0.len() == if len < asked {
                len as int
            } else {
                asked as int
            }
            &&& forall|k: int|
                0 <= k < r->Ok_0.len() ==> (#[trigger] r->Ok_0[k]) == payload[k]
            &&& after.tcp_eof <==> len == 0
            &&& len == 0 ==> stream_begun(after, asked, nonblock).1 == StreamStep::Bytes(
                Seq::<u8>::empty(),
            )
            &&& len == 0 ==> socket_readiness(after).readable && socket_readiness(after).hangup
            &&& stream_finished(socket, asked, NetworkResponse::Other, payload) == (
                socket,
                Err::<Seq<u8>, LinuxErrno>(EINVAL),
            )
        }),
{
}

/// A stream is readable exactly where a read that does not wait gives something, if only the end; it is
/// writable exactly where a write is not refused.
pub proof fn law_readiness_of_a_stream(socket: SocketModel, asked: u64, len: u32)
    requires
        socket.kind == SocketKindLinux::Tcp,
        socket.queue.len() == 0,
    ensures
        socket_readiness(socket).readable <==> stream_begun(socket, asked, true).1 is Bytes,
        socket_readiness(socket).writable <==> stream_write_begun(socket, len) is Ok,
        stream_write_begun(socket, len) is Err ==> stream_write_begun(socket, len)->Err_0
            == ENOTCONN,
        stream_write_begun(socket, len) matches Ok(request) ==> request == (NetworkRequest::Send {
            session: socket.session,
            payload_len: len,
        }),
{
}

/// A datagram socket is readable where a datagram waits, and can always be written.
pub proof fn law_readiness_of_datagrams(socket: SocketModel, room: usize)
    requires
        socket.kind == SocketKindLinux::Udp,
        socket.stream.len() == 0,
        !socket.tcp_eof,
    ensures
        socket_readiness(socket).readable <==> (datagram_taken(socket, room).1 matches Some(r)
            && r is Ok),
        socket_readiness(socket).writable,
{
}

/// A `connect` asks for the socket's own session, and connects it where the service says so: it can then
/// be written and not be connected again. Where the service does not, it stays unconnected.
pub proof fn law_connect_connects(
    slots: Seq<SocketModel>,
    id: LinuxSocketId,
    dest: SockaddrIn,
    len: u32,
    j: int,
)
    requires
        in_use(slots, id),
        slots[id.index as int].state != SocketState::Connected,
        0 <= j < slots.len(),
        j != id.index,
    ensures
        ({
            let i = id.index as int;
            let (begun, asked) = connect_begun(slots, id, dest);
            let (up, r) = connect_finished(begun, id, NetworkResponse::Connect);
            let (refused, e) = connect_finished(
                begun,
                id,
                NetworkResponse::Error { failure: NetworkFailure::Unreachable },
            );
            let (late, t) = connect_finished(
                begun,
                id,
                NetworkResponse::Error { failure: NetworkFailure::Timeout },
            );
            &&& asked == Ok::<NetworkRequest, LinuxErrno>(
                NetworkRequest::Connect { session: slots[i].session, dest },
            )
            &&& in_use(begun, id) && in_use(up, id)
            &&& begun[i].remote == Some(dest) && up[i].remote == Some(dest)
            &&& r == Ok::<u64, LinuxErrno>(0)
            &&& stream_write_begun(up[i], len) is Ok && stream_write_begun(begun[i], len) is Err
            &&& connect_begun(up, id, dest).1 == Err::<NetworkRequest, LinuxErrno>(EISCONN)
            &&& e == Err::<u64, LinuxErrno>(ECONNREFUSED) && t == Err::<u64, LinuxErrno>(ETIMEDOUT)
            &&& refused == begun && late == begun
            &&& up[j] == slots[j] && begun[j] == slots[j]
            &&& up[i].queue == slots[i].queue && up[i].stream == slots[i].stream
        }),
{
}

/// A call on an id that names no socket in use is refused and changes nothing.
pub proof fn law_stale_socket_is_refused(
    slots: Seq<SocketModel>,
    id: LinuxSocketId,
    dest: SockaddrIn,
    response: NetworkResponse,
)
    requires
        !in_use(slots, id),
    ensures
        connect_begun(slots, id, dest) == (slots, Err::<NetworkRequest, LinuxErrno>(EBADF)),
        connect_finished(slots, id, response) == (slots, Err::<u64, LinuxErrno>(EBADF)),
        socket_bound(slots, id, dest) == (slots, Err::<u64, LinuxErrno>(EBADF)),
{
}

/// Binding gives a datagram socket its address and nothing else; a stream cannot be bound.
pub proof fn law_bind_is_for_datagrams(
    slots: Seq<SocketModel>,
    id: LinuxSocketId,
    local: SockaddrIn,
    j: int,
)
    requires
        in_use(slots, id),
        0 <= j < slots.len(),
        j != id.index,
    ensures
        ({
            let i = id.index as int;
            let (after, r) = socket_bound(slots, id, local);
            &&& slots[i].kind == SocketKindLinux::Udp ==> r == Ok::<u64, LinuxErrno>(0)
                && after[i].local == local && after[i].state == SocketState::Bound
            &&& slots[i].kind == SocketKindLinux::Tcp ==> r == Err::<u64, LinuxErrno>(EINVAL)
                && after == slots
            &&& after[j] == slots[j]
            &&& after[i].remote == slots[i].remote && after[i].queue == slots[i].queue
            &&& after[i].session == slots[i].session && after[i].owner_pid == slots[i].owner_pid
        }),
{
}

/// A `sendto` goes to the address it is given, which later ones without an address use; one that never had
/// an address is refused. The service is first told the address, then gets the datagram, and is told again
/// only when the address changes.
pub proof fn law_sendto_remembers_its_address(
    socket: SocketModel,
    dest: SockaddrIn,
    other: SockaddrIn,
    len: u32,
)
    requires
        dest != other,
    ensures
        ({
            let (begun, to) = sendto_begun(socket, Some(Ok(dest)));
            let (known, told) = send_connected(begun, dest, NetworkResponse::Connect);
            let (again, same) = sendto_begun(known, None);
            let (moved, elsewhere) = sendto_begun(known, Some(Ok(other)));
            &&& to == Ok::<SockaddrIn, LinuxErrno>(dest)
            &&& begun.state != SocketState::Unbound
            &&& begun.m7_dest != Some(dest) ==> send_request(begun, len) == Ok::<
                NetworkRequest,
                LinuxErrno,
            >(NetworkRequest::Connect { session: socket.session, dest })
            &&& told is Ok
            &&& send_request(known, len) == Ok::<NetworkRequest, LinuxErrno>(
                NetworkRequest::Send { session: socket.session, payload_len: len },
            )
            &&& same == Ok::<SockaddrIn, LinuxErrno>(dest)
            &&& send_request(again, len) == send_request(known, len)
            &&& elsewhere == Ok::<SockaddrIn, LinuxErrno>(other)
            &&& send_request(moved, len) == Ok::<NetworkRequest, LinuxErrno>(
                NetworkRequest::Connect { session: socket.session, dest: other },
            )
        }),
        socket.remote is None ==> sendto_begun(socket, None) == (
            socket,
            Err::<SockaddrIn, LinuxErrno>(EDESTADDRREQ),
        ) && send_request(socket, len) == Err::<NetworkRequest, LinuxErrno>(EDESTADDRREQ),
{
}

/// A `socket` call asks for a stream or for datagrams whatever its flags; reads of its socket do not wait
/// exactly where the flag says so. Raw sockets, and other families, are refused.
pub proof fn law_socket_flags_do_not_change_the_kind(flags: u32, domain: u16)
    requires
        flags & !(0o2000000u32 | 0o4000u32) == 0,
    ensures
        socket_asked(2, 1u32 | flags) == Ok::<(SocketKindLinux, bool), LinuxErrno>(
            (SocketKindLinux::Tcp, flags & 0o4000u32 != 0),
        ),
        socket_asked(2, 2u32 | flags) == Ok::<(SocketKindLinux, bool), LinuxErrno>(
            (SocketKindLinux::Udp, flags & 0o4000u32 != 0),
        ),
        socket_asked(2, 3u32 | flags) == Err::<(SocketKindLinux, bool), LinuxErrno>(
            EPROTONOSUPPORT,
        ),
        socket_asked(10, 1u32 | flags) == Err::<(SocketKindLinux, bool), LinuxErrno>(EAFNOSUPPORT),
        domain != 2 && domain != 10 ==> socket_asked(domain, 1u32 | flags) == Err::<
            (SocketKindLinux, bool),
            LinuxErrno,
        >(EINVAL),
{
    assert(flags & !(0o2000000u32 | 0o4000u32) == 0 ==> (1u32 | flags) & !(0o2000000u32 | 0o4000u32)
        == 1 && (2u32 | flags) & !(0o2000000u32 | 0o4000u32) == 2 && (3u32 | flags) & !(
    0o2000000u32 | 0o4000u32) == 3 && (1u32 | flags) & 0o4000u32 == flags & 0o4000u32 && (2u32
        | flags) & 0o4000u32 == flags & 0o4000u32) by (bit_vector);
}

/// A `socket` call that is run again while its session is being opened goes on with the socket of its
/// first run, and makes no other.
pub proof fn law_restarted_socket_call_makes_no_other(
    slots: Seq<SocketModel>,
    pid: u64,
    generation: u32,
    domain: u16,
    sock_type: u32,
    handle: Option<u64>,
    request_id: u64,
)
    requires
        slots.len() == 8,
        socket_begun(slots, pid, generation, domain, sock_type, handle).1 is Ok,
        restart_from(
            slots,
            pid,
            generation,
            socket_asked(domain, sock_type)->Ok_0.0,
            SocketState::Unbound,
            0,
        ) is None,
    ensures
        ({
            let (made, r) = socket_begun(slots, pid, generation, domain, sock_type, handle);
            let i = r->Ok_0.id.index as int;
            let waiting = made.update(
                i,
                SocketModel { inflight: Some(request_id), ..made[i] },
            );
            &&& handle is Some
            &&& in_use(made, r->Ok_0.id)
            &&& made[i].kind == r->Ok_0.kind && made[i].owner_pid == pid
            &&& socket_begun(waiting, pid, generation, domain, sock_type, handle) == (waiting, r)
        }),
{
    let (made, r) = socket_begun(slots, pid, generation, domain, sock_type, handle);
    let kind = r->Ok_0.kind;
    let i = r->Ok_0.id.index as int;
    lemma_closed_from(slots, 0);
    lemma_no_restart(slots, pid, generation, kind, 0);
    let waiting = made.update(i, SocketModel { inflight: Some(request_id), ..made[i] });
    assert forall|k: int| 0 <= k < i implies !super::pool::restartable(
        #[trigger] waiting[k],
        pid,
        generation,
        kind,
        SocketState::Unbound,
    ) by {
        assert(waiting[k] == slots[k]);
    }
    lemma_restart_at(waiting, pid, generation, kind, i, 0);
}

proof fn lemma_no_restart(
    slots: Seq<SocketModel>,
    pid: u64,
    generation: u32,
    kind: SocketKindLinux,
    from: int,
)
    requires
        0 <= from <= slots.len(),
        restart_from(slots, pid, generation, kind, SocketState::Unbound, from) is None,
    ensures
        forall|k: int|
            from <= k < slots.len() ==> !super::pool::restartable(
                #[trigger] slots[k],
                pid,
                generation,
                kind,
                SocketState::Unbound,
            ),
    decreases slots.len() - from,
{
    if from < slots.len() {
        lemma_no_restart(slots, pid, generation, kind, from + 1);
    }
}

proof fn lemma_restart_at(
    slots: Seq<SocketModel>,
    pid: u64,
    generation: u32,
    kind: SocketKindLinux,
    i: int,
    from: int,
)
    requires
        0 <= from <= i < slots.len(),
        forall|k: int|
            from <= k < i ==> !super::pool::restartable(
                #[trigger] slots[k],
                pid,
                generation,
                kind,
                SocketState::Unbound,
            ),
        super::pool::restartable(slots[i], pid, generation, kind, SocketState::Unbound),
    ensures
        restart_from(slots, pid, generation, kind, SocketState::Unbound, from) == Some(i),
    decreases i - from,
{
    if from < i {
        lemma_restart_at(slots, pid, generation, kind, i, from + 1);
    }
}

/// A request is let through only with a capability, a permission and a live process; one that was refused
/// for its generation is told apart.
pub proof fn law_requests_need_permission(
    inflight: Option<u64>,
    handle: Option<u64>,
    authorized: Result<(), DenialReason>,
    generation: Option<u64>,
)
    ensures
        ({
            let r = broker_step(inflight, handle, authorized, generation);
            &&& r is Ok <==> handle is Some && authorized is Ok && generation is Some
            &&& handle is None ==> r == Err::<BrokerStep, LinuxErrno>(EACCES)
            &&& handle is Some && authorized == Err::<(), DenialReason>(
                DenialReason::StaleGeneration,
            ) ==> r == Err::<BrokerStep, LinuxErrno>(ESTALE)
            &&& r is Ok && inflight is None ==> r->Ok_0 == (BrokerStep::Submit {
                generation: generation->0,
            })
        }),
{
}

/// A request that was submitted is under way, and its caller is found by its number with the key on which
/// it waits. While it is pending the caller waits on that key, for a while where it is to give up: five
/// seconds of ticks, or for ever near the end of time. When it was answered nothing of it is left.
pub proof fn law_request_is_waited_for(
    entries: Seq<Option<(u64, WaitKey)>>,
    inflight: Option<u64>,
    request_id: u64,
    response: NetworkResponse,
    times_out: bool,
    now: u64,
    j: int,
)
    requires
        wake_from(entries, request_id, 0) is Some || super::wake::unused_wake_from(
            entries,
            0,
        ) is Some,
        0 <= j < entries.len(),
    ensures
        ({
            let (noted, under_way, r) = request_noted(entries, inflight, Ok(request_id));
            let i = wake_from(noted, request_id, 0);
            let (kept, still, wait) = request_polled(
                noted,
                under_way,
                request_id,
                Err(NetBridgeError::Pending),
                times_out,
                now,
            );
            let (left, none, end) = request_polled(
                kept,
                still,
                request_id,
                Ok(response),
                times_out,
                now,
            );
            &&& r == Ok::<u64, LinuxErrno>(request_id)
            &&& under_way == Some(request_id)
            &&& i is Some && noted[i->0] == Some((request_id, request_key(request_id)))
            &&& kept == noted && still == under_way
            &&& wait matches BrokerEnd::Wait { key, deadline } && key == request_key(request_id) && (
            deadline is Some <==> times_out)
            &&& end == BrokerEnd::Answered(response)
            &&& none is None
            &&& wake_from(left, request_id, 0) is None
            &&& left.len() == noted.len()
            &&& !entry_of(noted[j], request_id) ==> left[j] == noted[j]
        }),
        now + 3750 <= u64::MAX ==> connect_deadline(now) == now + 3750,
        connect_deadline(now) >= now,
{
    let (noted, under_way, r) = request_noted(entries, inflight, Ok(request_id));
    super::wake::law_noted_request_is_found(entries, request_id, request_key(request_id));
    let left = super::wake::wake_cleared(noted, request_id);
    lemma_wake_from(entries, request_id, 0);
    super::wake::lemma_unused_wake(entries, 0);
    assert(noted.len() == entries.len());
    lemma_wake_from(left, request_id, 0);
    if let Some(k) = wake_from(left, request_id, 0) {
        assert(entry_of(left[k], request_id));
    }
}

/// A request that could not be submitted is not under way, and an answer that failed ends it.
pub proof fn law_failed_request_is_dropped(
    entries: Seq<Option<(u64, WaitKey)>>,
    inflight: Option<u64>,
    request_id: u64,
    error: NetBridgeError,
    times_out: bool,
    now: u64,
)
    ensures
        request_noted(entries, inflight, Err(error)) == (
            entries,
            inflight,
            Err::<u64, LinuxErrno>(bridge_errno(error)),
        ),
        error != NetBridgeError::Pending ==> {
            let (left, none, end) = request_polled(
                entries,
                inflight,
                request_id,
                Err(error),
                times_out,
                now,
            );
            end == BrokerEnd::Failed(bridge_errno(error)) && none is None
        },
        bridge_errno(NetBridgeError::Unauthorized) == EACCES,
        bridge_errno(NetBridgeError::QueueFull) == ENFILE,
{
}

/// The answer to a request for which nobody waits wakes nobody.
pub proof fn law_unawaited_answer_wakes_nobody(
    entries: Seq<Option<(u64, WaitKey)>>,
    w: WaitModel,
    m: SchedulerModel,
    processes: Seq<Process>,
    request_id: u64,
    from: int,
)
    requires
        0 <= from <= entries.len(),
        wake_from(entries, request_id, from) is None,
    ensures
        request_woken(entries, w, m, processes, request_id, 0, from) == (w, m, 0int),
    decreases entries.len() - from,
{
    if from < entries.len() {
        law_unawaited_answer_wakes_nobody(entries, w, m, processes, request_id, from + 1);
    }
}

/// The fd that a `socket` call gives leads to the socket that was made for it, whose session is the one
/// that the network service opened. Any other answer gives no fd and changes nothing.
pub proof fn law_socket_call_gives_its_socket(
    slots: Seq<SocketModel>,
    fds: FdRegistryModel,
    pid: u64,
    generation: InstanceGeneration,
    opened: SocketOpen,
    response: NetworkResponse,
    j: int,
)
    requires
        registry_wf(fds),
        0 <= j < slots.len(),
    ensures
        ({
            let (after, fds_after, r) = socket_finished(
                slots,
                fds,
                pid,
                generation,
                opened,
                response,
            );
            &&& r is Ok ==> {
                &&& in_use(slots, opened.id)
                &&& response is Open
                &&& socket_behind(fds_after, pid, generation, r->Ok_0) == Ok::<
                    LinuxSocketId,
                    LinuxErrno,
                >(opened.id)
                &&& after[opened.id.index as int].session == response->Open_session
                &&& after[opened.id.index as int].state == SocketState::Unbound
                &&& after[opened.id.index as int].kind == slots[opened.id.index as int].kind
            }
            &&& j != opened.id.index ==> after[j] == slots[j]
            &&& !(response is Open) ==> r is Err && after == slots && fds_after == fds
        }),
{
    if in_use(slots, opened.id) && response is Open {
        let socket = SocketRef { index: opened.id.index, generation: opened.id.generation };
        if socket_installed(fds, pid, generation, socket, opened.nonblock).1 is Ok {
            law_socket_fd_leads_to_the_socket(fds, pid, generation, socket, opened.nonblock);
        }
    }
}

/// A request needs the operation that it is: sending to send, resolving to resolve, opening and
/// connecting to connect, receiving and closing to receive. All but opening and resolving belong to a
/// session.
pub proof fn law_requests_need_their_operation(request: NetworkRequest)
    ensures
        op_of(request) == NetworkOp::Send <==> request is Send,
        op_of(request) == NetworkOp::Resolve <==> request is Resolve,
        op_of(request) == NetworkOp::Connect <==> request is Open || request is Connect,
        op_of(request) == NetworkOp::Receive <==> request is Receive || request is Close,
        session_scoped(request) <==> !(request is Open) && !(request is Resolve),
{
}

/// The capability with which a process uses the network is live, its own, one for the network and not one
/// for the device; there is none only where no capability is like that.
pub proof fn law_client_capability_is_its_own(
    records: Seq<CapabilityRecord>,
    holder: u64,
    from: int,
    j: int,
)
    requires
        0 <= from <= records.len(),
    ensures
        client_from(records, holder, from) matches Some(i) ==> {
            &&& from <= i < records.len()
            &&& records[i].live && records[i].holder == holder
            &&& records[i].network && !records[i].raw_device
        },
        from <= j < records.len() && records[j].live && records[j].holder == holder
            && records[j].network && !records[j].raw_device ==> (client_from(records, holder, from) is Some && client_from(
            records,
            holder,
            from,
        )->0 <= j),
    decreases records.len() - from,
{
    if from < records.len() {
        law_client_capability_is_its_own(records, holder, from + 1, j);
    }
}

/// The answer to a receive request reaches a socket that waits for it, where there is one.
pub proof fn law_answer_reaches_its_receiver(
    slots: Seq<SocketModel>,
    request_id: u64,
    from: int,
    j: int,
)
    requires
        0 <= from <= slots.len(),
    ensures
        receiving_from(slots, request_id, from) matches Some(i) ==> {
            &&& from <= i < slots.len()
            &&& slots[i].pending_rx_req == Some(request_id)
            &&& slots[i].kind == SocketKindLinux::Udp
            &&& slots[i].state != SocketState::Closed
        },
        from <= j < slots.len() && slots[j].pending_rx_req == Some(request_id) && slots[j].kind
            == SocketKindLinux::Udp && slots[j].state != SocketState::Closed ==> receiving_from(
            slots,
            request_id,
            from,
        ) is Some,
    decreases slots.len() - from,
{
    if from < slots.len() {
        law_answer_reaches_its_receiver(slots, request_id, from + 1, j);
    }
}

/// A failed receive that ran out of time is to be tried again, since a read has no limit; elsewhere running
/// out of time is an error of its own. A stale capability is told apart from one that is not allowed.
pub proof fn law_failures_are_told_apart(failure: NetworkFailure, reason: DenialReason)
    ensures
        receive_errno(failure) == EAGAIN <==> failure == NetworkFailure::Timeout,
        failure_errno(failure) == ETIMEDOUT <==> failure == NetworkFailure::Timeout,
        failure != NetworkFailure::Timeout ==> receive_errno(failure) == failure_errno(failure),
        failure_errno(failure) == ECONNREFUSED <==> failure == NetworkFailure::Unreachable,
        failure_errno(failure) == ECONNRESET <==> failure == NetworkFailure::Reset,
        denied_errno(reason) == ESTALE <==> reason is StaleGeneration,
        denied_errno(reason) == EACCES <==> reason is Other,
{
}

/// An address is read only whole: where its length is not that of an address it is refused before memory is
/// looked at.
pub proof fn law_addresses_are_read_whole(
    socklen: u32,
    readable: bool,
    decoded: Result<SockaddrIn, LinuxErrno>,
)
    ensures
        ({
            let r = address_read(socklen, readable, decoded);
            &&& r is Ok ==> socklen == 16 && readable && r == decoded
            &&& socklen == 16 && readable ==> r == decoded
            &&& socklen != 16 ==> r == Err::<SockaddrIn, LinuxErrno>(EINVAL)
            &&& socklen == 16 && !readable ==> r == Err::<SockaddrIn, LinuxErrno>(EFAULT)
        }),
{
}

/// A socket hangs up exactly where its peer has ended the stream, and reports no error of its own; an id that
/// names no socket is ready for nothing.
pub proof fn law_sockets_report_no_error(slots: Seq<SocketModel>, id: LinuxSocketId, socket: SocketModel)
    ensures
        !socket_readiness(socket).error,
        socket_readiness(socket).hangup <==> socket.tcp_eof,
        ({
            let r = readiness_of(slots, id);
            &&& !in_use(slots, id) ==> !r.readable && !r.writable && !r.hangup
            &&& !r.error
        }),
{
}

} // verus!
