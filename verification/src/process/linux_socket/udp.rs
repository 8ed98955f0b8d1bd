//! Datagram sockets.
//!
//! Datagrams are fetched ahead: once the network service knows where a socket sends, one receive request
//! is kept under way while the socket's queue has room.

use super::broker::{bridge_err, bridge_errno, NetBridgeError};
use super::pool::{
    datagram_bytes, ring_place, LinuxSocket, RxDatagram, SocketModel, SocketState,
    LINUX_UDP_MAX_DATAGRAM, LINUX_UDP_RX_DEPTH, NETWORK_MAX_PAYLOAD_BYTES,
};
use super::protocol::{
    failure_errno, map_network_error, NetworkFailure, NetworkRequest, NetworkResponse, SockaddrIn,
};
use crate::abi::{
    LinuxErrno, EAGAIN, EDESTADDRREQ, EFAULT, EINVAL, EMSGSIZE, MSG_DONTWAIT, MSG_NOSIGNAL,
    MSG_TRUNC, SOCKADDR_IN_LEN,
};
use vstd::prelude::*;

verus! {

/// Parts into which one message can be scattered.
pub const RECVMSG_MAX_IOV: usize = 8;

/// Bytes of a `struct msghdr`, and of one entry of its vector.
pub const MSGHDR_SIZE: u64 = 56;

pub const IOVEC_SIZE: u64 = 16;

/// A datagram as a socket keeps it: no more than its largest size.
pub open spec fn kept_datagram(bytes: Seq<u8>) -> Seq<u8> {
    if bytes.len() > LINUX_UDP_MAX_DATAGRAM {
        bytes.take(LINUX_UDP_MAX_DATAGRAM as int)
    } else {
        bytes
    }
}

/// A socket to which a datagram came. Where the queue is full it is dropped, and counted.
pub open spec fn datagram_pushed(socket: SocketModel, bytes: Seq<u8>) -> SocketModel {
    if socket.queue.len() >= LINUX_UDP_RX_DEPTH {
        SocketModel {
            rx_dropped: if socket.rx_dropped == u32::MAX {
                u32::MAX
            } else {
                (socket.rx_dropped + 1) as u32
            },
            ..socket
        }
    } else {
        SocketModel { queue: socket.queue.push(kept_datagram(bytes)), ..socket }
    }
}

pub fn push_rx_datagram(socket: &mut LinuxSocket, bytes: &[u8])
    requires
        old(socket).wf(),
    ensures
        final(socket).wf(),
        final(socket).model() == datagram_pushed(old(socket).model(), bytes@),
{
    let ghost before = *socket;
    if socket.rx_count as usize >= LINUX_UDP_RX_DEPTH {
        if socket.rx_dropped < u32::MAX {
            socket.rx_dropped = socket.rx_dropped + 1;
        }
        assert(socket.model().queue =~= before.model().queue);
        return;
    }
    let index: usize = (socket.rx_head as usize + socket.rx_count as usize) % LINUX_UDP_RX_DEPTH;
    let n: usize = if bytes.len() < LINUX_UDP_MAX_DATAGRAM {
        bytes.len()
    } else {
        LINUX_UDP_MAX_DATAGRAM
    };
    let mut held: [u8; LINUX_UDP_MAX_DATAGRAM] = [0; LINUX_UDP_MAX_DATAGRAM];
    let mut i: usize = 0;
    while i < n
        invariant
            0 <= i <= n <= LINUX_UDP_MAX_DATAGRAM,
            n <= bytes@.len(),
            forall|k: int| 0 <= k < i ==> #[trigger] held@[k] == bytes@[k],
        decreases n - i,
    {
        held[i] = bytes[i];
        i += 1;
    }
    let datagram = RxDatagram { len: n as u16, bytes: held };
    assert(datagram_bytes(datagram) =~= kept_datagram(bytes@));
    socket.rx_queue[index] = Some(datagram);
    socket.rx_count = socket.rx_count + 1;
    assert(ring_place(before.rx_head as int, before.rx_count as int) == index);
    assert forall|j: int| 0 <= j < before.rx_count implies ring_place(before.rx_head as int, j)
        != index by {}
    assert(socket.model().queue =~= before.model().queue.push(kept_datagram(bytes@)));
}

/// The error number of a failed receive. A read without a limit never times out.
pub open spec fn receive_errno(failure: NetworkFailure) -> LinuxErrno {
    if failure == NetworkFailure::Timeout {
        EAGAIN
    } else {
        failure_errno(failure)
    }
}

pub fn map_udp_receive_error(failure: NetworkFailure) -> (r: LinuxErrno)
    ensures
        r == receive_errno(failure),
{
    match failure {
        NetworkFailure::Timeout => EAGAIN,
        _ => map_network_error(failure),
    }
}

/// Whether a receive request is to be put under way for a socket: the network service knows where it
/// sends, none is under way, no error waits, and the queue has room.
pub open spec fn receive_wanted(socket: SocketModel) -> bool {
    socket.state != SocketState::Closed && socket.m7_dest is Some && socket.pending_rx_req is None
        && socket.rx_error is None && socket.queue.len() < LINUX_UDP_RX_DEPTH
}

/// The receive request that is put under way, if one is.
pub open spec fn receive_request(socket: SocketModel) -> Option<NetworkRequest> {
    if receive_wanted(socket) {
        Some(
            NetworkRequest::Receive {
                session: socket.session,
                max_len: LINUX_UDP_MAX_DATAGRAM as u32,
            },
        )
    } else {
        None
    }
}

pub fn receive_to_arm(socket: &LinuxSocket) -> (r: Option<NetworkRequest>)
    ensures
        r == receive_request(socket.model()),
{
    if socket.state == SocketState::Closed || socket.m7_dest.is_none()
        || socket.pending_rx_req.is_some() || socket.rx_error.is_some()
        || socket.rx_count as usize >= LINUX_UDP_RX_DEPTH {
        return None;
    }
    Some(
        NetworkRequest::Receive {
            session: socket.session,
            max_len: LINUX_UDP_MAX_DATAGRAM as u32,
        },
    )
}

/// A socket whose receive request was submitted, or could not be.
pub open spec fn receive_armed(socket: SocketModel, submitted: Result<u64, NetBridgeError>) -> (
    SocketModel,
    Result<(), LinuxErrno>,
) {
    match submitted {
        Ok(request_id) => (SocketModel { pending_rx_req: Some(request_id), ..socket }, Ok(())),
        Err(e) => (socket, Err(bridge_errno(e))),
    }
}

/// Takes note of a receive request that was submitted.
pub fn arm_receive(socket: &mut LinuxSocket, submitted: Result<u64, NetBridgeError>) -> (r: Result<
    (),
    LinuxErrno,
>)
    requires
        old(socket).wf(),
    ensures
        final(socket).wf(),
        (final(socket).model(), r) == receive_armed(old(socket).model(), submitted),
{
    let ghost before = socket.model();
    match submitted {
        Ok(request_id) => {
            socket.pending_rx_req = Some(request_id);
            assert(socket.model().queue =~= before.queue);
            Ok(())
        },
        Err(e) => Err(bridge_err(e)),
    }
}

/// A socket after its receive request was asked after, and whether its readiness may have changed.
pub open spec fn prefetch_completed(
    socket: SocketModel,
    polled: Result<NetworkResponse, NetBridgeError>,
    payload: Seq<u8>,
) -> (SocketModel, bool) {
    if socket.pending_rx_req is None || polled == Err::<NetworkResponse, NetBridgeError>(
        NetBridgeError::Pending,
    ) {
        (socket, false)
    } else {
        let done = SocketModel { pending_rx_req: None, ..socket };
        (
            match polled {
                Ok(NetworkResponse::Receive { payload_len }) => datagram_pushed(
                    done,
                    payload.take(
                        if payload_len < NETWORK_MAX_PAYLOAD_BYTES {
                            payload_len as int
                        } else {
                            NETWORK_MAX_PAYLOAD_BYTES as int
                        },
                    ),
                ),
                Ok(NetworkResponse::Error { failure }) => SocketModel {
                    rx_error: Some(receive_errno(failure)),
                    ..done
                },
                Ok(_) => SocketModel { rx_error: Some(EINVAL), ..done },
                Err(e) => SocketModel { rx_error: Some(bridge_errno(e)), ..done },
            },
            true,
        )
    }
}

/// Moves the answer to a receive request into the queue, or notes its error. `payload` are the bytes
/// that came with it. Another request is then armed, if one is wanted.
pub fn complete_prefetch(
    socket: &mut LinuxSocket,
    polled: Result<NetworkResponse, NetBridgeError>,
    payload: &[u8; NETWORK_MAX_PAYLOAD_BYTES],
) -> (r: bool)
    requires
        old(socket).wf(),
    ensures
        final(socket).wf(),
        (final(socket).model(), r) == prefetch_completed(old(socket).model(), polled, payload@),
{
    let ghost before = socket.model();
    if socket.pending_rx_req.is_none() {
        return false;
    }
    match polled {
        Err(NetBridgeError::Pending) => {
            return false;
        },
        _ => {},
    }
    socket.pending_rx_req = None;
    assert(socket.model().queue =~= before.queue);
    match polled {
        Ok(NetworkResponse::Receive { payload_len }) => {
            let n: usize = if (payload_len as u64) < NETWORK_MAX_PAYLOAD_BYTES as u64 {
                payload_len as usize
            } else {
                NETWORK_MAX_PAYLOAD_BYTES
            };
            let bytes = vstd::slice::slice_subrange(payload.as_slice(), 0, n);
            assert(bytes@ =~= payload@.take(n as int));
            push_rx_datagram(socket, bytes);
        },
        Ok(NetworkResponse::Error { failure }) => {
            socket.rx_error = Some(map_udp_receive_error(failure));
        },
        Ok(_) => {
            socket.rx_error = Some(EINVAL);
        },
        Err(e) => {
            socket.rx_error = Some(bridge_err(e));
        },
    }
    assert(socket.model().queue =~= prefetch_completed(before, polled, payload@).0.queue);
    true
}

/// Notes that no receive request could be put under way, unless another error waits already.
pub fn note_arm_error(socket: &mut LinuxSocket, errno: LinuxErrno)
    requires
        old(socket).wf(),
    ensures
        final(socket).wf(),
        final(socket).model() == (SocketModel {
            rx_error: Some(
                match old(socket).rx_error {
                    Some(e) => e,
                    None => errno,
                },
            ),
            ..old(socket).model()
        }),
{
    let ghost before = socket.model();
    if socket.rx_error.is_none() {
        socket.rx_error = Some(errno);
    }
    assert(socket.model().queue =~= before.queue);
}

/// A datagram that was taken: as many of its bytes as there was room for, and its full length.
#[derive(Debug, PartialEq, Eq)]
pub struct TakenDatagram {
    pub bytes: Vec<u8>,
    pub full_len: usize,
}

/// A socket after the oldest datagram that waits was taken, else the error that does; and what was
/// taken: as many bytes as there was room for, and the datagram's full length.
pub open spec fn datagram_taken(socket: SocketModel, room: usize) -> (
    SocketModel,
    Option<Result<(Seq<u8>, nat), LinuxErrno>>,
) {
    if socket.queue.len() == 0 {
        (
            SocketModel { rx_error: None, ..socket },
            match socket.rx_error {
                Some(e) => Some(Err(e)),
                None => None,
            },
        )
    } else {
        let datagram = socket.queue[0];
        (
            SocketModel { queue: socket.queue.skip(1), ..socket },
            Some(
                Ok(
                    (
                        datagram.take(
                            if datagram.len() < room {
                                datagram.len() as int
                            } else {
                                room as int
                            },
                        ),
                        datagram.len(),
                    ),
                ),
            ),
        )
    }
}

/// Takes the oldest datagram that waits, else the error that does.
pub fn take_rx(socket: &mut LinuxSocket, room: usize) -> (r: Option<Result<TakenDatagram, LinuxErrno>>)
    requires
        old(socket).wf(),
    ensures
        final(socket).wf(),
        ({
            let (after, taken) = datagram_taken(old(socket).model(), room);
            &&& final(socket).model() == after
            &&& match taken {
                None => r is None,
                Some(Err(e)) => r == Some(Err::<TakenDatagram, LinuxErrno>(e)),
                Some(Ok((bytes, full_len))) => r is Some && r->0 is Ok && r->0->Ok_0.full_len
                    == full_len && r->0->Ok_0.bytes@ == bytes,
            }
        }),
{
    let ghost before = *socket;
    if socket.rx_count == 0 {
        let waiting: Option<LinuxErrno> = socket.rx_error;
        socket.rx_error = None;
        assert(socket.model().queue =~= before.model().queue);
        return match waiting {
            Some(e) => Some(Err(e)),
            None => None,
        };
    }
    let index: usize = socket.rx_head as usize % LINUX_UDP_RX_DEPTH;
    assert(ring_place(before.rx_head as int, 0) == index);
    let datagram = match socket.rx_queue[index] {
        Some(datagram) => datagram,
        None => return None,
    };
    socket.rx_queue[index] = None;
    let full_len: usize = datagram.len as usize;
    let n: usize = if full_len < room {
        full_len
    } else {
        room
    };
    let mut bytes: Vec<u8> = Vec::new();
    let mut i: usize = 0;
    while i < n
        invariant
            0 <= i <= n <= LINUX_UDP_MAX_DATAGRAM,
            bytes@ == datagram.bytes@.take(i as int),
        decreases n - i,
    {
        bytes.push(datagram.bytes[i]);
        assert(bytes@ =~= datagram.bytes@.take(i + 1));
        i += 1;
    }
    assert(bytes@ =~= datagram_bytes(datagram).take(n as int));
    socket.rx_head = ((index + 1) % LINUX_UDP_RX_DEPTH) as u8;
    socket.rx_count = socket.rx_count - 1;
    assert forall|j: int| 0 <= j < socket.rx_count implies ring_place(socket.rx_head as int, j)
        == ring_place(before.rx_head as int, j + 1) && ring_place(before.rx_head as int, j + 1)
        != index by {}
    assert(socket.model().queue =~= before.model().queue.skip(1));
    Some(Ok(TakenDatagram { bytes, full_len }))
}

/// How a receive goes on.
#[derive(Debug, PartialEq, Eq)]
pub enum ReceiveStep {
    Done(TakenDatagram),
    Failed(LinuxErrno),
    /// The caller waits until something came to the socket.
    Wait,
}

/// What a receive does with what was taken.
pub fn receive_step(taken: Option<Result<TakenDatagram, LinuxErrno>>, nonblock: bool) -> (r: ReceiveStep)
    ensures
        r == match taken {
            Some(Ok(datagram)) => ReceiveStep::Done(datagram),
            Some(Err(e)) => ReceiveStep::Failed(e),
            None => if nonblock {
                ReceiveStep::Failed(EAGAIN)
            } else {
                ReceiveStep::Wait
            },
        },
{
    match taken {
        Some(Ok(datagram)) => ReceiveStep::Done(datagram),
        Some(Err(e)) => ReceiveStep::Failed(e),
        None => {
            if nonblock {
                ReceiveStep::Failed(EAGAIN)
            } else {
                ReceiveStep::Wait
            }
        },
    }
}

/// Whether a `sendto` is in order: no flags but those that change nothing here, a datagram that is not
/// too long, and readable bytes.
pub fn check_sendto(flags: u64, len: u64, readable: bool) -> (r: Result<(), LinuxErrno>)
    ensures
        r == (if flags & !((MSG_NOSIGNAL | MSG_DONTWAIT) as u64) != 0 {
            Err::<(), LinuxErrno>(EINVAL)
        } else if len > LINUX_UDP_MAX_DATAGRAM {
            Err(EMSGSIZE)
        } else if !readable {
            Err(EFAULT)
        } else {
            Ok(())
        }),
{
    if flags & !((MSG_NOSIGNAL | MSG_DONTWAIT) as u64) != 0 {
        return Err(EINVAL);
    }
    if len > LINUX_UDP_MAX_DATAGRAM as u64 {
        return Err(EMSGSIZE);
    }
    if !readable {
        return Err(EFAULT);
    }
    Ok(())
}

/// Where a `sendto` sends: to the address that was given, else to the last one.
pub open spec fn sendto_dest(socket: SocketModel, given: Option<Result<SockaddrIn, LinuxErrno>>) -> Result<
    SockaddrIn,
    LinuxErrno,
> {
    match given {
        Some(Ok(dest)) => Ok(dest),
        Some(Err(e)) => Err(e),
        None => match socket.remote {
            Some(dest) => Ok(dest),
            None => Err(EDESTADDRREQ),
        },
    }
}

/// A socket that begins a `sendto`, and where that sends.
pub open spec fn sendto_begun(
    socket: SocketModel,
    given: Option<Result<SockaddrIn, LinuxErrno>>,
) -> (SocketModel, Result<SockaddrIn, LinuxErrno>) {
    let r = sendto_dest(socket, given);
    (
        match r {
            Err(_) => socket,
            Ok(dest) => SocketModel {
                state: if socket.state == SocketState::Unbound {
                    SocketState::Bound
                } else {
                    socket.state
                },
                remote: Some(dest),
                ..socket
            },
        },
        r,
    )
}

/// Begins a `sendto`. `given` is the address that the caller gave, if it gave one.
pub fn begin_sendto(socket: &mut LinuxSocket, given: Option<Result<SockaddrIn, LinuxErrno>>) -> (r: Result<
    SockaddrIn,
    LinuxErrno,
>)
    requires
        old(socket).wf(),
    ensures
        final(socket).wf(),
        (final(socket).model(), r) == sendto_begun(old(socket).model(), given),
{
    let ghost before = socket.model();
    let dest = match given {
        Some(Ok(dest)) => dest,
        Some(Err(e)) => return Err(e),
        None => match socket.remote {
            Some(dest) => dest,
            None => return Err(EDESTADDRREQ),
        },
    };
    if socket.state == SocketState::Unbound {
        socket.state = SocketState::Bound;
    }
    socket.remote = Some(dest);
    assert(socket.model().queue =~= before.queue);
    Ok(dest)
}

/// The request with which sending a datagram goes on.
pub open spec fn send_request(socket: SocketModel, len: u32) -> Result<NetworkRequest, LinuxErrno> {
    match socket.remote {
        None => Err(EDESTADDRREQ),
        Some(dest) => if socket.m7_dest == Some(dest) {
            Ok(NetworkRequest::Send { session: socket.session, payload_len: len })
        } else {
            Ok(NetworkRequest::Connect { session: socket.session, dest })
        },
    }
}

/// The request with which sending a datagram goes on: the network service is told where the socket
/// sends, unless it knows, and then gets the datagram.
pub fn next_send_request(socket: &LinuxSocket, len: u32) -> (r: Result<NetworkRequest, LinuxErrno>)
    ensures
        r == send_request(socket.model(), len),
{
    let dest = match socket.remote {
        Some(dest) => dest,
        None => return Err(EDESTADDRREQ),
    };
    let known: bool = match socket.m7_dest {
        Some(last) => last == dest,
        None => false,
    };
    if known {
        Ok(NetworkRequest::Send { session: socket.session, payload_len: len })
    } else {
        Ok(NetworkRequest::Connect { session: socket.session, dest })
    }
}

/// A socket of which the network service was told where it sends.
pub open spec fn send_connected(socket: SocketModel, dest: SockaddrIn, response: NetworkResponse) -> (
    SocketModel,
    Result<(), LinuxErrno>,
) {
    match response {
        NetworkResponse::Connect => (SocketModel { m7_dest: Some(dest), ..socket }, Ok(())),
        NetworkResponse::Error { failure } => (socket, Err(failure_errno(failure))),
        _ => (socket, Err(EINVAL)),
    }
}

/// Takes the answer to having told the network service where a socket sends.
pub fn finish_send_connect(socket: &mut LinuxSocket, dest: SockaddrIn, response: NetworkResponse) -> (r:
    Result<(), LinuxErrno>)
    requires
        old(socket).wf(),
    ensures
        final(socket).wf(),
        (final(socket).model(), r) == send_connected(old(socket).model(), dest, response),
{
    let ghost before = socket.model();
    match response {
        NetworkResponse::Connect => {
            socket.m7_dest = Some(dest);
            assert(socket.model().queue =~= before.queue);
            Ok(())
        },
        NetworkResponse::Error { failure } => Err(map_network_error(failure)),
        _ => Err(EINVAL),
    }
}

/// Takes the answer to a datagram. `armed` tells how putting a receive request under way went, which is
/// tried where the datagram was sent.
pub fn finish_send(response: NetworkResponse, armed: Result<(), LinuxErrno>) -> (r: Result<
    u64,
    LinuxErrno,
>)
    ensures
        r == match response {
            NetworkResponse::Send { bytes_sent } => match armed {
                Ok(()) => Ok::<u64, LinuxErrno>(bytes_sent as u64),
                Err(e) => Err(e),
            },
            NetworkResponse::Error { failure } => Err(failure_errno(failure)),
            _ => Err(EINVAL),
        },
{
    match response {
        NetworkResponse::Send { bytes_sent } => match armed {
            Ok(()) => Ok(bytes_sent as u64),
            Err(e) => Err(e),
        },
        NetworkResponse::Error { failure } => Err(map_network_error(failure)),
        _ => Err(EINVAL),
    }
}

/// Whether a datagram can be written to a socket.
pub fn check_write_datagram(socket: &LinuxSocket, len: usize) -> (r: Result<(), LinuxErrno>)
    ensures
        r == (if len > LINUX_UDP_MAX_DATAGRAM {
            Err::<(), LinuxErrno>(EMSGSIZE)
        } else if socket.remote is None {
            Err(EDESTADDRREQ)
        } else {
            Ok(())
        }),
{
    if len > LINUX_UDP_MAX_DATAGRAM {
        return Err(EMSGSIZE);
    }
    if socket.remote.is_none() {
        return Err(EDESTADDRREQ);
    }
    Ok(())
}

/// Whether a `recvmsg` is in order: no flag but the one not to wait, a writable header, and not too many
/// parts.
pub fn check_recvmsg(flags: u64, header_writable: bool, iovlen: u64) -> (r: Result<usize, LinuxErrno>)
    ensures
        r == (if flags & !(MSG_DONTWAIT as u64) != 0 {
            Err::<usize, LinuxErrno>(EINVAL)
        } else if !header_writable {
            Err(EFAULT)
        } else if iovlen > RECVMSG_MAX_IOV {
            Err(EMSGSIZE)
        } else {
            Ok(iovlen as usize)
        }),
{
    if flags & !(MSG_DONTWAIT as u64) != 0 {
        return Err(EINVAL);
    }
    if !header_writable {
        return Err(EFAULT);
    }
    if iovlen > RECVMSG_MAX_IOV as u64 {
        return Err(EMSGSIZE);
    }
    Ok(iovlen as usize)
}

/// A part of a message that goes to a place in user memory.
#[derive(Clone, Copy, Debug, PartialEq, Eq, Structural)]
pub struct ScatterChunk {
    pub base: u64,
    /// Where the part starts in the message.
    pub offset: usize,
    pub len: usize,
}

/// The parts of a message of which `written` bytes are placed already, from the place at `from` on.
pub open spec fn scattered(
    places: Seq<(u64, usize)>,
    copied: int,
    chunks: Seq<ScatterChunk>,
    written: int,
    from: int,
) -> (Seq<ScatterChunk>, int)
    decreases places.len() - from,
{
    if from < 0 || from >= places.len() {
        (chunks, written)
    } else {
        let len = if places[from].1 < copied - written {
            places[from].1 as int
        } else {
            copied - written
        };
        let more = chunks.push(
            ScatterChunk { base: places[from].0, offset: written as usize, len: len as usize },
        );
        if written + len == copied {
            (more, written + len)
        } else {
            scattered(places, copied, more, written + len, from + 1)
        }
    }
}

/// Scatters the bytes of a datagram over places in user memory, in order. Returns the parts and how many
/// bytes they hold.
pub fn scatter(places: &[(u64, usize)], copied: usize) -> (r: (Vec<ScatterChunk>, usize))
    ensures
        (r.0@, r.1 as int) == scattered(places@, copied as int, seq![], 0, 0),
        r.1 <= copied,
{
    let mut chunks: Vec<ScatterChunk> = Vec::new();
    let mut written: usize = 0;
    let mut i: usize = 0;
    assert(chunks@ =~= seq![]);
    while i < places.len()
        invariant
            0 <= i <= places@.len(),
            written <= copied,
            scattered(places@, copied as int, seq![], 0, 0) == scattered(
                places@,
                copied as int,
                chunks@,
                written as int,
                i as int,
            ),
        decreases places@.len() - i,
    {
        let (base, room) = places[i];
        let left: usize = copied - written;
        let len: usize = if room < left {
            room
        } else {
            left
        };
        chunks.push(ScatterChunk { base, offset: written, len });
        written = written + len;
        if written == copied {
            return (chunks, written);
        }
        i += 1;
    }
    (chunks, written)
}

/// The flags that `recvmsg` reports: whether the datagram did not fit.
pub fn recvmsg_flags(full_len: usize, written: usize) -> (r: u32)
    ensures
        r == (if full_len > written {
            MSG_TRUNC
        } else {
            0
        }),
{
    if full_len > written {
        MSG_TRUNC
    } else {
        0
    }
}

/// The source that `recvmsg` reports where the caller asks for it, and how many of its bytes fit.
pub fn recvmsg_name(remote: Option<SockaddrIn>, wanted: bool, namelen: u32) -> (r: Result<
    Option<(SockaddrIn, usize)>,
    LinuxErrno,
>)
    ensures
        r == (if !wanted {
            Ok::<Option<(SockaddrIn, usize)>, LinuxErrno>(None)
        } else {
            match remote {
                None => Err(EINVAL),
                Some(peer) => Ok(
                    Some(
                        (
                            peer,
                            if namelen < SOCKADDR_IN_LEN {
                                namelen as usize
                            } else {
                                SOCKADDR_IN_LEN
                            },
                        ),
                    ),
                ),
            }
        }),
{
    if !wanted {
        return Ok(None);
    }
    let peer = match remote {
        Some(peer) => peer,
        None => return Err(EINVAL),
    };
    let len: usize = if (namelen as usize) < SOCKADDR_IN_LEN {
        namelen as usize
    } else {
        SOCKADDR_IN_LEN
    };
    Ok(Some((peer, len)))
}

/// Datagrams are read in the order in which they came: one that comes to a socket with room is read
/// after those that wait, and a read takes the oldest.
pub proof fn law_datagrams_are_read_in_order(socket: SocketModel, bytes: Seq<u8>)
    requires
        socket.queue.len() < LINUX_UDP_RX_DEPTH,
    ensures
        ({
            let after = datagram_pushed(socket, bytes);
            &&& after.queue.len() == socket.queue.len() + 1
            &&& after.queue.last() == kept_datagram(bytes)
            &&& after.queue.drop_last() == socket.queue
            &&& socket.queue.len() > 0 ==> after.queue[0] == socket.queue[0]
            &&& socket.queue.len() == 0 ==> after.queue[0] == kept_datagram(bytes)
        }),
{
    let after = datagram_pushed(socket, bytes);
    assert(after.queue.drop_last() =~= socket.queue);
}

/// At most one receive request is under way, and one that is armed finds room for its answer: none is
/// wanted while another is under way or the queue is full.
pub proof fn law_one_receive_at_a_time(socket: SocketModel)
    requires
        receive_wanted(socket),
    ensures
        socket.pending_rx_req is None,
        forall|request_id: u64|
            !#[trigger] receive_wanted(
                SocketModel { pending_rx_req: Some(request_id), ..socket },
            ),
        forall|bytes: Seq<u8>|
            (#[trigger] datagram_pushed(socket, bytes)).rx_dropped == socket.rx_dropped,
{
}

/// The parts of a scattered message lie one behind the other from its start on, and none is longer than
/// its place.
pub proof fn law_scattered_parts_are_in_order(
    places: Seq<(u64, usize)>,
    copied: usize,
    chunks: Seq<ScatterChunk>,
    written: int,
    from: int,
    k: int,
)
    requires
        0 <= from <= places.len(),
        0 <= written <= copied,
        from == chunks.len(),
        from <= k < scattered(places, copied as int, chunks, written, from).0.len(),
    ensures
        ({
            let all = scattered(places, copied as int, chunks, written, from).0;
            &&& k < places.len()
            &&& all[k].base == places[k].0
            &&& all[k].len <= places[k].1
            &&& all[k].offset == (if k == from {
                written
            } else {
                all[k - 1].offset + all[k - 1].len
            })
            &&& all[k].offset + all[k].len <= copied
        }),
    decreases places.len() - from,
{
    if from < places.len() {
        let len = if places[from].1 < copied - written {
            places[from].1 as int
        } else {
            copied - written
        };
        let more = chunks.push(
            ScatterChunk { base: places[from].0, offset: written as usize, len: len as usize },
        );
        if written + len != copied {
            lemma_scattered_prefix(places, copied, more, written + len, from + 1);
            if k > from {
                law_scattered_parts_are_in_order(places, copied, more, written + len, from + 1, k);
                assert(scattered(places, copied as int, chunks, written, from).0[from] == more[from]);
            } else {
                assert(scattered(places, copied as int, chunks, written, from).0[from] == more[from]);
            }
        }
    }
}

proof fn lemma_scattered_prefix(
    places: Seq<(u64, usize)>,
    copied: usize,
    chunks: Seq<ScatterChunk>,
    written: int,
    from: int,
)
    requires
        0 <= from <= places.len(),
        0 <= written <= copied,
    ensures
        chunks.len() <= scattered(places, copied as int, chunks, written, from).0.len(),
        forall|i: int|
            0 <= i < chunks.len() ==> chunks[i] == #[trigger] scattered(
                places,
                copied as int,
                chunks,
                written,
                from,
            ).0[i],
    decreases places.len() - from,
{
    if from < places.len() {
        let len = if places[from].1 < copied - written {
            places[from].1 as int
        } else {
            copied - written
        };
        let more = chunks.push(
            ScatterChunk { base: places[from].0, offset: written as usize, len: len as usize },
        );
        if written + len != copied {
            lemma_scattered_prefix(places, copied, more, written + len, from + 1);
            assert forall|i: int| 0 <= i < chunks.len() implies chunks[i] == #[trigger] scattered(
                places,
                copied as int,
                chunks,
                written,
                from,
            ).0[i] by {
                assert(more[i] == scattered(places, copied as int, more, written + len, from + 1).0[i]);
            }
        }
    }
}

} // verus!
