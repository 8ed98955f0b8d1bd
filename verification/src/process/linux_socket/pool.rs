//! The socket pool.

use super::protocol::{SessionId, SockaddrIn, SocketKindLinux};
use crate::abi::{LinuxErrno, EBADF, ENFILE};
use crate::process::linux_fd::open_description::SocketRef;
use crate::process::linux_fd::readiness::Readiness;
use crate::process::InstanceGeneration;
use crate::scan::{count, lemma_count_step, lemma_count_whole};
use crate::sched::wait::WaitKey;
use vstd::prelude::*;

verus! {

pub const LINUX_SOCKET_MAX: usize = 8;

pub const LINUX_UDP_MAX_DATAGRAM: usize = 512;

/// Datagrams that wait at a socket.
pub const LINUX_UDP_RX_DEPTH: usize = 2;

/// Bytes that a message of the network service carries.
pub const NETWORK_MAX_PAYLOAD_BYTES: usize = 4096;

pub const LINUX_TCP_CONNECT_TIMEOUT_MS: u64 = 5000;

/// Deadlines count timer interrupts, of which there are about 750 in a second.
pub const LINUX_TCP_CONNECT_TIMEOUT_TICKS: u64 = LINUX_TCP_CONNECT_TIMEOUT_MS * 750 / 1000;

#[derive(Clone, Copy, Debug, PartialEq, Eq, Structural)]
pub struct LinuxSocketId {
    pub index: u16,
    pub generation: u32,
}

#[derive(Clone, Copy, Debug, PartialEq, Eq, Structural)]
pub enum SocketState {
    Unbound,
    Bound,
    Connecting,
    Connected,
    Closed,
}

#[derive(Clone, Copy, Debug)]
pub struct RxDatagram {
    pub len: u16,
    pub bytes: [u8; LINUX_UDP_MAX_DATAGRAM],
}

#[derive(Clone, Copy, Debug)]
pub struct LinuxSocket {
    pub kind: SocketKindLinux,
    pub state: SocketState,
    pub session: SessionId,
    pub session_generation: u64,
    pub local: SockaddrIn,
    pub remote: Option<SockaddrIn>,
    /// Where the network service sends this socket's datagrams.
    pub m7_dest: Option<SockaddrIn>,
    pub rx_queue: [Option<RxDatagram>; LINUX_UDP_RX_DEPTH],
    pub rx_head: u8,
    pub rx_count: u8,
    pub rx_dropped: u32,
    /// The receive request that is under way, if one is.
    pub pending_rx_req: Option<u64>,
    /// A receive error that is reported when the queue is empty.
    pub rx_error: Option<LinuxErrno>,
    pub tcp_rx: [u8; NETWORK_MAX_PAYLOAD_BYTES],
    pub tcp_rx_len: u16,
    pub tcp_eof: bool,
    pub inflight_request_id: Option<u64>,
    pub owner_pid: u64,
    pub owner_generation: u32,
    pub generation: u32,
}

#[verifier::ext_equal]
pub struct SocketModel {
    pub kind: SocketKindLinux,
    pub state: SocketState,
    pub session: SessionId,
    pub session_generation: u64,
    pub local: SockaddrIn,
    pub remote: Option<SockaddrIn>,
    pub m7_dest: Option<SockaddrIn>,
    /// The datagrams that wait, the oldest first.
    pub queue: Seq<Seq<u8>>,
    pub rx_dropped: u32,
    pub pending_rx_req: Option<u64>,
    pub rx_error: Option<LinuxErrno>,
    /// The stream's bytes that wait.
    pub stream: Seq<u8>,
    pub tcp_eof: bool,
    pub inflight: Option<u64>,
    pub owner_pid: u64,
    pub owner_generation: u32,
    pub generation: u32,
}

/// The place of a waiting datagram.
pub open spec fn ring_place(head: int, j: int) -> int {
    (head + j) % LINUX_UDP_RX_DEPTH as int
}

/// The bytes of a datagram.
pub open spec fn datagram_bytes(datagram: RxDatagram) -> Seq<u8> {
    datagram.bytes@.take(datagram.len as int)
}

/// A socket that is not in use.
pub open spec fn closed_socket(generation: u32) -> SocketModel {
    SocketModel {
        kind: SocketKindLinux::Udp,
        state: SocketState::Closed,
        session: SessionId(0),
        session_generation: 0,
        local: SockaddrIn { addr: 0, port: 0 },
        remote: None,
        m7_dest: None,
        queue: seq![],
        rx_dropped: 0,
        pending_rx_req: None,
        rx_error: None,
        stream: seq![],
        tcp_eof: false,
        inflight: None,
        owner_pid: 0,
        owner_generation: 0,
        generation,
    }
}

impl LinuxSocket {
    pub open spec fn wf(&self) -> bool {
        &&& self.rx_head < LINUX_UDP_RX_DEPTH
        &&& self.rx_count <= LINUX_UDP_RX_DEPTH
        &&& self.tcp_rx_len <= NETWORK_MAX_PAYLOAD_BYTES
        &&& forall|j: int|
            0 <= j < self.rx_count ==> (#[trigger] self.rx_queue@[ring_place(
                self.rx_head as int,
                j,
            )]) is Some && self.rx_queue@[ring_place(self.rx_head as int, j)]->0.len
                <= LINUX_UDP_MAX_DATAGRAM
    }

    pub open spec fn queue(&self) -> Seq<Seq<u8>> {
        Seq::new(
            self.rx_count as nat,
            |j: int| datagram_bytes(self.rx_queue@[ring_place(self.rx_head as int, j)]->0),
        )
    }

    pub open spec fn model(&self) -> SocketModel {
        SocketModel {
            kind: self.kind,
            state: self.state,
            session: self.session,
            session_generation: self.session_generation,
            local: self.local,
            remote: self.remote,
            m7_dest: self.m7_dest,
            queue: self.queue(),
            rx_dropped: self.rx_dropped,
            pending_rx_req: self.pending_rx_req,
            rx_error: self.rx_error,
            stream: self.tcp_rx@.take(self.tcp_rx_len as int),
            tcp_eof: self.tcp_eof,
            inflight: self.inflight_request_id,
            owner_pid: self.owner_pid,
            owner_generation: self.owner_generation,
            generation: self.generation,
        }
    }

    pub fn empty() -> (r: LinuxSocket)
        ensures
            r.wf(),
            r.model() == closed_socket(1),
    {
        let r = LinuxSocket {
            kind: SocketKindLinux::Udp,
            state: SocketState::Closed,
            session: SessionId(0),
            session_generation: 0,
            local: SockaddrIn::any_ephemeral(),
            remote: None,
            m7_dest: None,
            rx_queue: [None, None],
            rx_head: 0,
            rx_count: 0,
            rx_dropped: 0,
            pending_rx_req: None,
            rx_error: None,
            tcp_rx: [0; NETWORK_MAX_PAYLOAD_BYTES],
            tcp_rx_len: 0,
            tcp_eof: false,
            inflight_request_id: None,
            owner_pid: 0,
            owner_generation: 0,
            generation: 1,
        };
        assert(r.model().queue =~= seq![]);
        assert(r.model().stream =~= seq![]);
        r
    }
}

/// The key on which readers of a socket wait.
pub open spec fn socket_key(id: LinuxSocketId) -> WaitKey {
    WaitKey((0x53u64 << 56) | ((id.index as u64) << 32) | (id.generation as u64))
}

pub fn linux_socket_wait_key(id: LinuxSocketId) -> (r: WaitKey)
    ensures
        r == socket_key(id),
{
    WaitKey((0x53u64 << 56) | ((id.index as u64) << 32) | (id.generation as u64))
}

/// The key on which callers wait for an answer of the network service.
pub open spec fn request_key(request_id: u64) -> WaitKey {
    WaitKey((0x54u64 << 56) | (request_id & 0x00ff_ffff_ffff_ffff))
}

pub fn linux_socket_request_wait_key(request_id: u64) -> (r: WaitKey)
    ensures
        r == request_key(request_id),
{
    WaitKey((0x54u64 << 56) | (request_id & 0x00ff_ffff_ffff_ffff))
}

/// Requests have keys of their own: no two requests share one, as long as their numbers fit, and none
/// has the key of a socket.
pub proof fn law_wait_keys_are_distinct(a: u64, b: u64, id: LinuxSocketId)
    requires
        a < 0x0100_0000_0000_0000,
        b < 0x0100_0000_0000_0000,
        a != b,
    ensures
        request_key(a) != request_key(b),
        request_key(a) != socket_key(id),
        request_key(a).0 >> 56 == 0x54,
{
    assert(((0x54u64 << 56) | (a & 0x00ff_ffff_ffff_ffff)) != ((0x54u64 << 56) | (b
        & 0x00ff_ffff_ffff_ffff)) && ((0x54u64 << 56) | (a & 0x00ff_ffff_ffff_ffff)) >> 56
        == 0x54) by (bit_vector)
        requires
            a < 0x0100_0000_0000_0000,
            b < 0x0100_0000_0000_0000,
            a != b,
    ;
    let index = id.index;
    let generation = id.generation;
    assert(((0x54u64 << 56) | (a & 0x00ff_ffff_ffff_ffff)) != ((0x53u64 << 56) | ((index as u64)
        << 32) | (generation as u64))) by (bit_vector);
}

/// Two sockets that are in use at one time have different keys, and so has a socket that took the slot
/// of another.
pub proof fn law_socket_keys_are_distinct(a: LinuxSocketId, b: LinuxSocketId)
    requires
        a != b,
    ensures
        socket_key(a) != socket_key(b),
{
    let (ai, ag, bi, bg) = (a.index, a.generation, b.index, b.generation);
    assert((ai != bi || ag != bg) ==> ((0x53u64 << 56) | ((ai as u64) << 32) | (ag as u64)) != ((
    0x53u64 << 56) | ((bi as u64) << 32) | (bg as u64))) by (bit_vector);
}

pub fn socket_ref_to_id(socket: SocketRef) -> (r: LinuxSocketId)
    ensures
        r == (LinuxSocketId { index: socket.index, generation: socket.generation }),
{
    LinuxSocketId { index: socket.index, generation: socket.generation }
}

pub fn id_to_socket_ref(id: LinuxSocketId) -> (r: SocketRef)
    ensures
        r == (SocketRef { index: id.index, generation: id.generation }),
{
    SocketRef { index: id.index, generation: id.generation }
}

#[derive(Clone, Copy, Debug)]
pub struct SocketPool {
    pub slots: [LinuxSocket; LINUX_SOCKET_MAX],
}

/// The first slot at or above `from` whose socket is not in use.
pub open spec fn closed_from(slots: Seq<SocketModel>, from: int) -> Option<int>
    decreases slots.len() - from,
{
    if from < 0 || from >= slots.len() {
        None
    } else if slots[from].state == SocketState::Closed {
        Some(from)
    } else {
        closed_from(slots, from + 1)
    }
}

/// The first slot whose socket is not in use is a slot, and its socket is not in use.
pub proof fn lemma_closed_from(slots: Seq<SocketModel>, from: int)
    requires
        0 <= from <= slots.len(),
    ensures
        match closed_from(slots, from) {
            Some(i) => from <= i < slots.len() && slots[i].state == SocketState::Closed,
            None => forall|i: int|
                from <= i < slots.len() ==> (#[trigger] slots[i]).state != SocketState::Closed,
        },
    decreases slots.len() - from,
{
    if from < slots.len() && slots[from].state != SocketState::Closed {
        lemma_closed_from(slots, from + 1);
    }
}

/// Whether a socket is a process's, of a kind and in a state, with a request under way.
pub open spec fn restartable(
    socket: SocketModel,
    pid: u64,
    generation: u32,
    kind: SocketKindLinux,
    state: SocketState,
) -> bool {
    socket.owner_pid == pid && socket.owner_generation == generation && socket.kind == kind
        && socket.state == state && socket.inflight is Some
}

/// The first slot at or above `from` with such a socket.
pub open spec fn restart_from(
    slots: Seq<SocketModel>,
    pid: u64,
    generation: u32,
    kind: SocketKindLinux,
    state: SocketState,
    from: int,
) -> Option<int>
    decreases slots.len() - from,
{
    if from < 0 || from >= slots.len() {
        None
    } else if restartable(slots[from], pid, generation, kind, state) {
        Some(from)
    } else {
        restart_from(slots, pid, generation, kind, state, from + 1)
    }
}

/// The first slot at or above `from` whose socket waits for the answer to a receive request.
pub open spec fn receiving_from(slots: Seq<SocketModel>, request_id: u64, from: int) -> Option<int>
    decreases slots.len() - from,
{
    if from < 0 || from >= slots.len() {
        None
    } else if slots[from].state != SocketState::Closed && slots[from].kind == SocketKindLinux::Udp
        && slots[from].pending_rx_req == Some(request_id) {
        Some(from)
    } else {
        receiving_from(slots, request_id, from + 1)
    }
}

/// Whether an id names a socket that is in use.
pub open spec fn in_use(slots: Seq<SocketModel>, id: LinuxSocketId) -> bool {
    id.index < slots.len() && slots[id.index as int].state != SocketState::Closed
        && slots[id.index as int].generation == id.generation
}

/// A socket that a process has just made.
pub open spec fn fresh_socket(
    pid: u64,
    owner_generation: u32,
    kind: SocketKindLinux,
    generation: u32,
) -> SocketModel {
    SocketModel {
        kind,
        state: SocketState::Unbound,
        owner_pid: pid,
        owner_generation,
        ..closed_socket(generation)
    }
}

/// A session of the network service that is to be closed.
#[derive(Clone, Copy, Debug, PartialEq, Eq, Structural)]
pub struct SessionClose {
    pub session: SessionId,
    pub session_generation: u64,
    pub owner_pid: u64,
}

/// The readiness of a socket.
pub open spec fn socket_readiness(socket: SocketModel) -> Readiness {
    Readiness {
        readable: socket.queue.len() > 0 || socket.stream.len() > 0 || socket.tcp_eof,
        writable: socket.state == SocketState::Connected || socket.kind == SocketKindLinux::Udp,
        hangup: socket.tcp_eof,
        error: false,
    }
}

/// The readiness of the socket with an id; a socket that is not in use has none.
pub open spec fn readiness_of(slots: Seq<SocketModel>, id: LinuxSocketId) -> Readiness {
    if in_use(slots, id) {
        socket_readiness(slots[id.index as int])
    } else {
        Readiness { readable: false, writable: false, hangup: false, error: false }
    }
}

/// The sockets after one was made in the first slot that is not in use, and its id.
pub open spec fn socket_made(
    slots: Seq<SocketModel>,
    pid: u64,
    owner_generation: u32,
    kind: SocketKindLinux,
) -> (Seq<SocketModel>, Result<LinuxSocketId, LinuxErrno>) {
    match closed_from(slots, 0) {
        None => (slots, Err(ENFILE)),
        Some(i) => (
            slots.update(i, fresh_socket(pid, owner_generation, kind, slots[i].generation)),
            Ok(LinuxSocketId { index: i as u16, generation: slots[i].generation }),
        ),
    }
}

/// The sockets after one was given up, and its session where it has one.
pub open spec fn socket_released(slots: Seq<SocketModel>, id: LinuxSocketId) -> (
    Seq<SocketModel>,
    Option<SessionClose>,
) {
    if !in_use(slots, id) {
        (slots, None)
    } else {
        let socket = slots[id.index as int];
        (
            slots.update(
                id.index as int,
                SocketModel {
                    state: SocketState::Closed,
                    generation: if socket.generation == u32::MAX {
                        u32::MAX
                    } else {
                        (socket.generation + 1) as u32
                    },
                    ..socket
                },
            ),
            if socket.session.0 == 0 {
                None
            } else {
                Some(
                    SessionClose {
                        session: socket.session,
                        session_generation: socket.session_generation,
                        owner_pid: socket.owner_pid,
                    },
                )
            },
        )
    }
}

impl SocketPool {
    pub open spec fn model(&self) -> Seq<SocketModel> {
        Seq::new(LINUX_SOCKET_MAX as nat, |i: int| self.slots@[i].model())
    }

    pub open spec fn wf(&self) -> bool {
        forall|i: int| 0 <= i < LINUX_SOCKET_MAX ==> (#[trigger] self.slots@[i]).wf()
    }

    pub fn new() -> (r: SocketPool)
        ensures
            r.wf(),
            forall|i: int|
                0 <= i < LINUX_SOCKET_MAX ==> #[trigger] r.model()[i] == closed_socket(1),
    {
        SocketPool { slots: [LinuxSocket::empty(); LINUX_SOCKET_MAX] }
    }

    pub fn live_count(&self) -> (r: usize)
        ensures
            r == count(self.model(), |s: SocketModel| s.state != SocketState::Closed),
    {
        let ghost live = |s: SocketModel| s.state != SocketState::Closed;
        let mut n: usize = 0;
        let mut i: usize = 0;
        while i < LINUX_SOCKET_MAX
            invariant
                0 <= i <= LINUX_SOCKET_MAX,
                n <= i,
                live == |s: SocketModel| s.state != SocketState::Closed,
                n == count(self.model().take(i as int), live),
            decreases LINUX_SOCKET_MAX - i,
        {
            proof {
                lemma_count_step(self.model(), live, i as int);
            }
            if self.slots[i].state != SocketState::Closed {
                n += 1;
            }
            i += 1;
        }
        proof {
            lemma_count_whole(self.model(), live);
        }
        n
    }

    /// After a system call was restarted, the socket that its first run made.
    pub fn inflight_socket_for_restart(
        &self,
        pid: u64,
        instance_generation: InstanceGeneration,
        kind: SocketKindLinux,
        state: SocketState,
    ) -> (r: Option<LinuxSocketId>)
        ensures
            match restart_from(self.model(), pid, instance_generation.0, kind, state, 0) {
                None => r is None,
                Some(i) => r is Some && r->0.index == i && r->0.generation
                    == self.model()[i].generation && i < LINUX_SOCKET_MAX,
            },
    {
        let mut i: usize = 0;
        while i < LINUX_SOCKET_MAX
            invariant
                0 <= i <= LINUX_SOCKET_MAX,
                restart_from(self.model(), pid, instance_generation.0, kind, state, 0)
                    == restart_from(
                    self.model(),
                    pid,
                    instance_generation.0,
                    kind,
                    state,
                    i as int,
                ),
            decreases LINUX_SOCKET_MAX - i,
        {
            let socket = &self.slots[i];
            if socket.owner_pid == pid && socket.owner_generation == instance_generation.0
                && socket.kind == kind && socket.state == state
                && socket.inflight_request_id.is_some() {
                return Some(LinuxSocketId { index: i as u16, generation: socket.generation });
            }
            i += 1;
        }
        None
    }

    /// Makes a socket in the first slot that is not in use.
    pub fn alloc_socket(
        &mut self,
        pid: u64,
        instance_generation: InstanceGeneration,
        kind: SocketKindLinux,
    ) -> (r: Result<LinuxSocketId, LinuxErrno>)
        requires
            old(self).wf(),
        ensures
            final(self).wf(),
            (final(self).model(), r) == socket_made(
                old(self).model(),
                pid,
                instance_generation.0,
                kind,
            ),
            r matches Ok(id) ==> id.index < LINUX_SOCKET_MAX,
    {
        let mut i: usize = 0;
        while i < LINUX_SOCKET_MAX
            invariant
                0 <= i <= LINUX_SOCKET_MAX,
                self.wf(),
                *self == *old(self),
                closed_from(self.model(), 0) == closed_from(self.model(), i as int),
            decreases LINUX_SOCKET_MAX - i,
        {
            if self.slots[i].state == SocketState::Closed {
                let generation: u32 = self.slots[i].generation;
                let mut socket = LinuxSocket::empty();
                let ghost blank = socket.model();
                socket.kind = kind;
                socket.state = SocketState::Unbound;
                socket.owner_pid = pid;
                socket.owner_generation = instance_generation.0;
                socket.generation = generation;
                assert(socket.model().queue =~= blank.queue);
                assert(socket.model().stream =~= blank.stream);
                self.slots[i] = socket;
                assert(self.model() =~= old(self).model().update(
                    i as int,
                    fresh_socket(pid, instance_generation.0, kind, generation),
                ));
                return Ok(LinuxSocketId { index: i as u16, generation });
            }
            i += 1;
        }
        Err(ENFILE)
    }

    /// The socket with an id, if it is in use.
    pub fn socket_at(&self, id: LinuxSocketId) -> (r: Result<LinuxSocket, LinuxErrno>)
        requires
            self.wf(),
        ensures
            if in_use(self.model(), id) {
                r is Ok && r->Ok_0.wf() && r->Ok_0.model() == self.model()[id.index as int]
            } else {
                r is Err && r->Err_0 == EBADF
            },
    {
        let index: usize = id.index as usize;
        if index >= LINUX_SOCKET_MAX {
            return Err(EBADF);
        }
        let socket = self.slots[index];
        if socket.state == SocketState::Closed || socket.generation != id.generation {
            return Err(EBADF);
        }
        Ok(socket)
    }

    /// Puts a socket back that was worked on.
    pub fn put_socket(&mut self, id: LinuxSocketId, socket: LinuxSocket)
        requires
            old(self).wf(),
            socket.wf(),
            id.index < LINUX_SOCKET_MAX,
        ensures
            final(self).wf(),
            final(self).model() == old(self).model().update(id.index as int, socket.model()),
    {
        self.slots[id.index as usize] = socket;
        assert(self.model() =~= old(self).model().update(id.index as int, socket.model()));
    }

    /// Gives a socket up. Returns its session, if it has one, which is to be closed.
    pub fn release_socket(&mut self, id: LinuxSocketId) -> (r: Option<SessionClose>)
        requires
            old(self).wf(),
        ensures
            final(self).wf(),
            (final(self).model(), r) == socket_released(old(self).model(), id),
    {
        let mut socket = match self.socket_at(id) {
            Ok(socket) => socket,
            Err(_) => return None,
        };
        let ghost before = socket.model();
        let close: Option<SessionClose> = if socket.session.0 == 0 {
            None
        } else {
            Some(
                SessionClose {
                    session: socket.session,
                    session_generation: socket.session_generation,
                    owner_pid: socket.owner_pid,
                },
            )
        };
        socket.state = SocketState::Closed;
        if socket.generation < u32::MAX {
            socket.generation = socket.generation + 1;
        }
        assert(socket.model().queue =~= before.queue);
        self.put_socket(id, socket);
        close
    }

    pub fn readiness_for(&self, id: LinuxSocketId) -> (r: Readiness)
        requires
            self.wf(),
        ensures
            r == readiness_of(self.model(), id),
    {
        match self.socket_at(id) {
            Ok(socket) => {
                let readable: bool = socket.rx_count > 0 || socket.tcp_rx_len > 0
                    || socket.tcp_eof;
                let writable: bool = socket.state == SocketState::Connected || socket.kind
                    == SocketKindLinux::Udp;
                Readiness { readable, writable, hangup: socket.tcp_eof, error: false }
            },
            Err(_) => Readiness::default(),
        }
    }

    /// The datagram socket that waits for the answer to a receive request.
    pub fn udp_socket_with_pending_receive(&self, request_id: u64) -> (r: Option<LinuxSocketId>)
        ensures
            match receiving_from(self.model(), request_id, 0) {
                None => r is None,
                Some(i) => r is Some && r->0.index == i && r->0.generation
                    == self.model()[i].generation && i < LINUX_SOCKET_MAX,
            },
    {
        let mut i: usize = 0;
        while i < LINUX_SOCKET_MAX
            invariant
                0 <= i <= LINUX_SOCKET_MAX,
                receiving_from(self.model(), request_id, 0) == receiving_from(
                    self.model(),
                    request_id,
                    i as int,
                ),
            decreases LINUX_SOCKET_MAX - i,
        {
            let socket = &self.slots[i];
            if socket.state != SocketState::Closed && socket.kind == SocketKindLinux::Udp {
                match socket.pending_rx_req {
                    Some(pending) => {
                        if pending == request_id {
                            return Some(
                                LinuxSocketId { index: i as u16, generation: socket.generation },
                            );
                        }
                    },
                    None => {},
                }
            }
            i += 1;
        }
        None
    }
}

/// The id of a socket that was given up names no socket any more, also when another socket takes its
/// slot; that one has an id of its own. Where generations have run out the same id comes again.
pub proof fn law_released_id_is_stale(
    slots: Seq<SocketModel>,
    id: LinuxSocketId,
    pid: u64,
    owner_generation: u32,
    kind: SocketKindLinux,
)
    requires
        in_use(slots, id),
        id.generation < u32::MAX,
    ensures
        ({
            let i = id.index as int;
            let next = (id.generation + 1) as u32;
            let released = slots.update(
                i,
                SocketModel { state: SocketState::Closed, generation: next, ..slots[i] },
            );
            let reused = released.update(
                i,
                fresh_socket(pid, owner_generation, kind, released[i].generation),
            );
            &&& !in_use(released, id)
            &&& !in_use(reused, id)
            &&& in_use(reused, LinuxSocketId { index: id.index, generation: next })
        }),
{
}

} // verus!
