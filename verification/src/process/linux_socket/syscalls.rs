//! The socket system calls. Those that ask the network service run in two steps.

use super::pool::{
    closed_from, fresh_socket, id_to_socket_ref, in_use, lemma_closed_from, restart_from,
    socket_ref_to_id, LinuxSocketId, SocketModel, SocketPool, SocketState,
};
use super::protocol::{
    failure_errno, map_network_error, NetworkRequest, NetworkResponse, SockaddrIn, SocketKindLinux,
};
use crate::abi::{
    LinuxErrno, AF_INET, AF_INET6, EACCES, EAFNOSUPPORT, EBADF, EINVAL, EISCONN, ENFILE,
    EPROTONOSUPPORT, SOCK_CLOEXEC, SOCK_DGRAM, SOCK_NONBLOCK, SOCK_RAW, SOCK_STREAM,
};
use crate::process::linux_fd::open_description::{description_of, names_live, DescriptorKind, SocketRef};
use crate::process::linux_fd::registry::{
    fd_open, socket_installed, FdRegistryModel, LinuxFdRegistry,
};
use crate::process::InstanceGeneration;
use vstd::prelude::*;

verus! {

/// A socket that is being opened.
#[derive(Clone, Copy, Debug, PartialEq, Eq, Structural)]
pub struct SocketOpen {
    pub id: LinuxSocketId,
    pub kind: SocketKindLinux,
    pub nonblock: bool,
}

/// The kind of socket that a call asks for, and whether its reads are not to wait.
pub open spec fn socket_asked(domain: u16, sock_type: u32) -> Result<(SocketKindLinux, bool), LinuxErrno> {
    let base = sock_type & !(SOCK_CLOEXEC | SOCK_NONBLOCK);
    let nonblock = sock_type & SOCK_NONBLOCK != 0;
    if domain == AF_INET6 {
        Err(EAFNOSUPPORT)
    } else if domain != AF_INET {
        Err(EINVAL)
    } else if base == SOCK_DGRAM {
        Ok((SocketKindLinux::Udp, nonblock))
    } else if base == SOCK_STREAM {
        Ok((SocketKindLinux::Tcp, nonblock))
    } else if base == SOCK_RAW {
        Err(EPROTONOSUPPORT)
    } else {
        Err(EINVAL)
    }
}

fn check_socket(domain: u16, sock_type: u32) -> (r: Result<(SocketKindLinux, bool), LinuxErrno>)
    ensures
        r == socket_asked(domain, sock_type),
{
    if domain == AF_INET6 {
        return Err(EAFNOSUPPORT);
    }
    if domain != AF_INET {
        return Err(EINVAL);
    }
    let base: u32 = sock_type & !(SOCK_CLOEXEC | SOCK_NONBLOCK);
    let nonblock: bool = sock_type & SOCK_NONBLOCK != 0;
    if base == SOCK_DGRAM {
        Ok((SocketKindLinux::Udp, nonblock))
    } else if base == SOCK_STREAM {
        Ok((SocketKindLinux::Tcp, nonblock))
    } else if base == SOCK_RAW {
        Err(EPROTONOSUPPORT)
    } else {
        Err(EINVAL)
    }
}

/// The slot of the socket that a `socket` call works on: the one that its first run made, else a new
/// one.
pub open spec fn opened_slot(
    slots: Seq<SocketModel>,
    pid: u64,
    generation: u32,
    kind: SocketKindLinux,
) -> Result<(Seq<SocketModel>, int), LinuxErrno> {
    match restart_from(slots, pid, generation, kind, SocketState::Unbound, 0) {
        Some(i) => Ok((slots, i)),
        None => match closed_from(slots, 0) {
            None => Err(ENFILE),
            Some(i) => Ok(
                (slots.update(i, fresh_socket(pid, generation, kind, slots[i].generation)), i),
            ),
        },
    }
}

/// The sockets after a `socket` call was begun, and the socket it works on.
pub open spec fn socket_begun(
    slots: Seq<SocketModel>,
    pid: u64,
    generation: u32,
    domain: u16,
    sock_type: u32,
    handle: Option<u64>,
) -> (Seq<SocketModel>, Result<SocketOpen, LinuxErrno>) {
    if handle is None {
        (slots, Err(EACCES))
    } else {
        match socket_asked(domain, sock_type) {
            Err(e) => (slots, Err(e)),
            Ok((kind, nonblock)) => match opened_slot(slots, pid, generation, kind) {
                Err(e) => (slots, Err(e)),
                Ok((after, i)) => (
                    after,
                    Ok(
                        SocketOpen {
                            id: LinuxSocketId {
                                index: i as u16,
                                generation: after[i].generation,
                            },
                            kind,
                            nonblock,
                        },
                    ),
                ),
            },
        }
    }
}

/// Begins a `socket` call. `handle` is the process's capability for the network. The network service is
/// then asked to open a session.
pub fn begin_socket(
    pool: &mut SocketPool,
    pid: u64,
    generation: InstanceGeneration,
    domain: u16,
    sock_type: u32,
    handle: Option<u64>,
) -> (r: Result<SocketOpen, LinuxErrno>)
    requires
        old(pool).wf(),
    ensures
        final(pool).wf(),
        (final(pool).model(), r) == socket_begun(
            old(pool).model(),
            pid,
            generation.0,
            domain,
            sock_type,
            handle,
        ),
{
    if handle.is_none() {
        return Err(EACCES);
    }
    let (kind, nonblock) = match check_socket(domain, sock_type) {
        Ok(asked) => asked,
        Err(e) => return Err(e),
    };
    proof {
        lemma_closed_from(pool.model(), 0);
    }
    let id = match pool.inflight_socket_for_restart(pid, generation, kind, SocketState::Unbound) {
        Some(id) => id,
        None => match pool.alloc_socket(pid, generation, kind) {
            Ok(id) => id,
            Err(e) => return Err(e),
        },
    };
    Ok(SocketOpen { id, kind, nonblock })
}

/// The sockets, the descriptors and the result after a `socket` call was answered.
pub open spec fn socket_finished(
    slots: Seq<SocketModel>,
    fds: FdRegistryModel,
    pid: u64,
    generation: InstanceGeneration,
    opened: SocketOpen,
    response: NetworkResponse,
) -> (Seq<SocketModel>, FdRegistryModel, Result<u64, LinuxErrno>) {
    let i = opened.id.index as int;
    if !in_use(slots, opened.id) {
        (slots, fds, Err(EBADF))
    } else {
        match response {
            NetworkResponse::Open { session } => {
                let (m, fd) = socket_installed(
                    fds,
                    pid,
                    generation,
                    SocketRef { index: opened.id.index, generation: opened.id.generation },
                    opened.nonblock,
                );
                (
                    slots.update(
                        i,
                        SocketModel {
                            session,
                            session_generation: 1,
                            state: SocketState::Unbound,
                            ..slots[i]
                        },
                    ),
                    m,
                    match fd {
                        Ok(fd) => Ok(fd as u64),
                        Err(e) => Err(e),
                    },
                )
            },
            _ => (slots, fds, Err(EINVAL)),
        }
    }
}

/// Ends a `socket` call whose session the network service opened: the socket gets a descriptor.
pub fn finish_socket(
    pool: &mut SocketPool,
    fds: &mut LinuxFdRegistry,
    pid: u64,
    generation: InstanceGeneration,
    opened: SocketOpen,
    response: NetworkResponse,
) -> (r: Result<u64, LinuxErrno>)
    requires
        old(pool).wf(),
        old(fds).wf(),
    ensures
        final(pool).wf(),
        final(fds).wf(),
        (final(pool).model(), final(fds).model(), r) == socket_finished(
            old(pool).model(),
            old(fds).model(),
            pid,
            generation,
            opened,
            response,
        ),
{
    let mut socket = match pool.socket_at(opened.id) {
        Ok(socket) => socket,
        Err(_) => return Err(EBADF),
    };
    let ghost before = socket.model();
    let session = match response {
        NetworkResponse::Open { session } => session,
        _ => return Err(EINVAL),
    };
    socket.session = session;
    socket.session_generation = 1;
    socket.state = SocketState::Unbound;
    assert(socket.model().queue =~= before.queue);
    pool.put_socket(opened.id, socket);
    match fds.install_socket_description(
        pid,
        generation,
        id_to_socket_ref(opened.id),
        opened.nonblock,
    ) {
        Ok(fd) => Ok(fd as u64),
        Err(e) => Err(e),
    }
}

/// The socket behind a descriptor.
pub open spec fn socket_behind(
    m: FdRegistryModel,
    pid: u64,
    generation: InstanceGeneration,
    fd: u64,
) -> Result<LinuxSocketId, LinuxErrno> {
    match fd_open(m, pid, generation, fd) {
        Err(e) => Err(e),
        Ok(open) => if !names_live(m.pool, open) {
            Err(EBADF)
        } else {
            match description_of(m.pool, open).kind {
                DescriptorKind::Socket(socket) => Ok(
                    LinuxSocketId { index: socket.index, generation: socket.generation },
                ),
                _ => Err(EBADF),
            }
        },
    }
}

pub fn socket_for_fd(fds: &LinuxFdRegistry, pid: u64, generation: InstanceGeneration, fd: u64) -> (r:
    Result<LinuxSocketId, LinuxErrno>)
    ensures
        r == socket_behind(fds.model(), pid, generation, fd),
{
    let open = match fds.open_description_id_for_fd(pid, generation, fd) {
        Ok(open) => open,
        Err(e) => return Err(e),
    };
    match fds.socket_ref_for_open(open) {
        Ok(socket) => Ok(socket_ref_to_id(socket)),
        Err(e) => Err(e),
    }
}

/// The sockets after a datagram socket was bound to an address.
pub open spec fn socket_bound(slots: Seq<SocketModel>, id: LinuxSocketId, local: SockaddrIn) -> (
    Seq<SocketModel>,
    Result<u64, LinuxErrno>,
) {
    let i = id.index as int;
    if !in_use(slots, id) {
        (slots, Err(EBADF))
    } else if slots[i].kind != SocketKindLinux::Udp {
        (slots, Err(EINVAL))
    } else {
        (slots.update(i, SocketModel { local, state: SocketState::Bound, ..slots[i] }), Ok(0))
    }
}

/// Binds a datagram socket to an address.
pub fn sys_bind(pool: &mut SocketPool, id: LinuxSocketId, local: SockaddrIn) -> (r: Result<
    u64,
    LinuxErrno,
>)
    requires
        old(pool).wf(),
    ensures
        final(pool).wf(),
        (final(pool).model(), r) == socket_bound(old(pool).model(), id, local),
{
    let mut socket = match pool.socket_at(id) {
        Ok(socket) => socket,
        Err(e) => return Err(e),
    };
    let ghost before = socket.model();
    if socket.kind != SocketKindLinux::Udp {
        return Err(EINVAL);
    }
    socket.local = local;
    socket.state = SocketState::Bound;
    assert(socket.model().queue =~= before.queue);
    pool.put_socket(id, socket);
    Ok(0)
}

/// The sockets after a `connect` was begun, and what the network service is asked.
pub open spec fn connect_begun(slots: Seq<SocketModel>, id: LinuxSocketId, dest: SockaddrIn) -> (
    Seq<SocketModel>,
    Result<NetworkRequest, LinuxErrno>,
) {
    let i = id.index as int;
    if !in_use(slots, id) {
        (slots, Err(EBADF))
    } else if slots[i].state == SocketState::Connected {
        (slots, Err(EISCONN))
    } else {
        (
            slots.update(
                i,
                SocketModel { remote: Some(dest), state: SocketState::Connecting, ..slots[i] },
            ),
            Ok(NetworkRequest::Connect { session: slots[i].session, dest }),
        )
    }
}

/// The sockets after a `connect` was answered, and its result.
pub open spec fn connect_finished(
    slots: Seq<SocketModel>,
    id: LinuxSocketId,
    response: NetworkResponse,
) -> (Seq<SocketModel>, Result<u64, LinuxErrno>) {
    let i = id.index as int;
    if !in_use(slots, id) {
        (slots, Err(EBADF))
    } else {
        match response {
            NetworkResponse::Connect => (
                slots.update(i, SocketModel { state: SocketState::Connected, ..slots[i] }),
                Ok(0),
            ),
            NetworkResponse::Error { failure } => (slots, Err(failure_errno(failure))),
            _ => (slots, Err(EINVAL)),
        }
    }
}

/// Begins a `connect`: the request with which the network service is asked.
pub fn begin_connect(pool: &mut SocketPool, id: LinuxSocketId, dest: SockaddrIn) -> (r: Result<
    NetworkRequest,
    LinuxErrno,
>)
    requires
        old(pool).wf(),
    ensures
        final(pool).wf(),
        (final(pool).model(), r) == connect_begun(old(pool).model(), id, dest),
{
    let mut socket = match pool.socket_at(id) {
        Ok(socket) => socket,
        Err(e) => return Err(e),
    };
    let ghost before = socket.model();
    if socket.state == SocketState::Connected {
        return Err(EISCONN);
    }
    socket.remote = Some(dest);
    socket.state = SocketState::Connecting;
    assert(socket.model().queue =~= before.queue);
    let session = socket.session;
    pool.put_socket(id, socket);
    Ok(NetworkRequest::Connect { session, dest })
}

/// Ends a `connect` that the network service answered.
pub fn finish_connect(pool: &mut SocketPool, id: LinuxSocketId, response: NetworkResponse) -> (r: Result<
    u64,
    LinuxErrno,
>)
    requires
        old(pool).wf(),
    ensures
        final(pool).wf(),
        (final(pool).model(), r) == connect_finished(old(pool).model(), id, response),
{
    let mut socket = match pool.socket_at(id) {
        Ok(socket) => socket,
        Err(e) => return Err(e),
    };
    let ghost before = socket.model();
    match response {
        NetworkResponse::Connect => {
            socket.state = SocketState::Connected;
            assert(socket.model().queue =~= before.queue);
            pool.put_socket(id, socket);
            Ok(0)
        },
        NetworkResponse::Error { failure } => Err(map_network_error(failure)),
        _ => Err(EINVAL),
    }
}

} // verus!
