//! Sockets: the pool, requests to the network service, streams and datagrams.

use clean_slate::abi::{
    AF_INET, AF_INET6, EACCES, EAFNOSUPPORT, EAGAIN, ECONNREFUSED, ECONNRESET, EDESTADDRREQ,
    EINVAL, EIO, EISCONN, EMSGSIZE, ENOTCONN, EPROTONOSUPPORT, ESTALE, ETIMEDOUT, MSG_TRUNC,
    SOCK_DGRAM, SOCK_NONBLOCK, SOCK_RAW, SOCK_STREAM,
};
use clean_slate::process::lifecycle::{Process, ProcessRegistry, ProcessState, ResourceDomain};
use clean_slate::process::linux_fd::readiness::Readiness;
use clean_slate::process::linux_fd::registry::LinuxFdRegistry;
use clean_slate::process::linux_socket::broker::{
    begin_broker, bridge_err, broker_polled, broker_submitted, denial_errno,
    network_client_handle, network_op_for, session_generation_for_broker, BrokerEnd, BrokerStep,
    CapabilityRecord, DenialReason, NetBridgeError, NetworkOp,
};
use clean_slate::process::linux_socket::pool::{
    id_to_socket_ref, linux_socket_request_wait_key, linux_socket_wait_key, socket_ref_to_id,
    LinuxSocket, LinuxSocketId, SocketPool, SocketState, LINUX_SOCKET_MAX, LINUX_UDP_RX_DEPTH,
    NETWORK_MAX_PAYLOAD_BYTES,
};
use clean_slate::process::linux_socket::protocol::{
    check_write_sockaddr_in, map_network_error, read_sockaddr_in, NetworkFailure,
    NetworkRequest, NetworkResponse, SessionId, SockaddrIn, SocketKindLinux,
};
use clean_slate::process::linux_socket::syscalls::{
    begin_connect, begin_socket, finish_connect, finish_socket, socket_for_fd, sys_bind,
};
use clean_slate::process::linux_socket::tcp::{
    begin_read_stream, begin_write_stream, finish_read_stream, finish_write_stream, StreamRead,
};
use clean_slate::process::linux_socket::udp::{
    arm_receive, begin_sendto, check_sendto, check_write_datagram, complete_prefetch, finish_send,
    finish_send_connect, map_udp_receive_error, next_send_request, note_arm_error,
    push_rx_datagram, receive_step, receive_to_arm, recvmsg_flags, recvmsg_name, scatter, take_rx,
    ReceiveStep, ScatterChunk, TakenDatagram,
};
use clean_slate::process::linux_socket::wake::RequestWakes;
use clean_slate::process::personality::ExecutionPersonality;
use clean_slate::process::InstanceGeneration;
use clean_slate::sched::wait::{WaitKey, WaitTable};
use clean_slate::sched::{Scheduler, ThreadKind, ThreadState};

const GEN: InstanceGeneration = InstanceGeneration(1);

#[test]
fn request_wait_keys_are_unique_per_request_id() {
    let a = linux_socket_request_wait_key(1);
    let b = linux_socket_request_wait_key(2);
    assert_ne!(a, b);
    assert_eq!(a.0 >> 56, 0x54);
}

#[test]
fn request_wait_key_differs_from_legacy_socket_key() {
    let socket_key = linux_socket_wait_key(LinuxSocketId { index: 0, generation: 1 });
    let request_key = linux_socket_request_wait_key(1);
    assert_ne!(socket_key, request_key);
}

/// A completed open must not end a later wait for a connect.
#[test]
fn completion_before_block_uses_distinct_wait_keys() {
    let open_id = 1u64;
    let connect_id = 2u64;
    assert_ne!(
        linux_socket_request_wait_key(open_id),
        linux_socket_request_wait_key(connect_id)
    );
}

/// A restarted call keeps the request that is under way: no second submit.
#[test]
fn restart_reuses_inflight_request_id() {
    let mut inflight = Some(7u64);
    let reused = inflight.unwrap_or(99);
    assert_eq!(reused, 7);
    assert_eq!(
        begin_broker(inflight, Some(3), Ok(()), Some(5)),
        Ok(BrokerStep::Poll { request_id: 7, generation: 5 })
    );
    let mut wakes = RequestWakes::new();
    let end = broker_polled(&mut wakes, &mut inflight, reused, Ok(NetworkResponse::Connect), false, 0);
    assert_eq!(end, BrokerEnd::Answered(NetworkResponse::Connect));
    assert!(inflight.is_none());
}

#[test]
fn socket_pool_exhaustion_bound() {
    let pool = SocketPool::new();
    assert_eq!(pool.slots.len(), LINUX_SOCKET_MAX);
}

#[test]
fn sockets_run_out_and_released_ids_go_stale() {
    let mut pool = SocketPool::new();
    let mut ids: Vec<LinuxSocketId> = Vec::new();
    for _ in 0..LINUX_SOCKET_MAX {
        ids.push(pool.alloc_socket(5, GEN, SocketKindLinux::Udp).expect("room"));
    }
    assert!(pool.alloc_socket(5, GEN, SocketKindLinux::Udp).is_err());
    assert_eq!(pool.live_count(), LINUX_SOCKET_MAX);
    assert_eq!(socket_ref_to_id(id_to_socket_ref(ids[3])), ids[3]);
    pool.release_socket(ids[3]);
    assert!(pool.socket_at(ids[3]).is_err());
    let again = pool.alloc_socket(5, GEN, SocketKindLinux::Tcp).expect("reuse");
    assert_eq!(again.index, ids[3].index);
    assert_ne!(again.generation, ids[3].generation);
}

#[test]
fn open_and_connect_a_stream() {
    let mut pool = SocketPool::new();
    let mut fds = LinuxFdRegistry::new();
    assert_eq!(begin_socket(&mut pool, 5, GEN, AF_INET6, SOCK_STREAM, Some(1)), Err(EAFNOSUPPORT));
    assert_eq!(begin_socket(&mut pool, 5, GEN, AF_INET, SOCK_RAW, Some(1)), Err(EPROTONOSUPPORT));
    let opened = begin_socket(&mut pool, 5, GEN, AF_INET, SOCK_STREAM | SOCK_NONBLOCK, Some(1))
        .expect("open");
    assert!(opened.nonblock);
    assert_eq!(opened.kind, SocketKindLinux::Tcp);
    let fd = finish_socket(
        &mut pool,
        &mut fds,
        5,
        GEN,
        opened,
        NetworkResponse::Open { session: SessionId(9) },
    )
    .expect("fd");
    assert_eq!(socket_for_fd(&fds, 5, GEN, fd), Ok(opened.id));
    let dest = SockaddrIn { addr: 0x0a00_0002, port: 80 };
    assert_eq!(
        begin_connect(&mut pool, opened.id, dest),
        Ok(NetworkRequest::Connect { session: SessionId(9), dest })
    );
    assert_eq!(finish_connect(&mut pool, opened.id, NetworkResponse::Connect), Ok(0));
    assert_eq!(pool.socket_at(opened.id).expect("socket").state, SocketState::Connected);
    assert_eq!(begin_connect(&mut pool, opened.id, dest), Err(EISCONN));
}

#[test]
fn refused_connect_says_why() {
    let mut pool = SocketPool::new();
    let id = pool.alloc_socket(5, GEN, SocketKindLinux::Tcp).expect("socket");
    let dest = SockaddrIn { addr: 1, port: 2 };
    begin_connect(&mut pool, id, dest).expect("begin");
    let failed = NetworkResponse::Error { failure: NetworkFailure::Timeout };
    assert_eq!(finish_connect(&mut pool, id, failed), Err(map_network_error(NetworkFailure::Timeout)));
    let bound = pool.alloc_socket(5, GEN, SocketKindLinux::Udp).expect("socket");
    assert_eq!(sys_bind(&mut pool, bound, SockaddrIn { addr: 0, port: 53 }), Ok(0));
    assert_eq!(pool.socket_at(bound).expect("socket").local.port, 53);
}

#[test]
fn broker_asks_once_and_waits_on_the_request() {
    assert_eq!(begin_broker(None, None, Ok(()), Some(5)), Err(EACCES));
    assert_eq!(
        begin_broker(None, Some(3), Err(DenialReason::StaleGeneration), Some(5)),
        Err(denial_errno(DenialReason::StaleGeneration))
    );
    assert_eq!(begin_broker(None, Some(3), Ok(()), Some(5)), Ok(BrokerStep::Submit { generation: 5 }));
    assert_eq!(denial_errno(DenialReason::StaleGeneration), ESTALE);
    assert_eq!(denial_errno(DenialReason::Other), EACCES);
    let mut wakes = RequestWakes::new();
    let mut inflight: Option<u64> = None;
    assert_eq!(broker_submitted(&mut wakes, &mut inflight, Ok(41)), Ok(41));
    assert_eq!(inflight, Some(41));
    let waiting =
        broker_polled(&mut wakes, &mut inflight, 41, Err(NetBridgeError::Pending), false, 100);
    assert_eq!(
        waiting,
        BrokerEnd::Wait { key: linux_socket_request_wait_key(41), deadline: None }
    );
    assert_eq!(inflight, Some(41));
    let mut other: Option<u64> = None;
    assert_eq!(
        broker_submitted(&mut wakes, &mut other, Err(NetBridgeError::QueueFull)),
        Err(bridge_err(NetBridgeError::QueueFull))
    );
    assert_eq!(other, None);
}

#[test]
fn client_capability_is_the_holders_own() {
    let record = CapabilityRecord {
        live: true,
        holder: 5,
        network: true,
        raw_device: false,
        handle: Some(77),
    };
    assert_eq!(network_client_handle(&[record], 5), Some(77));
    assert_eq!(network_client_handle(&[record], 6), None);
    assert_eq!(network_client_handle(&[CapabilityRecord { live: false, ..record }], 5), None);
    assert_eq!(network_client_handle(&[CapabilityRecord { raw_device: true, ..record }], 5), None);
    assert_eq!(
        network_op_for(&NetworkRequest::Send { session: SessionId(1), payload_len: 4 }),
        NetworkOp::Send
    );
    assert_eq!(
        session_generation_for_broker(
            &NetworkRequest::Open { kind: SocketKindLinux::Udp },
            Some(6),
            Some(8)
        ),
        Some(6)
    );
    assert_eq!(
        session_generation_for_broker(
            &NetworkRequest::Close { session: SessionId(1) },
            Some(6),
            Some(8)
        ),
        Some(8)
    );
}

#[test]
fn finished_request_wakes_its_waiter() {
    let mut registry = ProcessRegistry::new();
    registry
        .insert(Process {
            id: 7,
            instance_generation: InstanceGeneration(0),
            state: ProcessState::Running,
            resource_domain: ResourceDomain::with_root_frame(7, 0x9000),
            live_threads: 1,
            exit_status: None,
            execution_personality: ExecutionPersonality::LinuxX86_64,
        })
        .expect("insert");
    let mut scheduler = Scheduler::new();
    scheduler
        .configure_thread(0, 11, 7, ThreadKind::User, 0x1000, 0x1000, 0x1000)
        .expect("thread");
    scheduler.start().expect("start");
    let mut waits = WaitTable::new();
    waits
        .block_current_thread(&mut scheduler, &registry, 0x800, WaitKey(70), None)
        .expect("block");
    let mut wakes = RequestWakes::new();
    wakes.register_request_wake(41, WaitKey(70));
    assert_eq!(wakes.notify_request_complete(&mut waits, &mut scheduler, &registry, 41), 1);
    assert_eq!(scheduler.threads[0].state, ThreadState::Ready);
    wakes.register_request_wake(42, WaitKey(71));
    wakes.clear_request_wake(42);
}

fn stream() -> LinuxSocket {
    let mut socket = LinuxSocket::empty();
    socket.kind = SocketKindLinux::Tcp;
    socket.state = SocketState::Connected;
    socket.session = SessionId(9);
    socket
}

#[test]
fn stream_reads_take_the_waiting_bytes_first() {
    let mut socket = stream();
    let asked = begin_read_stream(&mut socket, 4, false).expect("ask");
    assert!(matches!(asked, StreamRead::Ask(NetworkRequest::Receive { .. })));
    let first = finish_read_stream(
        &mut socket,
        4,
        NetworkResponse::Receive { payload_len: 6 },
        b"abcdef",
    )
    .expect("bytes");
    assert_eq!(first, b"abcd");
    socket.tcp_rx[..6].copy_from_slice(b"uvwxyz");
    socket.tcp_rx_len = 6;
    assert_eq!(begin_read_stream(&mut socket, 4, false), Ok(StreamRead::Bytes(b"uvwx".to_vec())));
    assert_eq!(begin_read_stream(&mut socket, 16, false), Ok(StreamRead::Bytes(b"yz".to_vec())));
    assert_eq!(begin_read_stream(&mut socket, 4, true), Err(EAGAIN));
    let end = finish_read_stream(&mut socket, 4, NetworkResponse::Receive { payload_len: 0 }, b"")
        .expect("end");
    assert_eq!(end, b"");
    assert_eq!(begin_read_stream(&mut socket, 4, false), Ok(StreamRead::Bytes(Vec::new())));
}

#[test]
fn stream_writes_report_what_was_sent() {
    let socket = stream();
    assert_eq!(
        begin_write_stream(&socket, 5),
        Ok(NetworkRequest::Send { session: SessionId(9), payload_len: 5 })
    );
    assert_eq!(finish_write_stream(NetworkResponse::Send { bytes_sent: 5 }), Ok(5));
    assert_eq!(
        finish_write_stream(NetworkResponse::Error { failure: NetworkFailure::Reset }),
        Err(EINVAL)
    );
    assert_eq!(begin_write_stream(&LinuxSocket::empty(), 5), Err(ENOTCONN));
}

#[test]
fn network_failures_become_errnos() {
    assert_eq!(map_network_error(NetworkFailure::Timeout), ETIMEDOUT);
    assert_eq!(map_network_error(NetworkFailure::Reset), ECONNRESET);
    assert_eq!(map_network_error(NetworkFailure::Unreachable), ECONNREFUSED);
    assert_eq!(map_network_error(NetworkFailure::Other), EIO);
}

fn datagrams() -> LinuxSocket {
    let mut socket = LinuxSocket::empty();
    socket.kind = SocketKindLinux::Udp;
    socket.state = SocketState::Connected;
    socket.session = SessionId(4);
    socket
}

#[test]
fn datagrams_are_taken_in_order_and_truncated() {
    let mut socket = datagrams();
    push_rx_datagram(&mut socket, b"first");
    push_rx_datagram(&mut socket, b"second");
    assert_eq!(LINUX_UDP_RX_DEPTH, 2);
    push_rx_datagram(&mut socket, b"third");
    assert_eq!(socket.rx_dropped, 1);
    assert_eq!(
        take_rx(&mut socket, 3),
        Some(Ok(TakenDatagram { bytes: b"fir".to_vec(), full_len: 5 }))
    );
    assert_eq!(
        take_rx(&mut socket, 100),
        Some(Ok(TakenDatagram { bytes: b"second".to_vec(), full_len: 6 }))
    );
    assert_eq!(take_rx(&mut socket, 100), None);
    assert_eq!(receive_step(None, true), ReceiveStep::Failed(EAGAIN));
    assert_eq!(receive_step(None, false), ReceiveStep::Wait);
    note_arm_error(&mut socket, EIO);
    assert_eq!(take_rx(&mut socket, 100), Some(Err(EIO)));
}

#[test]
fn one_receive_is_under_way_at_a_time() {
    let mut socket = datagrams();
    assert_eq!(receive_to_arm(&socket), None);
    socket.m7_dest = Some(SockaddrIn { addr: 3, port: 53 });
    assert_eq!(
        receive_to_arm(&socket),
        Some(NetworkRequest::Receive { session: SessionId(4), max_len: 512 })
    );
    assert_eq!(arm_receive(&mut socket, Ok(41)), Ok(()));
    assert_eq!(receive_to_arm(&socket), None);
    let mut payload = [0u8; NETWORK_MAX_PAYLOAD_BYTES];
    payload[..2].copy_from_slice(b"hi");
    assert!(complete_prefetch(&mut socket, Ok(NetworkResponse::Receive { payload_len: 2 }), &payload));
    assert_eq!(
        take_rx(&mut socket, 10),
        Some(Ok(TakenDatagram { bytes: b"hi".to_vec(), full_len: 2 }))
    );
    assert!(receive_to_arm(&socket).is_some());
    assert!(arm_receive(&mut socket, Err(NetBridgeError::QueueFull)).is_err());
    assert_eq!(map_udp_receive_error(NetworkFailure::Other), EIO);
}

#[test]
fn datagrams_need_a_destination_and_fit() {
    let mut socket = datagrams();
    socket.state = SocketState::Unbound;
    assert_eq!(begin_sendto(&mut socket, None), Err(EDESTADDRREQ));
    let dest = SockaddrIn { addr: 3, port: 53 };
    assert_eq!(begin_sendto(&mut socket, Some(Ok(dest))), Ok(dest));
    assert_eq!(finish_send_connect(&mut socket, dest, NetworkResponse::Connect), Ok(()));
    assert!(next_send_request(&socket, 4).is_ok());
    assert_eq!(finish_send(NetworkResponse::Send { bytes_sent: 4 }, Ok(())), Ok(4));
    assert_eq!(check_sendto(0, 513, true), Err(EMSGSIZE));
    assert_eq!(check_sendto(0, 512, true), Ok(()));
    assert!(check_sendto(0, 4, false).is_err());
    assert_eq!(check_write_datagram(&socket, 600), Err(EMSGSIZE));
    assert_eq!(check_sendto(0xff00_0000, 4, true), Err(EINVAL));
}

#[test]
fn messages_are_scattered_over_their_parts() {
    let (chunks, written) = scatter(&[(0x1000, 2), (0x2000, 0), (0x3000, 4)], 5);
    assert_eq!(
        chunks,
        vec![
            ScatterChunk { base: 0x1000, offset: 0, len: 2 },
            ScatterChunk { base: 0x2000, offset: 2, len: 0 },
            ScatterChunk { base: 0x3000, offset: 2, len: 3 }
        ]
    );
    assert_eq!(written, 5);
    assert_eq!(recvmsg_flags(5, 5), 0);
    assert_eq!(recvmsg_flags(6, 5), MSG_TRUNC);
    assert_eq!(recvmsg_name(None, false, 16), Ok(None));
    assert_eq!(recvmsg_name(None, true, 16), Err(EINVAL));
    let remote = SockaddrIn { addr: 3, port: 53 };
    assert_eq!(recvmsg_name(Some(remote), true, 16), Ok(Some((remote, 16))));
}

#[test]
fn socket_addresses_are_checked() {
    let address = SockaddrIn { addr: 3, port: 53 };
    assert_eq!(read_sockaddr_in(16, true, Ok(address)), Ok(address));
    assert_eq!(read_sockaddr_in(8, true, Ok(address)), Err(EINVAL));
    assert!(read_sockaddr_in(16, false, Ok(address)).is_err());
    assert_eq!(check_write_sockaddr_in(true, true), Ok(()));
    assert!(check_write_sockaddr_in(true, false).is_err());
    assert_eq!(SockaddrIn::any_ephemeral(), SockaddrIn { addr: 0, port: 0 });
    assert_eq!(SOCK_DGRAM, 2);
}

#[test]
fn readiness_follows_what_waits() {
    let mut pool = SocketPool::new();
    let id = pool.alloc_socket(5, GEN, SocketKindLinux::Udp).expect("room");
    let idle = Readiness { readable: false, writable: true, hangup: false, error: false };
    assert_eq!(pool.readiness_for(id), idle);
    let mut socket = pool.socket_at(id).expect("socket");
    push_rx_datagram(&mut socket, b"datagram");
    pool.put_socket(id, socket);
    assert_eq!(pool.readiness_for(id), Readiness { readable: true, ..idle });
    pool.release_socket(id);
    assert_eq!(pool.readiness_for(id), Readiness { writable: false, ..idle });
}
