//! Stream sockets.

use super::pool::{LinuxSocket, SocketModel, SocketState, NETWORK_MAX_PAYLOAD_BYTES};
use super::protocol::{NetworkRequest, NetworkResponse};
use crate::abi::{LinuxErrno, EAGAIN, EINVAL, ENOTCONN};
use vstd::prelude::*;

verus! {

/// How a read of a stream goes on.
#[derive(Debug, PartialEq, Eq)]
pub enum StreamRead {
    /// These bytes are handed to the caller.
    Bytes(Vec<u8>),
    /// The network service is asked for more.
    Ask(NetworkRequest),
}

/// How many of the bytes that wait a read takes. Of the number asked for only the low 16 bits count.
pub open spec fn stream_taken(waiting: int, asked: u64) -> int {
    let low = asked as int % 0x1_0000;
    if waiting < low {
        waiting
    } else {
        low
    }
}

/// How a read of a stream goes on, as its rules see it.
pub enum StreamStep {
    Bytes(Seq<u8>),
    Ask(NetworkRequest),
    Failed(LinuxErrno),
}

/// A socket after a read of its stream was begun, and how the read goes on.
pub open spec fn stream_begun(socket: SocketModel, asked: u64, nonblock: bool) -> (
    SocketModel,
    StreamStep,
) {
    let n = stream_taken(socket.stream.len() as int, asked);
    if socket.stream.len() > 0 {
        (
            SocketModel { stream: socket.stream.skip(n), ..socket },
            StreamStep::Bytes(socket.stream.take(n)),
        )
    } else if socket.tcp_eof {
        (socket, StreamStep::Bytes(seq![]))
    } else if nonblock {
        (socket, StreamStep::Failed(EAGAIN))
    } else {
        (
            socket,
            StreamStep::Ask(
                NetworkRequest::Receive {
                    session: socket.session,
                    max_len: if asked < 4096 {
                        asked as u32
                    } else {
                        4096
                    },
                },
            ),
        )
    }
}

/// A socket after the network service answered a read of its stream, and what the read gives.
pub open spec fn stream_finished(
    socket: SocketModel,
    asked: u64,
    response: NetworkResponse,
    payload: Seq<u8>,
) -> (SocketModel, Result<Seq<u8>, LinuxErrno>) {
    match response {
        NetworkResponse::Receive { payload_len } => (
            SocketModel { tcp_eof: socket.tcp_eof || payload_len == 0, ..socket },
            Ok(
                payload.take(
                    if payload_len < asked {
                        payload_len as int
                    } else {
                        asked as int
                    },
                ),
            ),
        ),
        _ => (socket, Err(EINVAL)),
    }
}

/// Begins a read of a stream: from the bytes that wait, if there are any.
pub fn begin_read_stream(socket: &mut LinuxSocket, asked: u64, nonblock: bool) -> (r: Result<
    StreamRead,
    LinuxErrno,
>)
    requires
        old(socket).wf(),
    ensures
        final(socket).wf(),
        ({
            let (after, step) = stream_begun(old(socket).model(), asked, nonblock);
            &&& final(socket).model() == after
            &&& match step {
                StreamStep::Bytes(bytes) => r is Ok && r->Ok_0 is Bytes && r->Ok_0->Bytes_0@
                    == bytes,
                StreamStep::Ask(request) => r is Ok && r->Ok_0 is Ask && r->Ok_0->Ask_0 == request,
                StreamStep::Failed(e) => r is Err && r->Err_0 == e,
            }
        }),
{
    if socket.tcp_rx_len > 0 {
        let ghost before = socket.model();
        let len: usize = socket.tcp_rx_len as usize;
        let low: usize = (asked % 0x1_0000) as usize;
        let n: usize = if len < low {
            len
        } else {
            low
        };
        let mut taken: Vec<u8> = Vec::new();
        let mut i: usize = 0;
        while i < n
            invariant
                0 <= i <= n <= NETWORK_MAX_PAYLOAD_BYTES,
                taken@ == socket.tcp_rx@.take(i as int),
            decreases n - i,
        {
            taken.push(socket.tcp_rx[i]);
            assert(taken@ =~= socket.tcp_rx@.take(i + 1));
            i += 1;
        }
        assert(taken@ =~= before.stream.take(n as int));
        let ghost held = socket.tcp_rx@;
        let mut buffer: [u8; NETWORK_MAX_PAYLOAD_BYTES] = socket.tcp_rx;
        let mut k: usize = n;
        while k < len
            invariant
                n <= k <= len <= NETWORK_MAX_PAYLOAD_BYTES,
                held.len() == NETWORK_MAX_PAYLOAD_BYTES,
                forall|j: int| 0 <= j < k - n ==> #[trigger] buffer@[j] == held[j + n],
                forall|j: int| k <= j < NETWORK_MAX_PAYLOAD_BYTES ==> #[trigger] buffer@[j] == held[j],
            decreases len - k,
        {
            buffer[k - n] = buffer[k];
            k += 1;
        }
        socket.tcp_rx = buffer;
        socket.tcp_rx_len = (len - n) as u16;
        assert(socket.model().stream =~= before.stream.skip(n as int));
        assert(socket.model().queue =~= before.queue);
        return Ok(StreamRead::Bytes(taken));
    }
    assert(socket.model().stream.len() == 0);
    if socket.tcp_eof {
        return Ok(StreamRead::Bytes(Vec::new()));
    }
    if nonblock {
        return Err(EAGAIN);
    }
    let max_len: u32 = if asked < 4096 {
        asked as u32
    } else {
        4096
    };
    Ok(StreamRead::Ask(NetworkRequest::Receive { session: socket.session, max_len }))
}

/// Ends a read for which the network service was asked. `payload` are the bytes that came with the
/// answer. An answer without bytes is the end of the stream.
pub fn finish_read_stream(
    socket: &mut LinuxSocket,
    asked: u64,
    response: NetworkResponse,
    payload: &[u8],
) -> (r: Result<Vec<u8>, LinuxErrno>)
    requires
        old(socket).wf(),
        response is Receive ==> response->payload_len <= payload@.len(),
    ensures
        final(socket).wf(),
        ({
            let (after, done) = stream_finished(old(socket).model(), asked, response, payload@);
            &&& final(socket).model() == after
            &&& match done {
                Ok(bytes) => r is Ok && r->Ok_0@ == bytes,
                Err(e) => r is Err && r->Err_0 == e,
            }
        }),
{
    match response {
        NetworkResponse::Receive { payload_len } => {
            if payload_len == 0 {
                let ghost before = socket.model();
                socket.tcp_eof = true;
                assert(socket.model().queue =~= before.queue);
                let none: Vec<u8> = Vec::new();
                assert(none@ =~= payload@.take(0));
                return Ok(none);
            }
            let n: usize = if (payload_len as u64) < asked {
                payload_len as usize
            } else {
                asked as usize
            };
            let mut bytes: Vec<u8> = Vec::new();
            let mut i: usize = 0;
            while i < n
                invariant
                    0 <= i <= n <= payload@.len(),
                    bytes@ == payload@.take(i as int),
                decreases n - i,
            {
                bytes.push(payload[i]);
                assert(bytes@ =~= payload@.take(i + 1));
                i += 1;
            }
            Ok(bytes)
        },
        _ => Err(EINVAL),
    }
}

/// The request with which bytes are sent over a stream, which must be connected.
pub open spec fn stream_write_begun(socket: SocketModel, len: u32) -> Result<
    NetworkRequest,
    LinuxErrno,
> {
    if socket.state != SocketState::Connected {
        Err(ENOTCONN)
    } else {
        Ok(NetworkRequest::Send { session: socket.session, payload_len: len })
    }
}

/// Begins a write to a stream, which must be connected: the request with which the bytes are sent.
pub fn begin_write_stream(socket: &LinuxSocket, len: u32) -> (r: Result<NetworkRequest, LinuxErrno>)
    ensures
        r == stream_write_begun(socket.model(), len),
{
    if socket.state != SocketState::Connected {
        return Err(ENOTCONN);
    }
    Ok(NetworkRequest::Send { session: socket.session, payload_len: len })
}

/// Ends a write to a stream.
pub fn finish_write_stream(response: NetworkResponse) -> (r: Result<u64, LinuxErrno>)
    ensures
        r == match response {
            NetworkResponse::Send { bytes_sent } => Ok::<u64, LinuxErrno>(bytes_sent as u64),
            _ => Err(EINVAL),
        },
{
    match response {
        NetworkResponse::Send { bytes_sent } => Ok(bytes_sent as u64),
        _ => Err(EINVAL),
    }
}

/// A read takes the stream's bytes from the front, in order, and loses none: what it hands out and what
/// still waits are together what waited before.
pub proof fn law_stream_read_loses_nothing(stream: Seq<u8>, asked: u64)
    ensures
        ({
            let n = stream_taken(stream.len() as int, asked);
            stream.take(n) + stream.skip(n) == stream
        }),
{
    let n = stream_taken(stream.len() as int, asked);
    assert(stream.take(n) + stream.skip(n) =~= stream);
}

} // verus!
