//! Console sink backend for Linux stdio.

use crate::abi::{LinuxErrno, EACCES, EBADF, EINVAL};
use crate::ipc::{IpcEndpointKind, IpcSendError, IpcSendResult, IPC_MAX_MESSAGE_BYTES};
use crate::process::personality::ExecutionPersonality;
use vstd::prelude::*;

verus! {

/// How a console message from the Linux fd path is rendered on serial.
#[derive(Clone, Copy, Debug, PartialEq, Eq, Structural)]
pub enum ConsoleSinkRenderStyle {
    /// Payload bytes without framing (Linux personality).
    Verbatim,
    /// A framed line that names the sender (native personality).
    NativeFramed,
}

pub open spec fn render_style(personality: ExecutionPersonality) -> ConsoleSinkRenderStyle {
    match personality {
        ExecutionPersonality::LinuxX86_64 => ConsoleSinkRenderStyle::Verbatim,
        ExecutionPersonality::Native => ConsoleSinkRenderStyle::NativeFramed,
    }
}

/// Render-style decision from trusted personality.
pub fn console_sink_render_style(personality: ExecutionPersonality) -> (r: ConsoleSinkRenderStyle)
    ensures
        r == render_style(personality),
{
    match personality {
        ExecutionPersonality::LinuxX86_64 => ConsoleSinkRenderStyle::Verbatim,
        ExecutionPersonality::Native => ConsoleSinkRenderStyle::NativeFramed,
    }
}

pub open spec fn send_errno(error: IpcSendError) -> LinuxErrno {
    match error {
        IpcSendError::InvalidCapability => EBADF,
        IpcSendError::StaleCapability => EBADF,
        IpcSendError::Unauthorized => EACCES,
        IpcSendError::InvalidMessageLength => EINVAL,
    }
}

/// Map an IPC send failure onto a Linux errno for the fd projection path.
pub fn map_ipc_send_error(error: IpcSendError) -> (r: LinuxErrno)
    ensures
        r == send_errno(error),
{
    match error {
        IpcSendError::InvalidCapability => EBADF,
        IpcSendError::StaleCapability => EBADF,
        IpcSendError::Unauthorized => EACCES,
        IpcSendError::InvalidMessageLength => EINVAL,
    }
}

/// The bytes of a write that one message carries.
pub open spec fn sent_part(bytes: Seq<u8>) -> Seq<u8> {
    if bytes.len() <= IPC_MAX_MESSAGE_BYTES {
        bytes
    } else {
        bytes.take(IPC_MAX_MESSAGE_BYTES as int)
    }
}

/// The bytes of a write that one message carries.
pub fn console_payload(bytes: &[u8]) -> (r: &[u8])
    ensures
        r@ == sent_part(bytes@),
{
    if bytes.len() <= IPC_MAX_MESSAGE_BYTES {
        bytes
    } else {
        vstd::slice::slice_subrange(bytes, 0, IPC_MAX_MESSAGE_BYTES)
    }
}

/// How a console write ends, and how its payload is rendered if at all. `authorized` says whether
/// the writer may write to the endpoint; `sent` is what sending the payload gave (it counts only for
/// an authorized write that is not empty).
pub open spec fn console_written(
    bytes: Seq<u8>,
    authorized: bool,
    sent: Result<IpcSendResult, IpcSendError>,
    personality: ExecutionPersonality,
) -> (Result<usize, LinuxErrno>, Option<ConsoleSinkRenderStyle>) {
    if bytes.len() == 0 {
        (Ok(0), None)
    } else if !authorized {
        (Err(EACCES), None)
    } else {
        match sent {
            Ok(result) => (
                Ok(result.bytes_sent),
                if result.endpoint_kind == IpcEndpointKind::ConsoleSink {
                    Some(render_style(personality))
                } else {
                    None
                },
            ),
            Err(e) => (Err(send_errno(e)), None),
        }
    }
}

/// Ends a write through a console open description.
pub fn write_console(
    bytes: &[u8],
    authorized: bool,
    sent: Result<IpcSendResult, IpcSendError>,
    personality: ExecutionPersonality,
) -> (r: (Result<usize, LinuxErrno>, Option<ConsoleSinkRenderStyle>))
    ensures
        r == console_written(bytes@, authorized, sent, personality),
{
    if bytes.len() == 0 {
        return (Ok(0), None);
    }
    if !authorized {
        return (Err(EACCES), None);
    }
    match sent {
        Ok(result) => {
            let style = if result.endpoint_kind == IpcEndpointKind::ConsoleSink {
                Some(console_sink_render_style(personality))
            } else {
                None
            };
            (Ok(result.bytes_sent), style)
        },
        Err(e) => (Err(map_ipc_send_error(e)), None),
    }
}

/// Writes that follow each other over one byte string, each from where the last message ended, carry
/// the string unchanged: the first message and what is left make up the whole.
pub proof fn law_chunks_concatenate(bytes: Seq<u8>)
    ensures
        sent_part(bytes) + bytes.skip(sent_part(bytes).len() as int) == bytes,
        bytes.len() > 0 ==> sent_part(bytes).len() > 0,
        sent_part(bytes).len() <= IPC_MAX_MESSAGE_BYTES,
{
    assert(sent_part(bytes) + bytes.skip(sent_part(bytes).len() as int) =~= bytes);
}

} // verus!
