//! Descriptor tables of Linux processes and writes to the console.

use clean_slate::abi::{
    LinuxErrno, EACCES, EBADF, EINVAL, EMFILE, ENFILE, O_APPEND, O_NONBLOCK,
};
use clean_slate::ipc::{
    IpcEndpointKind, IpcSendError, IpcSendResult, IPC_MAX_MESSAGE_BYTES,
};
use clean_slate::process::linux_fd::console::{
    console_payload, console_sink_render_style, map_ipc_send_error, ConsoleSinkRenderStyle,
};
use clean_slate::process::linux_fd::open_description::{
    apply_linux_fl_to_status, open_status_to_linux_fl, DescriptorKind, DirHandleRef, FileHandleRef,
    OpenAccess, OpenDescriptionPool, OpenStatus, PipeEnd, PipeId, PipeRef, SocketRef,
    OPEN_DESCRIPTION_CAPACITY,
};
use clean_slate::process::linux_fd::registry::{
    LinuxFdProjection, LinuxFdRegistry, LinuxReadKind, LINUX_FD_REGISTRY_CAPACITY,
};
use clean_slate::process::linux_fd::table::{
    FdFlags, LinuxFdTable, LINUX_FD_TABLE_CAPACITY, LINUX_STDERR_FD, LINUX_STDOUT_FD,
};
use clean_slate::process::linux_fs::namespace::NodeId;
use clean_slate::process::personality::ExecutionPersonality;
use clean_slate::process::stdio_projection::{
    LinuxFdProjection as StdioProjection, LinuxFdRegistry as StdioRegistry,
    STDIO_REGISTRY_CAPACITY, STDIO_TABLE_CAPACITY,
};
use clean_slate::process::{InstanceGeneration, KERNEL_PROCESS_ID, PROCESS_REGISTRY_CAPACITY};

const IPC_ENDPOINT_CAPACITY: usize = 8;
const IPC_CAPABILITY_CAPACITY: usize = 8;

#[derive(Clone, Copy)]
struct Capability {
    holder: u64,
    live: bool,
}

#[derive(Debug, PartialEq, Eq)]
struct ActiveResources {
    owned_endpoints: usize,
    held_capabilities: usize,
}

/// A message endpoint table with one console sink, for the writes under test.
struct IpcEndpointTable {
    sink: bool,
    capabilities: Vec<Capability>,
    message: Vec<u8>,
    serial: Vec<u8>,
}

impl IpcEndpointTable {
    fn new() -> IpcEndpointTable {
        IpcEndpointTable { sink: false, capabilities: Vec::new(), message: Vec::new(), serial: Vec::new() }
    }

    fn grant_console_capability_for_pid(&mut self, pid: u64) -> Result<u64, &'static str> {
        if self.active_resources().held_capabilities >= IPC_CAPABILITY_CAPACITY {
            return Err("capability table full");
        }
        self.sink = true;
        self.capabilities.push(Capability { holder: pid, live: true });
        Ok(self.capabilities.len() as u64)
    }

    fn teardown_resources_for_pid(&mut self, pid: u64) -> Result<(), &'static str> {
        for capability in &mut self.capabilities {
            if capability.holder == pid {
                capability.live = false;
            }
        }
        Ok(())
    }

    fn active_resources(&self) -> ActiveResources {
        ActiveResources {
            owned_endpoints: usize::from(self.sink),
            held_capabilities: self.capabilities.iter().filter(|c| c.live).count(),
        }
    }

    fn endpoint_message(&self, _index: usize) -> Option<&[u8]> {
        if self.sink {
            Some(&self.message)
        } else {
            None
        }
    }

    fn send_message(&mut self, pid: u64, handle: u64, payload: &[u8]) -> Result<IpcSendResult, IpcSendError> {
        if handle == 0 || handle > self.capabilities.len() as u64 {
            return Err(IpcSendError::InvalidCapability);
        }
        let capability = self.capabilities[handle as usize - 1];
        if !capability.live {
            return Err(IpcSendError::StaleCapability);
        }
        if capability.holder != pid {
            return Err(IpcSendError::Unauthorized);
        }
        if payload.is_empty() || payload.len() > IPC_MAX_MESSAGE_BYTES {
            return Err(IpcSendError::InvalidMessageLength);
        }
        self.message = payload.to_vec();
        Ok(IpcSendResult { endpoint_kind: IpcEndpointKind::ConsoleSink, bytes_sent: payload.len() })
    }
}

fn local_pair() -> (StdioRegistry, IpcEndpointTable) {
    (StdioRegistry::new(), IpcEndpointTable::new())
}

fn described_pair() -> (LinuxFdRegistry, IpcEndpointTable) {
    (LinuxFdRegistry::new(), IpcEndpointTable::new())
}

/// One write through a projected capability, with the payload rendered on the serial line.
fn write_fd(
    fds: &StdioRegistry,
    ipc: &mut IpcEndpointTable,
    pid: u64,
    generation: InstanceGeneration,
    fd: u64,
    bytes: &[u8],
    personality: ExecutionPersonality,
) -> Result<usize, LinuxErrno> {
    let payload = console_payload(bytes);
    let sent = match fds.handle_for_write(pid, generation, fd) {
        Ok(handle) if !bytes.is_empty() => ipc.send_message(pid, handle, payload),
        _ => Err(IpcSendError::InvalidCapability),
    };
    let (result, style) = fds.write_fd(pid, generation, fd, bytes, sent, personality);
    if style == Some(ConsoleSinkRenderStyle::Verbatim) {
        ipc.serial.extend_from_slice(payload);
    }
    result
}

const LINUX: ExecutionPersonality = ExecutionPersonality::LinuxX86_64;

#[test]
fn linux_fd_install_and_lookup_stdio_projections() {
    let (mut fds, mut ipc) = local_pair();
    let generation = InstanceGeneration(3);
    let handle = ipc
        .grant_console_capability_for_pid(10)
        .expect("shared console grant");
    // Stdout and stderr project the same console capability.
    fds.install(10, generation, handle, handle).expect("install");

    assert_eq!(
        fds.projection_for(10, generation, LINUX_STDOUT_FD).expect("stdout"),
        StdioProjection::ConsoleEndpoint { capability_handle: handle }
    );
    assert_eq!(
        fds.projection_for(10, generation, LINUX_STDERR_FD).expect("stderr"),
        StdioProjection::ConsoleEndpoint { capability_handle: handle }
    );
    assert_eq!(
        fds.projection_for(10, generation, 0).expect("stdin closed"),
        StdioProjection::Closed
    );
    assert_eq!(fds.projection_for(10, generation, 99), Err(EBADF));
}

#[test]
fn install_rejects_kernel_process_id() {
    let (mut fds, _) = local_pair();
    assert!(fds
        .install(KERNEL_PROCESS_ID, InstanceGeneration(1), 1, 1)
        .is_err());
}

#[test]
fn write_fd_ebadf_for_closed_and_invalid() {
    let (mut fds, mut ipc) = local_pair();
    let generation = InstanceGeneration(1);
    let handle = ipc.grant_console_capability_for_pid(11).expect("grant");
    fds.install(11, generation, handle, handle).expect("install");

    assert_eq!(
        write_fd(&fds, &mut ipc, 11, generation, 0, b"x", LINUX),
        Err(EBADF),
        "closed stdin"
    );
    assert_eq!(
        write_fd(&fds, &mut ipc, 11, generation, 99, b"x", LINUX),
        Err(EBADF),
        "out of range"
    );
    assert_eq!(
        write_fd(&fds, &mut ipc, 11, InstanceGeneration(99), LINUX_STDOUT_FD, b"x", LINUX),
        Err(EBADF),
        "stale generation"
    );
}

#[test]
fn registry_exhaustion_is_deterministic() {
    let (mut fds, _) = local_pair();
    for i in 0..STDIO_REGISTRY_CAPACITY {
        let pid = 100 + i as u64;
        fds.install(pid, InstanceGeneration(1), 1, 2).expect("fill registry");
    }
    assert_eq!(fds.occupied(), STDIO_REGISTRY_CAPACITY);
    assert!(fds.install(999, InstanceGeneration(1), 1, 2).is_err());
}

#[test]
fn release_clears_table_and_stale_generation_fails_closed() {
    let (mut fds, mut ipc) = local_pair();
    let generation = InstanceGeneration(4);
    let handle = ipc.grant_console_capability_for_pid(12).expect("grant");
    fds.install(12, generation, handle, handle).expect("install");
    fds.release(12, generation);
    assert_eq!(fds.projection_for(12, generation, LINUX_STDOUT_FD), Err(EBADF));
    assert_eq!(
        write_fd(&fds, &mut ipc, 12, generation, LINUX_STDOUT_FD, b"hello", LINUX),
        Err(EBADF)
    );
}

#[test]
fn replacement_process_does_not_inherit_prior_table() {
    let (mut fds, mut ipc) = local_pair();
    let gen1 = InstanceGeneration(1);
    let gen2 = InstanceGeneration(2);
    let handle1 = ipc.grant_console_capability_for_pid(13).expect("grant gen1");
    fds.install(13, gen1, handle1, handle1).expect("install gen1");
    fds.release(13, gen1);
    ipc.teardown_resources_for_pid(13).expect("teardown gen1 caps");

    let handle2 = ipc.grant_console_capability_for_pid(13).expect("grant gen2");
    fds.install(13, gen2, handle2, handle2).expect("install gen2");

    assert_eq!(
        fds.projection_for(13, gen1, LINUX_STDOUT_FD),
        Err(EBADF),
        "old generation must not see a table"
    );
    assert_eq!(
        fds.projection_for(13, gen2, LINUX_STDOUT_FD).expect("new table"),
        StdioProjection::ConsoleEndpoint { capability_handle: handle2 }
    );
    assert_ne!(handle1, handle2);
}

#[test]
fn naming_fd_one_without_grant_yields_no_output() {
    let (mut fds, mut ipc) = local_pair();
    let generation = InstanceGeneration(1);
    let foreign = ipc.grant_console_capability_for_pid(50).expect("grant to other pid");
    fds.install(51, generation, foreign, foreign).expect("install ungranted");

    assert_eq!(
        write_fd(&fds, &mut ipc, 51, generation, LINUX_STDOUT_FD, b"secret", LINUX),
        Err(EACCES),
        "ungranted handle must be rejected"
    );
    assert_eq!(
        ipc.endpoint_message(0),
        Some(&b""[..]),
        "no payload delivered without a real grant to the writer pid"
    );
}

#[test]
fn authorized_write_delivers_through_real_endpoint_table() {
    let (mut fds, mut ipc) = local_pair();
    let generation = InstanceGeneration(7);
    let handle = ipc.grant_console_capability_for_pid(20).expect("grant");
    fds.install(20, generation, handle, handle).expect("install");

    assert_eq!(
        write_fd(&fds, &mut ipc, 20, generation, LINUX_STDOUT_FD, b"Hello from Linux.\n", LINUX),
        Ok(18)
    );
    assert_eq!(ipc.endpoint_message(0), Some(&b"Hello from Linux.\n"[..]));
}

#[test]
fn short_write_caps_at_ipc_max_message_bytes() {
    let (mut fds, mut ipc) = local_pair();
    let generation = InstanceGeneration(1);
    let handle = ipc.grant_console_capability_for_pid(21).expect("grant");
    fds.install(21, generation, handle, handle).expect("install");

    let mut oversized = [b'a'; IPC_MAX_MESSAGE_BYTES + 8];
    oversized[0] = b'H';
    assert_eq!(
        write_fd(&fds, &mut ipc, 21, generation, LINUX_STDOUT_FD, &oversized, LINUX),
        Ok(IPC_MAX_MESSAGE_BYTES)
    );
    let delivered = ipc.endpoint_message(0).expect("message");
    assert_eq!(delivered.len(), IPC_MAX_MESSAGE_BYTES);
    assert_eq!(delivered[0], b'H');
}

#[test]
fn empty_write_returns_zero_without_ipc() {
    let (mut fds, mut ipc) = local_pair();
    let generation = InstanceGeneration(1);
    let handle = ipc.grant_console_capability_for_pid(22).expect("grant");
    fds.install(22, generation, handle, handle).expect("install");
    assert_eq!(
        write_fd(&fds, &mut ipc, 22, generation, LINUX_STDOUT_FD, b"", LINUX),
        Ok(0)
    );
}

#[test]
fn shared_console_sink_survives_sequential_grant_teardown_cycles() {
    let (mut fds, mut ipc) = local_pair();
    // More cycles than endpoints and capabilities: every cycle has to give back what it took.
    let cycles = IPC_ENDPOINT_CAPACITY.max(IPC_CAPABILITY_CAPACITY) + 4;
    let pid = 40u64;
    let mut generation = InstanceGeneration(1);

    for _ in 0..cycles {
        let handle = ipc
            .grant_console_capability_for_pid(pid)
            .expect("grant on shared sink");
        fds.install(pid, generation, handle, handle).expect("install");
        assert_eq!(
            write_fd(&fds, &mut ipc, pid, generation, LINUX_STDOUT_FD, b"hi", LINUX),
            Ok(2)
        );
        fds.release(pid, generation);
        ipc.teardown_resources_for_pid(pid)
            .expect("release holder capabilities");

        let resources = ipc.active_resources();
        assert_eq!(
            resources.owned_endpoints, 1,
            "shared kernel ConsoleSink must remain the sole endpoint"
        );
        assert_eq!(
            resources.held_capabilities, 0,
            "holder capabilities must be reclaimed each cycle"
        );
        generation = InstanceGeneration(generation.0 + 1);
    }
}

#[test]
fn teardown_stales_old_handle_and_fresh_grant_works() {
    let (mut fds, mut ipc) = local_pair();
    let gen1 = InstanceGeneration(1);
    let gen2 = InstanceGeneration(2);
    let pid = 41u64;
    let old_handle = ipc.grant_console_capability_for_pid(pid).expect("first grant");
    fds.install(pid, gen1, old_handle, old_handle).expect("install");

    fds.release(pid, gen1);
    ipc.teardown_resources_for_pid(pid).expect("teardown caps");

    assert_eq!(
        ipc.send_message(pid, old_handle, b"x"),
        Err(IpcSendError::StaleCapability)
    );
    assert_eq!(
        write_fd(&fds, &mut ipc, pid, gen1, LINUX_STDOUT_FD, b"x", LINUX),
        Err(EBADF),
        "old (pid, generation) must fail closed"
    );

    let new_handle = ipc.grant_console_capability_for_pid(pid).expect("fresh grant");
    fds.install(pid, gen2, new_handle, new_handle).expect("reinstall");
    assert_eq!(
        write_fd(&fds, &mut ipc, pid, gen2, LINUX_STDOUT_FD, b"ok", LINUX),
        Ok(2)
    );
    assert_ne!(old_handle, new_handle);
    assert_eq!(ipc.active_resources().owned_endpoints, 1);
}

#[test]
fn map_ipc_send_error_documents_linux_mapping() {
    assert_eq!(map_ipc_send_error(IpcSendError::InvalidCapability), EBADF);
    assert_eq!(map_ipc_send_error(IpcSendError::StaleCapability), EBADF);
    assert_eq!(map_ipc_send_error(IpcSendError::Unauthorized), EACCES);
    assert_eq!(map_ipc_send_error(IpcSendError::InvalidMessageLength), EINVAL);
}

#[test]
fn linux_fd_linux_fd_registry_capacity_tracks_process_registry() {
    assert_eq!(STDIO_REGISTRY_CAPACITY, PROCESS_REGISTRY_CAPACITY);
    assert_eq!(STDIO_TABLE_CAPACITY, 4);
}

#[test]
fn linux_personality_renders_verbatim_native_framed() {
    assert_eq!(
        console_sink_render_style(ExecutionPersonality::LinuxX86_64),
        ConsoleSinkRenderStyle::Verbatim
    );
    assert_eq!(
        console_sink_render_style(ExecutionPersonality::Native),
        ConsoleSinkRenderStyle::NativeFramed
    );
}

#[test]
fn grant_console_reuses_single_kernel_owned_sink() {
    let mut ipc = IpcEndpointTable::new();
    let _h1 = ipc
        .grant_console_capability_for_pid(1)
        .expect("first grant creates sink");
    let _h2 = ipc
        .grant_console_capability_for_pid(2)
        .expect("second grant reuses sink");
    assert_eq!(ipc.active_resources().owned_endpoints, 1);
    assert_eq!(ipc.active_resources().held_capabilities, 2);
}

fn capture_verbatim_write(
    fds: &StdioRegistry,
    ipc: &mut IpcEndpointTable,
    pid: u64,
    generation: InstanceGeneration,
    bytes: &[u8],
) -> usize {
    ipc.serial.clear();
    let written =
        write_fd(fds, ipc, pid, generation, LINUX_STDOUT_FD, bytes, LINUX).expect("write");
    assert_eq!(ipc.serial, bytes[..written]);
    written
}

#[test]
fn verbatim_render_preserves_ascii_nul_and_invalid_utf8() {
    let generation = InstanceGeneration(1);
    let (mut fds, mut ipc) = local_pair();
    let handle = ipc.grant_console_capability_for_pid(30).expect("grant");
    fds.install(30, generation, handle, handle).expect("install");
    let payload = b"ok\0\xff\xfe\x80";
    assert_eq!(
        capture_verbatim_write(&fds, &mut ipc, 30, generation, payload),
        payload.len()
    );
}

#[test]
fn verbatim_render_preserves_64_byte_chunk_boundary() {
    let generation = InstanceGeneration(1);
    let (mut fds, mut ipc) = local_pair();
    let handle = ipc.grant_console_capability_for_pid(31).expect("grant");
    fds.install(31, generation, handle, handle).expect("install");
    let mut payload = [0u8; IPC_MAX_MESSAGE_BYTES + 4];
    payload.fill(b'x');
    payload[IPC_MAX_MESSAGE_BYTES] = b'y';
    let written = capture_verbatim_write(&fds, &mut ipc, 31, generation, &payload);
    assert_eq!(written, IPC_MAX_MESSAGE_BYTES);
    assert_eq!(ipc.serial, &payload[..IPC_MAX_MESSAGE_BYTES]);
}

#[test]
fn verbatim_render_preserves_utf8_split_across_chunks() {
    let generation = InstanceGeneration(1);
    let (mut fds, mut ipc) = local_pair();
    let handle = ipc.grant_console_capability_for_pid(32).expect("grant");
    fds.install(32, generation, handle, handle).expect("install");
    let mut payload = [0u8; IPC_MAX_MESSAGE_BYTES + 8];
    payload[..61].fill(b'a');
    payload[61..65].copy_from_slice(&[0xF0, 0x9F, 0x98, 0x80]);
    payload[65..].fill(b'b');
    let first = write_fd(&fds, &mut ipc, 32, generation, LINUX_STDOUT_FD, &payload, LINUX)
        .expect("first chunk");
    assert_eq!(first, IPC_MAX_MESSAGE_BYTES);
    let mut combined = ipc.serial.clone();
    ipc.serial.clear();
    let second =
        write_fd(&fds, &mut ipc, 32, generation, LINUX_STDOUT_FD, &payload[first..], LINUX)
            .expect("second chunk");
    combined.extend_from_slice(&ipc.serial);
    assert_eq!(combined.as_slice(), &payload[..first + second]);
}

#[test]
fn write_4096_plus_short_writes_exact_max_to_capture() {
    let linux_write_max_bytes: usize = 4096;
    let generation = InstanceGeneration(1);
    let (mut fds, mut ipc) = local_pair();
    let handle = ipc.grant_console_capability_for_pid(34).expect("grant");
    fds.install(34, generation, handle, handle).expect("install");
    let payload = [0xABu8; 4096 + 16];
    let mut written: usize = 0;
    while written < linux_write_max_bytes {
        let chunk = &payload[written..linux_write_max_bytes];
        written += write_fd(&fds, &mut ipc, 34, generation, LINUX_STDOUT_FD, chunk, LINUX)
            .expect("write");
    }
    assert_eq!(written, linux_write_max_bytes);
    assert_eq!(ipc.serial, &payload[..linux_write_max_bytes]);
}

#[test]
fn repeated_verbatim_writes_concatenate_on_serial_capture() {
    let generation = InstanceGeneration(1);
    let (mut fds, mut ipc) = local_pair();
    let handle = ipc.grant_console_capability_for_pid(33).expect("grant");
    fds.install(33, generation, handle, handle).expect("install");
    assert_eq!(
        write_fd(&fds, &mut ipc, 33, generation, LINUX_STDOUT_FD, b"ab", LINUX),
        Ok(2)
    );
    assert_eq!(
        write_fd(&fds, &mut ipc, 33, generation, LINUX_STDOUT_FD, b"cd", LINUX),
        Ok(2)
    );
    assert_eq!(ipc.serial, b"abcd");
}

// Open descriptions.

fn no_node() -> NodeId {
    NodeId { index: 0, generation: 0 }
}

fn is_open(fds: &LinuxFdRegistry, pid: u64, generation: InstanceGeneration, fd: u64) -> bool {
    matches!(fds.open_fd_entry(pid, generation, fd), Ok(Some(_)))
}

#[test]
fn mod_install_and_lookup_stdio_projections() {
    let (mut fds, mut ipc) = described_pair();
    let generation = InstanceGeneration(3);
    let handle = ipc
        .grant_console_capability_for_pid(10)
        .expect("shared console grant");
    fds.install(10, generation, handle, handle).expect("install");

    assert_eq!(
        fds.projection_for(10, generation, LINUX_STDOUT_FD).expect("stdout"),
        LinuxFdProjection::ConsoleEndpoint { capability_handle: handle }
    );
    assert_eq!(
        fds.projection_for(10, generation, LINUX_STDERR_FD).expect("stderr"),
        LinuxFdProjection::ConsoleEndpoint { capability_handle: handle }
    );
    assert_eq!(
        fds.projection_for(10, generation, 0).expect("stdin closed"),
        LinuxFdProjection::Closed
    );
    assert_eq!(fds.projection_for(10, generation, 99), Err(EBADF));
}

#[test]
fn lowest_fd_allocation_and_reuse() {
    let (mut fds, mut ipc) = described_pair();
    let gen = InstanceGeneration(1);
    let handle = ipc.grant_console_capability_for_pid(1).expect("grant");
    fds.install(1, gen, handle, handle).expect("install");
    let placeholder = fds.alloc_placeholder_file(1, gen, no_node()).expect("placeholder");
    assert_eq!(placeholder, 0);
    fds.close_fd(1, gen, 0).expect("close");
    let again = fds.alloc_placeholder_file(1, gen, no_node()).expect("reuse");
    assert_eq!(again, 0);
}

#[test]
fn dup2_shares_open_description_independent_cloexec() {
    let (mut fds, mut ipc) = described_pair();
    let gen = InstanceGeneration(1);
    let handle = ipc.grant_console_capability_for_pid(2).expect("grant");
    fds.install(2, gen, handle, handle).expect("install");
    fds.dup2(2, gen, LINUX_STDOUT_FD, 5).expect("dup2");
    fds.set_fd_cloexec(2, gen, 5, true).expect("cloexec");
    assert!(!fds.get_fd_cloexec(2, gen, LINUX_STDOUT_FD).expect("get"));
    assert!(fds.get_fd_cloexec(2, gen, 5).expect("get dup"));
    fds.close_fd(2, gen, LINUX_STDOUT_FD).expect("close old");
    assert!(is_open(&fds, 2, gen, 5));
}

#[test]
fn double_close_is_ebadf() {
    let (mut fds, mut ipc) = described_pair();
    let gen = InstanceGeneration(1);
    let handle = ipc.grant_console_capability_for_pid(3).expect("grant");
    fds.install(3, gen, handle, handle).expect("install");
    fds.close_fd(3, gen, LINUX_STDOUT_FD).expect("close");
    assert_eq!(fds.close_fd(3, gen, LINUX_STDOUT_FD), Err(EBADF));
}

#[test]
fn close_on_exec_closes_only_flagged() {
    let (mut fds, mut ipc) = described_pair();
    let gen = InstanceGeneration(1);
    let handle = ipc.grant_console_capability_for_pid(4).expect("grant");
    fds.install(4, gen, handle, handle).expect("install");
    fds.set_fd_cloexec(4, gen, LINUX_STDERR_FD, true).expect("set");
    fds.close_on_exec_for_process(4, gen).expect("exec");
    assert!(is_open(&fds, 4, gen, LINUX_STDOUT_FD));
    assert!(!is_open(&fds, 4, gen, LINUX_STDERR_FD));
}

#[test]
fn inheritance_bumps_refcounts() {
    let (mut fds, mut ipc) = described_pair();
    let pg = InstanceGeneration(1);
    let cg = InstanceGeneration(2);
    let handle = ipc.grant_console_capability_for_pid(5).expect("grant");
    fds.install(5, pg, handle, handle).expect("install");
    let before = fds.open_description_live_count();
    fds.inherit_for_child(5, pg, 6, cg).expect("inherit");
    assert!(is_open(&fds, 6, cg, LINUX_STDOUT_FD));
    assert!(fds.open_description_live_count() >= before);
    fds.release(6, cg);
    fds.release(5, pg);
    assert_eq!(fds.open_description_live_count(), 0);
}

#[test]
fn stale_open_description_generation_rejected() {
    let (mut fds, mut ipc) = described_pair();
    let gen = InstanceGeneration(1);
    let handle = ipc.grant_console_capability_for_pid(7).expect("grant");
    fds.install(7, gen, handle, handle).expect("install");
    fds.close_fd(7, gen, LINUX_STDOUT_FD).expect("close");
    assert_eq!(
        fds.projection_for(7, gen, LINUX_STDOUT_FD),
        Ok(LinuxFdProjection::Closed)
    );
}

#[test]
fn table_exhaustion_returns_emfile() {
    let (mut fds, mut ipc) = described_pair();
    let gen = InstanceGeneration(1);
    let handle = ipc.grant_console_capability_for_pid(8).expect("grant");
    fds.install(8, gen, handle, handle).expect("install");
    while fds.alloc_placeholder_file(8, gen, no_node()).is_ok() {}
    assert_eq!(fds.alloc_placeholder_file(8, gen, no_node()), Err(EMFILE));
}

#[test]
fn process_teardown_releases_pool() {
    let (mut fds, mut ipc) = described_pair();
    let gen = InstanceGeneration(1);
    let handle = ipc.grant_console_capability_for_pid(9).expect("grant");
    fds.install(9, gen, handle, handle).expect("install");
    fds.alloc_placeholder_file(9, gen, no_node()).expect("ph");
    assert!(fds.open_description_live_count() > 0);
    fds.release(9, gen);
    assert_eq!(fds.open_description_live_count(), 0);
}

#[test]
fn mod_linux_fd_registry_capacity_tracks_process_registry() {
    assert_eq!(LINUX_FD_REGISTRY_CAPACITY, PROCESS_REGISTRY_CAPACITY);
    assert_eq!(LINUX_FD_TABLE_CAPACITY, 16);
    assert_eq!(OPEN_DESCRIPTION_CAPACITY, 48);
}

fn installed(pid: u64) -> (LinuxFdRegistry, InstanceGeneration) {
    let mut fds = LinuxFdRegistry::new();
    let gen = InstanceGeneration(1);
    fds.install(pid, gen, 77, 78).expect("install");
    (fds, gen)
}

#[test]
fn console_writes_end_as_the_endpoint_says() {
    let (fds, gen) = installed(9);
    let sent = Ok(IpcSendResult { endpoint_kind: IpcEndpointKind::ConsoleSink, bytes_sent: 2 });
    assert_eq!(fds.console_for_write(9, gen, 1).expect("sink").capability_handle, 77);
    assert_eq!(
        fds.write_fd(9, gen, 1, b"hi", true, sent, LINUX),
        (Ok(2), Some(ConsoleSinkRenderStyle::Verbatim))
    );
    assert_eq!(
        fds.write_fd(9, gen, 1, b"hi", true, sent, ExecutionPersonality::Native),
        (Ok(2), Some(ConsoleSinkRenderStyle::NativeFramed))
    );
    assert_eq!(fds.write_fd(9, gen, 1, b"hi", false, sent, LINUX), (Err(EACCES), None));
    assert_eq!(fds.write_fd(9, gen, 1, b"", false, sent, LINUX), (Ok(0), None));
    assert_eq!(fds.write_fd(9, gen, 0, b"hi", true, sent, LINUX), (Err(EBADF), None));
    let mailbox = Ok(IpcSendResult { endpoint_kind: IpcEndpointKind::Mailbox, bytes_sent: 2 });
    assert_eq!(fds.write_fd(9, gen, 2, b"hi", true, mailbox, LINUX), (Ok(2), None));
}

#[test]
fn duplicates_share_status_and_offset() {
    let (mut fds, gen) = installed(9);
    let fd = fds.alloc_placeholder_file(9, gen, no_node()).expect("file") as u64;
    let copy = fds.dup_to_lowest_at_or_above(9, gen, fd, 10).expect("dup") as u64;
    assert_eq!(copy, 10);
    fds.set_open_description_offset(9, gen, fd, 123).expect("offset");
    let open = fds.open_description_id_for_fd(9, gen, copy).expect("id");
    assert_eq!(fds.open_description_snapshot(open).expect("snapshot").offset, 123);
    let mut status = fds.open_description_status(9, gen, fd).expect("status");
    status.nonblock = true;
    fds.set_open_description_status(9, gen, fd, status).expect("set");
    assert!(fds.open_description_status(9, gen, copy).expect("status").nonblock);
    assert_eq!(fds.dup2(9, gen, 15, 3), Err(EBADF));
    assert_eq!(fds.dup2(9, gen, 1, LINUX_FD_TABLE_CAPACITY as u64), Err(EBADF));
}

#[test]
fn kinds_of_descriptors_are_told_apart() {
    let (mut fds, gen) = installed(9);
    let pipe = PipeRef { pipe: PipeId { index: 1, generation: 4 }, end: PipeEnd::Read };
    let read = fds.alloc_pipe_end(9, gen, pipe).expect("pipe") as u64;
    assert_eq!(fds.pipe_read_ref(9, gen, read), Some(pipe));
    assert_eq!(fds.pipe_write_ref(9, gen, read), None);
    assert_eq!(fds.projection_for(9, gen, read), Ok(LinuxFdProjection::PipeBackend));
    let socket = SocketRef { index: 2, generation: 5 };
    let at = fds.install_socket_description(9, gen, socket, true).expect("socket") as u64;
    assert_eq!(fds.read_kind_for_fd(9, gen, at), Ok(LinuxReadKind::Socket(socket)));
    let open = fds.open_description_for_fd(9, gen, at).expect("open");
    assert_eq!(fds.socket_ref_for_open(open), Ok(socket));
    assert_eq!(fds.read_kind_for_fd(9, gen, 1), Ok(LinuxReadKind::Console));
    assert_eq!(fds.open_description_kind(9, gen, at), Ok(DescriptorKind::Socket(socket)));
    fds.release_for_process(9, gen);
    assert_eq!(fds.occupied(), 0);
}

#[test]
fn stale_slots_are_swept() {
    let (mut fds, _) = installed(9);
    fds.install(10, InstanceGeneration(1), 1, 1).expect("install");
    fds.release_stale_registry_slots(&[10]);
    assert_eq!(fds.occupied(), 1);
    assert!(fds.open_fd_entry(9, InstanceGeneration(1), 1).is_err());
    fds.release_by_pid(10);
    assert_eq!(fds.occupied(), 0);
    assert_eq!(fds.open_description_live_count(), 0);
}

#[test]
fn stdio_of_a_console_can_be_rebound() {
    let (mut fds, gen) = installed(9);
    fds.rebind_console_stdio(9, gen, 1, 99).expect("rebind");
    assert_eq!(
        fds.projection_for(9, gen, 1),
        Ok(LinuxFdProjection::ConsoleEndpoint { capability_handle: 99 })
    );
    assert_eq!(
        fds.projection_for(9, gen, 2),
        Ok(LinuxFdProjection::ConsoleEndpoint { capability_handle: 78 })
    );
}

#[test]
fn pool_of_descriptions_is_bounded_and_ids_go_stale() {
    let mut pool = OpenDescriptionPool::new();
    let file = FileHandleRef { node: no_node() };
    let first = pool.alloc_placeholder_file(1, file).expect("first");
    pool.attach_first_ref(first).expect("attach");
    pool.add_ref(first).expect("second holder");
    pool.release_ref(first).expect("one left");
    assert_eq!(pool.live_count(), 1);
    pool.release_ref(first).expect("none left");
    assert_eq!(pool.live_count(), 0);
    assert!(pool.get(first).is_err());
    for _ in 0..OPEN_DESCRIPTION_CAPACITY {
        pool.alloc_placeholder_file(1, file).expect("room");
    }
    assert_eq!(pool.alloc_placeholder_file(1, file), Err(ENFILE));
}

#[test]
fn status_words_round_trip() {
    for access in [OpenAccess::ReadOnly, OpenAccess::WriteOnly, OpenAccess::ReadWrite] {
        let status = OpenStatus { access, nonblock: true, append: false };
        let word = open_status_to_linux_fl(&status);
        let mut read = OpenStatus { access: OpenAccess::ReadOnly, nonblock: false, append: true };
        apply_linux_fl_to_status(word, &mut read).expect("apply");
        assert_eq!(read, status);
    }
    let mut status = OpenStatus { access: OpenAccess::ReadWrite, nonblock: false, append: false };
    apply_linux_fl_to_status(O_NONBLOCK | O_APPEND, &mut status).expect("apply");
    assert_eq!(status, OpenStatus { access: OpenAccess::ReadOnly, nonblock: true, append: true });
    assert_eq!(open_status_to_linux_fl(&status), O_NONBLOCK | O_APPEND);
    assert_eq!(apply_linux_fl_to_status(3, &mut status), Err(EINVAL));
}

#[test]
fn another_instance_has_none_of_the_descriptors() {
    let (mut fds, gen) = installed(9);
    let later = InstanceGeneration(gen.0 + 1);
    assert_eq!(fds.open_description_for_fd(9, later, 1), Err(EBADF));
    fds.ensure_fd_table(9, later).expect("table");
    assert_eq!(fds.open_description_for_fd(9, later, 1), Err(EBADF));
    let kept = fds.open_description_for_fd(9, gen, 1).expect("open");
    let socket = SocketRef { index: 2, generation: 5 };
    fds.install_socket_description(9, later, socket, false).expect("socket");
    fds.release(9, later);
    assert_eq!(fds.open_description_for_fd(9, gen, 1), Ok(kept));
}

#[test]
fn releasing_projections_twice_changes_nothing_more() {
    let mut fds = StdioRegistry::new();
    let gen = InstanceGeneration(3);
    fds.install(20, gen, 7, 8).expect("install");
    fds.install(21, gen, 9, 9).expect("install");
    assert!(fds.release(20, gen));
    assert!(!fds.release(20, gen));
    assert_eq!(fds.occupied(), 1);
    assert_eq!(
        fds.projection_for(21, gen, LINUX_STDERR_FD),
        Ok(StdioProjection::ConsoleEndpoint { capability_handle: 9 })
    );
}

#[test]
fn files_and_directories_take_the_lowest_descriptors() {
    let (mut fds, gen) = installed(9);
    let status = OpenStatus { access: OpenAccess::ReadOnly, nonblock: false, append: false };
    let node = NodeId { index: 4, generation: 2 };
    assert_eq!(fds.ensure_open_fd(9, gen, 3), Err(EBADF));
    let lowest = fds.alloc_file_description(9, gen, FileHandleRef { node }, status);
    assert_eq!(lowest, Ok(0));
    assert_eq!(fds.ensure_open_fd(9, gen, 0), Ok(()));
    let next = fds.alloc_dir_description(9, gen, DirHandleRef { node }, status);
    assert_eq!(next, Ok(3));
    assert_eq!(fds.projection_for(9, gen, 0), Ok(LinuxFdProjection::FileBackend));
    assert_eq!(fds.projection_for(9, gen, 3), Ok(LinuxFdProjection::DirBackend));
    assert_eq!(fds.ensure_open_fd(9, gen, LINUX_FD_TABLE_CAPACITY as u64), Err(EBADF));
}

#[test]
fn a_descriptor_is_set_once() {
    let mut pool = OpenDescriptionPool::new();
    let mut table = LinuxFdTable::empty();
    let node = NodeId { index: 4, generation: 2 };
    let open = pool.alloc_placeholder_file(9, FileHandleRef { node }).expect("description");
    let flags = FdFlags { cloexec: true };
    assert_eq!(table.set_at(&mut pool, 16, open, flags), Err(EBADF));
    assert_eq!(table.set_at(&mut pool, 7, open, flags), Ok(()));
    assert_eq!(table.get(7).map(|entry| entry.open), Some(open));
    assert_eq!(table.set_at(&mut pool, 7, open, flags), Err(EMFILE));
}
