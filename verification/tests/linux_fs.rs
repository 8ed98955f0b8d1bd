//! The file tree: paths, nodes, and files under /tmp.

use clean_slate::abi::{
    DT_DIR, DT_LNK, DT_REG, EACCES, EBADF, EEXIST, EFBIG, EINVAL, EIO, EISDIR, ELOOP, ENAMETOOLONG,
    ENFILE, ENOENT, ENOSPC, ENOTDIR, EROFS, O_CREAT, O_RDONLY, O_RDWR, O_TRUNC, O_WRONLY, S_IFDIR, S_IFREG,
};
use clean_slate::process::linux_fs::image::{
    check_rootfs, Entry, EntryKind, Image, RootfsIntegrityError, RootfsSummary,
};
use clean_slate::process::linux_fs::namespace::{
    check_write_allowed, final_component, mode_for_path, parent_path_bytes, path_buf_len,
    resolve_executable, resolve_executable_bytes, split_component, split_parent, NodeId, NodeKind,
    NodeTable, LINUX_FS_MAX_NODES,
};
use clean_slate::process::linux_fs::object_backend::{
    object_wait_key, queue_err, ObjectIo, ObjectPoll, SyscallQueueError, TmpStore,
    LINUX_TMP_MAX_ENTRIES, LINUX_TMP_MAX_FILES, LINUX_TMP_OBJECT_ID_BASE,
    OBJECT_MAX_PAYLOAD_BYTES,
};
use clean_slate::process::linux_fs::path::{
    copy_bounded_path, normalize_path, resolve_path, LINUX_PATH_MAX,
};

fn entry(path: &[u8], kind: EntryKind, data: &[u8]) -> Entry {
    Entry { path: path.to_vec(), kind, data: data.to_vec() }
}

fn image() -> Image {
    Image {
        entries: vec![
            entry(b"/bin", EntryKind::Dir, b""),
            entry(b"/bin/busybox", EntryKind::File, b"\x7fELFbusybox"),
            entry(b"/bin/ls", EntryKind::Link, b"/bin/busybox"),
            entry(b"/bin/sh", EntryKind::Link, b"/bin/busybox"),
            entry(b"/etc", EntryKind::Dir, b""),
            entry(b"/etc/hostname", EntryKind::File, b"clean-slate\n"),
            entry(b"/tmp", EntryKind::Dir, b""),
        ],
    }
}

fn fresh_table() -> (NodeTable, TmpStore) {
    let mut table = NodeTable::new();
    table.init_rootfs(&image()).expect("init");
    (table, TmpStore::new())
}

/// A directory record: inode, offset, length, type, name and a final zero, padded to eight bytes.
/// Zero where the buffer is too small.
fn encode_dirent64(out: &mut [u8], ino: u64, offset: u64, kind: u8, name: &[u8]) -> usize {
    let length = (19 + name.len() + 1 + 7) & !7;
    if length > out.len() {
        return 0;
    }
    out[..8].copy_from_slice(&ino.to_le_bytes());
    out[8..16].copy_from_slice(&offset.to_le_bytes());
    out[16..18].copy_from_slice(&(length as u16).to_le_bytes());
    out[18] = kind;
    out[19..19 + name.len()].copy_from_slice(name);
    out[19 + name.len()..length].fill(0);
    length
}

fn no_children() -> [(NodeId, u8); 32] {
    [(NodeId { index: 0, generation: 0 }, 0u8); 32]
}

#[test]
fn read_only_rootfs_write_flags_ero_fs() {
    assert!(check_write_allowed(b"/etc/hostname", O_WRONLY).is_err());
    assert_eq!(
        check_write_allowed(b"/etc/hostname", O_WRONLY).unwrap_err(),
        EROFS
    );
    assert_eq!(
        check_write_allowed(b"/bin/busybox", O_RDWR | O_CREAT).unwrap_err(),
        EROFS
    );
    assert_eq!(
        check_write_allowed(b"/etc/hostname", O_TRUNC).unwrap_err(),
        EROFS
    );
    assert!(check_write_allowed(b"/tmp/demo/x", O_WRONLY | O_CREAT).is_ok());
    assert!(check_write_allowed(b"/etc/hostname", O_RDONLY).is_ok());
}

#[test]
fn root_getdents_names_encode() {
    let (mut table, tmp) = fresh_table();
    let img = image();
    let root = table.lookup_path(b"/", &tmp, &img, true).expect("root");
    let mut children = no_children();
    let count = table.list_children(root, &tmp, &img, &mut children).expect("list");
    assert!(count >= 3, "expected bin etc tmp at minimum");
    for &(node, _dt) in &children[..count] {
        let name = table.dirent_name(node).expect("dirent name");
        let mut scratch = [0u8; 256];
        assert!(
            encode_dirent64(&mut scratch, node.index as u64 + 1, 0, DT_DIR, name) > 0,
            "encode failed for {:?}",
            core::str::from_utf8(name).ok()
        );
    }
}

#[test]
fn lookup_file_vs_dir_semantics() {
    let (mut table, mut tmp) = fresh_table();
    let img = image();
    assert!(table.lookup_path(b"/etc/hostname", &tmp, &img, false).is_ok());
    assert!(table.lookup_path(b"/bin", &tmp, &img, false).is_ok());
    assert!(table.lookup_path(b"/etc/hostname/no", &tmp, &img, false).is_err());
    table.mkdir(b"/tmp/eisdir", &tmp, &img).expect("tmp dir");
    assert_eq!(
        table
            .open_create_file(b"/tmp/eisdir", false, &mut tmp, &img)
            .unwrap_err(),
        EISDIR
    );
    let file = table
        .lookup_path(b"/etc/hostname", &tmp, &img, false)
        .expect("file node");
    assert_eq!(table.node_kind(file).unwrap(), NodeKind::File);
    let dir = table.lookup_path(b"/bin", &tmp, &img, false).expect("dir node");
    assert_eq!(table.node_kind(dir).unwrap(), NodeKind::Dir);
}

#[test]
fn tmp_mkdir_and_file_slot_bounds() {
    let (mut table, mut tmp) = fresh_table();
    let img = image();
    table.mkdir(b"/tmp/demo", &tmp, &img).expect("demo dir");
    let baseline = table.live_count();
    for i in 0..LINUX_TMP_MAX_ENTRIES {
        let path = format!("/tmp/demo/d{i}");
        table.mkdir(path.as_bytes(), &tmp, &img).expect("child dir");
    }
    assert_eq!(
        table.mkdir(b"/tmp/demo/one-too-many", &tmp, &img).unwrap_err(),
        ENOSPC
    );
    assert!(table.live_count() >= baseline);
    table.mkdir(b"/tmp/fileslot", &tmp, &img).expect("file parent");
    for f in 0..LINUX_TMP_MAX_FILES {
        let path = format!("/tmp/fileslot/f{f}");
        tmp.tmp_file_create(path.as_bytes()).expect("tmp file slot");
    }
    assert_eq!(
        tmp.tmp_file_create(b"/tmp/fileslot/f-overflow").unwrap_err(),
        ENOSPC
    );
    assert_eq!(OBJECT_MAX_PAYLOAD_BYTES, 512);
}

#[test]
fn node_table_exhaustion_and_reuse() {
    let (mut table, tmp) = fresh_table();
    let img = image();
    let mut last = NodeId { index: 0, generation: 1 };
    let mut batch = 0usize;
    let mut parent_path = String::from("/tmp/nt0");
    while (table.live_count() as usize) < LINUX_FS_MAX_NODES {
        parent_path = format!("/tmp/nt{batch}");
        table.mkdir(parent_path.as_bytes(), &tmp, &img).expect("parent");
        for c in 0..LINUX_TMP_MAX_ENTRIES {
            if (table.live_count() as usize) >= LINUX_FS_MAX_NODES {
                break;
            }
            let path = format!("/tmp/nt{batch}/c{c}");
            table.mkdir(path.as_bytes(), &tmp, &img).expect("child");
            last = table
                .lookup_path(path.as_bytes(), &tmp, &img, true)
                .expect("id");
        }
        batch += 1;
    }
    assert_eq!(table.live_count() as usize, LINUX_FS_MAX_NODES);
    let overflow = format!("{parent_path}/extra");
    assert_eq!(
        table.mkdir(overflow.as_bytes(), &tmp, &img).unwrap_err(),
        ENFILE
    );
    table.evict_node(last).expect("evict");
    let reuse = format!("{parent_path}/reuse");
    table.mkdir(reuse.as_bytes(), &tmp, &img).expect("reuse slot");
}

#[test]
fn tmp_write_size_over_512_is_efbig() {
    assert_eq!(OBJECT_MAX_PAYLOAD_BYTES, 512);
    assert!(400_usize.saturating_add(200) > OBJECT_MAX_PAYLOAD_BYTES);
    assert!(512_usize.saturating_add(1) > OBJECT_MAX_PAYLOAD_BYTES);
    assert!(0_usize.saturating_add(512) <= OBJECT_MAX_PAYLOAD_BYTES);
}

#[test]
fn resolve_executable_link_and_errors() {
    let (mut table, tmp) = fresh_table();
    let img = image();
    let busybox = resolve_executable_bytes(&mut table, &tmp, &img, b"/bin/sh").expect("sh link");
    let direct =
        resolve_executable_bytes(&mut table, &tmp, &img, b"/bin/busybox").expect("busybox");
    let ls = resolve_executable_bytes(&mut table, &tmp, &img, b"/bin/ls").expect("ls link");
    assert_eq!(busybox.as_ptr(), direct.as_ptr());
    assert_eq!(ls.as_ptr(), direct.as_ptr());
    assert_eq!(
        resolve_executable_bytes(&mut table, &tmp, &img, b"/no/such/file").unwrap_err(),
        ENOENT
    );
    assert_eq!(
        resolve_executable_bytes(&mut table, &tmp, &img, b"/bin").unwrap_err(),
        EACCES
    );
    let mut long = [b'a'; LINUX_PATH_MAX + 1];
    long[LINUX_PATH_MAX] = 0;
    let mut norm = [0u8; LINUX_PATH_MAX];
    assert_eq!(
        normalize_path(&long[..LINUX_PATH_MAX + 1], &mut norm).unwrap_err(),
        ENAMETOOLONG
    );
}

#[test]
fn getdents64_encode_buffer_rules() {
    let mut scratch = [0u8; 16];
    assert_eq!(encode_dirent64(&mut scratch, 1, 0, 8, b"busybox"), 0);
    let mut buf = [0u8; 64];
    let n = encode_dirent64(&mut buf, 2, 0, 8, b"sh");
    assert!(n > 0 && (n as u64) <= 64);
    let n2 = encode_dirent64(&mut buf, 3, 0, 4, b"etc");
    assert!(n2 > 0);

    let (mut table, tmp) = fresh_table();
    let img = image();
    let bin = table.lookup_path(b"/bin", &tmp, &img, false).expect("bin");
    let mut children = no_children();
    let count = table.list_children(bin, &tmp, &img, &mut children).expect("list");
    assert!(count >= 2);

    let buf_len = 48usize;
    let mut cursor = 0usize;
    let mut wrote = 0usize;
    let mut chunk = [0u8; 128];
    while cursor < count {
        let (_, dt) = children[cursor];
        let path_buf = table.path_of_node(children[cursor].0.index).expect("path");
        let name = dirent_name(&path_buf);
        let n = encode_dirent64(&mut chunk[wrote..], (cursor as u64) + 1, 0, dt, name);
        if n == 0 {
            assert!(wrote > 0, "buffer too small for first entry");
            break;
        }
        if wrote + n > buf_len {
            assert!(wrote > 0, "partial buffer must fit at least one entry");
            break;
        }
        wrote += n;
        cursor += 1;
    }
    assert!(wrote > 0);

    let resume = cursor;
    let mut wrote2 = 0usize;
    while cursor < count {
        let (_, dt) = children[cursor];
        let path_buf = table.path_of_node(children[cursor].0.index).expect("path");
        let name = dirent_name(&path_buf);
        let n = encode_dirent64(&mut chunk[wrote2..], (cursor as u64) + 1, 0, dt, name);
        if n == 0 || wrote2 + n > buf_len {
            break;
        }
        wrote2 += n;
        cursor += 1;
    }
    assert!(cursor >= resume);
}

fn dirent_name(path_buf: &[u8; LINUX_PATH_MAX]) -> &[u8] {
    let end = path_buf
        .iter()
        .position(|&b| b == 0)
        .unwrap_or(LINUX_PATH_MAX);
    let start = path_buf[..end]
        .iter()
        .rposition(|&b| b == b'/')
        .map(|p| p + 1)
        .unwrap_or(0);
    &path_buf[start..end]
}

#[test]
fn resolve_executable_via_mod_api() {
    let img = image();
    let (mut table, tmp) = fresh_table();
    let mut resolved = [0u8; LINUX_PATH_MAX];
    let exec =
        resolve_executable(&mut table, &tmp, b"/bin/sh", &mut resolved, &img).expect("resolve");
    assert!(!exec.image.is_empty());
    assert!(resolved.starts_with(b"/bin/"));
}

fn norm(s: &[u8]) -> Vec<u8> {
    let mut buf = [0u8; LINUX_PATH_MAX];
    let len = normalize_path(s, &mut buf).expect("norm");
    buf[..len].to_vec()
}

#[test]
fn double_slash_and_dot() {
    assert_eq!(norm(b"//etc/./hostname"), b"/etc/hostname");
}

#[test]
fn dotdot_clamped_at_root() {
    assert_eq!(norm(b"/.."), b"/");
    assert_eq!(norm(b"/tmp/../etc/hostname"), b"/etc/hostname");
}

#[test]
fn trailing_slash() {
    assert_eq!(norm(b"/bin/"), b"/bin");
}

#[test]
fn nul_rejected() {
    let mut buf = [0u8; LINUX_PATH_MAX];
    assert!(normalize_path(b"a\0b", &mut buf).is_err());
}

#[test]
fn relative_path_resolves_against_cwd() {
    let mut out = [0u8; LINUX_PATH_MAX];
    let len = resolve_path(b"/", b"tmp/demo", &mut out).expect("resolve");
    assert_eq!(&out[..len], b"/tmp/demo");
}

#[test]
fn relative_dotdot_cannot_escape_above_root() {
    let mut out = [0u8; LINUX_PATH_MAX];
    let len = resolve_path(b"/", b"..", &mut out).expect("resolve");
    assert_eq!(&out[..len], b"/");
    let len = resolve_path(b"/", b"tmp/../../etc/passwd", &mut out).expect("resolve");
    assert_eq!(&out[..len], b"/etc/passwd");
}

#[test]
fn normalize_uses_path_len_not_padded_storage() {
    let mut padded = [0u8; LINUX_PATH_MAX];
    padded[..7].copy_from_slice(b"/bin/ls");
    let mut out = [0u8; LINUX_PATH_MAX];
    assert_eq!(normalize_path(&padded, &mut out).unwrap_err(), ENAMETOOLONG);
    let len = normalize_path(&padded[..7], &mut out).expect("short slice");
    assert_eq!(&out[..len], b"/bin/ls");
}

#[test]
fn normalizing_twice_changes_nothing() {
    for path in [&b"/a/../b//c/"[..], b"/", b"/x/./y/../../..", b"/tmp/demo"] {
        let once = norm(path);
        assert_eq!(norm(&once), once);
    }
    assert_eq!(norm(b"/a/b/../../c"), b"/c");
}

#[test]
fn paths_are_split_at_slashes() {
    assert_eq!(split_component(b"bin/sh"), (&b"bin"[..], &b"sh"[..]));
    assert_eq!(final_component(b"/bin/sh"), Ok(&b"sh"[..]));
    assert_eq!(parent_path_bytes(b"/bin/sh"), Ok(&b"/bin"[..]));
    assert_eq!(split_parent(b"/bin/sh"), Ok((&b"/bin"[..], &b"sh"[..])));
    assert_eq!(split_parent(b"/top"), Ok((&b"/"[..], &b"top"[..])));
    let copied = copy_bounded_path(b"/bin").expect("copy");
    assert_eq!(path_buf_len(&copied), 4);
    assert!(copy_bounded_path(&[b'a'; LINUX_PATH_MAX + 1]).is_err());
}

#[test]
fn lookups_follow_links_only_where_asked() {
    let (mut table, tmp) = fresh_table();
    let img = image();
    let link = table.lookup_path(b"/bin/sh", &tmp, &img, false).expect("link");
    assert_eq!(table.node_kind(link), Ok(NodeKind::Link));
    let target = table.lookup_path(b"/bin/sh", &tmp, &img, true).expect("target");
    assert_eq!(table.node_kind(target), Ok(NodeKind::File));
    assert_eq!(table.rootfs_entry_data(target, &img), Ok(&b"\x7fELFbusybox"[..]));
    assert_eq!(table.lookup_path(b"/bin/sh", &tmp, &img, true), Ok(target));
    assert_eq!(table.lookup_path(b"/nowhere", &tmp, &img, true), Err(ENOENT));
    assert_eq!(table.lookup_path(b"/etc/hostname/no", &tmp, &img, true), Err(ENOTDIR));
}

#[test]
fn children_of_a_directory_are_listed_with_their_types() {
    let (mut table, tmp) = fresh_table();
    let img = image();
    let bin = table.lookup_path(b"/bin", &tmp, &img, false).expect("bin");
    let mut children = no_children();
    let count = table.list_children(bin, &tmp, &img, &mut children).expect("list");
    let mut seen: Vec<(Vec<u8>, u8)> = Vec::new();
    for &(node, dt) in &children[..count] {
        seen.push((table.dirent_name(node).expect("name").to_vec(), dt));
    }
    assert_eq!(
        seen,
        vec![
            (b"busybox".to_vec(), DT_REG),
            (b"ls".to_vec(), DT_LNK),
            (b"sh".to_vec(), DT_LNK)
        ]
    );
    let file = table.lookup_path(b"/etc/hostname", &tmp, &img, false).expect("file");
    assert_eq!(table.list_children(file, &tmp, &img, &mut children), Err(ENOTDIR));
}

#[test]
fn stat_tells_files_from_directories() {
    let (mut table, tmp) = fresh_table();
    let img = image();
    let file = table.lookup_path(b"/etc/hostname", &tmp, &img, true).expect("file");
    let fields = table.stat_fields(file, &tmp, &img, false).expect("stat");
    assert_eq!(fields.st_mode & S_IFREG, S_IFREG);
    assert_eq!(fields.st_size, 12);
    let dir = table.lookup_path(b"/etc", &tmp, &img, true).expect("dir");
    let fields = table.stat_fields(dir, &tmp, &img, false).expect("stat");
    assert_eq!(fields.st_mode & S_IFDIR, S_IFDIR);
    assert_eq!(mode_for_path(b"/etc", NodeKind::Dir) & S_IFDIR, S_IFDIR);
    let stale = NodeId { index: file.index, generation: file.generation + 1 };
    assert!(table.stat_fields(stale, &tmp, &img, false).is_err());
    assert!(table.check_node(stale).is_err());
}

#[test]
fn files_under_tmp_keep_what_was_written() {
    let (mut table, mut tmp) = fresh_table();
    let img = image();
    let node = table
        .open_create_file(b"/tmp/note", false, &mut tmp, &img)
        .expect("create");
    let object = table.object_id_for_node(node).expect("object");
    assert_eq!(object, LINUX_TMP_OBJECT_ID_BASE);
    assert_eq!(tmp.tmp_file_lookup_by_path(b"/tmp/note"), Some(object));
    let done = ObjectPoll::Complete { len: 5, payload: [0u8; 512] };
    assert_eq!(
        tmp.object_write_sync(object, b"hello", Ok(1), &done, Ok(0)),
        Ok(ObjectIo::Done(5))
    );
    let mut out = [0u8; 16];
    assert_eq!(tmp.tmp_file_read_local(object, 1, &mut out), Ok(4));
    assert_eq!(&out[..4], b"ello");
    assert_eq!(tmp.tmp_scratch_for(object).expect("scratch")[..5], b"hello"[..]);
    assert_eq!(tmp.tmp_file_by_object_id(object).expect("state").len, 5);
    let again = table
        .open_create_file(b"/tmp/note", true, &mut tmp, &img)
        .expect("reopen");
    assert_eq!(again, node);
    assert_eq!(tmp.tmp_file_read_local(object, 0, &mut out), Ok(0));
    tmp.bootstrap_tmp_file_bytes(b"/tmp/other", b"seed").expect("bytes");
    let other = tmp.tmp_file_lookup_by_path(b"/tmp/other").expect("other");
    assert_eq!(tmp.tmp_file_read_local(other, 0, &mut out), Ok(4));
    assert_eq!(&out[..4], b"seed");
    assert_eq!(tmp.bootstrap_tmp_file_bytes(b"/tmp/big", &[0u8; 513]), Err(EFBIG));
    assert_eq!(table.mkdir(b"/tmp/note", &tmp, &img), Err(EEXIST));
    assert_eq!(table.mkdir(b"/etc/x", &tmp, &img), Err(EROFS));
}

#[test]
fn objects_are_read_and_written_through_the_queue() {
    let mut tmp = TmpStore::new();
    let object = tmp.tmp_file_create(b"/tmp/q").expect("create");
    assert_eq!(tmp.needs_submit(object), Ok(true));
    let started = tmp
        .object_write_sync(object, b"abc", Ok(41), &ObjectPoll::Pending, Ok(0))
        .expect("start");
    assert!(matches!(started, ObjectIo::Restart(_)));
    assert_eq!(tmp.needs_submit(object), Ok(false));
    let done = ObjectPoll::Complete { len: 3, payload: [0u8; 512] };
    assert_eq!(
        tmp.object_write_sync(object, b"abc", Ok(41), &done, Ok(0)),
        Ok(ObjectIo::Done(3))
    );
    let mut payload = [0u8; 512];
    payload[..3].copy_from_slice(b"xyz");
    let mut out = [0u8; 8];
    assert_eq!(
        tmp.object_read_sync(object, Ok(42), &ObjectPoll::Complete { len: 3, payload }, Ok(0), &mut out),
        Ok(ObjectIo::Done(3))
    );
    assert_eq!(&out[..3], b"xyz");
    assert!(tmp
        .object_read_sync(object, Err(SyscallQueueError::QueueFull), &ObjectPoll::Pending, Ok(0), &mut out)
        .is_err());
    assert_eq!(
        tmp.object_write_sync(object, &[0u8; 513], Ok(43), &ObjectPoll::Pending, Ok(0)),
        Err(EFBIG)
    );
    assert_eq!(
        tmp.object_write_sync(object + 3, b"a", Ok(43), &ObjectPoll::Pending, Ok(0)),
        Err(ENOENT)
    );
    assert_eq!(queue_err(SyscallQueueError::QueueFull), ENOSPC);
    assert_eq!(queue_err(SyscallQueueError::Unauthorized), EINVAL);
    assert_eq!(queue_err(SyscallQueueError::InvalidRequest), EINVAL);
    assert_eq!(queue_err(SyscallQueueError::CompletionStatus(3)), EIO);
    assert_ne!(object_wait_key(1), object_wait_key(2));
}

#[test]
fn root_image_is_checked() {
    assert_eq!(check_rootfs(&image()), Ok(RootfsSummary { entries: 7, busybox_bytes: 11 }));
    let empty = Image { entries: vec![entry(b"/bin", EntryKind::Dir, b"")] };
    assert_eq!(check_rootfs(&empty), Err(RootfsIntegrityError::BadPath));
    let link_only = Image { entries: vec![entry(b"/bin/busybox", EntryKind::Link, b"/x")] };
    assert_eq!(check_rootfs(&link_only), Err(RootfsIntegrityError::BadEntryKind));
    assert_eq!(image().children(b"/etc"), vec![5]);
    assert_eq!(image().find_entry_index(b"/tmp"), Some(6));
}

/// The number of slots that some id of a low generation names.
fn live_slots(table: &NodeTable) -> usize {
    let mut live = 0;
    for index in 0..LINUX_FS_MAX_NODES as u16 {
        let named = (0..8u32).any(|generation| table.check_node(NodeId { index, generation }).is_ok());
        if named {
            live += 1;
        }
    }
    live
}

#[test]
fn every_live_node_is_counted() {
    let (mut table, mut tmp) = fresh_table();
    let img = image();
    assert_eq!(table.live_count(), 1);
    table.lookup_path(b"/bin/sh", &tmp, &img, true).expect("sh");
    assert_eq!(table.live_count(), 4);
    assert_eq!(table.lookup_path(b"/etc/none", &tmp, &img, true), Err(ENOENT));
    assert_eq!(table.live_count(), 5);
    table.mkdir(b"/tmp/d", &tmp, &img).expect("mkdir");
    let file = table.open_create_file(b"/tmp/f", false, &mut tmp, &img).expect("file");
    assert_eq!(table.live_count(), 8);
    assert_eq!(live_slots(&table), 8);
    table.evict_node(file).expect("evict");
    assert_eq!(table.live_count(), 7);
    assert_eq!(live_slots(&table), 7);
    let root = table.lookup_path(b"/", &tmp, &img, true).expect("root");
    assert_eq!(table.evict_node(root), Err(EACCES));
    assert_eq!(table.live_count(), 7);
}

#[test]
fn a_path_is_found_again_however_it_is_written() {
    let (mut table, tmp) = fresh_table();
    let img = image();
    let id = table.lookup_path(b"/bin/busybox", &tmp, &img, false).expect("first");
    let count = table.live_count();
    assert_eq!(table.lookup_path(b"//bin/./x/../busybox", &tmp, &img, false), Ok(id));
    assert_eq!(table.check_node(id), Ok(()));
    assert_eq!(table.live_count(), count);
}

#[test]
fn a_path_is_found_again_after_its_directory_was_evicted() {
    let (mut table, tmp) = fresh_table();
    let img = image();
    table.mkdir(b"/tmp/d", &tmp, &img).expect("d");
    table.mkdir(b"/tmp/d/x", &tmp, &img).expect("x");
    let d = table.lookup_path(b"/tmp/d", &tmp, &img, false).expect("d");
    let x = table.lookup_path(b"/tmp/d/x", &tmp, &img, false).expect("x");
    table.evict_node(d).expect("evict");
    assert_eq!(table.lookup_path(b"/tmp/d/x", &tmp, &img, false), Err(ENOENT));
    assert_eq!(table.check_node(x), Ok(()));
    table.mkdir(b"/tmp/e", &tmp, &img).expect("e takes the slot");
    assert_eq!(table.check_node(d), Err(EBADF));
    assert_eq!(table.lookup_path(b"/tmp/e/x", &tmp, &img, false), Ok(x));
    let count = table.live_count();
    assert_eq!(table.lookup_path(b"/tmp//e/x", &tmp, &img, false), Ok(x));
    assert_eq!(table.live_count(), count);
}

#[test]
fn the_path_of_a_found_node_is_the_path_looked_up() {
    let (mut table, tmp) = fresh_table();
    let img = image();
    table.mkdir(b"/tmp/a", &tmp, &img).expect("a");
    table.mkdir(b"/tmp/a/b", &tmp, &img).expect("b");
    let id = table.lookup_path(b"/tmp/./a//b/", &tmp, &img, false).expect("b");
    let buf = table.path_of(id.index).expect("path");
    assert_eq!(&buf[..8], b"/tmp/a/b");
    assert!(buf[8..].iter().all(|&byte| byte == 0));
    let link = table.lookup_path(b"/bin/sh", &tmp, &img, false).expect("link");
    assert_eq!(&table.path_of(link.index).expect("path")[..8], b"/bin/sh\0");
}

fn image_with_links() -> Image {
    Image {
        entries: vec![
            entry(b"/l1", EntryKind::Link, b"/l2"),
            entry(b"/l2", EntryKind::Link, b"/l3"),
            entry(b"/l3", EntryKind::Link, b"/f"),
            entry(b"/f", EntryKind::File, b"end"),
        ],
    }
}

#[test]
fn two_links_are_followed_and_a_third_is_not() {
    let (mut table, tmp) = fresh_table();
    let img = image_with_links();
    assert_eq!(table.lookup_path(b"/l1", &tmp, &img, true), Err(ELOOP));
    let end = table.lookup_path(b"/f", &tmp, &img, false).expect("file");
    assert_eq!(table.lookup_path(b"/l2", &tmp, &img, true), Ok(end));
    assert_eq!(table.lookup_path(b"/l3", &tmp, &img, true), Ok(end));
    assert_eq!(table.node_kind(end), Ok(NodeKind::File));
    let first = table.lookup_path(b"/l1", &tmp, &img, false).expect("link");
    assert_eq!(table.node_kind(first), Ok(NodeKind::Link));
    assert_ne!(first, end);
}

#[test]
fn a_directory_just_made_is_found_and_not_made_twice() {
    let (mut table, tmp) = fresh_table();
    let img = image();
    table.mkdir(b"/tmp/new", &tmp, &img).expect("mkdir");
    let count = table.live_count();
    let id = table.lookup_path(b"/tmp/new", &tmp, &img, false).expect("found");
    assert_eq!(table.node_kind(id), Ok(NodeKind::Dir));
    assert_eq!(table.mkdir(b"/tmp/new", &tmp, &img), Err(EEXIST));
    assert_eq!(table.live_count(), count);
    assert_eq!(table.mkdir(b"/new", &tmp, &img), Err(EROFS));
}

#[test]
fn a_file_opened_twice_is_the_same_file() {
    let (mut table, mut tmp) = fresh_table();
    let img = image();
    let id = table.open_create_file(b"/tmp/log", false, &mut tmp, &img).expect("create");
    let object = table.object_id_for_node(id).expect("object");
    let count = table.live_count();
    assert_eq!(table.node_kind(id), Ok(NodeKind::File));
    assert_eq!(table.open_create_file(b"/tmp/log", true, &mut tmp, &img), Ok(id));
    assert_eq!(table.open_create_file(b"/tmp//log", false, &mut tmp, &img), Ok(id));
    assert_eq!(table.object_id_for_node(id), Ok(object));
    assert_eq!(table.live_count(), count);
}

#[test]
fn a_full_table_takes_a_directory_once_a_node_was_evicted() {
    let (mut table, tmp) = fresh_table();
    let img = image();
    let mut leaf = NodeId { index: 0, generation: 1 };
    'fill: for a in 0..LINUX_TMP_MAX_ENTRIES {
        table.mkdir(format!("/tmp/p{a}").as_bytes(), &tmp, &img).expect("parent");
        for b in 0..LINUX_TMP_MAX_ENTRIES {
            if table.live_count() as usize == LINUX_FS_MAX_NODES {
                break 'fill;
            }
            let path = format!("/tmp/p{a}/c{b}");
            table.mkdir(path.as_bytes(), &tmp, &img).expect("child");
            leaf = table.lookup_path(path.as_bytes(), &tmp, &img, false).expect("leaf");
        }
    }
    assert_eq!(table.live_count() as usize, LINUX_FS_MAX_NODES);
    let last = table.lookup_path(b"/tmp/p6", &tmp, &img, false).expect("last parent");
    assert_ne!(last, leaf);
    assert_eq!(table.mkdir(b"/tmp/p6/more", &tmp, &img), Err(ENFILE));
    assert_eq!(table.live_count() as usize, LINUX_FS_MAX_NODES);
    table.evict_node(leaf).expect("evict");
    assert_eq!(table.live_count() as usize, LINUX_FS_MAX_NODES - 1);
    assert_eq!(table.mkdir(b"/tmp/p6/more", &tmp, &img), Ok(()));
    assert_eq!(table.live_count() as usize, LINUX_FS_MAX_NODES);
    let more = table.lookup_path(b"/tmp/p6/more", &tmp, &img, false).expect("more");
    assert_eq!(more.index, leaf.index);
    assert_ne!(more.generation, leaf.generation);
    assert_eq!(table.check_node(leaf), Err(EBADF));
}

#[test]
fn what_cannot_be_executed_is_refused() {
    let (mut table, mut tmp) = fresh_table();
    let img = image();
    table.open_create_file(b"/tmp/prog", false, &mut tmp, &img).expect("create");
    assert_eq!(
        resolve_executable_bytes(&mut table, &tmp, &img, b"/tmp/prog"),
        Err(EACCES)
    );
    assert_eq!(resolve_executable_bytes(&mut table, &tmp, &img, b"/tmp"), Err(EACCES));
    assert_eq!(resolve_executable_bytes(&mut table, &tmp, &img, b"/bin/none"), Err(ENOENT));
    let sh = resolve_executable_bytes(&mut table, &tmp, &img, b"/bin/sh").expect("sh");
    let ls = resolve_executable_bytes(&mut table, &tmp, &img, b"/bin/ls").expect("ls");
    assert_eq!(sh, b"\x7fELFbusybox");
    assert_eq!(sh, ls);
}
