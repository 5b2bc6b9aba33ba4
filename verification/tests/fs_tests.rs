use async_os::devfs::{DevKind, DeviceFileSystem};
use async_os::mounts::{
    create_dir_decision, current_dir_check, dir_path, lookup_check, remove_dir_decision, remove_file_decision,
    root_mounts, root_op_check, RootOp,
};
use async_os::ramfs::RamFileSystem;
use async_os::stdio::{stdin_ioctl, IoctlReply, StdioFlags, FIOCLEX, O_CLOEXEC, TCGETS, TIOCGPGRP, TIOCGWINSZ, TIOCSPGRP};
use async_os::vfs::{split_path, VfsDirEntry, VfsError, VfsNodeType};

fn b(s: &str) -> &[u8] {
    s.as_bytes()
}

fn ramfs_ops(fs: &mut RamFileSystem) {
    const N: usize = 32;
    const N_HALF: usize = N / 2;
    let mut buf = [1u8; N];

    let root = fs.root_dir();
    assert!(fs.get_attr(root).is_dir());
    assert_eq!(fs.get_attr(root).file_type(), VfsNodeType::Dir);
    assert_eq!(fs.lookup(root, b("urandom")).err(), Some(VfsError::NotFound));
    assert_eq!(fs.lookup(root, b("f1/")).err(), Some(VfsError::NotADirectory));

    let node = fs.lookup(root, b("////f1")).unwrap();
    assert_eq!(fs.get_attr(node).file_type(), VfsNodeType::File);
    assert!(!fs.get_attr(node).is_dir());
    assert_eq!(fs.get_attr(node).size(), 0);
    assert_eq!(fs.read_at(node, 0, &mut buf).unwrap(), 0);
    assert_eq!(buf, [1; N]);

    let half = buf[..N_HALF].to_vec();
    assert_eq!(fs.write_at(node, N_HALF as u64, &half).unwrap(), N_HALF);
    assert_eq!(fs.read_at(node, 0, &mut buf).unwrap(), N);
    assert_eq!(buf[..N_HALF], [0; N_HALF]);
    assert_eq!(buf[N_HALF..], [1; N_HALF]);
    assert_eq!(fs.lookup(node, b("/")).err(), Some(VfsError::NotADirectory));

    let foo = fs.lookup(fs.root_dir(), b(".///.//././/.////foo")).unwrap();
    assert!(fs.get_attr(foo).is_dir());
    assert_eq!(fs.read_at(foo, 10, &mut buf).err(), Some(VfsError::IsADirectory));
    assert_eq!(
        fs.lookup(foo, b("/f3")).unwrap(),
        fs.lookup(fs.root_dir(), b(".//./foo///f3")).unwrap()
    );
    let f4 = fs.lookup(foo, b("/bar//f4")).unwrap();
    assert_eq!(fs.get_attr(f4).file_type(), VfsNodeType::File);
    let bar = fs.lookup(foo, b("/bar///")).unwrap();
    assert_eq!(fs.get_attr(bar).file_type(), VfsNodeType::Dir);
}

fn ramfs_get_parent(fs: &RamFileSystem) {
    let root = fs.root_dir();
    assert!(fs.parent(root).is_none());

    let node = fs.lookup(root, b("f1")).unwrap();
    assert!(fs.parent(node).is_none());

    let node = fs.lookup(root, b(".//foo/bar")).unwrap();
    assert!(fs.parent(node).is_some());
    let parent = fs.parent(node).unwrap();
    assert_eq!(parent, fs.lookup(root, b("foo")).unwrap());
    assert!(fs.lookup(parent, b("bar")).is_ok());

    let node = fs.lookup(root, b("foo/..")).unwrap();
    assert_eq!(node, fs.lookup(root, b(".")).unwrap());

    assert_eq!(
        fs.lookup(root, b("/foo/..")).unwrap(),
        fs.lookup(fs.root_dir(), b(".//./foo/././bar/../..")).unwrap()
    );
    assert_eq!(
        fs.lookup(root, b("././/foo//./../foo//bar///..//././")).unwrap(),
        fs.lookup(fs.root_dir(), b(".//./foo/")).unwrap()
    );
    assert_eq!(
        fs.lookup(root, b("///foo//bar///../f3")).unwrap(),
        fs.lookup(root, b("foo/.//f3")).unwrap()
    );
}

#[test]
fn test_ramfs() {
    // .
    // ├── foo
    // │   ├── bar
    // │   │   └── f4
    // │   └── f3
    // ├── f1
    // └── f2
    let mut ramfs = RamFileSystem::new();
    let root = ramfs.root_dir();
    ramfs.create(root, b("f1"), VfsNodeType::File).unwrap();
    ramfs.create(root, b("f2"), VfsNodeType::File).unwrap();
    ramfs.create(root, b("foo"), VfsNodeType::Dir).unwrap();

    let dir_foo = ramfs.lookup(root, b("foo")).unwrap();
    ramfs.create(dir_foo, b("f3"), VfsNodeType::File).unwrap();
    ramfs.create(dir_foo, b("bar"), VfsNodeType::Dir).unwrap();

    let dir_bar = ramfs.lookup(dir_foo, b("bar")).unwrap();
    ramfs.create(dir_bar, b("f4"), VfsNodeType::File).unwrap();

    let mut entries = ramfs.get_entries(root);
    entries.sort();
    assert_eq!(entries, vec![b"f1".to_vec(), b"f2".to_vec(), b"foo".to_vec()]);

    ramfs_ops(&mut ramfs);
    ramfs_get_parent(&ramfs);

    let root = ramfs.root_dir();
    assert_eq!(ramfs.remove(root, b("f1")), Ok(()));
    assert_eq!(ramfs.remove(root, b("//f2")), Ok(()));
    assert_eq!(ramfs.remove(root, b("f3")).err(), Some(VfsError::NotFound));
    assert_eq!(ramfs.remove(root, b("foo")).err(), Some(VfsError::DirectoryNotEmpty));
    assert_eq!(ramfs.remove(root, b("foo/..")).err(), Some(VfsError::InvalidInput));
    assert_eq!(ramfs.remove(root, b("foo/./bar")).err(), Some(VfsError::DirectoryNotEmpty));
    assert_eq!(ramfs.remove(root, b("foo/bar/f4")), Ok(()));
    assert_eq!(ramfs.remove(root, b("foo/bar")), Ok(()));
    assert_eq!(ramfs.remove(root, b("./foo//.//f3")), Ok(()));
    assert_eq!(ramfs.remove(root, b("./foo")), Ok(()));
    assert!(ramfs.get_entries(root).is_empty());
}

fn devfs_ops(devfs: &mut DeviceFileSystem) {
    const N: usize = 32;
    let mut buf = [1u8; N];

    let root = devfs.root_dir();
    assert!(devfs.get_attr(root).is_dir());
    assert_eq!(devfs.get_attr(root).file_type(), VfsNodeType::Dir);
    assert_eq!(devfs.lookup(root, b("urandom")).err(), Some(VfsError::NotFound));
    assert_eq!(devfs.lookup(root, b("zero/")).err(), Some(VfsError::NotADirectory));

    let node = devfs.lookup(root, b("////null")).unwrap();
    assert_eq!(devfs.get_attr(node).file_type(), VfsNodeType::CharDevice);
    assert!(!devfs.get_attr(node).is_dir());
    assert_eq!(devfs.get_attr(node).size(), 0);
    assert_eq!(devfs.read_at(node, 0, &mut buf).unwrap(), 0);
    assert_eq!(buf, [1; N]);
    assert_eq!(devfs.write_at(node, N as u64, &buf).unwrap(), N);
    assert_eq!(devfs.lookup(node, b("/")).err(), Some(VfsError::NotADirectory));

    let node = devfs.lookup(devfs.root_dir(), b(".///.//././/.////zero")).unwrap();
    assert_eq!(devfs.get_attr(node).file_type(), VfsNodeType::CharDevice);
    assert!(!devfs.get_attr(node).is_dir());
    assert_eq!(devfs.get_attr(node).size(), 0);
    assert_eq!(devfs.read_at(node, 10, &mut buf).unwrap(), N);
    assert_eq!(buf, [0; N]);
    assert_eq!(devfs.write_at(node, 0, &buf).unwrap(), N);

    let foo = devfs.lookup(devfs.root_dir(), b(".///.//././/.////foo")).unwrap();
    assert!(devfs.get_attr(foo).is_dir());
    assert_eq!(devfs.read_at(foo, 10, &mut buf).err(), Some(VfsError::IsADirectory));
    assert_eq!(
        devfs.lookup(foo, b("/f2")).unwrap(),
        devfs.lookup(devfs.root_dir(), b(".//./foo///f2")).unwrap()
    );
    let f1 = devfs.lookup(foo, b("/bar//f1")).unwrap();
    assert_eq!(devfs.get_attr(f1).file_type(), VfsNodeType::CharDevice);
    let bar = devfs.lookup(foo, b("/bar///")).unwrap();
    assert_eq!(devfs.get_attr(bar).file_type(), VfsNodeType::Dir);
}

fn devfs_get_parent(devfs: &DeviceFileSystem) {
    let root = devfs.root_dir();
    assert!(devfs.parent(root).is_none());

    let node = devfs.lookup(root, b("null")).unwrap();
    assert!(devfs.parent(node).is_none());

    let node = devfs.lookup(root, b(".//foo/bar")).unwrap();
    assert!(devfs.parent(node).is_some());
    let parent = devfs.parent(node).unwrap();
    assert_eq!(parent, devfs.lookup(root, b("foo")).unwrap());
    assert!(devfs.lookup(parent, b("bar")).is_ok());

    let node = devfs.lookup(root, b("foo/..")).unwrap();
    assert_eq!(node, devfs.lookup(root, b(".")).unwrap());

    assert_eq!(
        devfs.lookup(root, b("/foo/..")).unwrap(),
        devfs.lookup(devfs.root_dir(), b(".//./foo/././bar/../..")).unwrap()
    );
    assert_eq!(
        devfs.lookup(root, b("././/foo//./../foo//bar///..//././")).unwrap(),
        devfs.lookup(devfs.root_dir(), b(".//./foo/")).unwrap()
    );
    assert_eq!(
        devfs.lookup(root, b("///foo//bar///../f2")).unwrap(),
        devfs.lookup(root, b("foo/.//f2")).unwrap()
    );
}

#[test]
fn test_devfs() {
    // .
    // ├── foo
    // │   ├── bar
    // │   │   └── f1 (null)
    // │   └── f2 (zero)
    // ├── null
    // └── zero
    let mut devfs = DeviceFileSystem::new();
    let root = devfs.root_dir();
    devfs.add(root, b("null"), DevKind::Null);
    devfs.add(root, b("zero"), DevKind::Zero);

    let dir_foo = devfs.mkdir(root, b("foo"));
    devfs.add(dir_foo, b("f2"), DevKind::Zero);
    let dir_bar = devfs.mkdir(dir_foo, b("bar"));
    devfs.add(dir_bar, b("f1"), DevKind::Null);

    devfs_ops(&mut devfs);
    devfs_get_parent(&devfs);
}

#[test]
fn devfs_refuses_create_and_remove() {
    let mut devfs = DeviceFileSystem::new();
    let root = devfs.root_dir();
    devfs.add(root, b("null"), DevKind::Null);
    let foo = devfs.mkdir(root, b("foo"));
    assert_eq!(devfs.create(root, b("new"), VfsNodeType::File), Err(VfsError::PermissionDenied));
    assert_eq!(devfs.create(root, b("foo/.."), VfsNodeType::Dir), Ok(()));
    assert_eq!(devfs.create(root, b("missing/x"), VfsNodeType::File), Err(VfsError::NotFound));
    assert_eq!(devfs.create(root, b("null/x"), VfsNodeType::File), Err(VfsError::NotADirectory));
    assert_eq!(devfs.remove(root, b("null")), Err(VfsError::PermissionDenied));
    assert_eq!(devfs.remove(foo, b("..")), Err(VfsError::PermissionDenied));
    assert_eq!(devfs.truncate(foo, 0), Err(VfsError::IsADirectory));
}

#[test]
fn devfs_add_replaces_entry() {
    let mut devfs = DeviceFileSystem::new();
    let root = devfs.root_dir();
    let first = devfs.add(root, b("dev"), DevKind::Null);
    let second = devfs.add(root, b("dev"), DevKind::Zero);
    assert_ne!(first, second);
    assert_eq!(devfs.lookup(root, b("dev")).unwrap(), second);
    let mut buf = [7u8; 4];
    assert_eq!(devfs.read_at(second, 0, &mut buf), Ok(4));
    assert_eq!(buf, [0u8; 4]);
}

#[test]
fn devfs_random_device_fills_buffer() {
    let mut devfs = DeviceFileSystem::new();
    let root = devfs.root_dir();
    let r = devfs.add(root, b("urandom"), DevKind::Random);
    let mut buf = [1u8; 32];
    assert_eq!(devfs.read_at(r, 0, &mut buf), Ok(32));
    assert_ne!(buf, [1u8; 32]);
    let mut again = [1u8; 32];
    assert_eq!(devfs.read_at(r, 0, &mut again), Ok(32));
    assert_ne!(again, buf);
    assert_eq!(devfs.get_attr(r).file_type(), VfsNodeType::CharDevice);
}

#[test]
fn devfs_read_dir_lists_dot_entries_then_names() {
    let mut devfs = DeviceFileSystem::new();
    let root = devfs.root_dir();
    devfs.add(root, b("zero"), DevKind::Zero);
    devfs.mkdir(root, b("a"));
    let mut ents: Vec<VfsDirEntry> = (0..5).map(|_| VfsDirEntry::default()).collect();
    assert_eq!(devfs.read_dir(root, 0, &mut ents), Ok(4));
    assert_eq!(ents[0].name, b".".to_vec());
    assert_eq!(ents[1].name, b"..".to_vec());
    assert_eq!(ents[2].name, b"a".to_vec());
    assert_eq!(ents[2].ty, VfsNodeType::Dir);
    assert_eq!(ents[3].name, b"zero".to_vec());
    assert_eq!(ents[3].ty, VfsNodeType::CharDevice);
}

#[test]
fn ramfs_read_after_write_and_truncate() {
    let mut fs = RamFileSystem::new();
    let root = fs.root_dir();
    fs.create(root, b("f"), VfsNodeType::File).unwrap();
    let f = fs.lookup(root, b("f")).unwrap();
    assert_eq!(fs.write_at(f, 3, b"abc"), Ok(3));
    let mut out = [9u8; 6];
    assert_eq!(fs.read_at(f, 0, &mut out), Ok(6));
    assert_eq!(out, [0, 0, 0, b'a', b'b', b'c']);
    assert_eq!(fs.truncate(f, 4), Ok(()));
    assert_eq!(fs.get_attr(f).size(), 4);
    let mut out = [9u8; 6];
    assert_eq!(fs.read_at(f, 2, &mut out), Ok(2));
    assert_eq!(out, [0, b'a', 9, 9, 9, 9]);
    assert_eq!(fs.create(root, b("f"), VfsNodeType::File), Err(VfsError::AlreadyExists));
    assert_eq!(fs.create(root, b("s"), VfsNodeType::Socket), Err(VfsError::Unsupported));
    assert_eq!(fs.remove(root, b(".")), Err(VfsError::InvalidInput));
}

#[test]
fn split_path_splits_first_component() {
    let (name, rest) = split_path(b("//a/b/c"));
    assert_eq!(name, b"a".to_vec());
    assert_eq!(rest, Some(b"b/c".to_vec()));
    let (name, rest) = split_path(b("abc"));
    assert_eq!(name, b"abc".to_vec());
    assert_eq!(rest, None);
}

#[test]
fn root_path_decisions() {
    assert_eq!(lookup_check(b"", true), Err(VfsError::NotFound));
    assert_eq!(lookup_check(b"/a/", false), Err(VfsError::NotADirectory));
    assert_eq!(lookup_check(b"/a/", true), Ok(()));
    assert_eq!(lookup_check(b"/a", false), Ok(()));
    assert_eq!(create_dir_decision(Ok(())), Err(VfsError::AlreadyExists));
    assert_eq!(create_dir_decision(Err(VfsError::NotFound)), Ok(()));
    assert_eq!(create_dir_decision(Err(VfsError::NotADirectory)), Err(VfsError::NotADirectory));
    assert_eq!(remove_file_decision(true, true), Err(VfsError::IsADirectory));
    assert_eq!(remove_file_decision(false, false), Err(VfsError::PermissionDenied));
    assert_eq!(remove_file_decision(false, true), Ok(()));
    assert_eq!(remove_dir_decision(true, true, true), Err(VfsError::PermissionDenied));
    assert_eq!(remove_dir_decision(false, false, true), Err(VfsError::NotADirectory));
    assert_eq!(remove_dir_decision(false, true, false), Err(VfsError::PermissionDenied));
    assert_eq!(remove_dir_decision(false, true, true), Ok(()));
    assert_eq!(dir_path(b"/a/b"), b"/a/b/".to_vec());
    assert_eq!(dir_path(b"/a/b/"), b"/a/b/".to_vec());
    assert_eq!(dir_path(b""), b"/".to_vec());
    assert_eq!(current_dir_check(false, true), Err(VfsError::NotADirectory));
    assert_eq!(current_dir_check(true, false), Err(VfsError::PermissionDenied));
    assert_eq!(current_dir_check(true, true), Ok(()));
}

#[test]
fn stdio_answers_terminal_requests() {
    assert_eq!(stdin_ioctl(TIOCGWINSZ), Ok(IoctlReply::WinSize));
    assert_eq!(stdin_ioctl(TIOCGPGRP), Ok(IoctlReply::ProcessGroup));
    assert_eq!(stdin_ioctl(TCGETS), Ok(IoctlReply::Nothing));
    assert_eq!(stdin_ioctl(TIOCSPGRP), Ok(IoctlReply::Nothing));
    assert_eq!(stdin_ioctl(FIOCLEX), Ok(IoctlReply::Nothing));
    assert_eq!(stdin_ioctl(0x1234), Err(VfsError::Unsupported));
}

#[test]
fn stdio_flags_keep_close_on_exec() {
    let mut f = StdioFlags::new();
    assert_eq!(f.get_status(), 0);
    assert!(!f.set_status(0o2));
    assert_eq!(f.get_status(), 0);
    assert!(f.set_status(O_CLOEXEC | 0o2));
    assert_eq!(f.get_status(), O_CLOEXEC | 0o2);
    assert!(f.set_close_on_exec(false));
    assert_eq!(f.get_status(), 0o2);
    assert!(f.set_close_on_exec(true));
    assert_eq!(f.get_status(), O_CLOEXEC | 0o2);
}

#[test]
fn root_answers_on_mount_points() {
    assert_eq!(root_op_check(RootOp::Create, b""), Some(Ok(())));
    assert_eq!(root_op_check(RootOp::Remove, b""), Some(Err(VfsError::PermissionDenied)));
    assert_eq!(root_op_check(RootOp::Rename, b""), Some(Err(VfsError::PermissionDenied)));
    assert_eq!(root_op_check(RootOp::Remove, b"a"), None);
}

#[test]
fn root_file_system_mounts() {
    let t = root_mounts(true, true, false, false);
    assert!(t.contains(b"/dev"));
    assert!(t.contains(b"/dev/shm"));
    assert!(t.contains(b"/tmp"));
    assert!(t.contains(b"/var"));
    assert!(!t.contains(b"/proc"));
    let (idx, rest) = t.lookup_mounted_fs(b"/dev/shm/a");
    assert_eq!(idx, Some(1));
    assert_eq!(rest, b"/a".to_vec());
    let all = root_mounts(true, true, true, true);
    assert!(all.contains(b"/proc") && all.contains(b"/sys"));
    let none = root_mounts(false, false, false, false);
    assert!(!none.contains(b"/dev"));
}
