use loaf::base::{BaseLayer, BaseMeta};
use loaf::db::{Attrs, Database, ItemType};
use loaf::nfs::{
    attrs_to_fattr3, filename_to_str, item_type_to_ftype, map_err, nfspath_to_string, AttrChange, FileKind,
    NfsOverlay, NfsStatus, TimeChange,
};
use loaf::overlay::{OverlayError, OverlayFs};

fn setup() -> (NfsOverlay, BaseLayer) {
    (NfsOverlay::new(OverlayFs::new(Database::open(), "/base")), BaseLayer::new())
}

fn no_change() -> AttrChange {
    AttrChange { mode: None, size: None, atime: TimeChange::DontChange, mtime: TimeChange::DontChange }
}

fn meta(mode: u32, size: u64) -> BaseMeta {
    BaseMeta { mode, uid: 501, gid: 20, size, nlink: 1, atime: (10, 0), mtime: (20, 0), ctime: (30, 0) }
}

#[test]
fn test_nfs_root_dir() {
    let (nfs, _) = setup();
    assert_eq!(nfs.root_dir(), 1);
}

#[test]
fn test_nfs_getattr_root() {
    let (nfs, base) = setup();
    let mut base = base;
    base.add_dir("/", meta(0o40755, 64));
    let attrs = nfs.getattr(1, &base).unwrap();
    assert_eq!(attrs.fileid, 1);
    assert_eq!(attrs.ftype, FileKind::Directory);
}

#[test]
fn test_nfs_create_and_lookup() {
    let (mut nfs, base) = setup();
    let filename = b"test.txt".to_vec();
    let (file_id, attrs) = nfs.create(1, &filename, None, &base).unwrap();
    assert_eq!(attrs.ftype, FileKind::Regular);
    let looked_up = nfs.lookup(1, &filename, &base).unwrap();
    assert_eq!(looked_up, file_id);
}

#[test]
fn test_nfs_write_and_read() {
    let (mut nfs, base) = setup();
    let filename = b"test.txt".to_vec();
    let (file_id, _) = nfs.create(1, &filename, None, &base).unwrap();

    let data = b"hello world";
    nfs.write(file_id, 0, data, &base).unwrap();

    let (read_data, eof) = nfs.read(file_id, 0, 100, &base).unwrap();
    assert_eq!(read_data, data);
    assert!(eof);
}

#[test]
fn test_nfs_mkdir_and_readdir() {
    let (mut nfs, base) = setup();
    let dirname = b"testdir".to_vec();
    let (dir_id, attrs) = nfs.mkdir(1, &dirname, &base).unwrap();
    assert_eq!(attrs.ftype, FileKind::Directory);

    let result = nfs.readdir(1, 0, 10, &base).unwrap();
    assert_eq!(result.entries.len(), 1);
    assert_eq!(result.entries[0].fileid, dir_id);
    assert_eq!(result.entries[0].name, dirname);
}

#[test]
fn test_nfs_symlink_and_readlink() {
    let (mut nfs, base) = setup();
    let linkname = b"link".to_vec();
    let target = b"/target/path".to_vec();
    let (link_id, attrs) = nfs.symlink(1, &linkname, &target, &base).unwrap();
    assert_eq!(attrs.ftype, FileKind::Symlink);

    let read_target = nfs.readlink(link_id, &base).unwrap();
    assert_eq!(read_target, target);
}

#[test]
fn test_nfs_rename() {
    let (mut nfs, base) = setup();
    let old_name = b"old.txt".to_vec();
    let new_name = b"new.txt".to_vec();
    let (file_id, _) = nfs.create(1, &old_name, None, &base).unwrap();

    nfs.rename(1, &old_name, 1, &new_name, &base).unwrap();

    assert!(nfs.lookup(1, &old_name, &base).is_err());
    let new_id = nfs.lookup(1, &new_name, &base).unwrap();
    assert_eq!(new_id, file_id);
}

#[test]
fn test_nfs_remove() {
    let (mut nfs, base) = setup();
    let filename = b"test.txt".to_vec();
    nfs.create(1, &filename, None, &base).unwrap();
    nfs.remove(1, &filename, &base).unwrap();
    assert!(nfs.lookup(1, &filename, &base).is_err());
}

#[test]
fn test_nfs_setattr() {
    let (mut nfs, base) = setup();
    let filename = b"test.txt".to_vec();
    let (file_id, _) = nfs.create(1, &filename, None, &base).unwrap();
    let change = AttrChange { mode: Some(0o600), ..no_change() };
    let attrs = nfs.setattr(file_id, change, &base).unwrap();
    assert_eq!(attrs.mode & 0o777, 0o600);
}

#[test]
fn test_nfs_lookup_operation() {
    let (mut nfs, base) = setup();
    let (file_id, _) = nfs.create(1, b"test.txt", Some(0o644), &base).unwrap();
    assert_eq!(nfs.lookup(1, b"test.txt", &base).unwrap(), file_id);
}

#[test]
fn test_nfs_lookup_non_existent_returns_error() {
    let (mut nfs, base) = setup();
    assert_eq!(nfs.lookup(1, b"nonexistent.txt", &base), Err(NfsStatus::NoEnt));
}

#[test]
fn test_nfs_getattr_operation() {
    let (mut nfs, base) = setup();
    let (file_id, _) = nfs.create(1, b"attrs.txt", Some(0o644), &base).unwrap();
    let attrs = nfs.getattr(file_id, &base).unwrap();
    assert_eq!(attrs.ftype, FileKind::Regular);
    assert!(attrs.mode & 0o170000 != 0, "mode should include file type bits");
    assert_eq!(attrs.mode, 0o100644);
}

#[test]
fn test_nfs_create_and_write_operations() {
    let (mut nfs, base) = setup();
    let (file_id, attrs) = nfs.create(1, b"newfile.txt", None, &base).unwrap();
    assert_eq!(attrs.ftype, FileKind::Regular);
    assert_eq!(attrs.mode, 0o100644);
    let data = b"hello from NFS";
    let after = nfs.write(file_id, 0, data, &base).unwrap();
    assert_eq!(after.size, data.len() as u64);
}

#[test]
fn test_nfs_read_operation() {
    let (mut nfs, base) = setup();
    let (file_id, _) = nfs.create(1, b"readable.txt", None, &base).unwrap();
    let data = b"test content";
    nfs.write(file_id, 0, data, &base).unwrap();
    let (read, eof) = nfs.read(file_id, 0, 100, &base).unwrap();
    assert_eq!(read.len(), data.len());
    assert_eq!(&read[..], data);
    assert!(eof);
}

#[test]
fn test_nfs_mkdir_operation() {
    let (mut nfs, base) = setup();
    let (dir_id, attrs) = nfs.mkdir(1, b"newdir", &base).unwrap();
    assert_eq!(attrs.ftype, FileKind::Directory);
    assert_eq!(attrs.mode, 0o40755);
    assert_eq!(nfs.lookup(1, b"newdir", &base).unwrap(), dir_id);
}

#[test]
fn test_nfs_remove_operation() {
    let (mut nfs, base) = setup();
    let (file_id, _) = nfs.create(1, b"deleteme.txt", None, &base).unwrap();
    assert_eq!(nfs.lookup(1, b"deleteme.txt", &base).unwrap(), file_id);
    nfs.remove(1, b"deleteme.txt", &base).unwrap();
    assert!(nfs.lookup(1, b"deleteme.txt", &base).is_err());
}

#[test]
fn test_nfs_readdir_operation() {
    let (mut nfs, base) = setup();
    nfs.create(1, b"file1.txt", None, &base).unwrap();
    nfs.create(1, b"file2.txt", None, &base).unwrap();
    nfs.mkdir(1, b"dir1", &base).unwrap();
    let page = nfs.readdir(1, 0, 100, &base).unwrap();
    let names: std::collections::HashSet<_> =
        page.entries.iter().map(|e| String::from_utf8_lossy(&e.name).to_string()).collect();
    assert!(names.contains("file1.txt"));
    assert!(names.contains("file2.txt"));
    assert!(names.contains("dir1"));
    assert!(page.end);
}

#[test]
fn test_nfs_rename_operation() {
    let (mut nfs, base) = setup();
    let (file_id, _) = nfs.create(1, b"oldname.txt", None, &base).unwrap();
    nfs.rename(1, b"oldname.txt", 1, b"newname.txt", &base).unwrap();
    assert!(nfs.lookup(1, b"oldname.txt", &base).is_err());
    assert_eq!(nfs.lookup(1, b"newname.txt", &base).unwrap(), file_id);
}

#[test]
fn test_nfs_symlink_operation() {
    let (mut nfs, base) = setup();
    let (link_id, attrs) = nfs.symlink(1, b"link", b"/target/path", &base).unwrap();
    assert_eq!(attrs.ftype, FileKind::Symlink);
    assert_eq!(attrs.mode, 0o120777);
    assert_eq!(nfs.readlink(link_id, &base).unwrap(), b"/target/path".to_vec());
}

#[test]
fn test_nfs_setattr_operation() {
    let (mut nfs, base) = setup();
    let (file_id, _) = nfs.create(1, b"attrs.txt", None, &base).unwrap();
    nfs.write(file_id, 0, b"hello world", &base).unwrap();
    let attrs = nfs.setattr(file_id, AttrChange { size: Some(5), ..no_change() }, &base).unwrap();
    assert_eq!(attrs.size, 5);
    let (data, _) = nfs.read(file_id, 0, 100, &base).unwrap();
    assert_eq!(&data[..], b"hello");
}

#[test]
fn nfs_readdir_pages_after_a_file_id() {
    let (mut nfs, base) = setup();
    let (a, _) = nfs.create(1, b"a", None, &base).unwrap();
    let (b, _) = nfs.create(1, b"b", None, &base).unwrap();
    let (c, _) = nfs.create(1, b"c", None, &base).unwrap();
    let first = nfs.readdir(1, 0, 2, &base).unwrap();
    assert_eq!(first.entries.iter().map(|e| e.fileid).collect::<Vec<_>>(), vec![a, b]);
    assert!(!first.end);
    let second = nfs.readdir(1, b, 2, &base).unwrap();
    assert_eq!(second.entries.iter().map(|e| e.fileid).collect::<Vec<_>>(), vec![c]);
    assert!(second.end);
    let none = nfs.readdir(1, 999, 2, &base).unwrap();
    assert!(none.entries.is_empty());
    assert!(none.end);
    let zero = nfs.readdir(1, 0, 0, &base).unwrap();
    assert!(zero.entries.is_empty());
    assert!(!zero.end);
}

#[test]
fn nfs_errors_map_to_status_codes() {
    let (mut nfs, base) = setup();
    assert_eq!(nfs.getattr(5, &base), Err(NfsStatus::NoEnt));
    assert_eq!(nfs.lookup(5, b"x", &base), Err(NfsStatus::NoEnt));
    assert_eq!(nfs.lookup(1, &[0xff, 0xfe], &base), Err(NfsStatus::Inval));
    assert_eq!(nfs.create(1, &[0xc3], None, &base), Err(NfsStatus::Inval));
    assert_eq!(nfs.remove(1, b"missing", &base), Err(NfsStatus::NoEnt));
    assert_eq!(nfs.readlink(5, &base), Err(NfsStatus::NoEnt));
    assert_eq!(nfs.read(5, 0, 10, &base), Err(NfsStatus::NoEnt));
    let (f, _) = nfs.create(1, b"f", None, &base).unwrap();
    assert_eq!(nfs.readlink(f, &base), Err(NfsStatus::Io));
    assert_eq!(nfs.create(1, b"f", None, &base), Err(NfsStatus::Io));
    assert_eq!(nfs.create(77, b"g", None, &base), Err(NfsStatus::NoEnt));
}

#[test]
fn nfs_create_exclusive_refuses_an_existing_name() {
    let (mut nfs, base) = setup();
    let id = nfs.create_exclusive(1, b"once", &base).unwrap();
    assert_eq!(nfs.create_exclusive(1, b"once", &base), Err(NfsStatus::Exist));
    assert_eq!(nfs.lookup(1, b"once", &base).unwrap(), id);
    let a = nfs.getattr(id, &base).unwrap();
    assert_eq!(a.mode, 0o100644);
}

#[test]
fn nfs_create_keeps_only_permission_bits() {
    let (mut nfs, base) = setup();
    let (_, attrs) = nfs.create(1, b"x", Some(0o104755), &base).unwrap();
    assert_eq!(attrs.mode, 0o100755);
}

#[test]
fn nfs_whiteout_is_noent_for_getattr() {
    let mut base = BaseLayer::new();
    base.add_file("/b", meta(0o100644, 1), b"b".to_vec());
    let mut nfs = NfsOverlay::new(OverlayFs::new(Database::open(), "/base"));
    let id = nfs.lookup(1, b"b", &base).unwrap();
    nfs.remove(1, b"b", &base).unwrap();
    assert_eq!(nfs.getattr(id, &base), Err(NfsStatus::NoEnt));
    assert_eq!(nfs.lookup(1, b"b", &base), Err(NfsStatus::NoEnt));
}

#[test]
fn nfs_setattr_client_times_and_read_eof() {
    let (mut nfs, base) = setup();
    let (id, _) = nfs.create(1, b"t", None, &base).unwrap();
    nfs.write(id, 0, b"abcdef", &base).unwrap();
    let change = AttrChange {
        atime: TimeChange::ClientTime(100, 5),
        mtime: TimeChange::ClientTime(200, 6),
        ..no_change()
    };
    let a = nfs.setattr(id, change, &base).unwrap();
    assert_eq!((a.atime.seconds, a.atime.nseconds), (100, 5));
    assert_eq!((a.mtime.seconds, a.mtime.nseconds), (200, 6));
    let (d, eof) = nfs.read(id, 2, 4, &base).unwrap();
    assert_eq!(d, b"cdef".to_vec());
    assert!(!eof);
    let (d, eof) = nfs.read(id, 4, 4, &base).unwrap();
    assert_eq!(d, b"ef".to_vec());
    assert!(eof);
}

#[test]
fn nfs_attribute_conversion() {
    let a = Attrs {
        file_id: 9,
        parent_id: 0,
        item_type: ItemType::Symlink,
        mode: 0o777,
        uid: 1,
        gid: 2,
        size: 3,
        link_count: 4,
        atime_sec: 5,
        atime_nsec: 6,
        mtime_sec: 7,
        mtime_nsec: 8,
        ctime_sec: (1i64 << 32) + 9,
        ctime_nsec: 10,
    };
    let f = attrs_to_fattr3(&a);
    assert_eq!(f.ftype, FileKind::Symlink);
    assert_eq!(f.mode, 0o120777);
    assert_eq!((f.nlink, f.uid, f.gid, f.size, f.used, f.fsid, f.fileid), (4, 1, 2, 3, 3, 1, 9));
    assert_eq!(f.ctime.seconds, 9);
    assert_eq!(item_type_to_ftype(ItemType::Directory), FileKind::Directory);
    assert_eq!(item_type_to_ftype(ItemType::File), FileKind::Regular);
}

#[test]
fn nfs_name_decoding() {
    assert_eq!(filename_to_str("café".as_bytes()).unwrap(), "café");
    assert_eq!(filename_to_str(&[0x80]), Err(NfsStatus::Inval));
    assert_eq!(nfspath_to_string(b"/a/b").unwrap(), "/a/b");
    assert_eq!(map_err(OverlayError::NotFound), NfsStatus::Io);
}

#[test]
fn test_nfs_overlay_root_dir() {
    let (nfs, _) = setup();
    assert_eq!(nfs.root_dir(), 1, "root directory should be inode 1");
    assert_eq!(nfs.overlay().root_id(), 1);
}
