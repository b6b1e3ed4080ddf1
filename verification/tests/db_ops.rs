use loaf::db::{Database, DbError, ItemType};

fn setup_test_db() -> Database {
    let mut db = Database::open();
    db.set_base_path("/test").unwrap();
    db
}

#[test]
fn test_list_children_empty() {
    let db = setup_test_db();
    let children = db.list_children_by_parent_path("/").unwrap();
    assert_eq!(children.len(), 0);
}

#[test]
fn test_list_children_with_files() {
    let mut db = setup_test_db();

    db.create_by_path("/file1.txt", ItemType::File, 0o644).unwrap();
    db.create_by_path("/file2.txt", ItemType::File, 0o644).unwrap();
    db.create_by_path("/dir", ItemType::Directory, 0o755).unwrap();

    let children = db.list_children_by_parent_path("/").unwrap();
    assert_eq!(children.len(), 3);

    let names: Vec<_> = children.iter().map(|e| e.name.as_str()).collect();
    assert!(names.contains(&"file1.txt"));
    assert!(names.contains(&"file2.txt"));
    assert!(names.contains(&"dir"));
}

#[test]
fn test_list_children_nested() {
    let mut db = setup_test_db();

    db.create_by_path("/dir", ItemType::Directory, 0o755).unwrap();
    db.create_by_path("/dir/file.txt", ItemType::File, 0o644).unwrap();
    db.create_by_path("/dir/subdir", ItemType::Directory, 0o755).unwrap();
    db.create_by_path("/dir/subdir/nested.txt", ItemType::File, 0o644).unwrap();

    let children = db.list_children_by_parent_path("/dir").unwrap();
    assert_eq!(children.len(), 2);

    let names: Vec<_> = children.iter().map(|e| e.name.as_str()).collect();
    assert!(names.contains(&"file.txt"));
    assert!(names.contains(&"subdir"));
    assert!(!names.contains(&"nested.txt"));
}

#[test]
fn test_rename_file() {
    let mut db = setup_test_db();

    let inode_id = db.create_by_path("/old.txt", ItemType::File, 0o644).unwrap();
    db.rename_by_path("/old.txt", "/new.txt").unwrap();

    assert!(!db.exists_by_path("/old.txt"));

    let attrs = db.get_attrs_by_path("/new.txt").unwrap();
    assert_eq!(attrs.file_id, inode_id);
}

#[test]
fn test_rename_directory() {
    let mut db = setup_test_db();

    db.create_by_path("/olddir", ItemType::Directory, 0o755).unwrap();
    db.create_by_path("/olddir/file.txt", ItemType::File, 0o644).unwrap();
    db.create_by_path("/olddir/subdir", ItemType::Directory, 0o755).unwrap();
    db.create_by_path("/olddir/subdir/nested.txt", ItemType::File, 0o644).unwrap();

    db.rename_by_path("/olddir", "/newdir").unwrap();

    assert!(!db.exists_by_path("/olddir"));
    assert!(!db.exists_by_path("/olddir/file.txt"));

    assert!(db.exists_by_path("/newdir"));
    assert!(db.exists_by_path("/newdir/file.txt"));
    assert!(db.exists_by_path("/newdir/subdir"));
    assert!(db.exists_by_path("/newdir/subdir/nested.txt"));
}

#[test]
fn test_truncate_expand() {
    let mut db = setup_test_db();

    db.create_by_path("/file.txt", ItemType::File, 0o644).unwrap();
    db.write_by_path("/file.txt", 0, b"hello").unwrap();

    db.truncate_by_path("/file.txt", 10).unwrap();

    let attrs = db.get_attrs_by_path("/file.txt").unwrap();
    assert_eq!(attrs.size, 10);

    let mut buf = vec![0u8; 10];
    db.read_by_path("/file.txt", 0, &mut buf).unwrap();
    assert_eq!(&buf[..5], b"hello");
    assert_eq!(&buf[5..], &[0, 0, 0, 0, 0]);
}

#[test]
fn test_truncate_shrink() {
    let mut db = setup_test_db();

    db.create_by_path("/file.txt", ItemType::File, 0o644).unwrap();
    db.write_by_path("/file.txt", 0, b"hello world").unwrap();

    db.truncate_by_path("/file.txt", 5).unwrap();

    let attrs = db.get_attrs_by_path("/file.txt").unwrap();
    assert_eq!(attrs.size, 5);

    let mut buf = vec![0u8; 10];
    let n = db.read_by_path("/file.txt", 0, &mut buf).unwrap();
    assert_eq!(n, 5);
    assert_eq!(&buf[..5], b"hello");
}

#[test]
fn test_update_times() {
    let mut db = setup_test_db();

    db.create_by_path("/file.txt", ItemType::File, 0o644).unwrap();

    let atime_sec = 1000i64;
    let atime_nsec = 2000i64;
    let mtime_sec = 3000i64;
    let mtime_nsec = 4000i64;

    db.update_times_by_path("/file.txt", Some(atime_sec), Some(atime_nsec), Some(mtime_sec), Some(mtime_nsec))
        .unwrap();

    let attrs = db.get_attrs_by_path("/file.txt").unwrap();
    assert_eq!(attrs.atime_sec, atime_sec);
    assert_eq!(attrs.atime_nsec, atime_nsec);
    assert_eq!(attrs.mtime_sec, mtime_sec);
    assert_eq!(attrs.mtime_nsec, mtime_nsec);
}

#[test]
fn db_base_path_round_trip() {
    let db = setup_test_db();
    assert_eq!(db.get_base_path().unwrap(), "/test");
    let fresh = Database::open();
    assert_eq!(fresh.get_base_path(), Err(DbError::NoRows));
}

#[test]
fn db_duplicate_path_is_a_constraint_violation() {
    let mut db = setup_test_db();
    db.create_by_path("/a", ItemType::File, 0o644).unwrap();
    assert_eq!(db.create_by_path("/a", ItemType::File, 0o644), Err(DbError::ConstraintViolation));
}

#[test]
fn db_write_splices_and_zero_fills() {
    let mut db = setup_test_db();
    db.create_by_path("/f", ItemType::File, 0o644).unwrap();
    db.write_by_path("/f", 0, b"abcdef").unwrap();
    db.write_by_path("/f", 2, b"XY").unwrap();
    db.write_by_path("/f", 8, b"Z").unwrap();
    assert_eq!(db.read_file_data("/f").unwrap(), b"abXYef\0\0Z".to_vec());
    assert_eq!(db.get_attrs_by_path("/f").unwrap().size, 9);
}

#[test]
fn db_write_to_missing_path_fails() {
    let mut db = setup_test_db();
    assert_eq!(db.write_by_path("/none", 0, b"x"), Err(DbError::NoRows));
}

#[test]
fn db_read_past_end_reads_nothing() {
    let mut db = setup_test_db();
    db.create_by_path("/f", ItemType::File, 0o644).unwrap();
    db.write_by_path("/f", 0, b"abc").unwrap();
    let mut buf = vec![7u8; 4];
    assert_eq!(db.read_by_path("/f", 10, &mut buf).unwrap(), 0);
    assert_eq!(buf, vec![7u8; 4]);
}

#[test]
fn db_symlink_target_and_mode() {
    let mut db = setup_test_db();
    db.create_symlink_by_path("/l", "/target").unwrap();
    assert_eq!(db.read_symlink_by_path("/l").unwrap(), "/target");
    let a = db.get_attrs_by_path("/l").unwrap();
    assert_eq!(a.item_type, ItemType::Symlink);
    assert_eq!(a.mode, 0o777);
    assert_eq!(db.read_symlink_by_path("/missing"), Err(DbError::NoRows));
}

#[test]
fn db_whiteouts_add_and_remove() {
    let mut db = setup_test_db();
    assert!(!db.is_whiteout("/gone"));
    db.add_whiteout("/gone").unwrap();
    assert!(db.is_whiteout("/gone"));
    db.add_whiteout("/gone").unwrap();
    db.remove_whiteout("/gone").unwrap();
    assert!(!db.is_whiteout("/gone"));
}

#[test]
fn db_remove_drops_row() {
    let mut db = setup_test_db();
    db.create_by_path("/a", ItemType::File, 0o644).unwrap();
    db.remove_by_path("/a").unwrap();
    assert!(!db.exists_by_path("/a"));
    assert_eq!(db.get_attrs_by_path("/a"), Err(DbError::NoRows));
}

#[test]
fn db_update_mode_changes_mode() {
    let mut db = setup_test_db();
    db.create_by_path("/a", ItemType::File, 0o644).unwrap();
    db.update_mode_by_path("/a", 0o600).unwrap();
    assert_eq!(db.get_attrs_by_path("/a").unwrap().mode, 0o600);
}

#[test]
fn db_rename_onto_taken_path_is_refused() {
    let mut db = setup_test_db();
    db.create_by_path("/a", ItemType::File, 0o644).unwrap();
    db.create_by_path("/b", ItemType::File, 0o644).unwrap();
    assert_eq!(db.rename_by_path("/a", "/b"), Err(DbError::ConstraintViolation));
    assert!(db.exists_by_path("/a"));
}

#[test]
fn db_item_type_codes() {
    assert_eq!(ItemType::try_from(0), Ok(ItemType::File));
    assert_eq!(ItemType::try_from(1), Ok(ItemType::Directory));
    assert_eq!(ItemType::try_from(2), Ok(ItemType::Symlink));
    assert_eq!(ItemType::try_from(7), Err(DbError::InvalidItemType(7)));
    assert_eq!(ItemType::Symlink.code(), 2);
}

#[test]
fn db_ids_count_up_from_two() {
    let mut db = setup_test_db();
    let a = db.create_by_path("/a", ItemType::File, 0o644).unwrap();
    let b = db.create_by_path("/b", ItemType::File, 0o644).unwrap();
    assert_eq!(a, 2);
    assert_eq!(b, 3);
}
