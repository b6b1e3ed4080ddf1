use loaf::base::{BaseLayer, BaseMeta};
use loaf::db::{Database, ItemType};
use loaf::overlay::OverlayFs;

struct Ctx {
    overlay: OverlayFs,
    base: BaseLayer,
}

fn meta(mode: u32, size: u64) -> BaseMeta {
    BaseMeta { mode, uid: 501, gid: 20, size, nlink: 1, atime: (10, 0), mtime: (20, 0), ctime: (30, 0) }
}

impl Ctx {
    fn new() -> Ctx {
        Ctx { overlay: OverlayFs::new(Database::open(), "/base"), base: BaseLayer::new() }
    }

    fn root_id(&self) -> u64 {
        OverlayFs::ROOT_ID
    }

    #[allow(dead_code)]
    fn create_base_file(&mut self, name: &str, content: &[u8]) {
        self.base.add_file(&format!("/{name}"), meta(0o100644, content.len() as u64), content.to_vec());
    }

    #[allow(dead_code)]
    fn create_base_dir(&mut self, name: &str) {
        self.base.add_dir(&format!("/{name}"), meta(0o40755, 64));
    }
}

fn base_content(ctx: &Ctx, path: &str) -> Option<Vec<u8>> {
    ctx.base.find(&path.chars().collect()).map(|i| ctx.base.entry(i).content().clone())
}

#[test]
fn test_read_passthrough() {
    let mut overlay = Ctx::new();
    overlay.create_base_file("existing.txt", b"base content");

    let root_id = overlay.root_id();
    let file_id = overlay.overlay.lookup(root_id, "existing.txt", &overlay.base).unwrap();

    let mut buf = vec![0u8; 100];
    let n = overlay.overlay.read(file_id, 0, &mut buf, &overlay.base).unwrap();

    assert_eq!(n, 12, "read wrong number of bytes");
    assert_eq!(&buf[..n], b"base content", "content mismatch");

    let inodes = overlay.overlay.get_all_inodes();
    assert!(inodes.is_empty(), "passthrough read should not create overlay inode");
}

#[test]
fn test_write_triggers_copy() {
    let mut overlay = Ctx::new();
    overlay.create_base_file("modify.txt", b"original content");

    let root_id = overlay.root_id();
    let file_id = overlay.overlay.lookup(root_id, "modify.txt", &overlay.base).unwrap();
    overlay.overlay.write(file_id, 0, b"modified", &overlay.base).unwrap();

    let mut buf = vec![0u8; 100];
    let n = overlay.overlay.read(file_id, 0, &mut buf, &overlay.base).unwrap();
    assert_eq!(&buf[..n], b"modified content", "overlay should show modified content");

    assert_eq!(base_content(&overlay, "/modify.txt").unwrap(), b"original content".to_vec());

    let inodes = overlay.overlay.get_all_inodes();
    assert_eq!(inodes.len(), 1, "write should create overlay inode");
    assert_eq!(inodes[0].0, "/modify.txt", "wrong inode path");
}

#[test]
fn test_whiteout_hides_base_file() {
    let mut overlay = Ctx::new();
    overlay.create_base_file("delete_me.txt", b"will be hidden");

    let root_id = overlay.root_id();
    let file_id = overlay.overlay.lookup(root_id, "delete_me.txt", &overlay.base).unwrap();
    overlay.overlay.remove(file_id, &overlay.base).unwrap();

    let lookup_result = overlay.overlay.lookup(root_id, "delete_me.txt", &overlay.base);
    assert!(lookup_result.is_err(), "file should be hidden after removal");

    assert!(base_content(&overlay, "/delete_me.txt").is_some(), "base file should still exist");

    let whiteouts = overlay.overlay.get_all_whiteouts();
    assert_eq!(whiteouts.len(), 1, "should have one whiteout");
    assert_eq!(whiteouts[0], "/delete_me.txt", "wrong whiteout path");
}

#[test]
fn test_whiteout_cleared_on_create() {
    let mut overlay = Ctx::new();
    overlay.create_base_file("recreate.txt", b"first version");

    let root_id = overlay.root_id();
    let file_id = overlay.overlay.lookup(root_id, "recreate.txt", &overlay.base).unwrap();
    overlay.overlay.remove(file_id, &overlay.base).unwrap();

    let whiteouts = overlay.overlay.get_all_whiteouts();
    assert_eq!(whiteouts.len(), 1, "whiteout should exist");

    let new_file_id = overlay.overlay.create(root_id, "recreate.txt", ItemType::File, 0o644).unwrap();
    overlay.overlay.write(new_file_id, 0, b"second version", &overlay.base).unwrap();

    let whiteouts = overlay.overlay.get_all_whiteouts();
    assert!(whiteouts.is_empty(), "whiteout should be cleared on create");

    let file_id = overlay.overlay.lookup(root_id, "recreate.txt", &overlay.base).unwrap();
    let mut buf = vec![0u8; 100];
    let n = overlay.overlay.read(file_id, 0, &mut buf, &overlay.base).unwrap();
    assert_eq!(&buf[..n], b"second version", "should have new content");
}

#[test]
fn test_base_file_unchanged_after_overlay_write() {
    let mut overlay = Ctx::new();
    overlay.create_base_file("immutable.txt", b"base version");

    let root_id = overlay.root_id();
    let file_id = overlay.overlay.lookup(root_id, "immutable.txt", &overlay.base).unwrap();
    overlay.overlay.write(file_id, 0, b"overlay version", &overlay.base).unwrap();

    assert_eq!(base_content(&overlay, "/immutable.txt").unwrap(), b"base version".to_vec());

    let mut buf = vec![0u8; 100];
    let n = overlay.overlay.read(file_id, 0, &mut buf, &overlay.base).unwrap();
    assert_eq!(&buf[..n], b"overlay version", "overlay should have modified content");
}

#[test]
fn test_overlay_changes_visible_base_unchanged() {
    let mut overlay = Ctx::new();
    overlay.create_base_file("base1.txt", b"base content 1");
    overlay.create_base_file("base2.txt", b"base content 2");

    let root_id = overlay.root_id();
    let new_file_id = overlay.overlay.create(root_id, "overlay_only.txt", ItemType::File, 0o644).unwrap();
    overlay.overlay.write(new_file_id, 0, b"overlay content", &overlay.base).unwrap();

    let file1_id = overlay.overlay.lookup(root_id, "base1.txt", &overlay.base).unwrap();
    overlay.overlay.write(file1_id, 0, b"modified content 1", &overlay.base).unwrap();

    assert!(base_content(&overlay, "/overlay_only.txt").is_none(), "overlay-only file should not exist in base");

    let oid = overlay.overlay.lookup(root_id, "overlay_only.txt", &overlay.base).unwrap();
    let mut buf = vec![0u8; 100];
    let n = overlay.overlay.read(oid, 0, &mut buf, &overlay.base).unwrap();
    assert_eq!(&buf[..n], b"overlay content", "wrong overlay-only content");

    assert_eq!(base_content(&overlay, "/base1.txt").unwrap(), b"base content 1".to_vec());

    let mut buf = vec![0u8; 100];
    let n = overlay.overlay.read(file1_id, 0, &mut buf, &overlay.base).unwrap();
    assert_eq!(&buf[..n], b"modified content 1", "base1 in overlay should be modified");

    let file2_id = overlay.overlay.lookup(root_id, "base2.txt", &overlay.base).unwrap();
    let mut buf = vec![0u8; 100];
    let n = overlay.overlay.read(file2_id, 0, &mut buf, &overlay.base).unwrap();
    assert_eq!(&buf[..n], b"base content 2", "base2 should be unchanged");
}

#[test]
fn overlay_semantics_test_readdir_merges_overlay_and_base() {
    let mut overlay = Ctx::new();
    overlay.create_base_file("base1.txt", b"base");
    overlay.create_base_file("base2.txt", b"base");

    let root_id = overlay.root_id();
    let overlay_file_id = overlay.overlay.create(root_id, "overlay1.txt", ItemType::File, 0o644).unwrap();
    overlay.overlay.write(overlay_file_id, 0, b"overlay", &overlay.base).unwrap();

    let _overlay_dir_id = overlay.overlay.mkdir(root_id, "overlay_dir", 0o755).unwrap();

    let entries = overlay.overlay.readdir(root_id, &overlay.base).unwrap();
    let names: std::collections::HashSet<_> = entries.iter().map(|e| e.name.as_str()).collect();

    assert!(names.contains("base1.txt"), "should see base1.txt");
    assert!(names.contains("base2.txt"), "should see base2.txt");
    assert!(names.contains("overlay1.txt"), "should see overlay1.txt");
    assert!(names.contains("overlay_dir"), "should see overlay_dir");
    assert_eq!(entries.len(), 4, "should see exactly 4 entries");
}

#[test]
fn test_readdir_excludes_whiteout_entries() {
    let mut overlay = Ctx::new();
    overlay.create_base_file("keep.txt", b"keep");
    overlay.create_base_file("delete.txt", b"delete");
    overlay.create_base_file("also_delete.txt", b"delete");

    let root_id = overlay.root_id();
    let delete_id = overlay.overlay.lookup(root_id, "delete.txt", &overlay.base).unwrap();
    overlay.overlay.remove(delete_id, &overlay.base).unwrap();

    let also_delete_id = overlay.overlay.lookup(root_id, "also_delete.txt", &overlay.base).unwrap();
    overlay.overlay.remove(also_delete_id, &overlay.base).unwrap();

    let new_id = overlay.overlay.create(root_id, "new.txt", ItemType::File, 0o644).unwrap();
    overlay.overlay.write(new_id, 0, b"new", &overlay.base).unwrap();

    let entries = overlay.overlay.readdir(root_id, &overlay.base).unwrap();
    let names: std::collections::HashSet<_> = entries.iter().map(|e| e.name.as_str()).collect();

    assert!(names.contains("keep.txt"), "should see keep.txt");
    assert!(names.contains("new.txt"), "should see new.txt");
    assert!(!names.contains("delete.txt"), "should NOT see deleted file");
    assert!(!names.contains("also_delete.txt"), "should NOT see deleted file");
    assert_eq!(entries.len(), 2, "should see exactly 2 entries");
}

#[test]
fn removing_an_upper_only_file_leaves_no_whiteout() {
    let mut overlay = Ctx::new();
    let root_id = overlay.root_id();
    let id = overlay.overlay.create(root_id, "tmp.txt", ItemType::File, 0o644).unwrap();
    overlay.overlay.remove(id, &overlay.base).unwrap();
    assert!(overlay.overlay.get_all_whiteouts().is_empty());
    assert_eq!(
        overlay.overlay.lookup(root_id, "tmp.txt", &overlay.base),
        Err(loaf::overlay::OverlayError::NotFound)
    );
}

#[test]
fn lookup_of_whited_out_name_reports_whiteout() {
    let mut overlay = Ctx::new();
    overlay.create_base_file("w.txt", b"w");
    let root_id = overlay.root_id();
    let id = overlay.overlay.lookup(root_id, "w.txt", &overlay.base).unwrap();
    overlay.overlay.remove(id, &overlay.base).unwrap();
    assert_eq!(
        overlay.overlay.lookup(root_id, "w.txt", &overlay.base),
        Err(loaf::overlay::OverlayError::WhitedOut)
    );
    assert_eq!(overlay.overlay.getattr(id, &overlay.base), Err(loaf::overlay::OverlayError::WhitedOut));
}
