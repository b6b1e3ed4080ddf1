use loaf::base::{BaseLayer, BaseMeta};
use loaf::db::{Database, ItemType};
use loaf::overlay::OverlayFs;

struct Ctx {
    overlay: OverlayFs,
    base: BaseLayer,
}

fn meta(mode: u32, size: u64) -> BaseMeta {
    BaseMeta { mode, uid: 501, gid: 20, size, nlink: 1, atime: (10, 0), mtime: (20, 0), ctime: (30, 0) }
}

impl Ctx {
    fn new() -> Ctx {
        Ctx { overlay: OverlayFs::new(Database::open(), "/base"), base: BaseLayer::new() }
    }

    fn root_id(&self) -> u64 {
        OverlayFs::ROOT_ID
    }

    #[allow(dead_code)]
    fn create_base_file(&mut self, name: &str, content: &[u8]) {
        self.base.add_file(&format!("/{name}"), meta(0o100644, content.len() as u64), content.to_vec());
    }

    #[allow(dead_code)]
    fn create_base_dir(&mut self, name: &str) {
        self.base.add_dir(&format!("/{name}"), meta(0o40755, 64));
    }
}

#[test]
fn test_mkdir_creates_directory() {
    let mut ctx = Ctx::new();
    let root_id = ctx.root_id();

    let dir_id = ctx.overlay.mkdir(root_id, "testdir", 0o755).unwrap();

    let attrs = ctx.overlay.getattr(dir_id, &ctx.base).unwrap();
    assert_eq!(attrs.item_type, ItemType::Directory);
    assert_eq!(attrs.mode, 0o755);

    let lookup_id = ctx.overlay.lookup(root_id, "testdir", &ctx.base).unwrap();
    assert_eq!(lookup_id, dir_id);
}

#[test]
fn test_nested_directory_creation() {
    let mut ctx = Ctx::new();
    let root_id = ctx.root_id();

    let parent_id = ctx.overlay.mkdir(root_id, "parent", 0o755).unwrap();
    let child_id = ctx.overlay.mkdir(parent_id, "child", 0o755).unwrap();
    let grandchild_id = ctx.overlay.mkdir(child_id, "grandchild", 0o755).unwrap();

    let p = ctx.overlay.lookup(root_id, "parent", &ctx.base).unwrap();
    let c = ctx.overlay.lookup(p, "child", &ctx.base).unwrap();
    let g = ctx.overlay.lookup(c, "grandchild", &ctx.base).unwrap();
    assert_eq!(g, grandchild_id);
}

#[test]
fn test_readdir_lists_children() {
    let mut ctx = Ctx::new();
    let root_id = ctx.root_id();

    ctx.overlay.create(root_id, "file1.txt", ItemType::File, 0o644).unwrap();
    ctx.overlay.create(root_id, "file2.txt", ItemType::File, 0o644).unwrap();
    ctx.overlay.mkdir(root_id, "dir1", 0o755).unwrap();
    ctx.overlay.symlink(root_id, "link1", "/target").unwrap();

    let entries = ctx.overlay.readdir(root_id, &ctx.base).unwrap();
    assert_eq!(entries.len(), 4, "should have 4 entries");

    let names: std::collections::HashSet<_> = entries.iter().map(|e| e.name.as_str()).collect();
    assert!(names.contains("file1.txt"));
    assert!(names.contains("file2.txt"));
    assert!(names.contains("dir1"));
    assert!(names.contains("link1"));
}

#[test]
fn dir_ops_test_readdir_merges_overlay_and_base() {
    let mut ctx = Ctx::new();

    ctx.create_base_file("base1.txt", b"base content 1");
    ctx.create_base_file("base2.txt", b"base content 2");

    let root_id = ctx.root_id();
    ctx.overlay.create(root_id, "overlay1.txt", ItemType::File, 0o644).unwrap();
    ctx.overlay.create(root_id, "overlay2.txt", ItemType::File, 0o644).unwrap();

    let entries = ctx.overlay.readdir(root_id, &ctx.base).unwrap();
    assert_eq!(entries.len(), 4, "should have 2 base + 2 overlay entries");

    let names: std::collections::HashSet<_> = entries.iter().map(|e| e.name.as_str()).collect();
    assert!(names.contains("base1.txt"));
    assert!(names.contains("base2.txt"));
    assert!(names.contains("overlay1.txt"));
    assert!(names.contains("overlay2.txt"));
}

#[test]
fn test_lookup_in_subdirectory() {
    let mut ctx = Ctx::new();
    let root_id = ctx.root_id();

    let dir_id = ctx.overlay.mkdir(root_id, "subdir", 0o755).unwrap();
    let file_id = ctx.overlay.create(dir_id, "nested.txt", ItemType::File, 0o644).unwrap();

    let found_id = ctx.overlay.lookup(dir_id, "nested.txt", &ctx.base).unwrap();
    assert_eq!(found_id, file_id);
}

#[test]
fn test_remove_empty_directory() {
    let mut ctx = Ctx::new();
    let root_id = ctx.root_id();

    let dir_id = ctx.overlay.mkdir(root_id, "emptydir", 0o755).unwrap();
    ctx.overlay.remove(dir_id, &ctx.base).unwrap();

    let result = ctx.overlay.lookup(root_id, "emptydir", &ctx.base);
    assert!(result.is_err(), "removed directory should not be found");
}

#[test]
fn test_remove_directory_preserves_siblings() {
    let mut ctx = Ctx::new();
    let root_id = ctx.root_id();

    let dir1_id = ctx.overlay.mkdir(root_id, "dir1", 0o755).unwrap();
    let _file_id = ctx.overlay.create(root_id, "file1.txt", ItemType::File, 0o644).unwrap();

    ctx.overlay.remove(dir1_id, &ctx.base).unwrap();

    let file_lookup = ctx.overlay.lookup(root_id, "file1.txt", &ctx.base);
    assert!(file_lookup.is_ok(), "sibling file should still exist");
}

#[test]
fn readdir_lists_upper_entries_before_base_entries_once() {
    let mut ctx = Ctx::new();
    ctx.create_base_file("shared.txt", b"base");
    ctx.create_base_file("only_base.txt", b"b");
    let root_id = ctx.root_id();
    ctx.overlay.create(root_id, "shared.txt", ItemType::File, 0o600).unwrap();
    let entries = ctx.overlay.readdir(root_id, &ctx.base).unwrap();
    let names: Vec<_> = entries.iter().map(|e| e.name.as_str()).collect();
    assert_eq!(names, vec!["shared.txt", "only_base.txt"]);
}

#[test]
fn readdir_and_lookup_agree_on_inode_numbers() {
    let mut ctx = Ctx::new();
    ctx.create_base_file("a.txt", b"a");
    let root_id = ctx.root_id();
    ctx.overlay.mkdir(root_id, "d", 0o755).unwrap();
    let entries = ctx.overlay.readdir(root_id, &ctx.base).unwrap();
    for e in &entries {
        assert_eq!(ctx.overlay.lookup(root_id, &e.name, &ctx.base).unwrap(), e.inode_id);
    }
}

#[test]
fn inode_numbers_start_at_one_million() {
    let mut ctx = Ctx::new();
    let root_id = ctx.root_id();
    assert_eq!(root_id, 1);
    assert_eq!(ctx.overlay.mkdir(root_id, "first", 0o755).unwrap(), 1_000_000);
    assert_eq!(ctx.overlay.mkdir(root_id, "second", 0o755).unwrap(), 1_000_001);
}

#[test]
fn readdir_of_unknown_inode_fails() {
    let mut ctx = Ctx::new();
    assert_eq!(ctx.overlay.readdir(42, &ctx.base).unwrap_err(), loaf::overlay::OverlayError::InodeNotFound(42));
}

#[test]
fn lookup_twice_gives_the_same_inode() {
    let mut ctx = Ctx::new();
    ctx.create_base_dir("src");
    let root_id = ctx.root_id();
    let a = ctx.overlay.lookup(root_id, "src", &ctx.base).unwrap();
    let b = ctx.overlay.lookup(root_id, "src", &ctx.base).unwrap();
    assert_eq!(a, b);
    assert_eq!(ctx.overlay.path_of(a), Some("/src".to_string()));
}
