use loaf::base::{BaseLayer, BaseMeta};
use loaf::db::{Database, ItemType};
use loaf::overlay::OverlayFs;

struct Ctx {
    overlay: OverlayFs,
    base: BaseLayer,
}

fn meta(mode: u32, size: u64) -> BaseMeta {
    BaseMeta { mode, uid: 501, gid: 20, size, nlink: 1, atime: (10, 0), mtime: (20, 0), ctime: (30, 0) }
}

impl Ctx {
    fn new() -> Ctx {
        Ctx { overlay: OverlayFs::new(Database::open(), "/base"), base: BaseLayer::new() }
    }

    fn root_id(&self) -> u64 {
        OverlayFs::ROOT_ID
    }

    #[allow(dead_code)]
    fn create_base_file(&mut self, name: &str, content: &[u8]) {
        self.base.add_file(&format!("/{name}"), meta(0o100644, content.len() as u64), content.to_vec());
    }

    #[allow(dead_code)]
    fn create_base_dir(&mut self, name: &str) {
        self.base.add_dir(&format!("/{name}"), meta(0o40755, 64));
    }
}



#[test]
fn test_read_non_existent_file_returns_error() {
    let mut ctx = Ctx::new();
    let root_id = ctx.root_id();

    // Try to read a file that doesn't exist
    let result = ctx.overlay.lookup(root_id, "nonexistent.txt", &ctx.base);
    assert!(
        result.is_err(),
        "lookup of non-existent file should return error"
    );
}

#[test]
fn test_lookup_non_existent_file_returns_error() {
    let mut ctx = Ctx::new();
    let root_id = ctx.root_id();

    // Lookup should fail for non-existent file
    let result = ctx.overlay.lookup(root_id, "missing.txt", &ctx.base);
    assert!(result.is_err(), "lookup should fail for non-existent file");
}

#[test]
fn test_lookup_in_non_existent_directory_returns_error() {
    let mut ctx = Ctx::new();
    let root_id = ctx.root_id();

    // Create a file (not a directory)
    let file_id = ctx.overlay.create(root_id, "file.txt", ItemType::File, 0o644).unwrap();

    // Try to lookup something inside the file (should fail)
    let result = ctx.overlay.lookup(file_id, "anything", &ctx.base);
    assert!(
        result.is_err(),
        "lookup in non-directory should return error"
    );
}

#[test]
fn test_remove_non_existent_inode_returns_error() {
    let mut ctx = Ctx::new();

    // Try to remove an inode that doesn't exist
    let result = ctx.overlay.remove(999999, &ctx.base);
    assert!(
        result.is_err(),
        "remove of non-existent inode should return error"
    );
}

#[test]
fn test_readlink_on_non_symlink_returns_error() {
    let mut ctx = Ctx::new();
    let root_id = ctx.root_id();

    // Create a regular file
    let file_id = ctx.overlay.create(root_id, "regular.txt", ItemType::File, 0o644).unwrap();

    // Try to readlink on a regular file
    let result = ctx.overlay.readlink(file_id, &ctx.base);
    assert!(
        result.is_err(),
        "readlink on non-symlink should return error"
    );
}

#[test]
fn test_readlink_on_directory_returns_error() {
    let mut ctx = Ctx::new();
    let root_id = ctx.root_id();

    // Create a directory
    let dir_id = ctx.overlay.create(root_id, "dir", ItemType::Directory, 0o755).unwrap();

    // Try to readlink on a directory
    let result = ctx.overlay.readlink(dir_id, &ctx.base);
    assert!(result.is_err(), "readlink on directory should return error");
}

#[test]
fn test_lookup_removed_file_returns_error() {
    let mut ctx = Ctx::new();
    let root_id = ctx.root_id();

    // Create and remove a file
    let file_id = ctx.overlay.create(root_id, "temp.txt", ItemType::File, 0o644).unwrap();
    ctx.overlay.remove(file_id, &ctx.base).unwrap();

    // Lookup should fail after removal
    let result = ctx.overlay.lookup(root_id, "temp.txt", &ctx.base);
    assert!(
        result.is_err(),
        "lookup of removed file should return error"
    );
}

#[test]
fn test_getattr_on_whited_out_file_returns_error() {
    let mut ctx = Ctx::new();

    // Create a base file
    ctx.create_base_file("base.txt", b"content");

    let root_id = ctx.root_id();

    // Lookup the base file first to get its inode
    let file_id = ctx.overlay.lookup(root_id, "base.txt", &ctx.base).unwrap();

    // Remove it (creates whiteout)
    ctx.overlay.remove(file_id, &ctx.base).unwrap();

    // Try to getattr on the whited-out inode
    let result = ctx.overlay.getattr(file_id, &ctx.base);
    assert!(
        result.is_err(),
        "getattr on whited-out file should return error"
    );
}

#[test]
fn test_read_from_non_existent_inode_returns_error() {
    let mut ctx = Ctx::new();

    // Try to read from a very high inode that doesn't exist
    let mut buf = vec![0u8; 100];
    let result = ctx.overlay.read(999999, 0, &mut buf, &ctx.base);
    assert!(
        result.is_err(),
        "read from non-existent inode should return error"
    );
}

#[test]
fn test_write_to_non_existent_inode_returns_error() {
    let mut ctx = Ctx::new();

    // Try to write to a very high inode that doesn't exist
    let result = ctx.overlay.write(999999, 0, b"data", &ctx.base);
    assert!(
        result.is_err(),
        "write to non-existent inode should return error"
    );
}

#[test]
fn test_setattr_on_non_existent_inode_returns_error() {
    let mut ctx = Ctx::new();

    // Try to setattr on a very high inode that doesn't exist
    let result = ctx.overlay.setattr(999999, Some(0o644), None, None, None, &ctx.base);
    assert!(
        result.is_err(),
        "setattr on non-existent inode should return error"
    );
}

#[test]
fn test_rename_non_existent_file_returns_error() {
    let mut ctx = Ctx::new();
    let root_id = ctx.root_id();

    // Try to rename a file that doesn't exist
    let result = ctx.overlay.rename(root_id, "nonexistent.txt", root_id, "new.txt", &ctx.base);
    assert!(
        result.is_err(),
        "rename of non-existent file should return error"
    );
}

#[test]
fn test_readdir_on_non_existent_directory_returns_error() {
    let mut ctx = Ctx::new();

    // Try to readdir on a very high inode that doesn't exist
    let result = ctx.overlay.readdir(999999, &ctx.base);
    assert!(
        result.is_err(),
        "readdir on non-existent directory should return error"
    );
}

