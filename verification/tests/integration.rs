use loaf::base::{BaseLayer, BaseMeta};
use loaf::db::{Database, ItemType};
use loaf::overlay::OverlayFs;

struct Ctx {
    overlay: OverlayFs,
    base: BaseLayer,
}

fn meta(mode: u32, size: u64) -> BaseMeta {
    BaseMeta { mode, uid: 501, gid: 20, size, nlink: 1, atime: (10, 0), mtime: (20, 0), ctime: (30, 0) }
}

impl Ctx {
    fn new() -> Ctx {
        Ctx { overlay: OverlayFs::new(Database::open(), "/base"), base: BaseLayer::new() }
    }

    fn root_id(&self) -> u64 {
        OverlayFs::ROOT_ID
    }

    #[allow(dead_code)]
    fn create_base_file(&mut self, name: &str, content: &[u8]) {
        self.base.add_file(&format!("/{name}"), meta(0o100644, content.len() as u64), content.to_vec());
    }

    #[allow(dead_code)]
    fn create_base_dir(&mut self, name: &str) {
        self.base.add_dir(&format!("/{name}"), meta(0o40755, 64));
    }
}

#[test]
fn test_overlay_operations() {
    let mut ctx = Ctx::new();
    ctx.create_base_file("existing.txt", b"base content");
    let overlay = &mut ctx.overlay;
    let base = &ctx.base;

    let root_id = overlay.root_id();
    let file_id = overlay.lookup(root_id, "existing.txt", base).unwrap();

    let mut buf = vec![0u8; 100];
    let n = overlay.read(file_id, 0, &mut buf, base).unwrap();
    buf.truncate(n);
    assert_eq!(&buf, b"base content");

    let new_file_id = overlay.create(root_id, "new.txt", ItemType::File, 0o644).unwrap();
    overlay.write(new_file_id, 0, b"hello world", base).unwrap();

    let mut buf = vec![0u8; 20];
    let n = overlay.read(new_file_id, 0, &mut buf, base).unwrap();
    buf.truncate(n);
    assert_eq!(&buf, b"hello world");

    let _dir_id = overlay.mkdir(root_id, "testdir", 0o755).unwrap();

    let entries = overlay.readdir(root_id, base).unwrap();
    assert!(!entries.is_empty(), "should have at least some entries");

    overlay.remove(new_file_id, base).unwrap();

    let lookup_result = overlay.lookup(root_id, "new.txt", base);
    assert!(lookup_result.is_err(), "deleted file should not be found");

    let link_id = overlay.symlink(root_id, "link.txt", "/target/path").unwrap();
    let target = overlay.readlink(link_id, base).unwrap();
    assert_eq!(target, "/target/path");
}

#[test]
fn test_overlay_rename() {
    let mut ctx = Ctx::new();
    let root_id = ctx.root_id();

    let file_id = ctx.overlay.create(root_id, "old.txt", ItemType::File, 0o644).unwrap();
    ctx.overlay.write(file_id, 0, b"rename test", &ctx.base).unwrap();

    ctx.overlay.rename(root_id, "old.txt", root_id, "new.txt", &ctx.base).unwrap();

    assert!(ctx.overlay.lookup(root_id, "old.txt", &ctx.base).is_err(), "old file still exists");

    let new_id = ctx.overlay.lookup(root_id, "new.txt", &ctx.base).unwrap();

    let mut buf = vec![0u8; 20];
    let n = ctx.overlay.read(new_id, 0, &mut buf, &ctx.base).unwrap();
    buf.truncate(n);
    assert_eq!(&buf, b"rename test");
}
