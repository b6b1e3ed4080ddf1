use loaf::base::{BaseLayer, BaseMeta};
use loaf::db::{Database, ItemType};
use loaf::overlay::OverlayFs;

struct Ctx {
    overlay: OverlayFs,
    base: BaseLayer,
}

fn meta(mode: u32, size: u64) -> BaseMeta {
    BaseMeta { mode, uid: 501, gid: 20, size, nlink: 1, atime: (10, 0), mtime: (20, 0), ctime: (30, 0) }
}

impl Ctx {
    fn new() -> Ctx {
        Ctx { overlay: OverlayFs::new(Database::open(), "/base"), base: BaseLayer::new() }
    }

    fn root_id(&self) -> u64 {
        OverlayFs::ROOT_ID
    }

    #[allow(dead_code)]
    fn create_base_file(&mut self, name: &str, content: &[u8]) {
        self.base.add_file(&format!("/{name}"), meta(0o100644, content.len() as u64), content.to_vec());
    }

    #[allow(dead_code)]
    fn create_base_dir(&mut self, name: &str) {
        self.base.add_dir(&format!("/{name}"), meta(0o40755, 64));
    }
}

#[test]
fn test_create_file_and_verify_exists() {
    let mut ctx = Ctx::new();
    let root_id = ctx.root_id();

    let file_id = ctx.overlay.create(root_id, "test.txt", ItemType::File, 0o644).unwrap();

    let lookup_id = ctx.overlay.lookup(root_id, "test.txt", &ctx.base).unwrap();
    assert_eq!(lookup_id, file_id, "lookup should return same inode");

    let attrs = ctx.overlay.getattr(file_id, &ctx.base).unwrap();
    assert_eq!(attrs.item_type, ItemType::File);
    assert_eq!(attrs.mode, 0o644);
}

#[test]
fn test_write_and_read_data() {
    let mut ctx = Ctx::new();
    let root_id = ctx.root_id();

    let file_id = ctx.overlay.create(root_id, "data.txt", ItemType::File, 0o644).unwrap();

    let data = b"hello world from overlay";
    let n = ctx.overlay.write(file_id, 0, data, &ctx.base).unwrap();
    assert_eq!(n, data.len(), "write should return bytes written");

    let mut buf = vec![0u8; 100];
    let n = ctx.overlay.read(file_id, 0, &mut buf, &ctx.base).unwrap();
    assert_eq!(n, data.len(), "read should return correct length");
    assert_eq!(&buf[..n], data, "read data should match written data");
}

#[test]
fn test_append_data_at_offset() {
    let mut ctx = Ctx::new();
    let root_id = ctx.root_id();

    let file_id = ctx.overlay.create(root_id, "append.txt", ItemType::File, 0o644).unwrap();

    ctx.overlay.write(file_id, 0, b"hello", &ctx.base).unwrap();
    ctx.overlay.write(file_id, 5, b" world", &ctx.base).unwrap();

    let mut buf = vec![0u8; 50];
    let n = ctx.overlay.read(file_id, 0, &mut buf, &ctx.base).unwrap();
    assert_eq!(&buf[..n], b"hello world", "appended data should be at correct offset");
}

#[test]
fn test_truncate_file() {
    let mut ctx = Ctx::new();
    let root_id = ctx.root_id();

    let file_id = ctx.overlay.create(root_id, "truncate.txt", ItemType::File, 0o644).unwrap();

    ctx.overlay.write(file_id, 0, b"hello world", &ctx.base).unwrap();
    ctx.overlay.setattr(file_id, None, Some(5), None, None, &ctx.base).unwrap();

    let attrs = ctx.overlay.getattr(file_id, &ctx.base).unwrap();
    assert_eq!(attrs.size, 5);

    let mut buf = vec![0u8; 10];
    let n = ctx.overlay.read(file_id, 0, &mut buf, &ctx.base).unwrap();
    assert_eq!(n, 5);
    assert_eq!(&buf[..n], b"hello");
}

#[test]
fn test_overwrite_existing_file() {
    let mut ctx = Ctx::new();
    let root_id = ctx.root_id();

    let file_id = ctx.overlay.create(root_id, "overwrite.txt", ItemType::File, 0o644).unwrap();

    ctx.overlay.write(file_id, 0, b"first version", &ctx.base).unwrap();
    ctx.overlay.write(file_id, 0, b"second", &ctx.base).unwrap();

    // The six bytes of "second" replace the first six bytes in place; the
    // file keeps its thirteen bytes.
    let mut buf = vec![0u8; 50];
    let n = ctx.overlay.read(file_id, 0, &mut buf, &ctx.base).unwrap();
    assert_eq!(&buf[..n], b"secondversion", "partial overwrite should work");
}

#[test]
fn test_read_at_various_offsets() {
    let mut ctx = Ctx::new();
    let root_id = ctx.root_id();

    let file_id = ctx.overlay.create(root_id, "offsets.txt", ItemType::File, 0o644).unwrap();
    ctx.overlay.write(file_id, 0, b"0123456789", &ctx.base).unwrap();

    let mut buf = vec![0u8; 5];
    let n = ctx.overlay.read(file_id, 5, &mut buf, &ctx.base).unwrap();
    assert_eq!(n, 5);
    assert_eq!(&buf[..n], b"56789");

    let mut buf = vec![0u8; 10];
    let n = ctx.overlay.read(file_id, 8, &mut buf, &ctx.base).unwrap();
    assert_eq!(n, 2);
    assert_eq!(&buf[..n], b"89");
}

#[test]
fn test_read_beyond_eof_returns_zero() {
    let mut ctx = Ctx::new();
    let root_id = ctx.root_id();

    let file_id = ctx.overlay.create(root_id, "eof.txt", ItemType::File, 0o644).unwrap();
    ctx.overlay.write(file_id, 0, b"short", &ctx.base).unwrap();

    let mut buf = vec![0u8; 10];
    let n = ctx.overlay.read(file_id, 100, &mut buf, &ctx.base).unwrap();
    assert_eq!(n, 0, "read beyond EOF should return 0 bytes");
}

#[test]
fn write_then_read_law_on_values() {
    let mut ctx = Ctx::new();
    let root_id = ctx.root_id();
    let id = ctx.overlay.create(root_id, "f", ItemType::File, 0o600).unwrap();
    ctx.overlay.write(id, 3, b"abc", &ctx.base).unwrap();
    let mut buf = vec![9u8; 3];
    assert_eq!(ctx.overlay.read(id, 3, &mut buf, &ctx.base).unwrap(), 3);
    assert_eq!(buf, b"abc".to_vec());
    let mut head = vec![9u8; 3];
    ctx.overlay.read(id, 0, &mut head, &ctx.base).unwrap();
    assert_eq!(head, vec![0u8, 0, 0]);
}

#[test]
fn read_fills_only_the_start_of_the_buffer() {
    let mut ctx = Ctx::new();
    let root_id = ctx.root_id();
    let id = ctx.overlay.create(root_id, "f", ItemType::File, 0o644).unwrap();
    ctx.overlay.write(id, 0, b"xy", &ctx.base).unwrap();
    let mut buf = vec![7u8; 5];
    assert_eq!(ctx.overlay.read(id, 0, &mut buf, &ctx.base).unwrap(), 2);
    assert_eq!(buf, vec![b'x', b'y', 7, 7, 7]);
}

#[test]
fn write_copies_a_base_file_up_first() {
    let mut ctx = Ctx::new();
    ctx.create_base_file("b.txt", b"base bytes");
    let root_id = ctx.root_id();
    let id = ctx.overlay.lookup(root_id, "b.txt", &ctx.base).unwrap();
    ctx.overlay.write(id, 0, b"BASE", &ctx.base).unwrap();
    assert_eq!(ctx.overlay.read_file_data("/b.txt").unwrap(), b"BASE bytes".to_vec());
    let a = ctx.overlay.getattr(id, &ctx.base).unwrap();
    assert_eq!(a.mode, 0o644);
    assert_eq!(a.size, 10);
}
