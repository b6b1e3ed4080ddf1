use loaf::base::{BaseLayer, BaseMeta};
use loaf::db::{Database, ItemType};
use loaf::overlay::OverlayFs;

struct Ctx {
    overlay: OverlayFs,
    base: BaseLayer,
}

fn meta(mode: u32, size: u64) -> BaseMeta {
    BaseMeta { mode, uid: 501, gid: 20, size, nlink: 1, atime: (10, 0), mtime: (20, 0), ctime: (30, 0) }
}

impl Ctx {
    fn new() -> Ctx {
        Ctx { overlay: OverlayFs::new(Database::open(), "/base"), base: BaseLayer::new() }
    }

    fn root_id(&self) -> u64 {
        OverlayFs::ROOT_ID
    }

    #[allow(dead_code)]
    fn create_base_file(&mut self, name: &str, content: &[u8]) {
        self.base.add_file(&format!("/{name}"), meta(0o100644, content.len() as u64), content.to_vec());
    }

    #[allow(dead_code)]
    fn create_base_dir(&mut self, name: &str) {
        self.base.add_dir(&format!("/{name}"), meta(0o40755, 64));
    }
}


fn base_content(ctx: &Ctx, path: &str) -> Option<Vec<u8>> {
    ctx.base.find(&path.chars().collect()).map(|i| ctx.base.entry(i).content().clone())
}

#[test]
fn test_git_init_creates_structure() {
    let mut ctx = Ctx::new();

    // Run git init via NFS mount would be ideal, but for now test via overlay directly
    // Create .git directory structure via overlay
    let root_id = ctx.root_id();
    let git_id = ctx.overlay.mkdir(root_id, ".git", 0o755).unwrap();

    // Verify .git directory exists
    let attrs = ctx.overlay.getattr(git_id, &ctx.base).unwrap();
    assert_eq!(attrs.item_type, ItemType::Directory);

    // Verify base directory is unchanged
    assert!(
        base_content(&ctx, "/.git").is_none(),
        ".git should only exist in overlay, not base"
    );
}

#[test]
fn test_git_workflow_via_overlay() {
    let mut ctx = Ctx::new();

    // We'll simulate a git workflow by creating the files git would create
    // This tests that the overlay correctly handles git-like operations

    let root_id = ctx.root_id();

    // Create a file to "commit"
    let file_id = ctx.overlay.create(root_id, "test.txt", ItemType::File, 0o644).unwrap();
    ctx.overlay.write(file_id, 0, b"Hello, world!", &ctx.base).unwrap();

    // Create .git structure
    let git_id = ctx.overlay.mkdir(root_id, ".git", 0o755).unwrap();
    let _objects_id = ctx.overlay.mkdir(git_id, "objects", 0o755).unwrap();
    let _refs_id = ctx.overlay.mkdir(git_id, "refs", 0o755).unwrap();

    // Create HEAD file
    let head_id = ctx.overlay.create(git_id, "HEAD", ItemType::File, 0o644).unwrap();
    ctx.overlay.write(head_id, 0, b"ref: refs/heads/main\n", &ctx.base).unwrap();

    // Verify structure
    let git_entries = ctx.overlay.readdir(git_id, &ctx.base).unwrap();
    let git_names: std::collections::HashSet<_> =
        git_entries.iter().map(|e| e.name.as_str()).collect();
    assert!(git_names.contains("objects"));
    assert!(git_names.contains("refs"));
    assert!(git_names.contains("HEAD"));

    // Verify HEAD content
    let mut buf = vec![0u8; 100];
    let n = ctx.overlay.read(head_id, 0, &mut buf, &ctx.base).unwrap();
    assert_eq!(&buf[..n], b"ref: refs/heads/main\n");

    // Verify base is unchanged
    assert!(base_content(&ctx, "/.git").is_none());
    assert!(base_content(&ctx, "/test.txt").is_none());
}

#[test]
fn test_git_add_staging() {
    let mut ctx = Ctx::new();

    let root_id = ctx.root_id();

    // Create file to stage
    let file_id = ctx.overlay.create(root_id, "new_file.txt", ItemType::File, 0o644).unwrap();
    ctx.overlay.write(file_id, 0, b"staged content", &ctx.base).unwrap();

    // Simulate git index by creating .git/index
    let git_id = ctx.overlay.mkdir(root_id, ".git", 0o755).unwrap();
    let index_id = ctx.overlay.create(git_id, "index", ItemType::File, 0o644).unwrap();

    // Write mock index data
    ctx.overlay.write(index_id, 0, b"DIRC\x00\x00\x00\x02", &ctx.base).unwrap(); // Mock git index header

    // Verify index was written to overlay
    let mut buf = vec![0u8; 8];
    let n = ctx.overlay.read(index_id, 0, &mut buf, &ctx.base).unwrap();
    assert_eq!(n, 8);
    assert_eq!(&buf[..4], b"DIRC");
}

#[test]
fn test_git_commit_creates_objects() {
    let mut ctx = Ctx::new();

    let root_id = ctx.root_id();

    // Create .git/objects structure
    let git_id = ctx.overlay.mkdir(root_id, ".git", 0o755).unwrap();
    let objects_id = ctx.overlay.mkdir(git_id, "objects", 0o755).unwrap();

    // Simulate creating a blob object (first 2 chars of SHA are directory)
    let obj_dir_id = ctx.overlay.mkdir(objects_id, "ab", 0o755).unwrap();
    let blob_id = ctx.overlay.create(
        obj_dir_id,
        "cdef1234567890",
        ItemType::File,
        0o444,
    ).unwrap();

    // Write compressed blob data (simplified)
    ctx.overlay.write(blob_id, 0, b"blob 13\x00Hello, world!", &ctx.base).unwrap();

    // Verify object file exists
    let obj_dir_entries = ctx.overlay.readdir(obj_dir_id, &ctx.base).unwrap();
    assert_eq!(obj_dir_entries.len(), 1);
    assert_eq!(obj_dir_entries[0].name, "cdef1234567890");

    // Verify base is unchanged
    assert!(base_content(&ctx, "/.git/objects/ab").is_none());
}

#[test]
fn test_git_status_via_readdir() {
    let mut ctx = Ctx::new();

    let root_id = ctx.root_id();

    // Create some files in overlay (untracked/modified)
    ctx.overlay.create(root_id, "untracked.txt", ItemType::File, 0o644).unwrap();
    ctx.overlay.create(root_id, "modified.txt", ItemType::File, 0o644).unwrap();

    // Create .git
    ctx.overlay.mkdir(root_id, ".git", 0o755).unwrap();

    // Git status would readdir to find untracked files
    let entries = ctx.overlay.readdir(root_id, &ctx.base).unwrap();

    let names: std::collections::HashSet<_> = entries
        .iter()
        .map(|e| e.name.as_str())
        .filter(|n| *n != ".git")
        .collect();

    assert!(names.contains("untracked.txt"));
    assert!(names.contains("modified.txt"));
}

#[test]
fn test_git_diff_via_read() {
    let mut ctx = Ctx::new();

    // Create a file in base (committed version)
    ctx.create_base_file("committed.txt", b"original content");

    let root_id = ctx.root_id();

    // Modify via overlay (working tree version)
    let file_id = ctx.overlay.lookup(root_id, "committed.txt", &ctx.base).unwrap();
    ctx.overlay.write(file_id, 0, b"modified content", &ctx.base).unwrap();

    // Read from overlay (git diff would compare these)
    let mut overlay_buf = vec![0u8; 100];
    let n = ctx.overlay.read(file_id, 0, &mut overlay_buf, &ctx.base).unwrap();
    assert_eq!(&overlay_buf[..n], b"modified content");

    // Read from base (original)
    assert_eq!(base_content(&ctx, "/committed.txt").unwrap(), b"original content".to_vec());

    // This demonstrates copy-on-write for diffs
}

#[test]
fn test_git_log_via_refs() {
    let mut ctx = Ctx::new();

    let root_id = ctx.root_id();

    // Create .git/refs/heads structure
    let git_id = ctx.overlay.mkdir(root_id, ".git", 0o755).unwrap();
    let refs_id = ctx.overlay.mkdir(git_id, "refs", 0o755).unwrap();
    let heads_id = ctx.overlay.mkdir(refs_id, "heads", 0o755).unwrap();

    // Create main branch ref
    let main_id = ctx.overlay.create(heads_id, "main", ItemType::File, 0o644).unwrap();
    let commit_sha = b"abcdef1234567890abcdef1234567890abcdef12\n";
    ctx.overlay.write(main_id, 0, commit_sha, &ctx.base).unwrap();

    // Read commit SHA (git log would use this)
    let mut buf = vec![0u8; 100];
    let n = ctx.overlay.read(main_id, 0, &mut buf, &ctx.base).unwrap();
    assert_eq!(&buf[..n], commit_sha);

    // Verify structure
    let heads_entries = ctx.overlay.readdir(heads_id, &ctx.base).unwrap();
    assert_eq!(heads_entries.len(), 1);
    assert_eq!(heads_entries[0].name, "main");
}

#[test]
fn test_git_preserves_base_state() {
    let mut ctx = Ctx::new();

    // Create initial state in base
    ctx.create_base_file("README.md", b"# Original Repo\n");
    ctx.create_base_dir(".git");
    ctx.create_base_file(".git/config", b"[core]\n\tbare = false\n");

    let root_id = ctx.root_id();

    // Make changes via overlay
    let readme_id = ctx.overlay.lookup(root_id, "README.md", &ctx.base).unwrap();
    let new_readme = b"# Modified Repo\n";
    ctx.overlay.write(readme_id, 0, new_readme, &ctx.base).unwrap();
    // Truncate to new size since partial writes preserve trailing bytes
    ctx.overlay.setattr(readme_id, None, Some(new_readme.len() as u64), None, None, &ctx.base).unwrap();

    let git_id = ctx.overlay.lookup(root_id, ".git", &ctx.base).unwrap();
    let config_id = ctx.overlay.lookup(git_id, "config", &ctx.base).unwrap();
    let new_config = b"[core]\n\tbare = true\n";
    ctx.overlay.write(config_id, 0, new_config, &ctx.base).unwrap();
    // Truncate to new size since partial writes preserve trailing bytes
    ctx.overlay.setattr(config_id, None, Some(new_config.len() as u64), None, None, &ctx.base).unwrap();

    // Verify overlay has changes
    let mut buf = vec![0u8; 100];
    let n = ctx.overlay.read(readme_id, 0, &mut buf, &ctx.base).unwrap();
    assert_eq!(&buf[..n], b"# Modified Repo\n");

    let n = ctx.overlay.read(config_id, 0, &mut buf, &ctx.base).unwrap();
    assert_eq!(&buf[..n], b"[core]\n\tbare = true\n");

    // Verify base is UNCHANGED
    assert_eq!(base_content(&ctx, "/README.md").unwrap(), b"# Original Repo\n".to_vec());

    assert_eq!(base_content(&ctx, "/.git/config").unwrap(), b"[core]\n\tbare = false\n".to_vec());
}

