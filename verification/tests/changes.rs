use loaf::base::{BaseLayer, BaseMeta};
use loaf::changes::{apply_plan, get_overlay_changes, is_git, line_le, sort_lines, ApplyStep};
use loaf::db::{Database, ItemType};
use loaf::overlay::{OverlayError, OverlayFs};

fn meta(mode: u32, size: u64) -> BaseMeta {
    BaseMeta { mode, uid: 501, gid: 20, size, nlink: 1, atime: (10, 0), mtime: (20, 0), ctime: (30, 0) }
}

fn chars(s: &str) -> Vec<char> {
    s.chars().collect()
}

#[test]
fn changes_lists_added_modified_and_deleted_sorted() {
    let mut base = BaseLayer::new();
    base.add_file("/kept.txt", meta(0o100644, 1), b"k".to_vec());
    base.add_file("/gone.txt", meta(0o100644, 1), b"g".to_vec());
    let mut ov = OverlayFs::new(Database::open(), "/base");
    ov.create(1, "new.txt", ItemType::File, 0o644).unwrap();
    ov.mkdir(1, "dir", 0o755).unwrap();
    ov.symlink(1, "ln", "/t").unwrap();
    let k = ov.lookup(1, "kept.txt", &base).unwrap();
    ov.write(k, 0, b"K", &base).unwrap();
    let g = ov.lookup(1, "gone.txt", &base).unwrap();
    ov.remove(g, &base).unwrap();

    let lines = get_overlay_changes(&ov, &base);
    assert_eq!(
        lines,
        vec![
            "  \x1b[31mD\x1b[0m          /gone.txt".to_string(),
            "  \x1b[32mA\x1b[0m dir      /dir".to_string(),
            "  \x1b[32mA\x1b[0m file     /new.txt".to_string(),
            "  \x1b[32mA\x1b[0m symlink  /ln".to_string(),
            "  \x1b[33mM\x1b[0m file     /kept.txt".to_string(),
        ]
    );
}

#[test]
fn changes_leave_out_git_internals() {
    let base = BaseLayer::new();
    let mut ov = OverlayFs::new(Database::open(), "/base");
    let g = ov.mkdir(1, ".git", 0o755).unwrap();
    ov.create(g, "HEAD", ItemType::File, 0o644).unwrap();
    ov.create(1, ".gitignore", ItemType::File, 0o644).unwrap();
    let lines = get_overlay_changes(&ov, &base);
    assert_eq!(lines, vec!["  \x1b[32mA\x1b[0m file     /.gitignore".to_string()]);
}

#[test]
fn changes_of_empty_overlay_are_empty() {
    let ov = OverlayFs::new(Database::open(), "/base");
    assert!(get_overlay_changes(&ov, &BaseLayer::new()).is_empty());
}

#[test]
fn git_paths_are_recognised() {
    assert!(is_git(&chars("/.git")));
    assert!(is_git(&chars("/.git/objects/ab")));
    assert!(!is_git(&chars("/.gitignore")));
    assert!(!is_git(&chars("/src/.git")));
}

#[test]
fn lines_sort_by_code_point() {
    let v = vec![chars("b"), chars("ab"), chars("a"), chars("B"), chars("ab")];
    let sorted = sort_lines(&v);
    let out: Vec<String> = sorted.iter().map(|l| l.iter().collect()).collect();
    assert_eq!(out, vec!["B", "a", "ab", "ab", "b"]);
    assert!(line_le(&chars("a"), &chars("a")));
    assert!(line_le(&chars(""), &chars("a")));
    assert!(!line_le(&chars("b"), &chars("a")));
}

#[test]
fn apply_plan_writes_files_dirs_symlinks_then_removes() {
    let mut base = BaseLayer::new();
    base.add_file("/old.txt", meta(0o100644, 1), b"o".to_vec());
    let mut ov = OverlayFs::new(Database::open(), "/base");
    let d = ov.mkdir(1, "d", 0o755).unwrap();
    let f = ov.create(d, "f.sh", ItemType::File, 0o755).unwrap();
    ov.write(f, 0, b"#!", &base).unwrap();
    ov.symlink(1, "l", "d/f.sh").unwrap();
    let o = ov.lookup(1, "old.txt", &base).unwrap();
    ov.remove(o, &base).unwrap();

    let plan = apply_plan(&mut ov);
    assert!(plan.error.is_none());
    let steps: Vec<String> = plan.steps.iter().map(|s| format!("{s:?}")).collect();
    assert_eq!(
        steps,
        vec![
            "CreateDir(\"d\")".to_string(),
            "CreateParent(\"d/f.sh\")".to_string(),
            "WriteFile(\"d/f.sh\", [35, 33])".to_string(),
            "SetMode(\"d/f.sh\", 493)".to_string(),
            "CreateParent(\"l\")".to_string(),
            "PlaceSymlink(\"l\", \"d/f.sh\")".to_string(),
            "RemovePath(\"old.txt\")".to_string(),
        ]
    );
}

#[test]
fn apply_plan_of_empty_overlay_is_empty() {
    let mut ov = OverlayFs::new(Database::open(), "/base");
    let plan = apply_plan(&mut ov);
    assert!(plan.steps.is_empty());
    assert_eq!(plan.error, None);
}

#[test]
fn apply_plan_creates_directories_in_table_order() {
    let mut db = Database::open();
    db.create_by_path("/d", ItemType::Directory, 0o755).unwrap();
    db.create_by_path("/broken", ItemType::Directory, 0o755).unwrap();
    let mut ov = OverlayFs::new(db, "/base");
    let plan = apply_plan(&mut ov);
    assert!(plan.error.is_none());
    assert_eq!(plan.steps.len(), 2);
    assert!(matches!(&plan.steps[0], ApplyStep::CreateDir(p) if p == "d"));
    assert!(matches!(&plan.steps[1], ApplyStep::CreateDir(p) if p == "broken"));
}

#[test]
fn apply_plan_stops_at_a_symlink_it_cannot_look_up() {
    let mut db = Database::open();
    db.create_symlink_by_path("relative", "/t").unwrap();
    db.create_by_path("/after", ItemType::Directory, 0o755).unwrap();
    let mut ov = OverlayFs::new(db, "/base");
    let plan = apply_plan(&mut ov);
    assert_eq!(plan.error, Some(OverlayError::NotFound));
    assert_eq!(plan.steps.len(), 1);
    assert!(matches!(&plan.steps[0], ApplyStep::CreateParent(p) if p == "relative"));
}
