use loaf::cli::{confirmed, mount_listed, stale_mount_action, StaleMount};
use loaf::sandbox::generate_profile;

#[test]
fn test_generate_profile() {
    let profile = generate_profile("/Users/test/project");
    assert!(profile.contains("(version 1)"));
    assert!(profile.contains("(allow default)"));
    assert!(profile.contains("(deny file-write*"));
    assert!(profile.contains("/Users/test/project"));
}

#[test]
fn profile_text_is_exact() {
    assert_eq!(
        generate_profile("/p"),
        "(version 1)\n(allow default)\n\n;; DENY writes to the project directory\n;; These must go through the NFS overlay mount point\n(deny file-write* (subpath \"/p\"))\n"
    );
}

#[test]
fn answers_yes_and_no() {
    assert!(confirmed("y\n"));
    assert!(confirmed("  YES  "));
    assert!(confirmed("Yes"));
    assert!(confirmed("\u{3000}y\u{a0}"));
    assert!(!confirmed("n"));
    assert!(!confirmed(""));
    assert!(!confirmed("yes please"));
    assert!(!confirmed("ye"));
}

#[test]
fn mount_table_lines() {
    let table = "localhost:/ on /Users/me/proj (nfs, nodev)\n/dev/disk1 on / (apfs)\n";
    assert!(mount_listed(table, "/Users/me/proj"));
    assert!(!mount_listed(table, "/Users/other"));
    assert!(!mount_listed("", "/x"));
    assert!(!mount_listed("", ""));
    assert!(mount_listed("a\r\nb", "a"));
    assert!(!mount_listed("a\r\nb", "a\r"));
    assert!(mount_listed("last\r", "t\r"));
    assert!(!mount_listed("x\ny", "x\ny"));
}

#[test]
fn stale_mounts() {
    assert_eq!(stale_mount_action(false, false), StaleMount::Forget);
    assert_eq!(stale_mount_action(false, true), StaleMount::Forget);
    assert_eq!(stale_mount_action(true, true), StaleMount::Keep);
    assert_eq!(stale_mount_action(true, false), StaleMount::Unmount);
}
