use wtw::inventory::WorktreeInfo;
use wtw::names::{display_name, display_name_with, file_name, is_managed};
use wtw::paths::{join_path, normalize_path, normalize_path_with, path_is_within, split_path};

fn make_info(path: &str, branch: Option<&str>, is_main: bool) -> WorktreeInfo {
    WorktreeInfo {
        path: path.to_string(),
        head: "deadbeef".to_string(),
        branch: branch.map(|s| s.to_string()),
        is_main,
        is_detached: false,
        locked: None,
        prunable: None,
    }
}

#[test]
fn display_main_worktree_as_at() {
    let info = make_info("C:\\repo", Some("main"), true);
    let base_dir = "C:\\repo\\worktrees";
    assert_eq!(display_name(&info, base_dir), "@");
}

#[test]
fn display_relative_worktree_name() {
    let info = make_info(
        "C:\\repo\\worktrees\\feature\\auth",
        Some("feature/auth"),
        false,
    );
    let base_dir = "C:\\repo\\worktrees";
    assert_eq!(
        display_name(&info, base_dir),
        format!("feature{}auth", std::path::MAIN_SEPARATOR)
    );
}

#[test]
fn managed_worktree_within_base_dir() {
    let info = make_info(
        "C:\\repo\\worktrees\\feature\\auth",
        Some("feature/auth"),
        false,
    );
    let base_dir = "C:\\repo\\worktrees";
    assert!(is_managed(&info, base_dir));
}

#[test]
fn unmanaged_worktree_outside_base_dir() {
    let info = make_info("D:\\temp\\feature", Some("feature"), false);
    let base_dir = "C:\\repo\\worktrees";
    assert!(!is_managed(&info, base_dir));
}

#[test]
fn primary_is_at_under_any_base() {
    let info = make_info("/srv/repo", Some("main"), true);
    assert_eq!(display_name_with(&info, "/elsewhere", '/'), "@");
    assert_eq!(display_name_with(&info, "", '\\'), "@");
    assert!(is_managed(&info, "/elsewhere"));
}

#[test]
fn display_name_uses_given_separator() {
    let info = make_info("/x/wt/feature/auth", Some("feature/auth"), false);
    assert_eq!(display_name_with(&info, "/x/wt", '/'), "feature/auth");
    assert_eq!(display_name_with(&info, "/x/wt", '\\'), "feature\\auth");
}

#[test]
fn unmanaged_display_name_is_last_component() {
    let info = make_info("/tmp/elsewhere/feature", None, false);
    assert_eq!(display_name_with(&info, "/x/wt", '/'), "feature");
    let base_itself = make_info("/x/wt", None, false);
    assert_eq!(display_name_with(&base_itself, "/x/wt", '/'), "wt");
    let root = make_info("/", None, false);
    assert_eq!(display_name_with(&root, "/x/wt", '/'), "/");
}

#[test]
fn base_dir_itself_and_descendants_are_managed() {
    assert!(is_managed(&make_info("/x/wt", None, false), "/x/wt"));
    assert!(is_managed(&make_info("/x/wt/a/b/c", None, false), "/x/wt"));
    assert!(is_managed(&make_info("/x/wt/a/", None, false), "/x/wt/"));
    assert!(!is_managed(&make_info("/x/wt2/a", None, false), "/x/wt"));
    assert!(!is_managed(&make_info("/x/other", None, false), "/x/wt"));
    assert!(!is_managed(&make_info("x/wt/a", None, false), "/x/wt"));
}

#[test]
fn normalize_strips_verbatim_prefix_and_noise() {
    assert_eq!(normalize_path_with("\\\\?\\C:\\repo\\.\\wt\\", '\\'), "C:\\repo\\wt");
    assert_eq!(normalize_path_with("/a//b/./c/", '/'), "/a/b/c");
    assert_eq!(normalize_path_with("a\\b", '/'), "a/b");
    assert_eq!(normalize_path_with("", '/'), "");
    assert_eq!(normalize_path_with("/", '/'), "/");
}

#[test]
fn normalize_is_idempotent() {
    for p in ["/a//b/./c/", "\\\\?\\C:\\x\\y", "rel/./path", "///", "..\\up"] {
        let once = normalize_path(p);
        assert_eq!(normalize_path(&once), once);
    }
}

#[test]
fn path_helpers() {
    let (parts, rooted) = split_path("/a/b\\c");
    assert_eq!(parts, vec!["a", "b", "c"]);
    assert!(rooted);
    assert!(path_is_within("/a/b/c", "/a/b"));
    assert!(!path_is_within("/a/bc", "/a/b"));
    assert_eq!(file_name("/a/b/c.txt"), Some("c.txt".to_string()));
    assert_eq!(file_name("/"), None);
    assert_eq!(join_path("/a", "b", '/'), "/a/b");
    assert_eq!(join_path("/a/", "b", '/'), "/a/b");
    assert_eq!(join_path("/a", "/abs", '/'), "/abs");
    assert_eq!(join_path("C:\\a", "D:\\b", '\\'), "D:\\b");
}

#[test]
fn containment_is_per_component() {
    let base = "/r/worktrees";
    for path in ["/r/worktrees-old/x", "/r/other", "/r", "/elsewhere/feature"] {
        assert!(!is_managed(&make_info(path, None, false), base), "{path}");
    }
    assert!(is_managed(&make_info("/r/worktrees", None, false), base));
    assert!(is_managed(&make_info("/r/worktrees/a/b", None, false), base));
}
