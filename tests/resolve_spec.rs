use wtw::inventory::WorktreeInfo;
use wtw::names::display_name_with;
use wtw::paths::normalize_path_with;
use wtw::resolve::{resolve_path, resolve_target, sanitize_target, worktree_not_found};

const SEP: char = std::path::MAIN_SEPARATOR;

struct Fixture {
    base_dir: String,
    repo_name: String,
    worktrees: Vec<WorktreeInfo>,
    main_path: String,
    feature_path: String,
    feature_display: String,
}

fn make_info(path: &str, branch: Option<&str>, is_main: bool) -> WorktreeInfo {
    WorktreeInfo {
        path: path.to_string(),
        head: "0123456789abcdef".to_string(),
        branch: branch.map(|b| b.to_string()),
        is_main,
        is_detached: branch.is_none(),
        locked: None,
        prunable: None,
    }
}

fn fixture() -> Fixture {
    let repo_root = "/tmp/fixture/repo";
    let base_dir = format!("{}/worktrees", repo_root);
    let feature_dir = format!("{}/feature/auth", base_dir);
    let bugfix_dir = format!("{}/bugfix/one", base_dir);
    let main = make_info(repo_root, Some("main"), true);
    let feature = make_info(&feature_dir, Some("feature/auth"), false);
    let bugfix = make_info(&bugfix_dir, Some("bugfix/one"), false);
    let feature_display = display_name_with(&feature, &base_dir, SEP);
    Fixture {
        base_dir,
        repo_name: "repo".to_string(),
        main_path: normalize_path_with(&main.path, SEP),
        feature_path: normalize_path_with(&feature.path, SEP),
        worktrees: vec![main, feature, bugfix],
        feature_display,
    }
}

#[test]
fn sanitize_target_trims_whitespace_and_wildcards() {
    assert_eq!(sanitize_target("  feature/*  "), "feature/");
    assert_eq!(sanitize_target("@ "), "@");
}

#[test]
fn resolve_path_matches_main_aliases_and_branch_names() {
    let fixture = fixture();
    let worktrees = &fixture.worktrees;
    let base_dir = &fixture.base_dir;
    let repo = &fixture.repo_name;

    let resolved_main = resolve_path(worktrees, base_dir, repo, "@", SEP).unwrap();
    assert_eq!(normalize_path_with(&resolved_main, SEP), fixture.main_path);

    let resolved_repo = resolve_path(worktrees, base_dir, repo, repo, SEP).unwrap();
    assert_eq!(normalize_path_with(&resolved_repo, SEP), fixture.main_path);

    let resolved_branch = resolve_path(worktrees, base_dir, repo, "feature/auth", SEP).unwrap();
    assert_eq!(normalize_path_with(&resolved_branch, SEP), fixture.feature_path);
}

#[test]
fn resolve_path_matches_display_names() {
    let fixture = fixture();
    let resolved = resolve_path(
        &fixture.worktrees,
        &fixture.base_dir,
        &fixture.repo_name,
        &fixture.feature_display,
        SEP,
    )
    .unwrap();
    assert_eq!(normalize_path_with(&resolved, SEP), fixture.feature_path);
}

#[test]
fn worktree_not_found_lists_available_options() {
    let fixture = fixture();
    let err = worktree_not_found("ghost", &fixture.worktrees, &fixture.base_dir, "repo", SEP);
    let message = err.message();
    assert!(
        message.contains("Available worktrees"),
        "expected suggestions, got: {message}"
    );
    assert!(message.contains("Run 'wtw list'"));
    assert!(message.contains("@"));
}

#[test]
fn worktree_not_found_message_is_sorted_and_deduplicated() {
    let fixture = fixture();
    let err = worktree_not_found("ghost", &fixture.worktrees, &fixture.base_dir, "repo", '/');
    assert_eq!(err.exit_code(), 1);
    assert_eq!(
        err.message(),
        "worktree 'ghost' not found\nAvailable worktrees: @, bugfix/one, feature/auth, main, repo\nRun 'wtw list' to see available worktrees."
    );
    let none: Vec<WorktreeInfo> = Vec::new();
    let err = worktree_not_found("x", &none, "/b", "repo", '/');
    assert_eq!(
        err.message(),
        "worktree 'x' not found\nRun 'wtw list' to see available worktrees."
    );
}

#[test]
fn cd_at_resolves_repository_root() {
    let fixture = fixture();
    for target in ["@", "root", "ROOT", "Repo", "main", " @* "] {
        let path = resolve_target(
            &fixture.worktrees,
            &fixture.base_dir,
            &fixture.repo_name,
            Some(target.to_string()),
            SEP,
        )
        .unwrap();
        assert_eq!(path, "/tmp/fixture/repo", "target {target:?}");
    }
}

#[test]
fn cd_accepts_display_name() {
    let fixture = fixture();
    let target = format!("bugfix{}one", SEP);
    let path = resolve_target(
        &fixture.worktrees,
        &fixture.base_dir,
        &fixture.repo_name,
        Some(target),
        SEP,
    )
    .unwrap();
    assert_eq!(path, "/tmp/fixture/repo/worktrees/bugfix/one");
    let by_dir = resolve_target(
        &fixture.worktrees,
        &fixture.base_dir,
        &fixture.repo_name,
        Some("one".to_string()),
        SEP,
    )
    .unwrap();
    assert_eq!(by_dir, "/tmp/fixture/repo/worktrees/bugfix/one");
}

#[test]
fn cd_unknown_worktree_suggests_available_options() {
    let fixture = fixture();
    let err = resolve_target(
        &fixture.worktrees,
        &fixture.base_dir,
        &fixture.repo_name,
        Some("missing".to_string()),
        SEP,
    )
    .unwrap_err();
    let message = err.message();
    assert!(message.contains("worktree 'missing' not found"));
    assert!(message.contains("Available worktrees"));
    assert!(message.contains("Run 'wtw list'"));
}

#[test]
fn cd_requires_a_name() {
    let fixture = fixture();
    for target in [None, Some("  ".to_string()), Some("**".to_string())] {
        let err = resolve_target(&fixture.worktrees, &fixture.base_dir, "repo", target, SEP)
            .unwrap_err();
        assert_eq!(err.message(), "worktree name is required");
    }
}

#[test]
fn unmanaged_worktree_is_never_resolved() {
    let worktrees = vec![
        make_info("/r", Some("main"), true),
        make_info("/elsewhere/topic", Some("topic"), false),
    ];
    assert_eq!(resolve_path(&worktrees, "/r/wt", "r", "topic", '/'), None);
    assert_eq!(resolve_path(&worktrees, "/r/wt", "r", "@", '/'), Some("/r".to_string()));
}

#[test]
fn primary_is_not_matched_by_its_directory_name() {
    let worktrees = vec![make_info("foo", Some("main"), true)];
    let err = resolve_target(&worktrees, "/wt", "bar", Some("foo".to_string()), '/').unwrap_err();
    assert!(err.message().starts_with("worktree 'foo' not found"));
    assert_eq!(resolve_path(&worktrees, "/wt", "bar", "main", '/'), Some("foo".to_string()));
    assert_eq!(resolve_path(&worktrees, "/wt", "bar", "BAR", '/'), Some("foo".to_string()));
}
