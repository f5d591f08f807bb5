use wtw::add::{
    add_command_args, add_failure, branch_to_relative_path, build_spec, infer_branch_from_track,
    sanitize_segment,
};
use wtw::cli::AddCommand;
use wtw::config::Config;
use wtw::inventory::WorktreeInfo;
use wtw::repo::RepoContext;

fn info(path: &str, branch: Option<&str>, is_main: bool) -> WorktreeInfo {
    WorktreeInfo {
        path: path.to_string(),
        head: "0123456789abcdef".to_string(),
        branch: branch.map(|b| b.to_string()),
        is_main,
        is_detached: branch.is_none(),
        locked: None,
        prunable: None,
    }
}

fn repo() -> RepoContext {
    RepoContext::new("/tmp/repo".to_string(), "/tmp/repo".to_string())
}

fn config() -> Config {
    let mut config = Config::default();
    config.defaults.base_dir = "worktree".to_string();
    config
}

fn add(target: Option<&str>, branch: Option<&str>, track: Option<&str>) -> AddCommand {
    AddCommand {
        target: target.map(|s| s.to_string()),
        branch: branch.map(|s| s.to_string()),
        track: track.map(|s| s.to_string()),
    }
}

#[test]
fn branch_to_relative_path_replaces_forbidden_characters() {
    let path = branch_to_relative_path("feat:bad*name");
    assert_eq!(path, "feat_bad_name");
}

#[test]
fn branch_to_relative_path_normalizes_segments() {
    let path = branch_to_relative_path("feature//..//auth");
    let expected = ["feature", "_", "_", "_", "auth"].join("/");
    assert_eq!(path, expected);
}

#[test]
fn branch_to_relative_path_sanitizes_each_segment() {
    assert_eq!(branch_to_relative_path("a//../b"), "a/_/_/b");
    assert_eq!(branch_to_relative_path("./x\\y"), "_/x/y");
    assert_eq!(branch_to_relative_path(""), "_");
    assert_eq!(sanitize_segment("a<b>c|d?\"e"), "a_b_c_d__e");
    assert_eq!(sanitize_segment(".."), "_");
    assert_eq!(sanitize_segment("..."), "...");
}

#[test]
fn infer_branch_from_track_parses_remote_branch() {
    assert_eq!(
        infer_branch_from_track("origin/feature/auth"),
        Some("feature/auth".to_string())
    );
    assert_eq!(infer_branch_from_track("origin-only"), None);
    assert_eq!(infer_branch_from_track("origin/"), None);
}

#[test]
fn add_creates_worktree_and_cd_returns_path() {
    let existing = vec![info("/tmp/repo", Some("main"), true)];
    let spec = build_spec(&repo(), &config(), &add(None, Some("feature/auth"), None), &existing, '/')
        .expect("plan");
    assert_eq!(spec.path, "/tmp/repo/worktree/feature/auth");
    assert_eq!(spec.branch.as_deref(), Some("feature/auth"));
    assert_eq!(spec.commitish, None);
    assert!(!spec.track);
    assert_eq!(spec.display_name, "feature/auth");
    assert_eq!(
        add_command_args(&spec),
        vec!["worktree", "add", "-b", "feature/auth", "/tmp/repo/worktree/feature/auth"]
    );
}

#[test]
fn add_requires_branch_or_commit_argument() {
    let existing = vec![info("/tmp/repo", Some("main"), true)];
    let err = build_spec(&repo(), &config(), &add(None, None, None), &existing, '/').unwrap_err();
    assert_eq!(err.message(), "branch or commit is required");
    assert_eq!(err.exit_code(), 1);
    let err = build_spec(&repo(), &config(), &add(Some("  "), Some(""), None), &existing, '/')
        .unwrap_err();
    assert_eq!(err.message(), "branch or commit is required");
}

#[test]
fn add_detects_existing_branch_conflicts() {
    let existing = vec![
        info("/tmp/repo", Some("main"), true),
        info("/tmp/repo/worktree/feature/duplicate", Some("feature/duplicate"), false),
    ];
    let err = build_spec(
        &repo(),
        &config(),
        &add(None, Some("feature/duplicate"), None),
        &existing,
        '/',
    )
    .unwrap_err();
    assert_eq!(
        err.message(),
        "worktree for branch 'feature/duplicate' already exists: /tmp/repo/worktree/feature/duplicate"
    );
    assert_eq!(err.exit_code(), 1);
}

#[test]
fn add_track_without_branch_requires_branch_name() {
    let existing = vec![info("/tmp/repo", Some("main"), true)];
    let err = build_spec(&repo(), &config(), &add(None, None, Some("origin")), &existing, '/')
        .unwrap_err();
    assert_eq!(
        err.message(),
        "--track requires a branch name (use --branch or specify remote/branch)"
    );
}

#[test]
fn add_with_track_infers_branch() {
    let existing = vec![info("/tmp/repo", Some("main"), true)];
    let spec = build_spec(
        &repo(),
        &config(),
        &add(None, None, Some(" origin/feature/x ")),
        &existing,
        '/',
    )
    .unwrap();
    assert_eq!(spec.branch.as_deref(), Some("feature/x"));
    assert_eq!(spec.commitish.as_deref(), Some("origin/feature/x"));
    assert!(spec.track);
    assert_eq!(
        add_command_args(&spec),
        vec![
            "worktree",
            "add",
            "--track",
            "-b",
            "feature/x",
            "/tmp/repo/worktree/feature/x",
            "origin/feature/x"
        ]
    );
}

#[test]
fn add_commit_only_uses_commit_for_path() {
    let existing = vec![info("/tmp/repo", Some("main"), true)];
    let spec = build_spec(&repo(), &config(), &add(Some("v1.0:rc"), None, None), &existing, '/')
        .unwrap();
    assert_eq!(spec.branch, None);
    assert_eq!(spec.commitish.as_deref(), Some("v1.0:rc"));
    assert_eq!(spec.path, "/tmp/repo/worktree/v1.0_rc");
    assert_eq!(spec.display_name, "v1.0:rc");
    assert_eq!(
        add_command_args(&spec),
        vec!["worktree", "add", "/tmp/repo/worktree/v1.0_rc", "v1.0:rc"]
    );
}

#[test]
fn add_refuses_path_already_registered() {
    let existing = vec![
        info("/tmp/repo", Some("main"), true),
        info("/tmp/repo/worktree//topic/", None, false),
    ];
    let err = build_spec(&repo(), &config(), &add(None, Some("topic"), None), &existing, '/')
        .unwrap_err();
    assert_eq!(
        err.message(),
        "worktree path already exists in git metadata: /tmp/repo/worktree/topic"
    );
}

#[test]
fn add_failure_message() {
    assert_eq!(add_failure("").message(), "git worktree add failed without error output");
    assert_eq!(add_failure(" fatal: x \n").message(), "fatal: x");
    assert_eq!(add_failure("boom").exit_code(), 3);
}

#[test]
fn add_branch_with_start_point() {
    let existing = vec![info("/x/repo", Some("main"), true)];
    let repo = RepoContext::new("/x/repo".to_string(), "/x/repo".to_string());
    let mut config = Config::default();
    config.defaults.base_dir = "/x/wt".to_string();
    let spec = build_spec(&repo, &config, &add(Some("main"), Some("feature/auth"), None), &existing, '/')
        .unwrap();
    assert_eq!(spec.path, "/x/wt/feature/auth");
    assert_eq!(spec.branch.as_deref(), Some("feature/auth"));
    assert_eq!(spec.commitish.as_deref(), Some("main"));
    assert!(!spec.track);
    assert_eq!(spec.display_name, "feature/auth");
}
