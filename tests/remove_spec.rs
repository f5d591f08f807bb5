use wtw::cli::RemoveCommand;
use wtw::inventory::WorktreeInfo;
use wtw::remove::{
    find_target_worktree, plan_removal, remove_branch_args, remove_branch_failure,
    remove_worktree_args, remove_worktree_failure, removal_target,
};

fn make_info(path: &str, branch: Option<&str>, is_main: bool) -> WorktreeInfo {
    WorktreeInfo {
        path: path.to_string(),
        head: "0123456789abcdef".to_string(),
        branch: branch.map(|b| b.to_string()),
        is_main,
        is_detached: branch.is_none(),
        locked: None,
        prunable: None,
    }
}

fn inventory() -> Vec<WorktreeInfo> {
    vec![
        make_info("/tmp/repo", Some("main"), true),
        make_info("/tmp/repo/worktree/feature/remove", Some("feature/remove"), false),
        make_info("/tmp/repo/worktree/feature/current", Some("feature/current"), false),
    ]
}

fn command(target: Option<&str>, force: bool, with_branch: bool, force_branch: bool) -> RemoveCommand {
    RemoveCommand {
        target: target.map(|s| s.to_string()),
        force,
        with_branch,
        force_branch,
    }
}

#[test]
fn remove_with_branch_deletes_branch_and_worktree() {
    let cmd = command(Some("feature/remove"), false, true, true);
    let target = removal_target(&cmd).unwrap();
    let plan = plan_removal(
        &inventory(),
        "/tmp/repo/worktree",
        "/tmp/repo",
        &target,
        cmd.force,
        cmd.with_branch,
        cmd.force_branch,
        '/',
    )
    .unwrap();
    assert_eq!(plan.path, "/tmp/repo/worktree/feature/remove");
    assert!(!plan.force);
    assert_eq!(plan.branch, Some(("feature/remove".to_string(), true)));
    assert_eq!(
        remove_worktree_args(&plan.path, plan.force),
        vec!["worktree", "remove", "/tmp/repo/worktree/feature/remove"]
    );
    assert_eq!(
        remove_branch_args("feature/remove", true),
        vec!["branch", "-D", "feature/remove"]
    );
}

#[test]
fn remove_only_targets_current_base_dir() {
    let err = plan_removal(
        &inventory(),
        "/tmp/repo/alt-worktrees",
        "/tmp/repo",
        "feature/remove",
        false,
        false,
        false,
        '/',
    )
    .err()
    .unwrap();
    assert!(err.message().contains("not found"));
}

#[test]
fn remove_rejects_current_worktree() {
    let err = plan_removal(
        &inventory(),
        "/tmp/repo/worktree",
        "/tmp/repo/worktree/feature/current",
        "feature/current",
        true,
        false,
        false,
        '/',
    )
    .err()
    .unwrap();
    assert!(err.message().contains("cannot remove the current worktree"));
    assert_eq!(
        err.message(),
        "cannot remove the current worktree 'feature/current': /tmp/repo/worktree/feature/current"
    );
    assert_eq!(err.exit_code(), 1);
}

#[test]
fn remove_force_branch_requires_with_branch_flag() {
    let err = removal_target(&command(Some("feature/missing"), false, false, true)).unwrap_err();
    assert_eq!(err.message(), "--force-branch requires --with-branch");
    let err = removal_target(&command(None, false, false, false)).unwrap_err();
    assert_eq!(err.message(), "worktree name is required");
    let err = removal_target(&command(Some(" "), false, true, true)).unwrap_err();
    assert_eq!(err.message(), "worktree name is required");
    assert_eq!(removal_target(&command(Some(" x "), false, false, false)).unwrap(), "x");
}

#[test]
fn remove_never_targets_primary() {
    let err = find_target_worktree(&inventory(), "/tmp/repo/worktree", "main", '/').unwrap_err();
    assert_eq!(
        err.message(),
        "worktree 'main' not found\nAvailable worktrees: feature/current, feature/remove\nRun 'wtw list' to see available worktrees."
    );
    assert_eq!(find_target_worktree(&inventory(), "/tmp/repo/worktree", "remove", '/').unwrap(), 1);
}

#[test]
fn removal_commands_and_failures() {
    assert_eq!(
        remove_worktree_args("/p", true),
        vec!["worktree", "remove", "--force", "/p"]
    );
    assert_eq!(remove_branch_args("b", false), vec!["branch", "-d", "b"]);
    assert_eq!(
        remove_worktree_failure("", "/p").message(),
        "git worktree remove failed for /p without error output"
    );
    assert_eq!(remove_branch_failure("", "b").message(), "failed to remove branch 'b'");
    assert_eq!(remove_branch_failure("error: x\n", "b").message(), "error: x");
}
