use wtw::inventory::{parse_worktree_list, split_lines};

#[test]
fn parse_marks_first_entry_as_main() {
    let main = "/tmp/t/repo-main";
    let feature = "/tmp/t/repo-worktrees/feature-auth";
    let output = format!(
        "worktree {}\nHEAD 0123456789abcdef\nbranch refs/heads/main\n\n\
         worktree {}\nHEAD deadbeefcafebabe\nbranch refs/heads/feature/auth\n",
        main, feature
    );

    let infos = parse_worktree_list(&output);
    assert_eq!(infos.len(), 2);
    assert!(infos[0].is_main);
    assert_eq!(infos[1].branch.as_deref(), Some("feature/auth"));
    assert!(!infos[1].is_main);
    assert_eq!(infos[0].path, main);
    assert_eq!(infos[1].path, feature);
    assert_eq!(infos[1].head, "deadbeefcafebabe");
}

#[test]
fn parse_handles_detached_and_metadata_flags() {
    let detached = "/tmp/t/detached";
    let output = format!(
        "worktree {}\nHEAD 0123456789abcdef\ndetached\nlocked because testing\nprunable dirty\n",
        detached
    );

    let infos = parse_worktree_list(&output);
    assert_eq!(infos.len(), 1);
    let info = &infos[0];
    assert!(info.is_detached);
    assert!(info.branch.is_none());
    assert_eq!(info.locked.as_deref(), Some("because testing"));
    assert_eq!(info.prunable.as_deref(), Some("dirty"));
}

#[test]
fn parse_counts_blank_separated_records() {
    let output = "worktree /a\nHEAD 1\n\nworktree /b\nHEAD 2\n\nworktree /c\nbranch refs/heads/c\n";
    let infos = parse_worktree_list(output);
    assert_eq!(infos.len(), 3);
    assert!(infos[0].is_main);
    assert!(!infos[1].is_main && !infos[2].is_main);
    assert_eq!(infos[2].branch.as_deref(), Some("c"));
}

#[test]
fn parse_detached_wins_over_branch_line() {
    let output = "worktree /a\nbranch refs/heads/x\ndetached\n";
    let infos = parse_worktree_list(output);
    assert_eq!(infos.len(), 1);
    assert!(infos[0].is_detached);
    assert!(infos[0].branch.is_none());
}

#[test]
fn parse_ignores_stray_blank_lines_and_unknown_tags() {
    let output = "\n\nworktree /a\r\nHEAD 1  \nbare\nlocked\nprunable\n\n\n\nworktree /b\nworktree /c\n";
    let infos = parse_worktree_list(output);
    assert_eq!(infos.len(), 3);
    assert_eq!(infos[0].path, "/a");
    assert_eq!(infos[0].head, "1");
    assert_eq!(infos[0].locked.as_deref(), Some(""));
    assert_eq!(infos[0].prunable.as_deref(), Some(""));
    assert_eq!(infos[1].head, "");
}

#[test]
fn parse_empty_listing() {
    assert!(parse_worktree_list("").is_empty());
    assert!(parse_worktree_list("\n\nHEAD 1\n").is_empty());
}

#[test]
fn split_lines_keeps_empty_pieces() {
    assert_eq!(split_lines("a\n\nb"), vec!["a", "", "b"]);
    assert_eq!(split_lines(""), vec![""]);
}
