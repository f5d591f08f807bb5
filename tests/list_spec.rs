use wtw::error::AppError;
use wtw::inventory::WorktreeInfo;
use wtw::list::{
    build_rows, classify_upstream_failure, render_head, render_table, status_label, upstream_from,
    UpstreamQuery,
};

const SEP: char = std::path::MAIN_SEPARATOR;

fn make_info(path: &str, branch: Option<&str>, is_main: bool) -> WorktreeInfo {
    WorktreeInfo {
        path: path.to_string(),
        head: "0123456789abcdef".to_string(),
        branch: branch.map(|b| b.to_string()),
        is_main,
        is_detached: branch.is_none(),
        locked: None,
        prunable: None,
    }
}

fn inventory() -> Vec<WorktreeInfo> {
    vec![
        make_info("/tmp/repo", Some("main"), true),
        make_info("/tmp/repo/worktree/feature/current", Some("feature/current"), false),
    ]
}

#[test]
fn list_marks_current_worktree_with_asterisk() {
    let worktrees = inventory();
    let statuses = vec![String::new(), String::new()];
    let upstreams = vec![None, None];
    let rows = build_rows(
        &worktrees,
        "/tmp/repo/worktree",
        "/tmp/repo/worktree/feature/current",
        &statuses,
        &upstreams,
        SEP,
    );
    let output = render_table(&rows);
    let display_name = format!("feature{sep}current*", sep = std::path::MAIN_SEPARATOR);
    assert!(
        output.contains(&display_name),
        "expected '{}' to be marked current in:\n{}",
        display_name,
        output
    );
}

#[test]
fn list_json_includes_main_worktree() {
    let worktrees = vec![make_info("/tmp/repo", Some("main"), true)];
    let rows = build_rows(&worktrees, "/tmp/repo/worktree", "/tmp/repo", &vec![String::new()], &vec![None], SEP);
    assert_eq!(rows.len(), 1);
    let main = &rows[0];
    assert_eq!(main.name, "@");
    assert_eq!(main.branch.as_deref(), Some("main"));
    assert_eq!(main.status, "clean");
    assert!(main.is_main);
    assert!(main.is_current);
    assert_eq!(main.abs_path, "/tmp/repo");
}

#[test]
fn list_json_reflects_current_and_main_flags() {
    let worktrees = inventory();
    let rows = build_rows(
        &worktrees,
        "/tmp/repo/worktree",
        "/tmp/repo/worktree/feature/current/",
        &vec![String::new(), " M file\n".to_string()],
        &vec![None, Some("main".to_string())],
        SEP,
    );
    assert_eq!(rows.len(), 2);
    let main = rows.iter().find(|e| e.is_main).unwrap();
    assert!(!main.is_current);
    let feature = rows
        .iter()
        .find(|e| e.branch.as_deref() == Some("feature/current"))
        .unwrap();
    assert!(feature.is_current);
    assert_eq!(feature.status, "dirty");
    assert_eq!(feature.upstream.as_deref(), Some("main"));
}

#[test]
fn table_has_padded_columns() {
    let worktrees = vec![make_info("/r", None, true)];
    let rows = build_rows(&worktrees, "/r/wt", "/elsewhere", &vec![String::new()], &vec![None], '/');
    let table = render_table(&rows);
    let expected = "PATH BRANCH   HEAD     STATUS UPSTREAM ABS_PATH\n\
                    ---- -------- -------- ------ -------- --------\n\
                    @    detached 01234567 clean  -        /r      \n";
    assert_eq!(table, expected);
}

#[test]
fn status_and_upstream_rules() {
    assert_eq!(status_label(""), "clean");
    assert_eq!(status_label(" \n"), "clean");
    assert_eq!(status_label("?? new.txt\n"), "dirty");
    assert_eq!(upstream_from(UpstreamQuery::Answered(" origin/main\n".to_string())).unwrap(), Some("origin/main".to_string()));
    assert_eq!(upstream_from(UpstreamQuery::Answered("".to_string())).unwrap(), None);
    assert_eq!(upstream_from(UpstreamQuery::NotConfigured).unwrap(), None);
    let err: AppError = upstream_from(UpstreamQuery::Failed("spawn failed".to_string())).unwrap_err();
    assert_eq!(err.exit_code(), 3);
    assert_eq!(err.message(), "spawn failed");
    assert_eq!(render_head("0123456789"), "01234567");
    assert_eq!(render_head("abc"), "abc");
}

#[test]
fn list_reports_dirty_status_and_upstream() {
    let worktrees = vec![
        make_info("/tmp/repo", Some("main"), true),
        make_info("/tmp/repo/worktree/feature/list", Some("feature/list"), false),
    ];
    let upstream = upstream_from(UpstreamQuery::Answered("main\n".to_string())).unwrap();
    let rows = build_rows(
        &worktrees,
        "/tmp/repo/worktree",
        "/tmp/repo",
        &vec![String::new(), "M  dirty.txt\n".to_string()],
        &vec![None, upstream],
        SEP,
    );
    let table = render_table(&rows);
    assert!(
        table.contains("PATH") && table.contains("UPSTREAM"),
        "table should include headers"
    );
    assert!(
        table.contains("dirty"),
        "STATUS column should show dirty worktree"
    );
    assert!(
        table.contains("main"),
        "UPSTREAM column should show configured upstream"
    );
    assert_eq!(rows[1].upstream.as_deref(), Some("main"));
    assert_eq!(rows[1].status, "dirty");
}

#[test]
fn upstream_failures_are_classified_by_diagnostics() {
    let q = classify_upstream_failure(
        "fatal: no upstream configured for branch 'feature/x'\n",
        "git command failed".to_string(),
    );
    assert_eq!(upstream_from(q).unwrap(), None);
    let q = classify_upstream_failure("fatal: HEAD does not point to a branch\n", "x".to_string());
    assert_eq!(upstream_from(q).unwrap(), None);
    let q = classify_upstream_failure("fatal: not a git repository\n", "git failed".to_string());
    let err = upstream_from(q).unwrap_err();
    assert_eq!(err.exit_code(), 3);
    assert_eq!(err.message(), "git failed");
}
