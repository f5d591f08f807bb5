use wtw::add::build_spec;
use wtw::cli::AddCommand;
use wtw::config::Config;
use wtw::inventory::{parse_worktree_list, WorktreeInfo};
use wtw::list::build_rows;
use wtw::repo::RepoContext;
use wtw::resolve::resolve_target;

fn listing(records: &[(&str, &str)]) -> String {
    records
        .iter()
        .map(|(path, branch)| format!("worktree {path}\nHEAD 0123456789abcdef\nbranch refs/heads/{branch}\n"))
        .collect::<Vec<_>>()
        .join("\n")
}

fn cd(worktrees: &Vec<WorktreeInfo>, base: &str, target: &str, sep: char) -> Result<String, String> {
    resolve_target(worktrees, base, "repo", Some(target.to_string()), sep).map_err(|e| e.message())
}

#[test]
fn add_list_and_cd_end_to_end() {
    let repo = RepoContext::new("/x/repo".to_string(), "/x/repo".to_string());
    let mut config = Config::default();
    config.defaults.base_dir = "/x/wt".to_string();
    let base = config.resolved_base_dir_with(repo.main_root(), '/');
    assert_eq!(base, "/x/wt");

    let before = parse_worktree_list(&listing(&[("/x/repo", "main")]));
    assert_eq!(before.len(), 1);
    let cmd = AddCommand { target: None, branch: Some("feature/auth".to_string()), track: None };
    let spec = build_spec(&repo, &config, &cmd, &before, '/').unwrap();
    assert_eq!(spec.path, "/x/wt/feature/auth");

    let after = parse_worktree_list(&listing(&[("/x/repo", "main"), (&spec.path, "feature/auth")]));
    let rows = build_rows(&after, &base, "/x/repo", &vec![String::new(); 2], &vec![None, None], '/');
    assert_eq!(rows.len(), 2);
    assert!(rows[0].is_main);
    assert!(!rows[1].is_main);
    assert_eq!(rows[1].name, "feature/auth");

    assert_eq!(cd(&after, &base, "feature/auth", '/'), Ok("/x/wt/feature/auth".to_string()));
    assert_eq!(cd(&after, &base, "@", '/'), Ok("/x/repo".to_string()));
    // with `/` as the separator, `feature\auth` is neither the branch nor the display name
    assert!(cd(&after, &base, "feature\\auth", '/').unwrap_err().contains("not found"));
    // with `\` as the separator it is the display name
    assert_eq!(cd(&after, &base, "feature\\auth", '\\'), Ok("/x/wt/feature/auth".to_string()));
}
