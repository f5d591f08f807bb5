use wtw::cli::{GlobalOptions, LogLevel};
use wtw::config::{Config, DEFAULT_BASE_DIR, DEFAULT_VERSION};
use wtw::repo::{
    common_dir_candidate, first_diagnostic_line, resolve_main_root, rev_parse_path, RepoContext,
};

#[test]
fn resolved_base_dir_uses_repo_root_for_relative_paths() {
    let mut config = Config::default();
    config.defaults.base_dir = "custom-worktrees".to_string();
    let resolved = config.resolved_base_dir_with("/tmp/repo", '/');
    assert_eq!(resolved, "/tmp/repo/custom-worktrees");
    let resolved = config.resolved_base_dir_with("\\\\?\\C:\\repo", '\\');
    assert_eq!(resolved, "C:\\repo\\custom-worktrees");
}

#[test]
fn resolved_base_dir_preserves_absolute_paths() {
    let mut config = Config::default();
    config.defaults.base_dir = "/srv/worktrees".to_string();
    assert_eq!(config.resolved_base_dir("/tmp/repo"), "/srv/worktrees");
    config.defaults.base_dir = "\\\\?\\D:\\wt".to_string();
    assert_eq!(config.resolved_base_dir_with("/tmp/repo", '\\'), "D:\\wt");
}

#[test]
fn default_config_uses_expected_version_and_base_dir() {
    let config = Config::default();
    assert_eq!(config.version, DEFAULT_VERSION);
    assert_eq!(config.defaults.base_dir, DEFAULT_BASE_DIR);
    assert!(config.hooks.post_create.is_empty());
    let resolved = config.resolved_base_dir_with("/tmp/repo", '/');
    assert_eq!(resolved, format!("/tmp/repo/{}", DEFAULT_BASE_DIR));
}

#[test]
fn returns_default_when_config_missing() {
    let config = Config::default();
    assert_eq!(config.version, DEFAULT_VERSION);
    assert_eq!(config.defaults.base_dir, DEFAULT_BASE_DIR);
}

#[test]
fn blank_version_is_replaced_with_default() {
    let mut config = Config::default();
    config.version = "  ".to_string();
    config.fill_default_version();
    assert_eq!(config.version, DEFAULT_VERSION);
    config.version = "2.0".to_string();
    config.fill_default_version();
    assert_eq!(config.version, "2.0");
}

#[test]
fn repo_context_names_repository() {
    let repo = RepoContext::new("/w/repo/wt/x".to_string(), "/w/repo".to_string());
    assert_eq!(repo.repo_name(), "repo");
    assert_eq!(repo.main_root(), "/w/repo");
    assert_eq!(repo.worktree_root(), "/w/repo/wt/x");
    assert!(!repo.is_main_worktree());
    let repo = RepoContext::new("/w/repo/".to_string(), "/w/repo".to_string());
    assert!(repo.is_main_worktree());
    let root = RepoContext::new("/".to_string(), "/".to_string());
    assert_eq!(root.repo_name(), "/");
}

#[test]
fn main_root_from_common_dir() {
    assert_eq!(resolve_main_root("/w/repo/.git", '/'), "/w/repo");
    assert_eq!(resolve_main_root("/w/bare.git", '/'), "/w/bare.git");
    assert_eq!(common_dir_candidate("/w/repo/wt", "../.git", '/'), "/w/repo/wt/../.git");
    assert_eq!(common_dir_candidate("/w/repo", "/abs/.git", '/'), "/abs/.git");
}

#[test]
fn rev_parse_answers() {
    assert_eq!(rev_parse_path("/w", "/w/repo\n", '/').unwrap(), "/w/repo");
    assert_eq!(rev_parse_path("/w", ".git\n", '/').unwrap(), "/w/.git");
    let err = rev_parse_path("/w", " \n", '/').unwrap_err();
    assert_eq!(err.message(), "git rev-parse returned an empty path");
    assert_eq!(
        first_diagnostic_line("\n fatal: not a git repository \nhint: x\n"),
        Some("fatal: not a git repository".to_string())
    );
    assert_eq!(first_diagnostic_line("  "), None);
}

#[test]
fn log_levels() {
    let quiet = GlobalOptions { verbose: 3, quiet: true, repo: None };
    assert!(quiet.log_level() == LogLevel::Error);
    let plain = GlobalOptions { verbose: 0, quiet: false, repo: None };
    assert!(plain.log_level() == LogLevel::Warn);
    let verbose = GlobalOptions { verbose: 1, quiet: false, repo: None };
    assert!(verbose.log_level() == LogLevel::Debug);
    let very = GlobalOptions { verbose: 2, quiet: false, repo: None };
    assert!(very.log_level() == LogLevel::Trace);
}
