use wtw::repo::RepoContext;
use wtw::runner::{format_argument, format_command, GitRunner};

#[test]
fn format_command_quotes_arguments_with_spaces() {
    let args = vec![
        "status".to_string(),
        "--short".to_string(),
        "feature branch".to_string(),
    ];
    let formatted = format_command(&args);
    assert_eq!(formatted, r#"git status --short "feature branch""#);
}

#[test]
fn format_argument_escapes_existing_quotes() {
    let formatted = format_argument("say \"hello\"");
    assert_eq!(formatted, r#""say \"hello\"""#);
}

#[test]
fn format_argument_leaves_simple_values_untouched() {
    let formatted = format_argument("--json");
    assert_eq!(formatted, "--json");
}

#[test]
fn format_argument_empty_and_single_quote() {
    assert_eq!(format_argument(""), "\"\"");
    assert_eq!(format_argument("it's"), "\"it's\"");
    assert_eq!(format_command(&Vec::new()), "git");
}

#[test]
fn runner_keeps_its_repository() {
    let runner = GitRunner::new(RepoContext::new("/a".to_string(), "/b".to_string()));
    assert_eq!(runner.repo().main_root(), "/b");
}
