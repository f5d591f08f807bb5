use wtw::error::AppError;
use wtw::runner::command_failure;

#[test]
fn exit_codes_match_variants() {
    assert_eq!(AppError::user("u").exit_code(), 1);
    assert_eq!(AppError::config("c").exit_code(), 2);
    assert_eq!(AppError::git("g").exit_code(), 3);
    assert_eq!(AppError::internal("i").exit_code(), 10);
}

#[test]
fn git_failure_returns_exit_code_three() {
    let err = command_failure(
        "fatal: invalid reference: does-not-exist\n",
        "git worktree add failed without error output".to_string(),
    );
    assert_eq!(err.exit_code(), 3);
    assert_eq!(err.message(), "fatal: invalid reference: does-not-exist");
}

#[test]
fn command_failure_without_diagnostics_uses_fallback() {
    let err = command_failure("  \n", "fallback text".to_string());
    assert_eq!(err.exit_code(), 3);
    assert_eq!(err.message(), "fallback text");
}

#[test]
fn internal_from_keeps_displayed_text() {
    let err = AppError::internal_from("disk full");
    assert_eq!(err.exit_code(), 10);
    assert_eq!(err.message(), "disk full");
}
