use wtw::cli::ShellKind;
use wtw::shell::{profile_addition, pwsh_profile_path, script, INTEGRATION_MARKER};

#[test]
fn script_contains_function_and_completer() {
    let script = script();
    assert!(script.contains("function wtw"));
    assert!(script.contains("Register-ArgumentCompleter"));
}

#[test]
fn shell_init_pwsh_emits_wrapper_function() {
    assert!(ShellKind::Pwsh.ensure_supported().is_ok());
    let script = script();
    assert!(script.contains("function wtw"));
    assert!(script.contains("Register-ArgumentCompleter"));
}

#[test]
fn shell_init_cmd_is_not_supported_yet() {
    let err = ShellKind::Cmd.ensure_supported().unwrap_err();
    assert_eq!(err.message(), "shell 'cmd' is not supported yet");
    assert_eq!(err.exit_code(), 1);
    let err = ShellKind::Bash.ensure_supported().unwrap_err();
    assert_eq!(err.message(), "shell 'bash' is not supported yet");
}

#[test]
fn shell_kind_names() {
    assert_eq!(ShellKind::Pwsh.as_str(), "pwsh");
    assert_eq!(ShellKind::Cmd.as_str(), "cmd");
    assert_eq!(ShellKind::Bash.as_str(), "bash");
}

#[test]
fn profile_addition_appends_marker_and_script() {
    let added = profile_addition("Set-Alias ll ls").unwrap();
    let expected = format!("\n{}\n{}\n", INTEGRATION_MARKER, script());
    assert_eq!(added, expected);
    let added = profile_addition("").unwrap();
    assert_eq!(added, format!("{}\n{}\n", INTEGRATION_MARKER, script()));
    let added = profile_addition("line\n").unwrap();
    assert!(added.starts_with(INTEGRATION_MARKER));
}

#[test]
fn profile_addition_is_idempotent() {
    let existing = format!("first\n{}\n{}\n", INTEGRATION_MARKER, script());
    assert!(profile_addition(&existing).is_none());
}

#[test]
fn default_profile_path_under_home() {
    assert_eq!(
        pwsh_profile_path("/home/me", '/'),
        "/home/me/Documents/PowerShell/Microsoft.PowerShell_profile.ps1"
    );
    assert_eq!(
        pwsh_profile_path("/home/me/", '/'),
        "/home/me/Documents/PowerShell/Microsoft.PowerShell_profile.ps1"
    );
}
