use wtw::config::{CommandHook, Config, CopyHook, Hook};
use wtw::hooks::{HookExecutor, HookRun, HookStep, REPO_ROOT_VAR, WORKTREE_PATH_VAR};

fn config_with(hooks: Vec<Hook>) -> Config {
    let mut config = Config::default();
    config.hooks.post_create = hooks;
    config
}

#[test]
fn post_create_hooks_copy_and_command_are_run() {
    let config = config_with(vec![
        Hook::Copy(CopyHook {
            from: "template.txt".to_string(),
            to: "copied.txt".to_string(),
        }),
        Hook::Command(CommandHook {
            command: "echo hook-run > hook.log".to_string(),
            env: vec![("MODE".to_string(), "test".to_string())],
            work_dir: None,
        }),
    ]);
    let executor = HookExecutor::new(&config, "/repo");
    let steps = executor.plan_hooks("/repo/worktree/feature/hooks", '/');
    assert_eq!(steps.len(), 2);
    match &steps[0] {
        HookStep::Copy { from, to, from_shown, to_shown } => {
            assert_eq!(from, "/repo/template.txt");
            assert_eq!(to, "/repo/worktree/feature/hooks/copied.txt");
            assert_eq!(from_shown, "template.txt");
            assert_eq!(to_shown, "copied.txt");
        }
        _ => panic!("expected a copy step"),
    }
    match &steps[1] {
        HookStep::Command { command, work_dir, env, unset } => {
            assert_eq!(command, "echo hook-run > hook.log");
            assert_eq!(work_dir, "/repo/worktree/feature/hooks");
            assert_eq!(
                env,
                &vec![
                    ("MODE".to_string(), "test".to_string()),
                    (WORKTREE_PATH_VAR.to_string(), "/repo/worktree/feature/hooks".to_string()),
                    (REPO_ROOT_VAR.to_string(), "/repo".to_string()),
                ]
            );
            assert_eq!(unset, "WTP_SHELL_INTEGRATION");
        }
        _ => panic!("expected a command step"),
    }
}

#[test]
fn hook_paths_absolute_and_work_dir() {
    let config = config_with(vec![
        Hook::Copy(CopyHook {
            from: "/etc/skel/.env".to_string(),
            to: "/tmp/out/.env".to_string(),
        }),
        Hook::Command(CommandHook {
            command: "make".to_string(),
            env: Vec::new(),
            work_dir: Some("sub".to_string()),
        }),
    ]);
    let executor = HookExecutor::new(&config, "/repo");
    let steps = executor.plan_hooks("/wt", '/');
    match &steps[0] {
        HookStep::Copy { from, to, from_shown, to_shown } => {
            assert_eq!(from, "/etc/skel/.env");
            assert_eq!(to, "/tmp/out/.env");
            assert_eq!(from_shown, "/etc/skel/.env");
            assert_eq!(to_shown, "/tmp/out/.env");
        }
        _ => panic!("expected a copy step"),
    }
    match &steps[1] {
        HookStep::Command { work_dir, .. } => assert_eq!(work_dir, "/wt/sub"),
        _ => panic!("expected a command step"),
    }
}

#[test]
fn failing_hook_stops_the_run() {
    // copy succeeds, command fails, the last copy must never be issued
    let mut run = HookRun::start(3);
    let mut issued = Vec::new();
    let outcomes = vec![Ok(()), Err("command exited with status 1".to_string()), Ok(())];
    while let Some(i) = run.current() {
        issued.push(i);
        run.record(outcomes[i].clone());
    }
    assert_eq!(issued, vec![0, 1]);
    let err = run.finish().unwrap_err();
    assert_eq!(err.exit_code(), 3);
    assert_eq!(err.message(), "hook 2 failed: command exited with status 1");
}

#[test]
fn successful_run_issues_every_hook_in_order() {
    let mut run = HookRun::start(12);
    let mut issued = Vec::new();
    while let Some(i) = run.current() {
        issued.push(i);
        run.record(Ok(()));
    }
    assert_eq!(issued, (0..12).collect::<Vec<_>>());
    assert!(run.finish().is_ok());
    let empty = HookRun::start(0);
    assert_eq!(empty.current(), None);
    assert!(empty.finish().is_ok());
}

#[test]
fn failure_numbers_past_nine() {
    let mut run = HookRun::start(12);
    for _ in 0..10 {
        run.record(Ok(()));
    }
    run.record(Err("boom".to_string()));
    assert_eq!(run.current(), None);
    assert_eq!(run.finish().unwrap_err().message(), "hook 11 failed: boom");
}
