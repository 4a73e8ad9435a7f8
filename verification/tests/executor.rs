use command_core::errors::CoreError;
use command_core::executor::{
    check_dangerous_command, check_privileged_command, expand_tilde, make_command_result,
    prepare_execution, simple_command_output, validate_working_dir, ExecutorConfig,
};

#[test]
fn test_dangerous_command_detection() {
    assert!(check_dangerous_command("rm -rf /").is_some());
    assert!(check_dangerous_command("sudo rm -rf /").is_some());
    assert!(check_dangerous_command("ls -la").is_none());
    assert!(check_dangerous_command("echo 'hello'").is_none());
}

#[test]
fn test_privileged_command_detection() {
    assert!(check_privileged_command("sudo apt-get update"));
    assert!(check_privileged_command("su root"));
    assert!(!check_privileged_command("ls -la"));
    assert!(!check_privileged_command("echo 'sudo'"));
}

#[test]
fn test_expand_tilde() {
    assert_eq!(expand_tilde("~/test", Some("/home/me")).unwrap(), "/home/me/test");
    assert_eq!(expand_tilde("~", Some("/home/me")).unwrap(), "/home/me");
    assert_eq!(expand_tilde("/tmp/test", Some("/home/me")).unwrap(), "/tmp/test");
    assert_eq!(expand_tilde("/tmp/test", None).unwrap(), "/tmp/test");
    assert!(matches!(
        expand_tilde("~/test", None),
        Err(CoreError::InvalidWorkingDirectory(_))
    ));
}

#[test]
fn test_dangerous_match_is_case_insensitive() {
    assert!(check_dangerous_command("RM -RF /").is_some());
    assert!(check_dangerous_command("echo hi && Dd If=/dev/zero").is_some());
    assert_eq!(check_dangerous_command("mKfS.ext4 /dev/sdb").unwrap(), "mkfs");
}

#[test]
fn test_privileged_match_trims_leading_whitespace() {
    assert!(check_privileged_command("   sudo ls"));
    assert!(check_privileged_command("\t doas ls"));
    assert!(check_privileged_command("SU root"));
    assert!(!check_privileged_command("ls sudo"));
}

#[test]
fn test_privileged_match_requires_token_boundary() {
    assert!(!check_privileged_command("sum x"));
    assert!(!check_privileged_command("sudoku"));
    assert!(!check_privileged_command("surface mount"));
    assert!(check_privileged_command("sudo"));
    assert!(check_privileged_command("su"));
    assert!(check_privileged_command("su\troot"));
    assert!(check_privileged_command("doas ls"));
}

#[test]
fn test_validate_working_dir() {
    assert_eq!(validate_working_dir("/tmp".to_string(), true, true).unwrap(), "/tmp");
    assert!(matches!(
        validate_working_dir("/missing".to_string(), false, false),
        Err(CoreError::InvalidWorkingDirectory(_))
    ));
    assert!(matches!(
        validate_working_dir("/etc/hosts".to_string(), true, false),
        Err(CoreError::InvalidWorkingDirectory(_))
    ));
}

#[test]
fn test_executor_config_default() {
    let config = ExecutorConfig::default();
    assert_eq!(config.timeout_secs, 300);
    assert!(config.enable_safety_check);
    assert!(!config.allow_privileged);
}

#[test]
fn test_prepare_execution_rejects_dangerous() {
    let config = ExecutorConfig::default();
    let r = prepare_execution("rm -rf /", "/tmp", &config, Some("/home/me"));
    assert!(matches!(r, Err(CoreError::SafetyViolation(_))));
    let r = prepare_execution("sudo rm -rf / --force", "/tmp", &config, Some("/home/me"));
    match r {
        Err(CoreError::SafetyViolation(pattern)) => assert_eq!(pattern, "rm -rf /"),
        _ => panic!("expected a safety violation"),
    }
    let r = prepare_execution("ls -la", "/tmp", &config, Some("/home/me"));
    assert_eq!(r.unwrap(), "/tmp");
}

#[test]
fn test_prepare_execution_privilege_policy() {
    let config = ExecutorConfig::default();
    let r = prepare_execution("sudo apt-get update", "/tmp", &config, None);
    assert!(matches!(r, Err(CoreError::SafetyViolation(_))));

    let permissive = ExecutorConfig { allow_privileged: true, ..ExecutorConfig::default() };
    let r = prepare_execution("sudo apt-get update", "/tmp", &permissive, None);
    assert_eq!(r.unwrap(), "/tmp");

    let unchecked = ExecutorConfig { enable_safety_check: false, ..ExecutorConfig::default() };
    let r = prepare_execution("rm -rf /", "/tmp", &unchecked, None);
    assert_eq!(r.unwrap(), "/tmp");
}

#[test]
fn test_prepare_execution_expands_tilde() {
    let config = ExecutorConfig::default();
    let r = prepare_execution("ls", "~/work", &config, Some("/home/me"));
    assert_eq!(r.unwrap(), "/home/me/work");
    let r = prepare_execution("ls", "~/work", &config, None);
    assert!(matches!(r, Err(CoreError::InvalidWorkingDirectory(_))));
}

#[test]
fn test_make_command_result() {
    let r = make_command_result(
        Some(0),
        "out".to_string(),
        "err".to_string(),
        42,
        "/tmp".to_string(),
    );
    assert_eq!(r.exit_code, 0);
    assert!(r.success);
    assert_eq!(r.stdout, "out");
    assert_eq!(r.stderr, "err");
    assert_eq!(r.duration_ms, 42);
    assert_eq!(r.working_dir, "/tmp");

    let r = make_command_result(Some(2), String::new(), String::new(), 1, "/".to_string());
    assert_eq!(r.exit_code, 2);
    assert!(!r.success);

    let r = make_command_result(None, String::new(), String::new(), 1, "/".to_string());
    assert_eq!(r.exit_code, -1);
    assert!(!r.success);
}

#[test]
fn test_simple_command_output() {
    let ok = make_command_result(
        Some(0),
        "out".to_string(),
        "warn".to_string(),
        1,
        "/".to_string(),
    );
    assert_eq!(simple_command_output(&ok).unwrap(), "outwarn");

    let failed = make_command_result(
        Some(1),
        String::new(),
        "boom".to_string(),
        1,
        "/".to_string(),
    );
    assert_eq!(simple_command_output(&failed).unwrap_err(), "command failed: boom");
}

fn run_guarded(cmd: &str, working_dir: &str, config: &ExecutorConfig) -> Result<command_core::executor::CommandResult, CoreError> {
    let dir = prepare_execution(cmd, working_dir, config, None)?;
    let runtime = tokio::runtime::Runtime::new().expect("runtime");
    let started = std::time::Instant::now();
    let outcome = runtime.block_on(async {
        let mut command = tokio::process::Command::new("sh");
        command.args(["-c", cmd]).current_dir(&dir);
        tokio::time::timeout(
            std::time::Duration::from_secs(config.timeout_secs),
            command.output(),
        )
        .await
    });
    let elapsed = started.elapsed().as_millis() as u64;
    match outcome {
        Ok(Ok(output)) => Ok(make_command_result(
            output.status.code(),
            String::from_utf8_lossy(&output.stdout).to_string(),
            String::from_utf8_lossy(&output.stderr).to_string(),
            elapsed,
            dir,
        )),
        Ok(Err(e)) => Err(CoreError::SpawnFailure(e.to_string())),
        Err(_) => Err(CoreError::Timeout(config.timeout_secs)),
    }
}

#[test]
fn test_guarded_execution_succeeds() {
    let config = ExecutorConfig::default();
    let r = run_guarded("ls -la", "/tmp", &config).unwrap();
    assert!(r.success);
    assert_eq!(r.exit_code, 0);
    assert!(matches!(
        run_guarded("rm -rf /", "/tmp", &config),
        Err(CoreError::SafetyViolation(_))
    ));
}

#[test]
fn test_guarded_execution_timeout() {
    let config = ExecutorConfig { timeout_secs: 1, ..ExecutorConfig::default() };
    let started = std::time::Instant::now();
    let r = run_guarded("sleep 5", "/tmp", &config);
    let elapsed = started.elapsed();
    assert!(matches!(r, Err(CoreError::Timeout(1))));
    assert!(elapsed < std::time::Duration::from_secs(4));
}
