use command_core::errors::CoreError;
use command_core::launch::{
    build_ssh_env, build_terminal_env, default_shell_program, expect_script_path,
    interactive_shell_args, osc7_injection_for_shell, resolve_shell, ssh_command, ssh_launch_plan,
    ssh_shell_program, validate_shell, well_known_shells,
};
use command_core::osc::parse_osc7_sequence;
use command_core::terminal::TerminalManager;
use command_core::text::u64_to_string;

#[test]
fn test_parse_osc7_bel_terminated() {
    let data = "\u{1b}]7;file://host/Users/me/project\u{7}";
    assert_eq!(parse_osc7_sequence(data).unwrap(), "/Users/me/project");
}

#[test]
fn test_parse_osc7_percent_decoding() {
    let data = "prompt$ \u{1b}]7;file://mac.local/Users/me/my%20project\u{7}more";
    assert_eq!(parse_osc7_sequence(data).unwrap(), "/Users/me/my project");
}

#[test]
fn test_parse_osc7_string_terminator() {
    let data = "\u{1b}]7;file://host/var/log\u{1b}\\trailing";
    assert_eq!(parse_osc7_sequence(data).unwrap(), "/var/log");
}

#[test]
fn test_parse_osc7_rejects_incomplete() {
    assert!(parse_osc7_sequence("plain text").is_none());
    assert!(parse_osc7_sequence("\u{1b}]7;file://host/no/terminator").is_none());
    assert!(parse_osc7_sequence("\u{1b}]7;gopher://host/x\u{7}").is_none());
    assert!(parse_osc7_sequence("\u{1b}]7;file://hostonly\u{7}").is_none());
}

#[test]
fn test_parse_osc7_keeps_invalid_escape() {
    let data = "\u{1b}]7;file://host/a%zz/b\u{7}";
    assert_eq!(parse_osc7_sequence(data).unwrap(), "/a%zz/b");
}

#[test]
fn test_registry_lifecycle() {
    let mut manager = TerminalManager::new();
    assert!(!manager.has_session(1));
    manager.open_session(1, "/home/me".to_string());
    assert!(manager.has_session(1));
    assert_eq!(manager.get_current_dir(1).unwrap(), "/home/me");

    manager.update_current_dir(1, "/tmp".to_string()).unwrap();
    assert_eq!(manager.get_current_dir(1).unwrap(), "/tmp");

    assert!(matches!(manager.get_current_dir(2), Err(CoreError::NotFound)));
    assert!(matches!(
        manager.update_current_dir(2, "/".to_string()),
        Err(CoreError::NotFound)
    ));

    assert!(manager.close_terminal(1));
    assert!(!manager.has_session(1));
    assert!(!manager.close_terminal(1));
}

#[test]
fn test_registry_replaces_same_id() {
    let mut manager = TerminalManager::new();
    manager.open_session(7, "/a".to_string());
    manager.open_session(7, "/b".to_string());
    assert_eq!(manager.get_current_dir(7).unwrap(), "/b");
}

#[test]
fn test_process_output_tracks_directory() {
    let mut manager = TerminalManager::new();
    manager.open_session(3, "/home/me".to_string());
    let updated = manager.process_output(3, "ls\r\n\u{1b}]7;file://host/Users/me/project\u{7}> ");
    assert!(updated);
    assert_eq!(manager.get_current_dir(3).unwrap(), "/Users/me/project");

    assert!(!manager.process_output(3, "plain output"));
    assert_eq!(manager.get_current_dir(3).unwrap(), "/Users/me/project");

    assert!(!manager.process_output(9, "\u{1b}]7;file://host/x\u{7}"));
}

#[test]
fn test_osc7_injection_per_shell() {
    let zsh = osc7_injection_for_shell("/bin/zsh").unwrap();
    assert!(zsh.starts_with("precmd_functions+="));
    assert!(zsh.contains("file://"));
    assert!(zsh.ends_with("\n"));

    let bash = osc7_injection_for_shell("/opt/homebrew/bin/bash").unwrap();
    assert!(bash.starts_with("PROMPT_COMMAND="));
    assert!(bash.contains("file://"));

    assert!(osc7_injection_for_shell("/bin/sh").is_none());
    assert!(osc7_injection_for_shell("/usr/bin/fish").is_none());
}

#[test]
fn test_shell_programs() {
    assert_eq!(default_shell_program(), "/bin/zsh");
    assert_eq!(ssh_shell_program(), "/bin/sh");
    assert_eq!(interactive_shell_args(), vec!["-i".to_string()]);
}

#[test]
fn test_u64_to_string() {
    assert_eq!(u64_to_string(0), "0");
    assert_eq!(u64_to_string(7), "7");
    assert_eq!(u64_to_string(10), "10");
    assert_eq!(u64_to_string(65535), "65535");
    assert_eq!(u64_to_string(1002003), "1002003");
}

#[test]
fn test_ssh_command_line() {
    assert_eq!(
        ssh_command("example.com", 22, "alice"),
        "ssh -o StrictHostKeyChecking=no -p 22 alice@example.com"
    );
    assert_eq!(
        ssh_command("10.0.0.2", 2222, "root"),
        "ssh -o StrictHostKeyChecking=no -p 2222 root@10.0.0.2"
    );
}

#[test]
fn test_ssh_launch_plan_key_auth() {
    let (cmd, script) = ssh_launch_plan(4, "example.com", 22, "alice", None);
    assert_eq!(cmd, "ssh -o StrictHostKeyChecking=no -p 22 alice@example.com");
    assert!(script.is_none());
}

#[test]
fn test_ssh_launch_plan_password_auth() {
    let (cmd, script) = ssh_launch_plan(4, "example.com", 22, "alice", Some("secret"));
    assert_eq!(cmd, "expect /tmp/ssh_expect_4.exp");
    let script = script.unwrap();
    assert!(script.starts_with("#!/usr/bin/expect -f\nset timeout 30\n"));
    assert!(script.contains("spawn ssh -o StrictHostKeyChecking=no -p 22 alice@example.com"));
    assert!(script.contains("\"*password:\" {send \"secret\\r\"; exp_continue}"));
    assert!(script.contains("\"*Password:\" {send \"secret\\r\"; exp_continue}"));
    assert!(script.ends_with("interact\n"));
    assert_eq!(expect_script_path(4), "/tmp/ssh_expect_4.exp");
}

fn lookup<'a>(env: &'a [(String, String)], key: &str) -> Option<&'a str> {
    let mut found: Option<&'a str> = None;
    for (k, v) in env {
        if k == key {
            found = Some(v.as_str());
        }
    }
    found
}

#[test]
fn test_build_terminal_env() {
    let ambient = vec![
        ("PATH".to_string(), "/usr/bin".to_string()),
        ("TAURI_CONFIG".to_string(), "x".to_string()),
        ("__CFBundleIdentifier".to_string(), "y".to_string()),
        ("EDITOR".to_string(), "vi".to_string()),
        ("LANG".to_string(), "fr_FR.UTF-8".to_string()),
    ];
    let env = build_terminal_env(&ambient);
    assert_eq!(env[0], ("TERM".to_string(), "xterm-256color".to_string()));
    assert_eq!(lookup(&env, "COLORTERM"), Some("truecolor"));
    assert_eq!(lookup(&env, "PS1"), Some("> "));
    assert_eq!(lookup(&env, "ZSH_THEME"), Some(""));
    assert_eq!(lookup(&env, "PATH"), Some("/usr/bin"));
    assert_eq!(lookup(&env, "LANG"), Some("fr_FR.UTF-8"));
    assert_eq!(lookup(&env, "EDITOR"), Some("vi"));
    assert_eq!(lookup(&env, "TAURI_CONFIG"), None);
    assert_eq!(lookup(&env, "__CFBundleIdentifier"), None);
}

#[test]
fn test_build_terminal_env_lang_default() {
    let env = build_terminal_env(&Vec::new());
    assert_eq!(lookup(&env, "LANG"), Some("en_US.UTF-8"));
    assert_eq!(lookup(&env, "PATH"), None);
}

#[test]
fn test_build_ssh_env() {
    let ambient = vec![
        ("PATH".to_string(), "/usr/bin".to_string()),
        ("EDITOR".to_string(), "vi".to_string()),
    ];
    let env = build_ssh_env(&ambient);
    assert_eq!(lookup(&env, "TERM"), Some("xterm-256color"));
    assert_eq!(lookup(&env, "PATH"), Some("/usr/bin"));
    assert_eq!(lookup(&env, "LANG"), Some("en_US.UTF-8"));
    assert_eq!(lookup(&env, "EDITOR"), None);
    assert_eq!(lookup(&env, "PS1"), None);
}

#[test]
fn test_resolve_shell_prefers_request() {
    let probes = vec![("/bin/zsh".to_string(), true)];
    let requested = "/usr/bin/fish".to_string();
    assert_eq!(resolve_shell(Some(&requested), &probes, None), "/usr/bin/fish");
}

#[test]
fn test_resolve_shell_probes_in_order() {
    let probes = vec![
        ("/bin/zsh".to_string(), false),
        ("/usr/bin/zsh".to_string(), false),
        ("/bin/bash".to_string(), true),
        ("/usr/bin/bash".to_string(), true),
    ];
    assert_eq!(resolve_shell(None, &probes, None), "/bin/bash");
}

#[test]
fn test_resolve_shell_falls_back_to_env_then_default() {
    let probes = vec![("/bin/zsh".to_string(), false)];
    let env_shell = "/opt/shells/nu".to_string();
    assert_eq!(resolve_shell(None, &probes, Some(&env_shell)), "/opt/shells/nu");
    assert_eq!(resolve_shell(None, &probes, None), "/bin/zsh");
    assert_eq!(resolve_shell(None, &Vec::new(), None), "/bin/zsh");
}

#[test]
fn test_well_known_shells_and_validation() {
    let shells = well_known_shells();
    assert_eq!(shells[0], "/bin/zsh");
    assert!(shells.contains(&"/bin/bash".to_string()));
    assert_eq!(validate_shell("/bin/zsh".to_string(), true).unwrap(), "/bin/zsh");
    assert!(matches!(
        validate_shell("/bin/zsh".to_string(), false),
        Err(CoreError::ShellNotFound(_))
    ));
}
