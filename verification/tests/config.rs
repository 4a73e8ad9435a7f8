use command_core::config::{ClaudeConfig, ClaudeConfigManager, ClaudeProvider};
use command_core::paths::{
    file_le, is_hidden_path, is_project_entry_skipped, is_sensitive_path, sort_file_infos,
    FileInfo,
};

fn provider(name: &str) -> ClaudeProvider {
    ClaudeProvider {
        name: name.to_string(),
        base_url: "https://api.example.com".to_string(),
        api_key: "sk-1234567890".to_string(),
        model: "default-model".to_string(),
        created_at: "2024-01-01T00:00:00Z".to_string(),
    }
}

#[test]
fn test_validate_api_key() {
    assert!(ClaudeConfigManager::validate_api_key("sk-1234567890").unwrap());
    assert!(ClaudeConfigManager::validate_api_key("sk_1234567890").unwrap());
    assert!(ClaudeConfigManager::validate_api_key("pat-12345678").unwrap());
    assert!(!ClaudeConfigManager::validate_api_key("sk-short").unwrap());
    assert!(!ClaudeConfigManager::validate_api_key("key-1234567890").unwrap());
    assert!(!ClaudeConfigManager::validate_api_key("").unwrap());
}

#[test]
fn test_get_config_file() {
    assert_eq!(
        ClaudeConfigManager::get_config_file("/home/me/.providers"),
        "/home/me/.providers/settings.json"
    );
}

#[test]
fn test_add_provider_refuses_duplicates() {
    let mut config = ClaudeConfig::default();
    ClaudeConfigManager::add_provider(&mut config, provider("one")).unwrap();
    assert!(ClaudeConfigManager::add_provider(&mut config, provider("one")).is_err());
    assert_eq!(config.providers.len(), 1);
    ClaudeConfigManager::add_provider(&mut config, provider("two")).unwrap();
    assert_eq!(config.providers.len(), 2);
}

#[test]
fn test_switch_provider() {
    let mut config = ClaudeConfig::default();
    ClaudeConfigManager::add_provider(&mut config, provider("one")).unwrap();
    ClaudeConfigManager::switch_provider(&mut config, &"one".to_string()).unwrap();
    assert_eq!(config.current_provider, Some("one".to_string()));
    let current = ClaudeConfigManager::get_current_provider(&config).unwrap();
    assert_eq!(current.name, "one");

    assert!(ClaudeConfigManager::switch_provider(&mut config, &"ghost".to_string()).is_err());
    assert_eq!(config.current_provider, Some("one".to_string()));
}

#[test]
fn test_remove_provider_clears_selection() {
    let mut config = ClaudeConfig::default();
    ClaudeConfigManager::add_provider(&mut config, provider("one")).unwrap();
    ClaudeConfigManager::add_provider(&mut config, provider("two")).unwrap();
    ClaudeConfigManager::switch_provider(&mut config, &"one".to_string()).unwrap();

    ClaudeConfigManager::remove_provider(&mut config, &"one".to_string());
    assert_eq!(config.providers.len(), 1);
    assert_eq!(config.providers[0].name, "two");
    assert!(config.current_provider.is_none());
    assert!(ClaudeConfigManager::get_current_provider(&config).is_none());

    ClaudeConfigManager::remove_provider(&mut config, &"ghost".to_string());
    assert_eq!(config.providers.len(), 1);
}

#[test]
fn test_env_file_content() {
    assert_eq!(
        ClaudeConfigManager::env_file_content("sk-abc", "https://api.example.com"),
        "ANTHROPIC_API_KEY=sk-abc\nANTHROPIC_BASE_URL=https://api.example.com\n"
    );
}

#[test]
fn test_is_sensitive_path() {
    assert!(is_sensitive_path("/etc/passwd"));
    assert!(is_sensitive_path("/home/me/../../etc/shadow"));
    assert!(is_sensitive_path("/proc/self/mem"));
    assert!(is_sensitive_path("C:\\Windows\\System32\\drivers"));
    assert!(is_sensitive_path("/Users/me/.ssh/id_rsa"));
    assert!(!is_sensitive_path("/home/me/notes.txt"));
    assert!(!is_sensitive_path("/etc/hosts"));
}

#[test]
fn test_is_hidden_path() {
    assert!(is_hidden_path("/home/me/.bashrc"));
    assert!(is_hidden_path(".git"));
    assert!(!is_hidden_path("/home/me/file.txt"));
    assert!(!is_hidden_path("/home/.config/visible"));
    assert!(!is_hidden_path("/home/me/"));
}

#[test]
fn test_load_providers_snapshot() {
    let mut config = ClaudeConfig::default();
    ClaudeConfigManager::add_provider(&mut config, provider("one")).unwrap();
    ClaudeConfigManager::add_provider(&mut config, provider("two")).unwrap();
    let listed = ClaudeConfigManager::load_providers(&config);
    assert_eq!(listed.len(), 2);
    assert_eq!(listed[0].name, "one");
    assert_eq!(listed[1].name, "two");
}

#[test]
fn test_is_project_entry_skipped() {
    assert!(is_project_entry_skipped(".git"));
    assert!(is_project_entry_skipped("node_modules"));
    assert!(is_project_entry_skipped("target"));
    assert!(is_project_entry_skipped("dist"));
    assert!(!is_project_entry_skipped("src"));
    assert!(!is_project_entry_skipped("distribution"));
    assert!(!is_project_entry_skipped("targets"));
}

fn entry(name: &str, is_dir: bool) -> FileInfo {
    FileInfo {
        name: name.to_string(),
        path: format!("/x/{}", name),
        is_dir,
        size: 0,
        modified: None,
        created: None,
        permissions: None,
    }
}

#[test]
fn test_file_listing_order() {
    assert!(file_le(&entry("zeta", true), &entry("alpha", false)));
    assert!(!file_le(&entry("alpha", false), &entry("zeta", true)));
    assert!(file_le(&entry("Alpha", false), &entry("beta", false)));
    assert!(file_le(&entry("same", false), &entry("same", false)));
    assert!(file_le(&entry("ab", false), &entry("abc", false)));
}

#[test]
fn test_sort_file_infos() {
    let mut files = vec![
        entry("readme.md", false),
        entry("Src", true),
        entry("build.rs", false),
        entry("assets", true),
    ];
    sort_file_infos(&mut files);
    let names: Vec<&str> = files.iter().map(|f| f.name.as_str()).collect();
    assert_eq!(names, vec!["assets", "Src", "build.rs", "readme.md"]);
}
