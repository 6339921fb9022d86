use parrot::config::{
    config_dir, config_path, default_model, default_model_llm, default_ollama_url,
    default_output_dir, default_provider, default_true, join_path_exec, models_dir, output_dir,
    screenshots_dir, JsonValue, LlmConfig, McpConfig, OutputConfig, ParrotConfig,
    TranscriptionConfig,
};
use parrot::mcp::{
    add_server, asks_for_vault, available_servers, default_server_config, remove_server, test_server,
    unconfigured_servers,
};

fn field<'a>(v: &'a JsonValue, key: &str) -> Option<&'a JsonValue> {
    parrot::config::json_get_exec(v, key)
}

#[test]
fn defaults_match_documentation() {
    assert_eq!(default_model(), "whisper-medium");
    assert!(default_true());
    assert_eq!(default_provider(), "ollama");
    assert_eq!(default_model_llm(), "qwen3:14b");
    assert_eq!(default_ollama_url(), "http://localhost:11434");
    assert_eq!(default_output_dir("/home/j"), "/home/j/.parrot/output");
    let t = TranscriptionConfig::default();
    assert_eq!(t.model, "whisper-medium");
    assert!(t.language.is_none());
    assert!(t.timestamps);
    let l = LlmConfig::default();
    assert_eq!(l.provider, "ollama");
    assert_eq!(l.model, "qwen3:14b");
    assert_eq!(OutputConfig::for_home("/h").dir, "/h/.parrot/output");
    let c = ParrotConfig::default_for_home("/h");
    assert!(c.mcp.is_empty());
    assert_eq!(output_dir(&c), "/h/.parrot/output");
    assert_eq!(screenshots_dir(&c), "/h/.parrot/output/screenshots");
}

#[test]
fn config_paths() {
    assert_eq!(config_dir(Some("/home/j")), "/home/j/.parrot");
    assert_eq!(config_dir(None), "/tmp/.parrot");
    assert_eq!(config_path(Some("/home/j")), "/home/j/.parrot/config.json");
    assert_eq!(models_dir(None), "/tmp/.parrot/models");
    assert_eq!(join_path_exec("a/", "b"), "a/b");
    assert_eq!(join_path_exec("", "b"), "b");
    assert_eq!(join_path_exec("a", "/abs"), "/abs");
}

#[test]
fn available_servers_list() {
    let servers = available_servers();
    assert!(servers.contains(&"obsidian"));
    assert!(servers.contains(&"notion"));
    assert!(servers.contains(&"slack"));
    assert!(servers.contains(&"notebooklm"));
    assert!(servers.contains(&"github"));
    assert!(servers.len() >= 10);
}

#[test]
fn server_config_for_known_servers() {
    let obsidian = default_server_config("obsidian");
    assert!(field(&obsidian, "vault_path").is_some());

    let slack = default_server_config("slack");
    assert!(field(&slack, "bot_token").is_some());

    let notion = default_server_config("notion");
    assert!(field(&notion, "api_key").is_some());
}

#[test]
fn unknown_servers_are_enabled() {
    let v = default_server_config("custom-thing");
    assert!(matches!(field(&v, "enabled"), Some(JsonValue::Bool(true))));
    let n = default_server_config("notebooklm");
    assert!(matches!(field(&n, "enabled"), Some(JsonValue::Bool(true))));
}

#[test]
fn mcp_add_inserts_into_config() {
    let mut cfg = McpConfig::new();
    assert!(add_server(&mut cfg, "obsidian"));
    assert!(cfg.contains_key("obsidian"));
    assert!(field(cfg.get("obsidian").unwrap(), "vault_path").is_some());
}

#[test]
fn mcp_remove_from_config() {
    let mut cfg = McpConfig::new();
    assert!(add_server(&mut cfg, "slack"));
    assert!(remove_server(&mut cfg, "slack"));
    assert!(!cfg.contains_key("slack"));
    assert!(!remove_server(&mut cfg, "slack"));
}

#[test]
fn mcp_add_duplicate_keeps_settings() {
    let mut cfg = McpConfig::new();
    cfg.insert("slack".to_string(), JsonValue::Str("mine".to_string()));
    assert!(!add_server(&mut cfg, "slack"));
    assert!(matches!(cfg.get("slack"), Some(JsonValue::Str(s)) if s == "mine"));
    assert_eq!(cfg.len(), 1);
}

#[test]
fn mcp_add_then_remove_restores_table() {
    let mut cfg = McpConfig::new();
    assert!(add_server(&mut cfg, "github"));
    assert!(add_server(&mut cfg, "jira"));
    assert!(remove_server(&mut cfg, "jira"));
    assert_eq!(cfg.len(), 1);
    assert_eq!(cfg.entry(0).0, "github");
}

#[test]
fn insert_replaces_in_place() {
    let mut cfg = McpConfig::new();
    assert!(cfg.insert("a".to_string(), JsonValue::Null).is_none());
    assert!(cfg.insert("b".to_string(), JsonValue::Null).is_none());
    assert!(matches!(cfg.insert("a".to_string(), JsonValue::Bool(false)), Some(JsonValue::Null)));
    assert_eq!(cfg.len(), 2);
    assert_eq!(cfg.entry(0).0, "a");
    assert!(matches!(cfg.get("a"), Some(JsonValue::Bool(false))));
}

#[test]
fn test_requires_configuration() {
    let mut cfg = McpConfig::new();
    assert!(test_server(&cfg, "github").is_err());
    add_server(&mut cfg, "github");
    assert!(test_server(&cfg, "github").is_ok());
}

#[test]
fn unconfigured_servers_in_order() {
    let mut cfg = McpConfig::new();
    add_server(&mut cfg, "notion");
    add_server(&mut cfg, "telegram");
    let rest = unconfigured_servers(&cfg);
    assert_eq!(rest.len(), 10);
    assert_eq!(rest[0], "obsidian");
    assert_eq!(rest[1], "notebooklm");
    assert!(!rest.contains(&"telegram"));
}

#[test]
fn obsidian_is_set_up_from_a_vault() {
    assert!(asks_for_vault("obsidian"));
    assert!(!asks_for_vault("slack"));
    assert!(!asks_for_vault("Obsidian"));
}

#[test]
fn adding_twice_leaves_the_table_unchanged() {
    let mut cfg = McpConfig::new();
    assert!(add_server(&mut cfg, "slack"));
    let before = cfg.len();
    assert!(!add_server(&mut cfg, "slack"));
    assert_eq!(cfg.len(), before);
    assert!(test_server(&cfg, "slack").is_ok());
}
