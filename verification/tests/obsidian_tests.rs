use parrot::config::{JsonValue, McpConfig};
use parrot::obsidian::{
    add, build_obsidian_note, configured_vault, is_advanced, note_filename, obsidian_server_config,
    parse_sections, status, vault_path, ObsidianError, VaultError, VaultProbe,
};

fn settings(vault: &str, advanced: bool) -> JsonValue {
    JsonValue::Object(vec![
        ("vault_path".to_string(), JsonValue::Str(vault.to_string())),
        ("advanced".to_string(), JsonValue::Bool(advanced)),
    ])
}

#[test]
fn parse_sections_with_headers() {
    let content = r#"## TLDR
This is the summary.

## Transcript
Speaker 1: Hello
Speaker 2: Hi

## Action Items
- Do thing 1
- Do thing 2

## Decisions
- Decided to go ahead
"#;
    let (tldr, transcript, action_items, decisions) = parse_sections(content);
    assert!(tldr.contains("This is the summary"));
    assert!(transcript.contains("Speaker 1: Hello"));
    assert!(action_items.contains("Do thing 1"));
    assert!(decisions.contains("Decided to go ahead"));
}

#[test]
fn parse_sections_no_headers() {
    let content = "Just some plain text\nwith no headers";
    let (tldr, transcript, action_items, decisions) = parse_sections(content);
    assert!(tldr.is_empty());
    assert!(transcript.contains("Just some plain text"));
    assert!(action_items.is_empty());
    assert!(decisions.is_empty());
}

#[test]
fn parse_sections_partial_headers() {
    let content = "## TLDR\nQuick summary\n\n## Transcript\nFull content here";
    let (tldr, transcript, action_items, decisions) = parse_sections(content);
    assert!(tldr.contains("Quick summary"));
    assert!(transcript.contains("Full content here"));
    assert!(action_items.is_empty());
    assert!(decisions.is_empty());
}

#[test]
fn parse_sections_exact_routing() {
    let content = "intro\n## Summary\ns1\n## ## Actions \na1\n## Unknown\nu1\n## decision\nd1";
    let (tldr, transcript, actions, decisions) = parse_sections(content);
    assert_eq!(tldr, "s1\n");
    assert_eq!(actions, "a1\n");
    assert_eq!(transcript, "intro\nu1\n");
    assert_eq!(decisions, "d1\n");
    let (t, tr, a, d) = parse_sections("## TLDR\n");
    assert_eq!((t.as_str(), tr.as_str(), a.as_str(), d.as_str()), ("", "## TLDR\n", "", ""));
}

#[test]
fn build_obsidian_note_basic() {
    let note = build_obsidian_note("2026-05-30", "team-standup", "recording.mp4", "Meeting content here");
    assert!(note.starts_with("---\n"));
    assert!(note.contains("date: 2026-05-30"));
    assert!(note.contains("type: meeting"));
    assert!(note.contains("tags:"));
    assert!(note.contains("  - meeting"));
    assert!(note.contains("source: recording.mp4"));
    assert!(note.contains("generated-by: parrot-cli"));
    assert!(note.contains("# Meeting: 2026-05-30 - team-standup"));
    assert!(note.contains("## TLDR"));
    assert!(note.contains("## Transcript"));
    assert!(note.contains("Meeting content here"));
}

#[test]
fn build_obsidian_note_with_sections() {
    let content = "## TLDR\nSummary here\n\n## Transcript\nTranscript here\n\n## Action Items\n- Task 1\n\n## Decisions\n- Decided X";
    let note = build_obsidian_note("2026-05-30", "meeting", "notes.md", content);
    assert!(note.contains("Summary here"));
    assert!(note.contains("Transcript here"));
    assert!(note.contains("## Action Items"));
    assert!(note.contains("Task 1"));
    assert!(note.contains("## Decisions"));
    assert!(note.contains("Decided X"));
}

#[test]
fn build_obsidian_note_exact() {
    let note = build_obsidian_note("D", "T", "S", "l1\nl2");
    assert_eq!(
        note,
        "---\ndate: D\ntype: meeting\ntags:\n  - meeting\n  - action-item\nsource: S\ngenerated-by: parrot-cli 0.1.0\n---\n\n# Meeting: D - T\n\n## TLDR\n\nl1\nl2\n\n## Transcript\n\nl1\nl2\n\n\n"
    );
}

#[test]
fn obsidian_status_configured() {
    let config = settings("/tmp/testvault", false);
    let status = status(Some(&config), false, false);
    assert!(!status.contains("not configured"));
}

#[test]
fn obsidian_status_not_configured() {
    let status = status(None, false, false);
    assert!(status.contains("not configured"));
}

#[test]
fn obsidian_status_lines() {
    let c = settings("/v", true);
    assert_eq!(status(Some(&c), true, true), "✅ configured (advanced) → /v");
    assert_eq!(status(Some(&settings("/v", false)), true, true), "✅ configured → /v");
    assert_eq!(status(Some(&c), true, false), "⚠️  path exists but no .obsidian folder → /v");
    assert_eq!(status(Some(&c), false, false), "❌ vault path not found → /v");
    assert_eq!(status(Some(&settings("", false)), true, true), "⚠️  vault_path not set");
    assert_eq!(status(Some(&JsonValue::Object(vec![])), true, true), "⚠️  vault_path not set");
}

#[test]
fn vault_settings_are_read() {
    let c = settings("/my/vault", true);
    assert_eq!(vault_path(&c), Some("/my/vault".to_string()));
    assert!(is_advanced(&c));
    assert!(!is_advanced(&JsonValue::Null));
    assert_eq!(vault_path(&JsonValue::Str("x".to_string())), None);
}

#[test]
fn export_without_obsidian_config_fails() {
    let cfg = McpConfig::new();
    assert_eq!(configured_vault(&cfg), Err(ObsidianError::NotConfigured));
}

#[test]
fn add_checks_vault_then_configures() {
    let mut cfg = McpConfig::new();
    let ok = VaultProbe { exists: true, is_dir: true, has_obsidian_dir: true };
    assert_eq!(add(&mut cfg, false, "", VaultProbe { exists: true, is_dir: true, has_obsidian_dir: true }), Err(VaultError::Empty));
    assert_eq!(add(&mut cfg, false, "/v", VaultProbe { exists: false, is_dir: false, has_obsidian_dir: false }), Err(VaultError::NotFound));
    assert_eq!(add(&mut cfg, false, "/v", VaultProbe { exists: true, is_dir: false, has_obsidian_dir: false }), Err(VaultError::NotDirectory));
    assert_eq!(add(&mut cfg, false, "/v", VaultProbe { exists: true, is_dir: true, has_obsidian_dir: false }), Err(VaultError::NotAVault));
    assert!(cfg.is_empty());
    assert_eq!(add(&mut cfg, true, "/v", ok), Ok(()));
    assert_eq!(configured_vault(&cfg), Ok("/v".to_string()));
    assert!(is_advanced(cfg.get("obsidian").unwrap()));
}

#[test]
fn vault_path_not_set_is_reported() {
    let mut cfg = McpConfig::new();
    cfg.insert("obsidian".to_string(), JsonValue::Object(vec![]));
    assert_eq!(configured_vault(&cfg), Err(ObsidianError::VaultPathNotSet));
}

#[test]
fn obsidian_settings_object() {
    match obsidian_server_config("/v", true) {
        JsonValue::Object(es) => {
            assert_eq!(es.len(), 2);
            assert_eq!(es[0].0, "vault_path");
            assert!(matches!(&es[0].1, JsonValue::Str(s) if s == "/v"));
            assert!(matches!(es[1].1, JsonValue::Bool(true)));
        }
        _ => panic!("expected an object"),
    }
}

#[test]
fn exported_note_name() {
    assert_eq!(note_filename("2026-05-30", "meeting-notes"), "2026-05-30-meeting-notes.md");
}
