use parrot::export::{export_destination, export_target, meetings_dir, ExportTarget};
use parrot::llm::{check_provider, ollama_endpoint, UnsupportedProvider};

#[test]
fn export_targets() {
    assert_eq!(export_target("obsidian"), ExportTarget::Obsidian);
    assert_eq!(export_target("notion"), ExportTarget::Notion);
    assert_eq!(export_target("notebooklm"), ExportTarget::NotebookLm);
    assert_eq!(export_target("slack"), ExportTarget::Slack);
    assert_eq!(export_target("unknown"), ExportTarget::Unknown);
}

#[test]
fn export_destination_paths() {
    assert_eq!(meetings_dir("/vault"), "/vault/Meetings");
    assert_eq!(meetings_dir("/vault/"), "/vault/Meetings");
    assert_eq!(export_destination("/vault", "2026-05-30", "standup"), "/vault/Meetings/2026-05-30-standup.md");
    assert_eq!(export_destination("/vault/", "2026-05-30", "standup"), "/vault/Meetings/2026-05-30-standup.md");
    assert_eq!(export_destination("rel", "2026-01-02", "a b"), "rel/Meetings/2026-01-02-a b.md");
}

#[test]
fn llm_provider_and_endpoint() {
    assert!(check_provider("ollama").is_ok());
    assert_eq!(check_provider("openai"), Err(UnsupportedProvider));
    assert_eq!(ollama_endpoint("http://localhost:11434/"), "http://localhost:11434/api/generate");
    assert_eq!(ollama_endpoint("http://h:1"), "http://h:1/api/generate");
}

#[test]
fn destination_is_dated_note_in_meetings() {
    let d = export_destination("/home/me/Vault", "2025-12-31", "digest");
    assert!(d.starts_with("/home/me/Vault/Meetings/"));
    assert!(d.ends_with("2025-12-31-digest.md"));
    assert_eq!(ollama_endpoint("http://h:1/"), ollama_endpoint("http://h:1"));
}
