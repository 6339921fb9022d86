use parrot::digest;
use parrot::doc;

#[test]
fn digest_notebooklm_format() {
    let result = digest::format_notebooklm("transcript", "summary", "actions", "decisions");
    assert!(result.contains("# Meeting Transcript — NotebookLM Import"));
    assert!(result.contains("summary"));
    assert!(result.contains("actions"));
    assert!(result.contains("decisions"));
    assert!(result.contains("transcript"));
}

#[test]
fn digest_obsidian_format() {
    let result = digest::format_obsidian("transcript", "summary", "actions", "decisions");
    assert!(result.contains("tags: [meeting, digest]"));
    assert!(result.contains("# Meeting Digest"));
    assert!(result.contains("> summary"));
}

#[test]
fn digest_markdown_format() {
    let result = digest::format_markdown("transcript", "summary", "actions", "decisions");
    assert!(result.contains("# Meeting Digest"));
    assert!(result.contains("## TLDR"));
    assert!(result.contains("summary"));
}

#[test]
fn digest_markdown_exact_layout() {
    assert_eq!(
        digest::format_markdown("T", "S", "A", "D"),
        "# Meeting Digest\n\n## TLDR\n\nS\n\n## Action Items\n\nA\n\n## Decisions\n\nD\n\n## Full Transcript\n\nT"
    );
}

#[test]
fn doc_formats_exact_layout() {
    assert_eq!(
        doc::format_notebooklm("T", "S", "A", "D"),
        "# Meeting Transcript — NotebookLM Import\n\n## TLDR\n\nS\n\n## Action Items\n\nA\n\n## Decisions\n\nD\n\n## Full Transcript\n\nT"
    );
    assert_eq!(
        doc::format_obsidian("T", "S", "A", "D"),
        "---\ntags: [meeting, transcript]\n---\n\n# Meeting Notes\n\n## TLDR\n> S\n\n## Action Items\nA\n\n## Decisions\nD\n\n## Transcript\nT"
    );
    assert_eq!(
        doc::format_markdown("T", "S", "A", "D"),
        "# Meeting Summary\n\n## TLDR\n\nS\n\n## Action Items\n\nA\n\n## Decisions\n\nD\n\n## Full Transcript\n\nT"
    );
}

#[test]
fn format_selection_falls_back_to_markdown() {
    assert_eq!(
        doc::format_document("notebooklm", "T", "S", "A", "D"),
        doc::format_notebooklm("T", "S", "A", "D")
    );
    assert_eq!(
        doc::format_document("obsidian", "T", "S", "A", "D"),
        doc::format_obsidian("T", "S", "A", "D")
    );
    assert_eq!(
        doc::format_document("pdf", "T", "S", "A", "D"),
        doc::format_markdown("T", "S", "A", "D")
    );
    assert_eq!(
        digest::format_digest("whatever", "T", "S", "A", "D"),
        digest::format_markdown("T", "S", "A", "D")
    );
}

#[test]
fn digest_file_name_has_suffix() {
    assert_eq!(digest::digest_file_name("meeting"), "meeting-digest.md");
}
