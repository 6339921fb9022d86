//! The `doc` command's document layouts (TLDR, action items, decisions, transcript).
use vstd::prelude::*;
use crate::text::{ends_with, lemma_ends_with_append};

verus! {

/// The document laid out for NotebookLM import.
pub open spec fn spec_format_notebooklm(transcript: Seq<char>, tldr: Seq<char>, actions: Seq<char>, decisions: Seq<char>) -> Seq<char> {
    "# Meeting Transcript — NotebookLM Import\n\n## TLDR\n\n"@ + tldr + "\n\n## Action Items\n\n"@ + actions + "\n\n## Decisions\n\n"@ + decisions + "\n\n## Full Transcript\n\n"@ + transcript
}

/// The document laid out for NotebookLM import.
pub fn format_notebooklm(transcript: &str, tldr: &str, actions: &str, decisions: &str) -> (r: String)
    ensures
        r@ == spec_format_notebooklm(transcript@, tldr@, actions@, decisions@),
{
    let mut r = String::new();
    r.append("# Meeting Transcript — NotebookLM Import\n\n## TLDR\n\n");
    r.append(tldr);
    r.append("\n\n## Action Items\n\n");
    r.append(actions);
    r.append("\n\n## Decisions\n\n");
    r.append(decisions);
    r.append("\n\n## Full Transcript\n\n");
    r.append(transcript);
    r
}

/// The document as an Obsidian note with tags.
pub open spec fn spec_format_obsidian(transcript: Seq<char>, tldr: Seq<char>, actions: Seq<char>, decisions: Seq<char>) -> Seq<char> {
    "---\ntags: [meeting, transcript]\n---\n\n# Meeting Notes\n\n## TLDR\n> "@ + tldr + "\n\n## Action Items\n"@ + actions + "\n\n## Decisions\n"@ + decisions + "\n\n## Transcript\n"@ + transcript
}

/// The document as an Obsidian note with tags.
pub fn format_obsidian(transcript: &str, tldr: &str, actions: &str, decisions: &str) -> (r: String)
    ensures
        r@ == spec_format_obsidian(transcript@, tldr@, actions@, decisions@),
{
    let mut r = String::new();
    r.append("---\ntags: [meeting, transcript]\n---\n\n# Meeting Notes\n\n## TLDR\n> ");
    r.append(tldr);
    r.append("\n\n## Action Items\n");
    r.append(actions);
    r.append("\n\n## Decisions\n");
    r.append(decisions);
    r.append("\n\n## Transcript\n");
    r.append(transcript);
    r
}

/// The document as plain markdown.
pub open spec fn spec_format_markdown(transcript: Seq<char>, tldr: Seq<char>, actions: Seq<char>, decisions: Seq<char>) -> Seq<char> {
    "# Meeting Summary\n\n## TLDR\n\n"@ + tldr + "\n\n## Action Items\n\n"@ + actions + "\n\n## Decisions\n\n"@ + decisions + "\n\n## Full Transcript\n\n"@ + transcript
}

/// The document as plain markdown.
pub fn format_markdown(transcript: &str, tldr: &str, actions: &str, decisions: &str) -> (r: String)
    ensures
        r@ == spec_format_markdown(transcript@, tldr@, actions@, decisions@),
{
    let mut r = String::new();
    r.append("# Meeting Summary\n\n## TLDR\n\n");
    r.append(tldr);
    r.append("\n\n## Action Items\n\n");
    r.append(actions);
    r.append("\n\n## Decisions\n\n");
    r.append(decisions);
    r.append("\n\n## Full Transcript\n\n");
    r.append(transcript);
    r
}

/// The layout for a format name: `notebooklm`, `obsidian`, and markdown for any other name.
pub open spec fn spec_format_document(format: Seq<char>, transcript: Seq<char>, tldr: Seq<char>, actions: Seq<char>, decisions: Seq<char>) -> Seq<char> {
    if format == "notebooklm"@ {
        spec_format_notebooklm(transcript, tldr, actions, decisions)
    } else if format == "obsidian"@ {
        spec_format_obsidian(transcript, tldr, actions, decisions)
    } else {
        spec_format_markdown(transcript, tldr, actions, decisions)
    }
}

/// Lay out the document in the requested format.
pub fn format_document(format: &str, transcript: &str, tldr: &str, actions: &str, decisions: &str) -> (r: String)
    ensures
        r@ == spec_format_document(format@, transcript@, tldr@, actions@, decisions@),
{
    if crate::text::str_eq(format, "notebooklm") {
        format_notebooklm(transcript, tldr, actions, decisions)
    } else if crate::text::str_eq(format, "obsidian") {
        format_obsidian(transcript, tldr, actions, decisions)
    } else {
        format_markdown(transcript, tldr, actions, decisions)
    }
}

/// In every layout the summary, the action items, the decisions and the
/// transcript come last, in that order, each right after its own heading:
/// the text under `## Action Items` is `actions` and the text under
/// `## Decisions` is `decisions`.
pub proof fn law_layout_sections_in_order(transcript: Seq<char>, tldr: Seq<char>, actions: Seq<char>, decisions: Seq<char>)
    ensures
        ends_with(
            spec_format_notebooklm(transcript, tldr, actions, decisions),
            tldr + "\n\n## Action Items\n\n"@ + actions + "\n\n## Decisions\n\n"@ + decisions
                + "\n\n## Full Transcript\n\n"@ + transcript,
        ),
        ends_with(
            spec_format_obsidian(transcript, tldr, actions, decisions),
            tldr + "\n\n## Action Items\n"@ + actions + "\n\n## Decisions\n"@ + decisions
                + "\n\n## Transcript\n"@ + transcript,
        ),
        ends_with(
            spec_format_markdown(transcript, tldr, actions, decisions),
            tldr + "\n\n## Action Items\n\n"@ + actions + "\n\n## Decisions\n\n"@ + decisions
                + "\n\n## Full Transcript\n\n"@ + transcript,
        ),
{
    let nb_tail = tldr + "\n\n## Action Items\n\n"@ + actions + "\n\n## Decisions\n\n"@ + decisions
        + "\n\n## Full Transcript\n\n"@ + transcript;
    let ob_tail = tldr + "\n\n## Action Items\n"@ + actions + "\n\n## Decisions\n"@ + decisions
        + "\n\n## Transcript\n"@ + transcript;
    let nb_head = "# Meeting Transcript — NotebookLM Import\n\n## TLDR\n\n"@;
    let ob_head = "---\ntags: [meeting, transcript]\n---\n\n# Meeting Notes\n\n## TLDR\n> "@;
    let md_head = "# Meeting Summary\n\n## TLDR\n\n"@;
    assert(spec_format_notebooklm(transcript, tldr, actions, decisions) =~= nb_head + nb_tail);
    assert(spec_format_obsidian(transcript, tldr, actions, decisions) =~= ob_head + ob_tail);
    assert(spec_format_markdown(transcript, tldr, actions, decisions) =~= md_head + nb_tail);
    lemma_ends_with_append(nb_head, nb_tail);
    lemma_ends_with_append(ob_head, ob_tail);
    lemma_ends_with_append(md_head, nb_tail);
}

} // verus!
