//! Where `export` sends a document.
use vstd::prelude::*;
use crate::config::{join_path, join_path_exec};
use crate::obsidian::note_filename;

verus! {

/// The export targets.
#[derive(Debug, Clone, Copy, PartialEq, Eq, Structural)]
pub enum ExportTarget {
    Obsidian,
    Notion,
    NotebookLm,
    Slack,
    Unknown,
}

/// The target a name selects.
pub open spec fn spec_export_target(target: Seq<char>) -> ExportTarget {
    if target == "obsidian"@ {
        ExportTarget::Obsidian
    } else if target == "notion"@ {
        ExportTarget::Notion
    } else if target == "notebooklm"@ {
        ExportTarget::NotebookLm
    } else if target == "slack"@ {
        ExportTarget::Slack
    } else {
        ExportTarget::Unknown
    }
}

/// The target a name selects.
pub fn export_target(target: &str) -> (r: ExportTarget)
    ensures
        r == spec_export_target(target@),
{
    if crate::text::str_eq(target, "obsidian") {
        ExportTarget::Obsidian
    } else if crate::text::str_eq(target, "notion") {
        ExportTarget::Notion
    } else if crate::text::str_eq(target, "notebooklm") {
        ExportTarget::NotebookLm
    } else if crate::text::str_eq(target, "slack") {
        ExportTarget::Slack
    } else {
        ExportTarget::Unknown
    }
}

/// The folder of the vault that exported notes go to: `Meetings`.
pub open spec fn spec_meetings_dir(vault: Seq<char>) -> Seq<char> {
    join_path(vault, "Meetings"@)
}

/// Where an exported note is written: `<date>-<title>.md` in the vault's
/// `Meetings` folder.
pub open spec fn spec_export_destination(vault: Seq<char>, date: Seq<char>, title: Seq<char>) -> Seq<char> {
    join_path(spec_meetings_dir(vault), date + "-"@ + title + ".md"@)
}

/// The folder of the vault that exported notes go to.
pub fn meetings_dir(vault: &str) -> (r: String)
    ensures
        r@ == spec_meetings_dir(vault@),
{
    proof {
        reveal_strlit("Meetings");
    }
    join_path_exec(vault, "Meetings")
}

/// Where the note exported on `date` from a file with stem `title` is written.
pub fn export_destination(vault: &str, date: &str, title: &str) -> (r: String)
    ensures
        r@ == spec_export_destination(vault@, date@, title@),
{
    let dir = meetings_dir(vault);
    let name = note_filename(date, title);
    join_path_exec(dir.as_str(), name.as_str())
}

/// For a vault path that is not empty and does not end with a slash, and a
/// date that does not start with one, the note is written to
/// `<vault>/Meetings/<date>-<title>.md`.
pub proof fn law_destination_in_meetings(vault: Seq<char>, date: Seq<char>, title: Seq<char>)
    requires
        vault.len() > 0,
        vault.last() != '/',
        !(date.len() > 0 && date[0] == '/'),
    ensures
        spec_export_destination(vault, date, title) == vault + "/Meetings/"@ + date + "-"@ + title + ".md"@,
{
    reveal_strlit("Meetings");
    reveal_strlit("/Meetings/");
    reveal_strlit("-");
    reveal_strlit(".md");
    let dir = spec_meetings_dir(vault);
    assert(dir == vault + seq!['/'] + "Meetings"@);
    let part = date + "-"@ + title + ".md"@;
    if date.len() > 0 {
        assert(part[0] == date[0]);
    } else {
        assert(part[0] == '-');
    }
    assert(dir.last() == 's');
    assert(spec_export_destination(vault, date, title) == dir + seq!['/'] + part);
    assert(dir + seq!['/'] + part =~= vault + "/Meetings/"@ + date + "-"@ + title + ".md"@);
}

} // verus!
