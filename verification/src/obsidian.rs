//! Obsidian notes: splitting a markdown document into its sections and
//! writing a meeting note with YAML frontmatter.
use vstd::prelude::*;
use crate::config::{
    FlatValue, JsonValue, McpConfig, flat_object, json_as_bool, json_as_bool_exec, json_as_str,
    json_as_str_exec, json_get, json_get_exec, object_lookup, spec_insert, spec_lookup,
};
use crate::text::{
    chars_eq, from_chars, join, join_exec, lines, lines_exec, lowercase_chars, starts_with,
    starts_with_exec, to_chars, trim, trim_exec, trim_start_matches, trim_start_matches_exec,
    unicode_lowercase, views,
};

verus! {

/// The sections of a meeting document.
#[derive(Debug, Clone, Copy, PartialEq, Eq, Structural)]
pub enum Section {
    Tldr,
    Transcript,
    ActionItems,
    Decisions,
}

/// The section a `## ` header names (its text lowercased and trimmed);
/// unknown headers name the transcript.
pub open spec fn section_of_header(h: Seq<char>) -> Section {
    if h == "tldr"@ || h == "summary"@ || h == "tl;dr"@ {
        Section::Tldr
    } else if h == "action items"@ || h == "actions"@ || h == "action-items"@ {
        Section::ActionItems
    } else if h == "decisions"@ || h == "decision"@ {
        Section::Decisions
    } else {
        Section::Transcript
    }
}

/// The section a line opens, if it is a `## ` header: the line is trimmed
/// and lowercased, and the header text is what follows the leading `## `
/// markers, trimmed.
pub open spec fn header_section(line: Seq<char>) -> Option<Section> {
    let t = unicode_lowercase(trim(line));
    if starts_with(t, "## "@) {
        Some(section_of_header(trim(trim_start_matches(t, "## "@))))
    } else {
        None
    }
}

/// The text of section `target` in the lines `ls` when the lines start in
/// section `cur`: every line that is not a header, followed by a newline,
/// in order, where the last header before it (or `cur`) names `target`.
pub open spec fn section_text(ls: Seq<Seq<char>>, cur: Section, target: Section) -> Seq<char>
    decreases ls.len(),
{
    if ls.len() == 0 {
        Seq::empty()
    } else {
        match header_section(ls[0]) {
            Some(s) => section_text(ls.drop_first(), s, target),
            None => (if cur == target {
                ls[0].push('\n')
            } else {
                Seq::empty()
            }) + section_text(ls.drop_first(), cur, target),
        }
    }
}

/// (TLDR, transcript, action items, decisions) of a markdown document. Text
/// before any header belongs to the transcript. When no section receives
/// any text, the whole content is the transcript.
pub open spec fn spec_parse_sections(content: Seq<char>) -> (Seq<char>, Seq<char>, Seq<char>, Seq<char>) {
    let ls = lines(content);
    let t = section_text(ls, Section::Transcript, Section::Tldr);
    let tr = section_text(ls, Section::Transcript, Section::Transcript);
    let a = section_text(ls, Section::Transcript, Section::ActionItems);
    let d = section_text(ls, Section::Transcript, Section::Decisions);
    if t.len() == 0 && tr.len() == 0 && a.len() == 0 && d.len() == 0 {
        (t, content, a, d)
    } else {
        (t, tr, a, d)
    }
}


/// The total size of the lines that are not headers, one newline each.
pub open spec fn body_len(ls: Seq<Seq<char>>) -> nat
    decreases ls.len(),
{
    if ls.len() == 0 {
        0
    } else {
        (if header_section(ls[0]) is None {
            ls[0].len() + 1
        } else {
            0
        }) + body_len(ls.drop_first())
    }
}

proof fn lemma_sections_partition(ls: Seq<Seq<char>>, cur: Section)
    ensures
        section_text(ls, cur, Section::Tldr).len() + section_text(ls, cur, Section::Transcript).len()
            + section_text(ls, cur, Section::ActionItems).len() + section_text(
            ls,
            cur,
            Section::Decisions,
        ).len() == body_len(ls),
    decreases ls.len(),
{
    if ls.len() > 0 {
        match header_section(ls[0]) {
            Some(s) => lemma_sections_partition(ls.drop_first(), s),
            None => lemma_sections_partition(ls.drop_first(), cur),
        }
    }
}

proof fn lemma_no_headers(ls: Seq<Seq<char>>, cur: Section, target: Section)
    requires
        forall|i: int| 0 <= i < ls.len() ==> header_section(#[trigger] ls[i]) is None,
        cur != target,
    ensures
        section_text(ls, cur, target).len() == 0,
    decreases ls.len(),
{
    if ls.len() > 0 {
        assert(header_section(ls[0]) is None);
        assert forall|i: int| 0 <= i < ls.drop_first().len() implies header_section(
            #[trigger] ls.drop_first()[i],
        ) is None by {
            assert(ls.drop_first()[i] == ls[i + 1]);
        }
        lemma_no_headers(ls.drop_first(), cur, target);
    }
}

/// No line is lost or repeated: the four sections together hold exactly
/// the non-header lines of the document, each with its newline, unless no
/// such line exists, in which case the transcript is the whole content.
pub proof fn law_parse_sections_partition(content: Seq<char>)
    ensures
        ({
            let r = spec_parse_sections(content);
            ||| r.0.len() + r.1.len() + r.2.len() + r.3.len() == body_len(lines(content))
            ||| body_len(lines(content)) == 0 && r.1 == content
        }),
{
    lemma_sections_partition(lines(content), Section::Transcript);
}

/// A document without `## ` headers is all transcript: the TLDR, action
/// items and decisions are empty.
pub proof fn law_parse_sections_no_headers(content: Seq<char>)
    requires
        forall|i: int|
            0 <= i < lines(content).len() ==> header_section(#[trigger] lines(content)[i]) is None,
    ensures
        spec_parse_sections(content).0.len() == 0,
        spec_parse_sections(content).2.len() == 0,
        spec_parse_sections(content).3.len() == 0,
{
    lemma_no_headers(lines(content), Section::Transcript, Section::Tldr);
    lemma_no_headers(lines(content), Section::Transcript, Section::ActionItems);
    lemma_no_headers(lines(content), Section::Transcript, Section::Decisions);
}

fn eq_lit(h: &[char], lit: &str) -> (b: bool)
    ensures
        b == (h@ == lit@),
{
    let l = to_chars(lit);
    chars_eq(h, l.as_slice())
}

fn section_of_header_exec(h: &[char]) -> (s: Section)
    ensures
        s == section_of_header(h@),
{
    if eq_lit(h, "tldr") || eq_lit(h, "summary") || eq_lit(h, "tl;dr") {
        Section::Tldr
    } else if eq_lit(h, "action items") || eq_lit(h, "actions") || eq_lit(h, "action-items") {
        Section::ActionItems
    } else if eq_lit(h, "decisions") || eq_lit(h, "decision") {
        Section::Decisions
    } else {
        Section::Transcript
    }
}

fn header_section_exec(line: &[char]) -> (r: Option<Section>)
    ensures
        r == header_section(line@),
{
    let t = lowercase_chars(trim_exec(line).as_slice());
    let marker = to_chars("## ");
    if starts_with_exec(t.as_slice(), marker.as_slice()) {
        proof {
            reveal_strlit("## ");
        }
        let stripped = trim_start_matches_exec(t.as_slice(), marker.as_slice());
        let h = trim_exec(stripped.as_slice());
        Some(section_of_header_exec(h.as_slice()))
    } else {
        None
    }
}

proof fn lemma_section_step(ls: Seq<Seq<char>>, i: int, cur: Section, target: Section)
    requires
        0 <= i < ls.len(),
    ensures
        section_text(ls.skip(i), cur, target) == match header_section(ls[i]) {
            Some(s) => section_text(ls.skip(i + 1), s, target),
            None => (if cur == target {
                ls[i].push('\n')
            } else {
                Seq::empty()
            }) + section_text(ls.skip(i + 1), cur, target),
        },
{
    assert(ls.skip(i)[0] == ls[i]);
    assert(ls.skip(i).drop_first() =~= ls.skip(i + 1));
}

/// Parse markdown content into (TLDR, transcript, action items, decisions) by `## ` headers.
pub fn parse_sections(content: &str) -> (r: (String, String, String, String))
    ensures
        (r.0@, r.1@, r.2@, r.3@) == spec_parse_sections(content@),
{
    let chars = to_chars(content);
    let ls = lines_exec(chars.as_slice());
    let ghost lv = views(ls@);
    let mut tldr: Vec<char> = Vec::new();
    let mut transcript: Vec<char> = Vec::new();
    let mut actions: Vec<char> = Vec::new();
    let mut decisions: Vec<char> = Vec::new();
    let mut cur = Section::Transcript;
    assert(lv.skip(0) =~= lv);
    let mut i: usize = 0;
    while i < ls.len()
        invariant
            i <= ls@.len(),
            lv == views(ls@),
            lv.len() == ls@.len(),
            section_text(lv, Section::Transcript, Section::Tldr) == tldr@ + section_text(
                lv.skip(i as int),
                cur,
                Section::Tldr,
            ),
            section_text(lv, Section::Transcript, Section::Transcript) == transcript@
                + section_text(lv.skip(i as int), cur, Section::Transcript),
            section_text(lv, Section::Transcript, Section::ActionItems) == actions@
                + section_text(lv.skip(i as int), cur, Section::ActionItems),
            section_text(lv, Section::Transcript, Section::Decisions) == decisions@
                + section_text(lv.skip(i as int), cur, Section::Decisions),
        decreases ls.len() - i,
    {
        proof {
            lemma_section_step(lv, i as int, cur, Section::Tldr);
            lemma_section_step(lv, i as int, cur, Section::Transcript);
            lemma_section_step(lv, i as int, cur, Section::ActionItems);
            lemma_section_step(lv, i as int, cur, Section::Decisions);
        }
        assert(lv[i as int] == ls@[i as int]@);
        match header_section_exec(ls[i].as_slice()) {
            Some(s) => {
                cur = s;
            },
            None => {
                let ghost line = lv[i as int];
                let ghost o0 = tldr@;
                let ghost o1 = transcript@;
                let ghost o2 = actions@;
                let ghost o3 = decisions@;
                match cur {
                    Section::Tldr => {
                        append_line(&mut tldr, ls[i].as_slice());
                    },
                    Section::Transcript => {
                        append_line(&mut transcript, ls[i].as_slice());
                    },
                    Section::ActionItems => {
                        append_line(&mut actions, ls[i].as_slice());
                    },
                    Section::Decisions => {
                        append_line(&mut decisions, ls[i].as_slice());
                    },
                }
                assert(cur == Section::Tldr ==> tldr@ =~= o0 + line.push('\n'));
                assert(cur != Section::Tldr ==> tldr@ =~= o0 + Seq::<char>::empty());
                assert(cur == Section::Transcript ==> transcript@ =~= o1 + line.push('\n'));
                assert(cur != Section::Transcript ==> transcript@ =~= o1 + Seq::<char>::empty());
                assert(cur == Section::ActionItems ==> actions@ =~= o2 + line.push('\n'));
                assert(cur != Section::ActionItems ==> actions@ =~= o2 + Seq::<char>::empty());
                assert(cur == Section::Decisions ==> decisions@ =~= o3 + line.push('\n'));
                assert(cur != Section::Decisions ==> decisions@ =~= o3 + Seq::<char>::empty());
            },
        }
        i += 1;
    }
    proof {
        assert(lv.skip(i as int) =~= Seq::<Seq<char>>::empty());
        assert(tldr@ + Seq::<char>::empty() =~= tldr@);
        assert(transcript@ + Seq::<char>::empty() =~= transcript@);
        assert(actions@ + Seq::<char>::empty() =~= actions@);
        assert(decisions@ + Seq::<char>::empty() =~= decisions@);
    }
    if tldr.len() == 0 && transcript.len() == 0 && actions.len() == 0 && decisions.len() == 0 {
        (from_chars(tldr.as_slice()), from_chars(chars.as_slice()), from_chars(actions.as_slice()), from_chars(decisions.as_slice()))
    } else {
        (from_chars(tldr.as_slice()), from_chars(transcript.as_slice()), from_chars(actions.as_slice()), from_chars(decisions.as_slice()))
    }
}

fn append_line(out: &mut Vec<char>, line: &[char])
    ensures
        final(out)@ == old(out)@ + line@.push('\n'),
{
    crate::text::append_chars(out, line);
    out.push('\n');
    assert(final(out)@ =~= old(out)@ + line@.push('\n'));
}

/// The program version written into generated notes.
pub open spec fn parrot_version() -> Seq<char> {
    "0.1.0"@
}

/// The program version written into generated notes.
pub fn parrot_version_exec() -> (v: &'static str)
    ensures
        v@ == parrot_version(),
{
    "0.1.0"
}

/// The TLDR text of a note: the document's TLDR section, or, when it has
/// none, its first five lines joined with newlines.
pub open spec fn note_summary(content: Seq<char>, tldr: Seq<char>) -> Seq<char> {
    if tldr.len() == 0 {
        let ls = lines(content);
        join(ls.take(if ls.len() < 5 { ls.len() as int } else { 5 }), "\n"@)
    } else {
        tldr
    }
}

/// A meeting note for Obsidian: YAML frontmatter (date, type, tags, source,
/// generator), a title, the TLDR and transcript sections, and the action
/// items and decisions sections when they are not empty.
pub open spec fn spec_build_obsidian_note(
    date: Seq<char>,
    title: Seq<char>,
    source: Seq<char>,
    content: Seq<char>,
) -> Seq<char> {
    let sec = spec_parse_sections(content);
    "---\n"@ + "date: "@ + date + "\n"@ + "type: meeting\n"@ + "tags:\n"@ + "  - meeting\n"@
        + "  - action-item\n"@ + "source: "@ + source + "\n"@ + "generated-by: parrot-cli "@
        + parrot_version() + "\n"@ + "---\n\n"@ + "# Meeting: "@ + date + " - "@ + title
        + "\n\n"@ + "## TLDR\n\n"@ + note_summary(content, sec.0) + "\n\n"@ + "## Transcript\n\n"@
        + sec.1 + "\n\n"@ + (if sec.2.len() > 0 {
        "## Action Items\n\n"@ + sec.2 + "\n\n"@
    } else {
        Seq::empty()
    }) + (if sec.3.len() > 0 {
        "## Decisions\n\n"@ + sec.3 + "\n\n"@
    } else {
        Seq::empty()
    })
}

/// The frontmatter and title that start a note, up to its `## TLDR` heading.
pub open spec fn note_head(date: Seq<char>, title: Seq<char>, source: Seq<char>) -> Seq<char> {
    "---\n"@ + "date: "@ + date + "\n"@ + "type: meeting\n"@ + "tags:\n"@ + "  - meeting\n"@
        + "  - action-item\n"@ + "source: "@ + source + "\n"@ + "generated-by: parrot-cli "@
        + parrot_version() + "\n"@ + "---\n\n"@ + "# Meeting: "@ + date + " - "@ + title + "\n\n"@
        + "## TLDR\n\n"@
}

/// The note's TLDR section is the document's own TLDR section whenever
/// that is not empty; only an empty one is replaced by the document's first
/// five lines (joined with newlines). The note starts with its frontmatter
/// and title, then `## TLDR`, that text, and `## Transcript`.
pub proof fn law_note_tldr_section(date: Seq<char>, title: Seq<char>, source: Seq<char>, content: Seq<char>)
    ensures
        ({
            let tldr = spec_parse_sections(content).0;
            let ls = lines(content);
            let first_five = join(ls.take(if ls.len() < 5 { ls.len() as int } else { 5 }), "\n"@);
            &&& tldr.len() > 0 ==> starts_with(
                spec_build_obsidian_note(date, title, source, content),
                note_head(date, title, source) + tldr + "\n\n"@ + "## Transcript\n\n"@,
            )
            &&& tldr.len() == 0 ==> starts_with(
                spec_build_obsidian_note(date, title, source, content),
                note_head(date, title, source) + first_five + "\n\n"@ + "## Transcript\n\n"@,
            )
        }),
{
    let sec = spec_parse_sections(content);
    let summary = note_summary(content, sec.0);
    let prefix = note_head(date, title, source) + summary + "\n\n"@ + "## Transcript\n\n"@;
    let rest = sec.1 + "\n\n"@ + (if sec.2.len() > 0 {
        "## Action Items\n\n"@ + sec.2 + "\n\n"@
    } else {
        Seq::empty()
    }) + (if sec.3.len() > 0 {
        "## Decisions\n\n"@ + sec.3 + "\n\n"@
    } else {
        Seq::empty()
    });
    let note = spec_build_obsidian_note(date, title, source, content);
    assert(note =~= prefix + rest);
    assert(note.take(prefix.len() as int) =~= prefix);
}

fn note_summary_exec(content: &str, tldr: &String) -> (r: String)
    ensures
        r@ == note_summary(content@, tldr@),
{
    if tldr.as_str().is_empty() {
        let chars = to_chars(content);
        let ls = lines_exec(chars.as_slice());
        let ghost lv = views(ls@);
        let n: usize = if ls.len() < 5 {
            ls.len()
        } else {
            5
        };
        let mut first: Vec<Vec<char>> = Vec::new();
        let mut k: usize = 0;
        while k < n
            invariant
                k <= n <= ls@.len(),
                lv == views(ls@),
                views(first@) =~= lv.take(k as int),
            decreases n - k,
        {
            let line = crate::text::slice_chars(ls[k].as_slice(), 0, ls[k].len());
            assert(line@ =~= lv[k as int]);
            let ghost old_first = first@;
            first.push(line);
            assert(views(first@) =~= views(old_first).push(line@));
            k += 1;
        }
        let nl = to_chars("\n");
        let joined = join_exec(&first, nl.as_slice());
        from_chars(joined.as_slice())
    } else {
        tldr.clone()
    }
}

/// Build an Obsidian-flavoured note with frontmatter.
pub fn build_obsidian_note(date: &str, title: &str, source: &str, content: &str) -> (r: String)
    ensures
        r@ == spec_build_obsidian_note(date@, title@, source@, content@),
{
    let (tldr, transcript, action_items, decisions) = parse_sections(content);
    let mut note = String::new();
    note.append("---\n");
    note.append("date: ");
    note.append(date);
    note.append("\n");
    note.append("type: meeting\n");
    note.append("tags:\n");
    note.append("  - meeting\n");
    note.append("  - action-item\n");
    note.append("source: ");
    note.append(source);
    note.append("\n");
    note.append("generated-by: parrot-cli ");
    note.append(parrot_version_exec());
    note.append("\n");
    note.append("---\n\n");
    note.append("# Meeting: ");
    note.append(date);
    note.append(" - ");
    note.append(title);
    note.append("\n\n");
    note.append("## TLDR\n\n");
    let summary = note_summary_exec(content, &tldr);
    note.append(summary.as_str());
    note.append("\n\n");
    note.append("## Transcript\n\n");
    note.append(transcript.as_str());
    note.append("\n\n");
    let ghost head = note@;
    if !action_items.as_str().is_empty() {
        note.append("## Action Items\n\n");
        note.append(action_items.as_str());
        note.append("\n\n");
    }
    let ghost mid = note@;
    if !decisions.as_str().is_empty() {
        note.append("## Decisions\n\n");
        note.append(decisions.as_str());
        note.append("\n\n");
    }
    proof {
        let sec = spec_parse_sections(content@);
        let a_part: Seq<char> = if sec.2.len() > 0 {
            "## Action Items\n\n"@ + sec.2 + "\n\n"@
        } else {
            Seq::empty()
        };
        let d_part: Seq<char> = if sec.3.len() > 0 {
            "## Decisions\n\n"@ + sec.3 + "\n\n"@
        } else {
            Seq::empty()
        };
        assert(mid =~= head + a_part);
        assert(note@ =~= mid + d_part);
    }
    note
}

// ---------------------------------------------------------------------------
// The Obsidian server settings
// ---------------------------------------------------------------------------

/// The vault path an Obsidian server setting names, if it is a string.
pub open spec fn vault_path_setting(cfg: JsonValue) -> Option<Seq<char>> {
    json_as_str(json_get(cfg, "vault_path"@))
}

/// Whether the Obsidian setting turns on advanced mode (off unless `advanced` is `true`).
pub open spec fn advanced_setting(cfg: JsonValue) -> bool {
    match json_as_bool(json_get(cfg, "advanced"@)) {
        Some(b) => b,
        None => false,
    }
}

/// The vault path of an Obsidian server setting.
pub fn vault_path(cfg: &JsonValue) -> (r: Option<String>)
    ensures
        r.deep_view() == vault_path_setting(*cfg),
{
    match json_as_str_exec(json_get_exec(cfg, "vault_path")) {
        Some(s) => Some(String::from_str(s)),
        None => None,
    }
}

/// Whether an Obsidian server setting turns on advanced mode.
pub fn is_advanced(cfg: &JsonValue) -> (r: bool)
    ensures
        r == advanced_setting(*cfg),
{
    match json_as_bool_exec(json_get_exec(cfg, "advanced")) {
        Some(b) => b,
        None => false,
    }
}

/// The status line for Obsidian in the server list. `exists` and
/// `has_obsidian_dir` tell whether the vault path exists and holds a
/// `.obsidian` folder.
pub open spec fn spec_status(cfg: Option<JsonValue>, exists: bool, has_obsidian_dir: bool) -> Seq<char> {
    match cfg {
        Some(c) => {
            let vp = match vault_path_setting(c) {
                Some(p) => p,
                None => "(not set)"@,
            };
            if vp.len() == 0 || vp == "(not set)"@ {
                "⚠️  vault_path not set"@
            } else if exists && has_obsidian_dir {
                if advanced_setting(c) {
                    "✅ configured (advanced) → "@ + vp
                } else {
                    "✅ configured → "@ + vp
                }
            } else if exists {
                "⚠️  path exists but no .obsidian folder → "@ + vp
            } else {
                "❌ vault path not found → "@ + vp
            }
        },
        None => "⬜ not configured"@,
    }
}

/// The status line for Obsidian in the server list.
pub fn status(server_config: Option<&JsonValue>, exists: bool, has_obsidian_dir: bool) -> (r: String)
    ensures
        r@ == spec_status(
            match server_config {
                Some(c) => Some(*c),
                None => None,
            },
            exists,
            has_obsidian_dir,
        ),
{
    match server_config {
        Some(c) => {
            let vp = match vault_path(c) {
                Some(p) => p,
                None => String::from_str("(not set)"),
            };
            let vc = to_chars(vp.as_str());
            let not_set = to_chars("(not set)");
            if vc.len() == 0 || chars_eq(vc.as_slice(), not_set.as_slice()) {
                return String::from_str("⚠️  vault_path not set");
            }
            let mut r = if exists && has_obsidian_dir {
                if is_advanced(c) {
                    String::from_str("✅ configured (advanced) → ")
                } else {
                    String::from_str("✅ configured → ")
                }
            } else if exists {
                String::from_str("⚠️  path exists but no .obsidian folder → ")
            } else {
                String::from_str("❌ vault path not found → ")
            };
            r.append(vp.as_str());
            r
        },
        None => String::from_str("⬜ not configured"),
    }
}

/// What the file system says about a vault path.
pub struct VaultProbe {
    pub exists: bool,
    pub is_dir: bool,
    pub has_obsidian_dir: bool,
}

/// Why a vault path was refused.
#[derive(Debug, Clone, Copy, PartialEq, Eq, Structural)]
pub enum VaultError {
    Empty,
    NotFound,
    NotDirectory,
    NotAVault,
}

/// The checks on a vault path, in order: not empty, exists, a directory,
/// holds a `.obsidian` folder.
pub open spec fn spec_check_vault(vault_path: Seq<char>, probe: VaultProbe) -> Result<(), VaultError> {
    if vault_path.len() == 0 {
        Err(VaultError::Empty)
    } else if !probe.exists {
        Err(VaultError::NotFound)
    } else if !probe.is_dir {
        Err(VaultError::NotDirectory)
    } else if !probe.has_obsidian_dir {
        Err(VaultError::NotAVault)
    } else {
        Ok(())
    }
}

/// The settings of the Obsidian server: the vault path and the mode.
pub open spec fn obsidian_fields(vault_path: Seq<char>, advanced: bool) -> Seq<(Seq<char>, FlatValue)> {
    seq![("vault_path"@, FlatValue::Text(vault_path)), ("advanced"@, FlatValue::Flag(advanced))]
}

/// The Obsidian server settings for a vault.
pub fn obsidian_server_config(vault_path: &str, advanced: bool) -> (r: JsonValue)
    ensures
        flat_object(
            r,
            obsidian_fields(vault_path@, advanced),
        ),
{
    let mut v: Vec<(String, JsonValue)> = Vec::new();
    v.push((String::from_str("vault_path"), JsonValue::Str(String::from_str(vault_path))));
    v.push((String::from_str("advanced"), JsonValue::Bool(advanced)));
    JsonValue::Object(v)
}

/// Configure the Obsidian server for a vault after checking the vault path.
/// On success the `obsidian` entry holds the vault path and the mode; on
/// refusal nothing changes.
pub fn add(cfg: &mut McpConfig, advanced: bool, vault_path: &str, probe: VaultProbe) -> (r: Result<(), VaultError>)
    ensures
        r == spec_check_vault(vault_path@, probe),
        r is Err ==> final(cfg).entries() == old(cfg).entries(),
        r is Ok ==> exists|v: JsonValue|
            #![trigger flat_object(v, obsidian_fields(vault_path@, advanced))]
            flat_object(
                v,
                obsidian_fields(vault_path@, advanced),
            ) && final(cfg).entries() == spec_insert(old(cfg).entries(), "obsidian"@, v),
{
    if vault_path.is_empty() {
        return Err(VaultError::Empty);
    }
    if !probe.exists {
        return Err(VaultError::NotFound);
    }
    if !probe.is_dir {
        return Err(VaultError::NotDirectory);
    }
    if !probe.has_obsidian_dir {
        return Err(VaultError::NotAVault);
    }
    let value = obsidian_server_config(vault_path, advanced);
    let ghost v = value;
    cfg.insert(String::from_str("obsidian"), value);
    Ok(())
}

/// Why the configured vault cannot be used.
#[derive(Debug, Clone, Copy, PartialEq, Eq, Structural)]
pub enum ObsidianError {
    /// No `obsidian` server is configured.
    NotConfigured,
    /// The `obsidian` settings have no string `vault_path`.
    VaultPathNotSet,
}

/// The vault path of the configured Obsidian server.
pub open spec fn spec_configured_vault(entries: Seq<(Seq<char>, JsonValue)>) -> Result<Seq<char>, ObsidianError> {
    match spec_lookup(entries, "obsidian"@) {
        None => Err(ObsidianError::NotConfigured),
        Some(c) => match vault_path_setting(c) {
            None => Err(ObsidianError::VaultPathNotSet),
            Some(p) => Ok(p),
        },
    }
}

/// The vault path of the configured Obsidian server.
pub fn configured_vault(cfg: &McpConfig) -> (r: Result<String, ObsidianError>)
    ensures
        match r {
            Ok(p) => spec_configured_vault(cfg.entries()) == Ok::<Seq<char>, ObsidianError>(p@),
            Err(e) => spec_configured_vault(cfg.entries()) == Err::<Seq<char>, ObsidianError>(e),
        },
{
    match cfg.get("obsidian") {
        None => Err(ObsidianError::NotConfigured),
        Some(c) => match vault_path(c) {
            None => Err(ObsidianError::VaultPathNotSet),
            Some(p) => Ok(p),
        },
    }
}


/// Once `add` has configured a vault, the configured vault is that path and
/// the mode is the one given.
pub proof fn law_add_then_configured(
    es: Seq<(Seq<char>, JsonValue)>,
    vault_path: Seq<char>,
    advanced: bool,
    v: JsonValue,
)
    requires
        flat_object(v, obsidian_fields(vault_path, advanced)),
    ensures
        spec_configured_vault(spec_insert(es, "obsidian"@, v)) == Ok::<Seq<char>, ObsidianError>(
            vault_path,
        ),
        advanced_setting(v) == advanced,
{
    crate::config::law_insert_then_get(es, "obsidian"@, v);
    let entries = v->Object_0@;
    let f = obsidian_fields(vault_path, advanced);
    assert(entries[0].0@ == f[0].0);
    assert(entries[1].0@ == f[1].0);
    reveal_strlit("vault_path");
    reveal_strlit("advanced");
    assert(entries[0].0@ != "advanced"@);
    assert(entries.drop_first()[0] == entries[1]);
    assert(entries[1].1 == JsonValue::Bool(advanced));
    assert(object_lookup(entries.drop_first(), "advanced"@) == Some(entries[1].1));
    assert(object_lookup(entries, "advanced"@) == Some(entries[1].1));
}

/// The file name of an exported note: `<date>-<title>.md`.
pub fn note_filename(date: &str, title: &str) -> (r: String)
    ensures
        r@ == date@ + "-"@ + title@ + ".md"@,
{
    let mut r = String::from_str(date);
    r.append("-");
    r.append(title);
    r.append(".md");
    r
}

} // verus!
