//! NotebookLM through the `nlm` command: the arguments each command takes,
//! reading the notebook id from its output, and the prerequisite check.
use vstd::prelude::*;
use crate::tools::string_views;
use crate::text::{
    from_chars, last_index_of, matches_at, lines, lines_exec, rfind, slice_chars, to_chars, trim, trim_end_matches,
    trim_end_matches_exec, trim_exec, unicode_alphanumeric, is_alphanumeric, utf8_len, utf8_len_below, views,
};

verus! {

/// The output of `nlm notebook create` held no recognisable notebook id.
#[derive(Debug, Clone, Copy, PartialEq, Eq, Structural)]
pub struct NotebookIdNotFound;

/// A character that may appear in a bare notebook id.
pub open spec fn is_id_char(c: char) -> bool {
    unicode_alphanumeric(c) || c == '-' || c == '_'
}

/// The notebook id a single output line gives, if any. On the trimmed line:
/// first, what follows the last `id:`, trimmed, with trailing `)` removed
/// and trimmed again, when that is not empty; else what follows the last
/// `notebook `, trimmed, when it is not empty and shorter than 100 bytes;
/// else the whole line, when it is not empty, shorter than 50 bytes, and
/// made only of alphanumerics, `-` and `_`.
pub open spec fn line_notebook_id(line: Seq<char>) -> Option<Seq<char>> {
    let l = trim(line);
    let i = last_index_of(l, "id:"@);
    let after_id = trim(trim_end_matches(trim(l.skip(i + 3)), ")"@));
    let j = last_index_of(l, "notebook "@);
    let after_nb = trim(l.skip(j + 9));
    if i >= 0 && after_id.len() > 0 {
        Some(after_id)
    } else if j >= 0 && after_nb.len() > 0 && utf8_len(after_nb) < 100 {
        Some(after_nb)
    } else if l.len() > 0 && utf8_len(l) < 50 && (forall|k: int|
        0 <= k < l.len() ==> is_id_char(#[trigger] l[k])) {
        Some(l)
    } else {
        None
    }
}

/// The id given by the first output line that gives one.
pub open spec fn first_notebook_id(ls: Seq<Seq<char>>) -> Option<Seq<char>>
    decreases ls.len(),
{
    if ls.len() == 0 {
        None
    } else {
        match line_notebook_id(ls[0]) {
            Some(id) => Some(id),
            None => first_notebook_id(ls.drop_first()),
        }
    }
}

/// A notebook id read from the output is never empty.
pub proof fn law_notebook_id_nonempty(ls: Seq<Seq<char>>)
    ensures
        first_notebook_id(ls) matches Some(id) ==> id.len() > 0,
    decreases ls.len(),
{
    if ls.len() > 0 && line_notebook_id(ls[0]) is None {
        law_notebook_id_nonempty(ls.drop_first());
    }
}

fn all_id_chars(l: &[char]) -> (b: bool)
    ensures
        b == forall|k: int| 0 <= k < l@.len() ==> is_id_char(#[trigger] l@[k]),
{
    let mut k: usize = 0;
    while k < l.len()
        invariant
            k <= l@.len(),
            forall|j: int| 0 <= j < k ==> is_id_char(#[trigger] l@[j]),
        decreases l.len() - k,
    {
        let c = l[k];
        if !(is_alphanumeric(c) || c == '-' || c == '_') {
            assert(!is_id_char(l@[k as int]));
            return false;
        }
        k += 1;
    }
    true
}

fn line_notebook_id_exec(line: &[char]) -> (r: Option<Vec<char>>)
    ensures
        match r {
            Some(v) => line_notebook_id(line@) == Some(v@),
            None => line_notebook_id(line@) is None,
        },
{
    let l = trim_exec(line);
    let id_pat = to_chars("id:");
    let nb_pat = to_chars("notebook ");
    let close = to_chars(")");
    proof {
        reveal_strlit("id:");
        reveal_strlit("notebook ");
        reveal_strlit(")");
    }
    let ghost lv = l@;
    let ghost i = last_index_of(lv, "id:"@);
    let ghost j = last_index_of(lv, "notebook "@);
    proof {
        crate::text::lemma_last_index_of(lv, "id:"@);
        crate::text::lemma_last_index_of(lv, "notebook "@);
    }
    match rfind(l.as_slice(), id_pat.as_slice()) {
        Some(idx) => {
            assert(idx == i);
            assert(matches_at(lv, "id:"@, i));
            assert(idx + 3 <= l.len());
            let tail = slice_chars(l.as_slice(), idx + 3, l.len());
            assert(tail@ =~= lv.skip(i + 3));
            let t1 = trim_exec(tail.as_slice());
            let t2 = trim_end_matches_exec(t1.as_slice(), close.as_slice());
            let id = trim_exec(t2.as_slice());
            if id.len() > 0 {
                return Some(id);
            }
        },
        None => {},
    }
    match rfind(l.as_slice(), nb_pat.as_slice()) {
        Some(idx) => {
            assert(idx == j);
            assert(matches_at(lv, "notebook "@, j));
            assert(idx + 9 <= l.len());
            let tail = slice_chars(l.as_slice(), idx + 9, l.len());
            assert(tail@ =~= lv.skip(j + 9));
            let rest = trim_exec(tail.as_slice());
            if rest.len() > 0 && utf8_len_below(rest.as_slice(), 100) {
                return Some(rest);
            }
        },
        None => {},
    }
    if l.len() > 0 && utf8_len_below(l.as_slice(), 50) && all_id_chars(l.as_slice()) {
        return Some(l);
    }
    None
}

/// Parse the notebook id from `nlm notebook create` output.
pub fn parse_notebook_id(output: &str) -> (r: Result<String, NotebookIdNotFound>)
    ensures
        match r {
            Ok(id) => first_notebook_id(lines(output@)) == Some(id@),
            Err(_) => first_notebook_id(lines(output@)) is None,
        },
{
    let chars = to_chars(output);
    let ls = lines_exec(chars.as_slice());
    let ghost lv = views(ls@);
    assert(lv.skip(0) =~= lv);
    let mut i: usize = 0;
    while i < ls.len()
        invariant
            i <= ls@.len(),
            lv == views(ls@),
            lv.len() == ls@.len(),
            lv == lines(output@),
            first_notebook_id(lv) == first_notebook_id(lv.skip(i as int)),
        decreases ls.len() - i,
    {
        assert(lv.skip(i as int)[0] == lv[i as int]);
        assert(lv.skip(i as int).drop_first() =~= lv.skip(i + 1));
        assert(lv[i as int] == ls@[i as int]@);
        match line_notebook_id_exec(ls[i].as_slice()) {
            Some(id) => {
                return Ok(from_chars(id.as_slice()));
            },
            None => {},
        }
        i += 1;
    }
    assert(lv.skip(i as int).len() == 0);
    Err(NotebookIdNotFound)
}

/// `nlm notebook create <title>`.
pub fn create_notebook_args(title: &str) -> (r: Vec<String>)
    ensures
        string_views(r@) == seq!["notebook"@, "create"@, title@],
{
    let r = vec![String::from_str("notebook"), String::from_str("create"), String::from_str(title)];
    assert(string_views(r@) =~= seq!["notebook"@, "create"@, title@]);
    r
}

/// The kinds of source a notebook takes.
#[derive(Debug, Clone, Copy, PartialEq, Eq, Structural)]
pub enum SourceKind {
    Text,
    Url,
    File,
}

/// The option that introduces a source of the given kind.
pub open spec fn source_flag(kind: SourceKind) -> Seq<char> {
    match kind {
        SourceKind::Text => "--text"@,
        SourceKind::Url => "--url"@,
        SourceKind::File => "--file"@,
    }
}

/// `nlm source add <notebook-id> --text|--url|--file <value>`.
pub fn add_source_args(notebook_id: &str, kind: SourceKind, value: &str) -> (r: Vec<String>)
    ensures
        string_views(r@) == seq!["source"@, "add"@, notebook_id@, source_flag(kind), value@],
{
    let flag = match kind {
        SourceKind::Text => String::from_str("--text"),
        SourceKind::Url => String::from_str("--url"),
        SourceKind::File => String::from_str("--file"),
    };
    let r = vec![
        String::from_str("source"),
        String::from_str("add"),
        String::from_str(notebook_id),
        flag,
        String::from_str(value),
    ];
    assert(string_views(r@) =~= seq!["source"@, "add"@, notebook_id@, source_flag(kind), value@]);
    r
}

/// `nlm login --check`.
pub fn login_check_args() -> (r: Vec<String>)
    ensures
        string_views(r@) == seq!["login"@, "--check"@],
{
    let r = vec![String::from_str("login"), String::from_str("--check")];
    assert(string_views(r@) =~= seq!["login"@, "--check"@]);
    r
}

/// The state of the prerequisite check for `nlm`.
#[derive(Debug, Clone, Copy, PartialEq, Eq, Structural)]
pub enum Prerequisites {
    /// `nlm` is not installed.
    NotInstalled,
    /// `nlm` is installed; whether it is logged in must be asked next.
    CheckLogin,
    /// `nlm` is installed but not logged in.
    NotAuthenticated,
    /// `nlm` is installed and logged in.
    Ready,
}

/// The next step of the prerequisite check, from what is known: whether
/// `nlm` is installed, and, once asked, whether it is logged in. The login
/// is asked only when `nlm` is installed.
pub fn check_prerequisites(installed: bool, authenticated: Option<bool>) -> (r: Prerequisites)
    ensures
        r == if !installed {
            Prerequisites::NotInstalled
        } else {
            match authenticated {
                None => Prerequisites::CheckLogin,
                Some(false) => Prerequisites::NotAuthenticated,
                Some(true) => Prerequisites::Ready,
            }
        },
{
    if !installed {
        Prerequisites::NotInstalled
    } else {
        match authenticated {
            None => Prerequisites::CheckLogin,
            Some(false) => Prerequisites::NotAuthenticated,
            Some(true) => Prerequisites::Ready,
        }
    }
}

/// What to tell the user when `nlm` is missing.
pub fn not_installed_message() -> (r: &'static str)
    ensures
        r@ == "❌ 'nlm' CLI is not installed.\n\nInstall it with:\n  pip install notebooklm-mcp-cli\n\nThen authenticate:\n  nlm login\n\nSee: https://github.com/jacob-bd/notebooklm-mcp-cli"@,
{
    "❌ 'nlm' CLI is not installed.\n\nInstall it with:\n  pip install notebooklm-mcp-cli\n\nThen authenticate:\n  nlm login\n\nSee: https://github.com/jacob-bd/notebooklm-mcp-cli"
}

/// What to tell the user when `nlm` is not logged in.
pub fn not_authenticated_message() -> (r: &'static str)
    ensures
        r@ == "❌ 'nlm' is installed but not authenticated.\n\nRun:\n  nlm login\n\nThis will open a browser for Google authentication."@,
{
    "❌ 'nlm' is installed but not authenticated.\n\nRun:\n  nlm login\n\nThis will open a browser for Google authentication."
}

} // verus!
