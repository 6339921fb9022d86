//! Whisper models: the built-in aliases, where a model is downloaded from,
//! and which names can be made the default.
use vstd::prelude::*;
use crate::text::{starts_with, str_eq, str_starts_with};

verus! {

/// The built-in aliases and the address each is downloaded from.
pub open spec fn model_alias_table() -> Seq<(Seq<char>, Seq<char>)> {
    seq![
        ("whisper-large-v3"@, "https://huggingface.co/openai/whisper-large-v3/resolve/main/model.bin"@),
        ("whisper-medium"@, "https://huggingface.co/openai/whisper-medium/resolve/main/model.bin"@),
        ("whisper-small"@, "https://huggingface.co/openai/whisper-small/resolve/main/model.bin"@),
        ("whisper-tiny"@, "https://huggingface.co/openai/whisper-tiny/resolve/main/model.bin"@),
    ]
}

/// The size and memory needs of each built-in model.
pub open spec fn model_size_table() -> Seq<(Seq<char>, Seq<char>)> {
    seq![
        ("whisper-large-v3"@, "~3GB, needs ~8GB RAM"@),
        ("whisper-medium"@, "~1.5GB, needs ~4GB RAM"@),
        ("whisper-small"@, "~500MB, needs ~2GB RAM"@),
        ("whisper-tiny"@, "~75MB, needs ~1GB RAM"@),
    ]
}

/// The value for `name` in a table, if it has one.
pub open spec fn table_lookup(table: Seq<(Seq<char>, Seq<char>)>, name: Seq<char>) -> Option<Seq<char>>
    decreases table.len(),
{
    if table.len() == 0 {
        None
    } else if table[0].0 == name {
        Some(table[0].1)
    } else {
        table_lookup(table.drop_first(), name)
    }
}

/// The table as pairs of strings.
pub open spec fn pairs_match(v: Seq<(&'static str, &'static str)>, table: Seq<(Seq<char>, Seq<char>)>) -> bool {
    &&& v.len() == table.len()
    &&& forall|i: int| 0 <= i < v.len() ==> (#[trigger] v[i].0@, v[i].1@) == table[i]
}

/// The built-in model aliases and their download addresses.
pub fn model_aliases() -> (r: Vec<(&'static str, &'static str)>)
    ensures
        pairs_match(r@, model_alias_table()),
{
    vec![
        ("whisper-large-v3", "https://huggingface.co/openai/whisper-large-v3/resolve/main/model.bin"),
        ("whisper-medium", "https://huggingface.co/openai/whisper-medium/resolve/main/model.bin"),
        ("whisper-small", "https://huggingface.co/openai/whisper-small/resolve/main/model.bin"),
        ("whisper-tiny", "https://huggingface.co/openai/whisper-tiny/resolve/main/model.bin"),
    ]
}

/// The built-in models' sizes and memory needs.
pub fn model_sizes() -> (r: Vec<(&'static str, &'static str)>)
    ensures
        pairs_match(r@, model_size_table()),
{
    vec![
        ("whisper-large-v3", "~3GB, needs ~8GB RAM"),
        ("whisper-medium", "~1.5GB, needs ~4GB RAM"),
        ("whisper-small", "~500MB, needs ~2GB RAM"),
        ("whisper-tiny", "~75MB, needs ~1GB RAM"),
    ]
}

fn lookup(table: &Vec<(&'static str, &'static str)>, name: &str) -> (r: Option<&'static str>)
    ensures
        r.deep_view() == table_lookup(
            Seq::new(table@.len(), |i: int| (table@[i].0@, table@[i].1@)),
            name@,
        ),
{
    let ghost t = Seq::new(table@.len(), |i: int| (table@[i].0@, table@[i].1@));
    assert(t.skip(0) =~= t);
    let mut i: usize = 0;
    while i < table.len()
        invariant
            i <= table@.len(),
            t == Seq::new(table@.len(), |i: int| (table@[i].0@, table@[i].1@)),
            table_lookup(t, name@) == table_lookup(t.skip(i as int), name@),
        decreases table.len() - i,
    {
        assert(t.skip(i as int)[0] == t[i as int]);
        assert(t.skip(i as int).drop_first() =~= t.skip(i + 1));
        if str_eq(table[i].0, name) {
            return Some(table[i].1);
        }
        i += 1;
    }
    None
}

/// The download address of a built-in alias.
pub fn alias_url(name: &str) -> (r: Option<&'static str>)
    ensures
        r.deep_view() == table_lookup(model_alias_table(), name@),
{
    let t = model_aliases();
    assert(Seq::new(t@.len(), |i: int| (t@[i].0@, t@[i].1@)) =~= model_alias_table());
    lookup(&t, name)
}

/// The size note of a built-in alias.
pub fn model_size(name: &str) -> (r: Option<&'static str>)
    ensures
        r.deep_view() == table_lookup(model_size_table(), name@),
{
    let t = model_sizes();
    assert(Seq::new(t@.len(), |i: int| (t@[i].0@, t@[i].1@)) =~= model_size_table());
    lookup(&t, name)
}

/// A name that is neither a built-in alias nor an `https://` address.
#[derive(Debug, Clone, Copy, PartialEq, Eq, Structural)]
pub struct UnknownModelAlias;

/// Where `model pull` downloads from: an `https://` address is used as
/// given, an alias gives its address, anything else is refused.
pub open spec fn spec_pull_url(name: Seq<char>) -> Option<Seq<char>> {
    if starts_with(name, "https://"@) {
        Some(name)
    } else {
        table_lookup(model_alias_table(), name)
    }
}

/// Where `model pull` downloads `name` from.
pub fn resolve_pull_url(name: &str) -> (r: Result<String, UnknownModelAlias>)
    ensures
        match r {
            Ok(u) => spec_pull_url(name@) == Some(u@),
            Err(_) => spec_pull_url(name@) is None,
        },
{
    if str_starts_with(name, "https://") {
        Ok(String::from_str(name))
    } else {
        match alias_url(name) {
            Some(u) => Ok(String::from_str(u)),
            None => Err(UnknownModelAlias),
        }
    }
}

/// `model use` accepts a built-in alias or an `https://` address.
pub open spec fn spec_default_model_ok(name: Seq<char>) -> bool {
    table_lookup(model_alias_table(), name) is Some || starts_with(name, "https://"@)
}

/// Check a name given to `model use`.
pub fn check_default_model(name: &str) -> (r: Result<(), UnknownModelAlias>)
    ensures
        r is Ok <==> spec_default_model_ok(name@),
{
    if alias_url(name).is_some() || str_starts_with(name, "https://") {
        Ok(())
    } else {
        Err(UnknownModelAlias)
    }
}

/// The alias names, separated by `, ` (for messages).
pub fn alias_names() -> (r: String)
    ensures
        r@ == "whisper-large-v3, whisper-medium, whisper-small, whisper-tiny"@,
{
    String::from_str("whisper-large-v3, whisper-medium, whisper-small, whisper-tiny")
}

/// `model use` accepts exactly the names that `model pull` can download.
pub proof fn law_default_iff_pullable(name: Seq<char>)
    ensures
        spec_default_model_ok(name) <==> spec_pull_url(name) is Some,
{
}

} // verus!
