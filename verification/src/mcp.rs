//! The MCP server registry: which servers are offered, the settings a newly
//! added server starts with, and adding, removing and checking servers.
use vstd::prelude::*;
use crate::config::{
    FlatValue, JsonValue, McpConfig, distinct_names, flat_object, has_name, spec_insert,
    spec_lookup, spec_remove,
};

verus! {

/// The servers offered for configuration, in display order.
pub open spec fn spec_available_servers() -> Seq<Seq<char>> {
    seq![
        "obsidian"@,
        "notion"@,
        "notebooklm"@,
        "slack"@,
        "jira"@,
        "diffchecker"@,
        "google-docs"@,
        "email"@,
        "github"@,
        "todoist"@,
        "confluence"@,
        "telegram"@,
    ]
}

/// The servers offered for configuration.
pub fn available_servers() -> (r: Vec<&'static str>)
    ensures
        r@.len() == spec_available_servers().len(),
        forall|i: int| 0 <= i < r@.len() ==> #[trigger] r@[i]@ == spec_available_servers()[i],
{
    let r = vec![
        "obsidian",
        "notion",
        "notebooklm",
        "slack",
        "jira",
        "diffchecker",
        "google-docs",
        "email",
        "github",
        "todoist",
        "confluence",
        "telegram",
    ];
    r
}

/// An empty text setting.
pub open spec fn blank(name: Seq<char>) -> (Seq<char>, FlatValue) {
    (name, FlatValue::Text(Seq::empty()))
}

/// The settings a newly added server starts with: blank credentials for
/// the known servers, `enabled: true` for NotebookLM and any other name.
pub open spec fn default_server_fields(name: Seq<char>) -> Seq<(Seq<char>, FlatValue)> {
    if name == "obsidian"@ {
        seq![blank("vault_path"@)]
    } else if name == "notion"@ {
        seq![blank("api_key"@)]
    } else if name == "slack"@ {
        seq![blank("bot_token"@), blank("channel"@)]
    } else if name == "jira"@ {
        seq![blank("host"@), blank("api_token"@)]
    } else if name == "google-docs"@ {
        seq![blank("credentials"@)]
    } else if name == "email"@ {
        seq![blank("smtp_host"@), blank("from"@)]
    } else if name == "github"@ {
        seq![blank("token"@)]
    } else if name == "todoist"@ {
        seq![blank("api_token"@)]
    } else if name == "confluence"@ {
        seq![blank("host"@), blank("api_token"@)]
    } else if name == "telegram"@ {
        seq![blank("bot_token"@), blank("chat_id"@)]
    } else if name == "diffchecker"@ {
        seq![blank("api_key"@)]
    } else {
        seq![("enabled"@, FlatValue::Flag(true))]
    }
}

fn blank_field(key: &str) -> (r: (String, JsonValue))
    ensures
        r.0@ == key@,
        r.1 matches JsonValue::Str(s) && s@ == Seq::<char>::empty(),
{
    (String::from_str(key), JsonValue::Str(String::new()))
}

fn object1(a: (String, JsonValue)) -> (r: JsonValue)
    ensures
        r matches JsonValue::Object(es) && es@ == seq![a],
{
    let mut v = Vec::new();
    v.push(a);
    assert(v@ =~= seq![a]);
    JsonValue::Object(v)
}

fn object2(a: (String, JsonValue), b: (String, JsonValue)) -> (r: JsonValue)
    ensures
        r matches JsonValue::Object(es) && es@ == seq![a, b],
{
    let mut v = Vec::new();
    v.push(a);
    v.push(b);
    assert(v@ =~= seq![a, b]);
    JsonValue::Object(v)
}

/// The settings a newly added server starts with.
pub fn default_server_config(name: &str) -> (r: JsonValue)
    ensures
        flat_object(r, default_server_fields(name@)),
{
    if crate::text::str_eq(name, "obsidian") {
        object1(blank_field("vault_path"))
    } else if crate::text::str_eq(name, "notion") {
        object1(blank_field("api_key"))
    } else if crate::text::str_eq(name, "slack") {
        object2(blank_field("bot_token"), blank_field("channel"))
    } else if crate::text::str_eq(name, "jira") {
        object2(blank_field("host"), blank_field("api_token"))
    } else if crate::text::str_eq(name, "google-docs") {
        object1(blank_field("credentials"))
    } else if crate::text::str_eq(name, "email") {
        object2(blank_field("smtp_host"), blank_field("from"))
    } else if crate::text::str_eq(name, "github") {
        object1(blank_field("token"))
    } else if crate::text::str_eq(name, "todoist") {
        object1(blank_field("api_token"))
    } else if crate::text::str_eq(name, "confluence") {
        object2(blank_field("host"), blank_field("api_token"))
    } else if crate::text::str_eq(name, "telegram") {
        object2(blank_field("bot_token"), blank_field("chat_id"))
    } else if crate::text::str_eq(name, "diffchecker") {
        object1(blank_field("api_key"))
    } else {
        object1((String::from_str("enabled"), JsonValue::Bool(true)))
    }
}

/// The offered servers that are not configured yet, in display order.
pub fn unconfigured_servers(cfg: &McpConfig) -> (r: Vec<&'static str>)
    ensures
        r@.map_values(|s: &'static str| s@) == spec_available_servers().filter(
            |n: Seq<char>| !has_name(cfg.entries(), n),
        ),
{
    let all = available_servers();
    let ghost avail = spec_available_servers();
    let ghost pred = |n: Seq<char>| !has_name(cfg.entries(), n);
    let mut r: Vec<&'static str> = Vec::new();
    let mut i: usize = 0;
    while i < all.len()
        invariant
            i <= all@.len(),
            all@.len() == avail.len(),
            avail == spec_available_servers(),
            pred == (|n: Seq<char>| !has_name(cfg.entries(), n)),
            forall|k: int| 0 <= k < all@.len() ==> #[trigger] all@[k]@ == avail[k],
            r@.map_values(|s: &'static str| s@) == avail.take(i as int).filter(pred),
        decreases all.len() - i,
    {
        let ghost before = r@;
        reveal_with_fuel(Seq::filter, 1);
        assert(avail.take(i + 1).drop_last() =~= avail.take(i as int));
        if !cfg.contains_key(all[i]) {
            r.push(all[i]);
            assert(r@.map_values(|s: &'static str| s@) =~= before.map_values(|s: &'static str| s@).push(all@[i as int]@));
        } else {
            assert(r@ == before);
        }
        i += 1;
    }
    assert(avail.take(all@.len() as int) =~= avail);
    r
}

/// Add a server with its starting settings. A server that is already
/// configured is left as it is and `false` is returned.
pub fn add_server(cfg: &mut McpConfig, name: &str) -> (added: bool)
    ensures
        added == !has_name(old(cfg).entries(), name@),
        !added ==> final(cfg).entries() == old(cfg).entries(),
        added ==> exists|v: JsonValue| #![trigger flat_object(v, default_server_fields(name@))]
            flat_object(v, default_server_fields(name@)) && final(cfg).entries() == spec_insert(
                old(cfg).entries(),
                name@,
                v,
            ),
{
    if cfg.contains_key(name) {
        return false;
    }
    let value = default_server_config(name);
    let ghost v = value;
    cfg.insert(String::from_str(name), value);
    assert(flat_object(v, default_server_fields(name@)));
    true
}

/// Once a server has been added it is configured, so adding it again
/// returns `false` and leaves the table as it is (see `add_server`).
pub proof fn law_add_twice_changes_nothing(es: Seq<(Seq<char>, JsonValue)>, name: Seq<char>, v: JsonValue)
    ensures
        has_name(spec_insert(es, name, v), name),
{
    crate::config::law_insert_then_get(es, name, v);
}

/// Whether `mcp add` sets the server up from a vault path (Obsidian) rather
/// than with blank starting settings.
pub fn asks_for_vault(name: &str) -> (r: bool)
    ensures
        r == (name@ == "obsidian"@),
{
    crate::text::str_eq(name, "obsidian")
}

/// Remove a server; `false` when it was not configured.
pub fn remove_server(cfg: &mut McpConfig, name: &str) -> (removed: bool)
    ensures
        removed == has_name(old(cfg).entries(), name@),
        final(cfg).entries() == spec_remove(old(cfg).entries(), name@),
{
    proof {
        crate::config::lemma_name_index(cfg.entries(), name@);
    }
    cfg.remove(name).is_some()
}

/// A server that is not configured.
#[derive(Debug, Clone, Copy, PartialEq, Eq, Structural)]
pub struct NotConfigured;

/// Check that a server is configured before testing it.
pub fn test_server(cfg: &McpConfig, name: &str) -> (r: Result<(), NotConfigured>)
    ensures
        r is Ok <==> has_name(cfg.entries(), name@),
{
    if cfg.contains_key(name) {
        Ok(())
    } else {
        Err(NotConfigured)
    }
}

} // verus!
