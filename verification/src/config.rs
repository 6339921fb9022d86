//! Settings: transcription, language model, output and MCP servers, with
//! their defaults and the paths under `~/.parrot`.
use vstd::prelude::*;

verus! {

/// A JSON value as the settings file holds it. Numbers keep their text.
#[derive(Debug)]
pub enum JsonValue {
    Null,
    Bool(bool),
    Number(String),
    Str(String),
    Array(Vec<JsonValue>),
    Object(Vec<(String, JsonValue)>),
}

/// A scalar that a flat settings object holds.
pub enum FlatValue {
    Text(Seq<char>),
    Flag(bool),
}

/// The first entry of `entries` named `key`.
pub open spec fn object_lookup(entries: Seq<(String, JsonValue)>, key: Seq<char>) -> Option<JsonValue>
    decreases entries.len(),
{
    if entries.len() == 0 {
        None
    } else if entries[0].0@ == key {
        Some(entries[0].1)
    } else {
        object_lookup(entries.drop_first(), key)
    }
}

/// `Value::get(key)`: the member `key` of an object, none for other values.
pub open spec fn json_get(v: JsonValue, key: Seq<char>) -> Option<JsonValue> {
    match v {
        JsonValue::Object(entries) => object_lookup(entries@, key),
        _ => None,
    }
}

/// `Value::as_str`: the text of a string value.
pub open spec fn json_as_str(v: Option<JsonValue>) -> Option<Seq<char>> {
    match v {
        Some(JsonValue::Str(s)) => Some(s@),
        _ => None,
    }
}

/// `Value::as_bool`: the value of a boolean.
pub open spec fn json_as_bool(v: Option<JsonValue>) -> Option<bool> {
    match v {
        Some(JsonValue::Bool(b)) => Some(b),
        _ => None,
    }
}

/// `v` is an object with exactly the given members, in that order.
pub open spec fn flat_object(v: JsonValue, fields: Seq<(Seq<char>, FlatValue)>) -> bool {
    match v {
        JsonValue::Object(entries) => {
            &&& entries@.len() == fields.len()
            &&& forall|i: int|
                0 <= i < fields.len() ==> {
                    &&& #[trigger] entries@[i].0@ == fields[i].0
                    &&& match fields[i].1 {
                        FlatValue::Text(t) => entries@[i].1 matches JsonValue::Str(s) && s@ == t,
                        FlatValue::Flag(b) => entries@[i].1 == JsonValue::Bool(b),
                    }
                }
        },
        _ => false,
    }
}

/// The member `key` of an object (`Value::get`).
pub fn json_get_exec<'a>(v: &'a JsonValue, key: &str) -> (r: Option<&'a JsonValue>)
    ensures
        match r {
            Some(x) => json_get(*v, key@) == Some(*x),
            None => json_get(*v, key@) is None,
        },
{
    match v {
        JsonValue::Object(entries) => {
            let k = crate::text::to_chars(key);
            let mut i: usize = 0;
            assert(entries@.skip(0) =~= entries@);
            while i < entries.len()
                invariant
                    i <= entries@.len(),
                    k@ == key@,
                    json_get(*v, key@) == object_lookup(entries@, key@),
                    object_lookup(entries@, key@) == object_lookup(entries@.skip(i as int), key@),
                decreases entries.len() - i,
            {
                assert(entries@.skip(i as int)[0] == entries@[i as int]);
                assert(entries@.skip(i as int).drop_first() =~= entries@.skip(i + 1));
                let name = crate::text::to_chars(entries[i].0.as_str());
                if crate::text::chars_eq(name.as_slice(), k.as_slice()) {
                    return Some(&entries[i].1);
                }
                i += 1;
            }
            None
        },
        _ => None,
    }
}

/// A string value's text (`Value::as_str`).
pub fn json_as_str_exec(v: Option<&JsonValue>) -> (r: Option<&str>)
    ensures
        r.deep_view() == json_as_str(match v {
            Some(x) => Some(*x),
            None => None,
        }),
{
    match v {
        Some(JsonValue::Str(s)) => Some(s.as_str()),
        _ => None,
    }
}

/// A boolean value (`Value::as_bool`).
pub fn json_as_bool_exec(v: Option<&JsonValue>) -> (r: Option<bool>)
    ensures
        r == json_as_bool(match v {
            Some(x) => Some(*x),
            None => None,
        }),
{
    match v {
        Some(JsonValue::Bool(b)) => Some(*b),
        _ => None,
    }
}

// ---------------------------------------------------------------------------
// Named settings objects (the MCP server table)
// ---------------------------------------------------------------------------

/// Whether `name` names an entry.
pub open spec fn has_name(es: Seq<(Seq<char>, JsonValue)>, name: Seq<char>) -> bool {
    exists|i: int| 0 <= i < es.len() && es[i].0 == name
}

/// Index of the entry named `name`, or -1.
pub open spec fn name_index(es: Seq<(Seq<char>, JsonValue)>, name: Seq<char>) -> int
    decreases es.len(),
{
    if es.len() == 0 {
        -1
    } else if es.last().0 == name {
        es.len() - 1
    } else {
        name_index(es.drop_last(), name)
    }
}

/// No two entries share a name.
pub open spec fn distinct_names(es: Seq<(Seq<char>, JsonValue)>) -> bool {
    forall|i: int, j: int| 0 <= i < j < es.len() ==> es[i].0 != es[j].0
}

/// The settings of `name`.
pub open spec fn spec_lookup(es: Seq<(Seq<char>, JsonValue)>, name: Seq<char>) -> Option<JsonValue> {
    let i = name_index(es, name);
    if i >= 0 {
        Some(es[i].1)
    } else {
        None
    }
}

/// The entries after setting `name` to `value`: replaced in place when the
/// name is present, else added at the end.
pub open spec fn spec_insert(es: Seq<(Seq<char>, JsonValue)>, name: Seq<char>, value: JsonValue) -> Seq<
    (Seq<char>, JsonValue),
> {
    let i = name_index(es, name);
    if i >= 0 {
        es.update(i, (name, value))
    } else {
        es.push((name, value))
    }
}

/// The entries without the one named `name`.
pub open spec fn spec_remove(es: Seq<(Seq<char>, JsonValue)>, name: Seq<char>) -> Seq<
    (Seq<char>, JsonValue),
> {
    let i = name_index(es, name);
    if i >= 0 {
        es.remove(i)
    } else {
        es
    }
}

pub proof fn lemma_name_index(es: Seq<(Seq<char>, JsonValue)>, name: Seq<char>)
    ensures
        -1 <= name_index(es, name) < es.len(),
        name_index(es, name) >= 0 ==> es[name_index(es, name)].0 == name,
        name_index(es, name) < 0 <==> !has_name(es, name),
        forall|j: int| name_index(es, name) < j < es.len() ==> es[j].0 != name,
    decreases es.len(),
{
    if es.len() > 0 && es.last().0 != name {
        lemma_name_index(es.drop_last(), name);
        assert forall|j: int| name_index(es, name) < j < es.len() implies es[j].0 != name by {
            if j < es.len() - 1 {
                assert(es[j] == es.drop_last()[j]);
            }
        }
        if has_name(es, name) {
            let j = choose|j: int| 0 <= j < es.len() && es[j].0 == name;
            assert(es.drop_last()[j].0 == name);
        }
    }
}


// ---------------------------------------------------------------------------
// Laws of the server table
// ---------------------------------------------------------------------------

proof fn lemma_name_index_unique(es: Seq<(Seq<char>, JsonValue)>, name: Seq<char>, i: int)
    requires
        0 <= i < es.len(),
        es[i].0 == name,
        forall|j: int| i < j < es.len() ==> es[j].0 != name,
    ensures
        name_index(es, name) == i,
{
    lemma_name_index(es, name);
    assert(has_name(es, name));
    let ni = name_index(es, name);
    if ni < i {
        assert(es[i].0 != name);
    }
}

/// After setting a server's settings, looking the server up gives them.
pub proof fn law_insert_then_get(es: Seq<(Seq<char>, JsonValue)>, name: Seq<char>, value: JsonValue)
    ensures
        spec_lookup(spec_insert(es, name, value), name) == Some(value),
        has_name(spec_insert(es, name, value), name),
{
    lemma_name_index(es, name);
    let i = name_index(es, name);
    let es2 = spec_insert(es, name, value);
    if i >= 0 {
        lemma_name_index_unique(es2, name, i);
    } else {
        lemma_name_index_unique(es2, name, es.len() as int);
    }
    assert(es2[name_index(es2, name)].0 == name);
}

/// Setting one server's settings leaves every other server as it was.
pub proof fn law_insert_keeps_others(
    es: Seq<(Seq<char>, JsonValue)>,
    name: Seq<char>,
    value: JsonValue,
    other: Seq<char>,
)
    requires
        other != name,
    ensures
        spec_lookup(spec_insert(es, name, value), other) == spec_lookup(es, other),
{
    lemma_name_index(es, name);
    lemma_name_index(es, other);
    let i = name_index(es, name);
    let es2 = spec_insert(es, name, value);
    let o = name_index(es, other);
    lemma_name_index(es2, other);
    if o >= 0 {
        assert forall|j: int| o < j < es2.len() implies es2[j].0 != other by {
            if j < es.len() && j != i {
                assert(es2[j] == es[j]);
            }
        }
        lemma_name_index_unique(es2, other, o);
        assert(o != i);
        assert(es2[o] == es[o]);
    } else {
        if has_name(es2, other) {
            let j = choose|j: int| 0 <= j < es2.len() && es2[j].0 == other;
            if j < es.len() && j != i {
                assert(es2[j] == es[j]);
                assert(has_name(es, other));
            }
        }
    }
}

/// After removing a server it is no longer configured.
pub proof fn law_remove_then_absent(es: Seq<(Seq<char>, JsonValue)>, name: Seq<char>)
    requires
        distinct_names(es),
    ensures
        !has_name(spec_remove(es, name), name),
        spec_lookup(spec_remove(es, name), name) is None,
{
    lemma_name_index(es, name);
    let i = name_index(es, name);
    let es2 = spec_remove(es, name);
    if has_name(es2, name) {
        let j = choose|j: int| 0 <= j < es2.len() && es2[j].0 == name;
        if i >= 0 {
            let j2 = if j < i { j } else { j + 1 };
            assert(es2[j] == es[j2]);
            assert(es[i].0 == name);
        }
    }
    lemma_name_index(es2, name);
}

/// Adding a server that was not configured and removing it again gives
/// back the table exactly as it was.
pub proof fn law_add_then_remove_restores(es: Seq<(Seq<char>, JsonValue)>, name: Seq<char>, value: JsonValue)
    requires
        !has_name(es, name),
    ensures
        spec_remove(spec_insert(es, name, value), name) == es,
{
    lemma_name_index(es, name);
    let es2 = spec_insert(es, name, value);
    assert forall|j: int| es.len() < j < es2.len() implies es2[j].0 != name by {}
    lemma_name_index_unique(es2, name, es.len() as int);
    assert(es2.remove(es.len() as int) =~= es);
}

/// Setting the same settings twice is the same as setting them once.
pub proof fn law_insert_idempotent(es: Seq<(Seq<char>, JsonValue)>, name: Seq<char>, value: JsonValue)
    ensures
        spec_insert(spec_insert(es, name, value), name, value) == spec_insert(es, name, value),
{
    lemma_name_index(es, name);
    let i = name_index(es, name);
    let es2 = spec_insert(es, name, value);
    let k = if i >= 0 { i } else { es.len() as int };
    assert forall|j: int| k < j < es2.len() implies es2[j].0 != name by {
        assert(es2[j] == es[j]);
    }
    lemma_name_index_unique(es2, name, k);
    assert(es2.update(k, (name, value)) =~= es2);
}

/// Adding and removing keep every name unique.
pub proof fn law_table_stays_distinct(es: Seq<(Seq<char>, JsonValue)>, name: Seq<char>, value: JsonValue)
    requires
        distinct_names(es),
    ensures
        distinct_names(spec_insert(es, name, value)),
        distinct_names(spec_remove(es, name)),
{
    lemma_name_index(es, name);
    let i = name_index(es, name);
    let es2 = spec_insert(es, name, value);
    assert forall|a: int, b: int| 0 <= a < b < es2.len() implies es2[a].0 != es2[b].0 by {
        if i >= 0 {
            if a != i && b != i {
                assert(es2[a] == es[a] && es2[b] == es[b]);
            } else if a == i {
                assert(es2[b] == es[b]);
                assert(es[a].0 != es[b].0);
            } else {
                assert(es2[a] == es[a]);
                assert(es[a].0 != es[b].0);
            }
        } else {
            if b == es.len() {
                assert(es2[a] == es[a]);
                assert(!has_name(es, name));
                assert(es[a].0 != name);
            } else {
                assert(es2[a] == es[a] && es2[b] == es[b]);
            }
        }
    }
    let es3 = spec_remove(es, name);
    assert forall|a: int, b: int| 0 <= a < b < es3.len() implies es3[a].0 != es3[b].0 by {
        if i >= 0 {
            let a2 = if a < i { a } else { a + 1 };
            let b2 = if b < i { b } else { b + 1 };
            assert(es3[a] == es[a2] && es3[b] == es[b2]);
        }
    }
}

/// The MCP servers that are configured, each with its settings.
pub struct McpConfig {
    servers: Vec<(String, JsonValue)>,
}

impl McpConfig {
    /// The servers and their settings, in the order they were added.
    pub closed spec fn entries(self) -> Seq<(Seq<char>, JsonValue)> {
        Seq::new(self.servers@.len(), |i: int| (self.servers@[i].0@, self.servers@[i].1))
    }

    #[verifier::type_invariant]
    spec fn wf(self) -> bool {
        distinct_names(self.entries())
    }

    /// No server configured.
    pub fn new() -> (r: Self)
        ensures
            r.entries() == Seq::<(Seq<char>, JsonValue)>::empty(),
            distinct_names(r.entries()),
    {
        let r = McpConfig { servers: Vec::new() };
        assert(r.entries() =~= Seq::<(Seq<char>, JsonValue)>::empty());
        r
    }

    /// How many servers are configured.
    pub fn len(&self) -> (n: usize)
        ensures
            n == self.entries().len(),
            distinct_names(self.entries()),
    {
        proof {
            use_type_invariant(self);
        }
        self.servers.len()
    }

    /// Whether no server is configured.
    pub fn is_empty(&self) -> (b: bool)
        ensures
            b == (self.entries().len() == 0),
    {
        self.servers.len() == 0
    }

    /// The name and settings of the `i`-th server.
    pub fn entry(&self, i: usize) -> (r: (&str, &JsonValue))
        requires
            i < self.entries().len(),
        ensures
            r.0@ == self.entries()[i as int].0,
            *r.1 == self.entries()[i as int].1,
    {
        (self.servers[i].0.as_str(), &self.servers[i].1)
    }

    fn find(&self, name: &str) -> (r: Option<usize>)
        ensures
            match r {
                Some(i) => i as int == name_index(self.entries(), name@) && i < self.entries().len(),
                None => name_index(self.entries(), name@) < 0,
            },
    {
        proof {
            lemma_name_index(self.entries(), name@);
        }
        let k = crate::text::to_chars(name);
        let mut i: usize = self.servers.len();
        while i > 0
            invariant
                i <= self.servers@.len(),
                k@ == name@,
                forall|j: int| i <= j < self.entries().len() ==> self.entries()[j].0 != name@,
            decreases i,
        {
            let n = crate::text::to_chars(self.servers[i - 1].0.as_str());
            if crate::text::chars_eq(n.as_slice(), k.as_slice()) {
                proof {
                    lemma_name_index(self.entries(), name@);
                    assert(self.entries()[i - 1].0 == name@);
                    let ni = name_index(self.entries(), name@);
                    if ni < i - 1 {
                        assert(self.entries()[i - 1].0 != name@);
                    }
                }
                return Some(i - 1);
            }
            i -= 1;
        }
        proof {
            lemma_name_index(self.entries(), name@);
        }
        None
    }

    /// Whether `name` is configured (`HashMap::contains_key`).
    pub fn contains_key(&self, name: &str) -> (b: bool)
        ensures
            b == has_name(self.entries(), name@),
    {
        proof {
            lemma_name_index(self.entries(), name@);
        }
        self.find(name).is_some()
    }

    /// The settings of `name` (`HashMap::get`).
    pub fn get(&self, name: &str) -> (r: Option<&JsonValue>)
        ensures
            match r {
                Some(v) => spec_lookup(self.entries(), name@) == Some(*v),
                None => spec_lookup(self.entries(), name@) is None,
            },
    {
        match self.find(name) {
            Some(i) => Some(&self.servers[i].1),
            None => None,
        }
    }

    /// Set the settings of `name` (`HashMap::insert`); the old settings, if any.
    pub fn insert(&mut self, name: String, value: JsonValue) -> (r: Option<JsonValue>)
        ensures
            final(self).entries() == spec_insert(old(self).entries(), name@, value),
            r == spec_lookup(old(self).entries(), name@),
            distinct_names(final(self).entries()),
    {
        proof {
            use_type_invariant(&*self);
            lemma_name_index(self.entries(), name@);
        }
        let ghost es = self.entries();
        let ghost nv = name@;
        match self.find(name.as_str()) {
            Some(i) => {
                let mut servers: Vec<(String, JsonValue)> = Vec::new();
                std::mem::swap(&mut servers, &mut self.servers);
                assert(self.entries() =~= Seq::<(Seq<char>, JsonValue)>::empty());
                let old_entry = servers.remove(i);
                servers.insert(i, (name, value));
                let ghost ns = servers@;
                proof {
                    let e2 = Seq::new(ns.len(), |j: int| (ns[j].0@, ns[j].1));
                    assert(e2 =~= es.update(i as int, (nv, ns[i as int].1)));
                    assert forall|a: int, b: int| 0 <= a < b < e2.len() implies e2[a].0 != e2[b].0 by {
                        if a != i && b != i {
                            assert(es[a].0 != es[b].0);
                        } else if a == i {
                            assert(es[b].0 != es[a].0);
                        } else {
                            assert(es[a].0 != es[b].0);
                        }
                    }
                }
                self.servers = servers;
                Some(old_entry.1)
            },
            None => {
                let mut servers: Vec<(String, JsonValue)> = Vec::new();
                std::mem::swap(&mut servers, &mut self.servers);
                assert(self.entries() =~= Seq::<(Seq<char>, JsonValue)>::empty());
                servers.push((name, value));
                let ghost ns = servers@;
                proof {
                    let e2 = Seq::new(ns.len(), |j: int| (ns[j].0@, ns[j].1));
                    assert(e2 =~= es.push((nv, value)));
                    assert forall|a: int, b: int| 0 <= a < b < e2.len() implies e2[a].0 != e2[b].0 by {
                        if b == es.len() {
                            assert(!has_name(es, nv));
                            assert(es[a].0 != nv);
                        } else {
                            assert(es[a].0 != es[b].0);
                        }
                    }
                }
                self.servers = servers;
                None
            },
        }
    }

    /// Remove `name` (`HashMap::remove`); its settings, if it was configured.
    pub fn remove(&mut self, name: &str) -> (r: Option<JsonValue>)
        ensures
            final(self).entries() == spec_remove(old(self).entries(), name@),
            r == spec_lookup(old(self).entries(), name@),
            distinct_names(final(self).entries()),
    {
        proof {
            use_type_invariant(&*self);
            lemma_name_index(self.entries(), name@);
        }
        let ghost es = self.entries();
        match self.find(name) {
            Some(i) => {
                let mut servers: Vec<(String, JsonValue)> = Vec::new();
                std::mem::swap(&mut servers, &mut self.servers);
                assert(self.entries() =~= Seq::<(Seq<char>, JsonValue)>::empty());
                let removed = servers.remove(i);
                let ghost ns = servers@;
                proof {
                    let e2 = Seq::new(ns.len(), |j: int| (ns[j].0@, ns[j].1));
                    assert(e2 =~= es.remove(i as int));
                    assert forall|a: int, b: int| 0 <= a < b < e2.len() implies e2[a].0 != e2[b].0 by {
                        let a2 = if a < i { a } else { a + 1 };
                        let b2 = if b < i { b } else { b + 1 };
                        assert(e2[a] == es[a2] && e2[b] == es[b2]);
                        assert(es[a2].0 != es[b2].0);
                    }
                }
                self.servers = servers;
                Some(removed.1)
            },
            None => None,
        }
    }
}

// ---------------------------------------------------------------------------
// Settings
// ---------------------------------------------------------------------------

/// The default transcription model.
pub fn default_model() -> (r: String)
    ensures
        r@ == "whisper-medium"@,
{
    String::from_str("whisper-medium")
}

/// Timestamps are on unless turned off.
pub fn default_true() -> (r: bool)
    ensures
        r,
{
    true
}

/// The default language-model provider.
pub fn default_provider() -> (r: String)
    ensures
        r@ == "ollama"@,
{
    String::from_str("ollama")
}

/// The default language model.
pub fn default_model_llm() -> (r: String)
    ensures
        r@ == "qwen3:14b"@,
{
    String::from_str("qwen3:14b")
}

/// The default Ollama address.
pub fn default_ollama_url() -> (r: String)
    ensures
        r@ == "http://localhost:11434"@,
{
    String::from_str("http://localhost:11434")
}

/// The default output directory under the given home directory.
pub fn default_output_dir(home: &str) -> (r: String)
    ensures
        r@ == home@ + "/.parrot/output"@,
{
    let mut r = String::from_str(home);
    r.append("/.parrot/output");
    r
}

/// Transcription settings.
pub struct TranscriptionConfig {
    pub model: String,
    pub language: Option<String>,
    pub timestamps: bool,
}

impl Default for TranscriptionConfig {
    fn default() -> (r: Self)
        ensures
            r.model@ == "whisper-medium"@,
            r.language is None,
            r.timestamps,
    {
        TranscriptionConfig { model: default_model(), language: None, timestamps: true }
    }
}

/// Language-model settings.
pub struct LlmConfig {
    pub provider: String,
    pub model: String,
    pub ollama_url: String,
}

impl Default for LlmConfig {
    fn default() -> (r: Self)
        ensures
            r.provider@ == "ollama"@,
            r.model@ == "qwen3:14b"@,
            r.ollama_url@ == "http://localhost:11434"@,
    {
        LlmConfig {
            provider: default_provider(),
            model: default_model_llm(),
            ollama_url: default_ollama_url(),
        }
    }
}

/// Where generated files go.
pub struct OutputConfig {
    pub dir: String,
}

impl OutputConfig {
    /// The default output settings for the given home directory.
    pub fn for_home(home: &str) -> (r: Self)
        ensures
            r.dir@ == home@ + "/.parrot/output"@,
    {
        OutputConfig { dir: default_output_dir(home) }
    }
}

impl Default for McpConfig {
    fn default() -> (r: Self)
        ensures
            r.entries() == Seq::<(Seq<char>, JsonValue)>::empty(),
    {
        McpConfig::new()
    }
}

/// All settings.
pub struct ParrotConfig {
    pub transcription: TranscriptionConfig,
    pub llm: LlmConfig,
    pub output: OutputConfig,
    pub mcp: McpConfig,
}

impl ParrotConfig {
    /// The default settings for the given home directory.
    pub fn default_for_home(home: &str) -> (r: Self)
        ensures
            r.transcription.model@ == "whisper-medium"@,
            r.transcription.language is None,
            r.transcription.timestamps,
            r.llm.provider@ == "ollama"@,
            r.llm.model@ == "qwen3:14b"@,
            r.llm.ollama_url@ == "http://localhost:11434"@,
            r.output.dir@ == home@ + "/.parrot/output"@,
            r.mcp.entries() == Seq::<(Seq<char>, JsonValue)>::empty(),
    {
        ParrotConfig {
            transcription: TranscriptionConfig::default(),
            llm: LlmConfig::default(),
            output: OutputConfig::for_home(home),
            mcp: McpConfig::new(),
        }
    }
}

// ---------------------------------------------------------------------------
// Paths
// ---------------------------------------------------------------------------

/// `base` joined with `part` (`Path::join`): an absolute `part` replaces
/// `base`; otherwise a separator is put between them unless `base` is
/// empty or already ends with one.
pub open spec fn join_path(base: Seq<char>, part: Seq<char>) -> Seq<char> {
    if part.len() > 0 && part[0] == '/' {
        part
    } else if base.len() == 0 {
        part
    } else if base.last() == '/' {
        base + part
    } else {
        base + seq!['/'] + part
    }
}

/// `Path::join`.
pub fn join_path_exec(base: &str, part: &str) -> (r: String)
    ensures
        r@ == join_path(base@, part@),
{
    let p = crate::text::to_chars(part);
    if p.len() > 0 && p[0] == '/' {
        return String::from_str(part);
    }
    let b = crate::text::to_chars(base);
    let mut r = String::from_str(base);
    if b.len() > 0 && b[b.len() - 1] != '/' {
        crate::text::push_char(&mut r, '/');
    }
    r.append(part);
    r
}

/// The settings directory: `.parrot` in the home directory (`/tmp` when
/// no home directory is known).
pub open spec fn spec_config_dir(home: Option<Seq<char>>) -> Seq<char> {
    match home {
        Some(h) => h + "/.parrot"@,
        None => "/tmp/.parrot"@,
    }
}

/// The settings directory for the given home directory.
pub fn config_dir(home: Option<&str>) -> (r: String)
    ensures
        r@ == spec_config_dir(home.deep_view()),
{
    match home {
        Some(h) => {
            let mut r = String::from_str(h);
            r.append("/.parrot");
            r
        },
        None => String::from_str("/tmp/.parrot"),
    }
}

/// The settings file.
pub fn config_path(home: Option<&str>) -> (r: String)
    ensures
        r@ == join_path(spec_config_dir(home.deep_view()), "config.json"@),
{
    let d = config_dir(home);
    proof {
        reveal_strlit("config.json");
    }
    join_path_exec(d.as_str(), "config.json")
}

/// The directory that holds downloaded models.
pub fn models_dir(home: Option<&str>) -> (r: String)
    ensures
        r@ == join_path(spec_config_dir(home.deep_view()), "models"@),
{
    let d = config_dir(home);
    proof {
        reveal_strlit("models");
    }
    join_path_exec(d.as_str(), "models")
}

/// The directory generated files go to.
pub fn output_dir(cfg: &ParrotConfig) -> (r: String)
    ensures
        r@ == cfg.output.dir@,
{
    cfg.output.dir.clone()
}

/// The directory screenshots go to: `screenshots` in the output directory.
pub fn screenshots_dir(cfg: &ParrotConfig) -> (r: String)
    ensures
        r@ == join_path(cfg.output.dir@, "screenshots"@),
{
    proof {
        reveal_strlit("screenshots");
    }
    join_path_exec(cfg.output.dir.as_str(), "screenshots")
}

} // verus!
