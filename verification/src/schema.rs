//! Service schemas: what a service definition declares, and which definitions are valid.
use std::collections::{BTreeMap, HashMap};
use vstd::prelude::*;

use crate::text::{chars_of, debug_string, decimal_string, push_text, same_text};

verus! {

/// The error of the YAML parser.
#[verifier::external_type_specification]
#[verifier::external_body]
pub struct ExYamlError(serde_yaml::Error);

/// Why a service definition was refused.
#[derive(Debug)]
pub enum SchemaError {
    /// The definition holds keys that no field stands for.
    UnknownFields(String),
    /// The definition has the right shape and breaks a rule.
    Validation(String),
    /// The definition is no YAML of the right shape.
    Yaml(serde_yaml::Error),
}

/// `serde_yaml::Error::to_string`: the parser's own words, of which nothing is claimed.
#[verifier::external_body]
fn yaml_error_string(e: &serde_yaml::Error) -> (r: String) {
    e.to_string()
}

impl From<serde_yaml::Error> for SchemaError {
    fn from(e: serde_yaml::Error) -> (r: SchemaError) {
        SchemaError::Yaml(e)
    }
}

impl vstd::std_specs::convert::FromSpecImpl<serde_yaml::Error> for SchemaError {
    open spec fn obeys_from_spec() -> bool {
        true
    }

    open spec fn from_spec(e: serde_yaml::Error) -> SchemaError {
        SchemaError::Yaml(e)
    }
}

impl SchemaError {
    /// What [`SchemaError::message`] says, where the parser's own words are `words`.
    pub open spec fn text(&self, words: Seq<char>) -> Seq<char> {
        match self {
            SchemaError::UnknownFields(m) => "unknown field(s) in schema: "@ + m@,
            SchemaError::Validation(m) => "validation error: "@ + m@,
            SchemaError::Yaml(_) => "yaml parse error: "@ + words,
        }
    }

    /// Whether [`SchemaError::message`] may say `m`.
    pub open spec fn may_say(&self, m: Seq<char>) -> bool {
        exists|words: Seq<char>| m == #[trigger] self.text(words)
    }

    /// The error in words. What the parser says of an error of its own is left open.
    pub fn message(&self) -> (r: String)
        ensures
            self.may_say(r@),
    {
        match self {
            SchemaError::UnknownFields(m) => {
                let mut r = "unknown field(s) in schema: ".to_owned();
                push_text(&mut r, m.as_str());
                assert(r@ == self.text(Seq::empty()));
                r
            },
            SchemaError::Validation(m) => {
                let mut r = "validation error: ".to_owned();
                push_text(&mut r, m.as_str());
                assert(r@ == self.text(Seq::empty()));
                r
            },
            SchemaError::Yaml(e) => {
                let words = yaml_error_string(e);
                let mut r = "yaml parse error: ".to_owned();
                push_text(&mut r, words.as_str());
                assert(r@ == self.text(words@));
                r
            },
        }
    }
}

/// One service definition.
#[derive(Debug, Clone)]
pub struct ServiceSchema {
    pub sysx_version: u8,
    /// A service that is not enabled stays offline.
    pub enabled: bool,
    pub service: ServiceBlock,
    /// The YAML key is `type`.
    pub service_type: ServiceType,
    pub timeout_sec: Option<u16>,
    /// The services that must be running before this one starts.
    pub depends_on: Vec<String>,
    pub recovery: Option<RecoveryPolicy>,
    pub pids: Option<PidsLimit>,
    pub memory: Option<MemoryLimit>,
    pub cpu: Option<CpuLimit>,
    pub namespaces: Option<Namespaces>,
    pub capabilities: Option<Capabilities>,
    pub rootfs: Option<RootFs>,
    pub logging: Option<Logging>,
}

/// What is executed, and as whom.
#[derive(Debug, Clone)]
pub struct ServiceBlock {
    pub name: String,
    /// The YAML key is `exec`.
    pub exec_path: String,
    pub args: Vec<String>,
    pub env: HashMap<String, String>,
    pub user: String,
}

/// How readiness is announced.
#[derive(Debug, Clone, Copy, PartialEq, Eq, Structural)]
pub enum ServiceType {
    FdPipe,
    Simple,
}

/// When and how often a failed service is started again.
#[derive(Debug, Clone)]
pub struct RecoveryPolicy {
    pub policy: RecoveryMode,
    /// Base of the exponential backoff.
    pub backoff_ms: u64,
    /// Failures within the window that open the circuit.
    pub max_restarts: u32,
    /// Length of the sliding window.
    pub window_sec: u64,
}

/// Which failures are recovered from.
#[derive(Debug, Clone, Copy, PartialEq, Eq, Structural)]
pub enum RecoveryMode {
    Always,
    OnFailure,
    Manual,
}

/// Bound on the number of processes.
#[derive(Debug, Clone)]
pub struct PidsLimit {
    pub max: u32,
}

/// Bounds on memory and swap, in mebibytes.
#[derive(Debug, Clone)]
pub struct MemoryLimit {
    pub max_mb: u32,
    pub swap_mb: u32,
}

/// Share of the processor.
#[derive(Debug, Clone)]
pub struct CpuLimit {
    pub weight: u16,
}

/// Namespaces that the service gets of its own.
#[derive(Debug, Clone)]
pub struct Namespaces {
    pub mount: bool,
    pub network: bool,
    pub pid: bool,
    /// Host name isolation.
    pub uts: bool,
    pub user: bool,
}

/// Capabilities that the service keeps.
#[derive(Debug, Clone)]
pub struct Capabilities {
    pub keep: Vec<String>,
}

/// View of the file system.
#[derive(Debug, Clone)]
pub struct RootFs {
    pub read_only: bool,
    pub tmpfs: Option<HashMap<String, String>>,
}

/// Where the output goes.
#[derive(Debug, Clone)]
pub struct Logging {
    pub stdout: String,
    pub stderr: String,
    pub log_rotate_signal: Option<String>,
}

/// Whether `c` may occur in a service name: a lower-case letter, a digit, `_` or `-`.
pub open spec fn is_name_char(c: char) -> bool {
    ('a' <= c && c <= 'z') || ('0' <= c && c <= '9') || c == '_' || c == '-'
}

/// Whether `s` is a service name: one to thirty-two name characters.
pub open spec fn is_service_name(s: Seq<char>) -> bool {
    1 <= s.len() <= 32 && forall|i: int| 0 <= i < s.len() ==> is_name_char(#[trigger] s[i])
}

/// The rule that a definition breaks, in words; `None` for a valid definition.
pub open spec fn schema_fault(version: u8, name: Seq<char>) -> Option<Seq<char>> {
    if version != 1 {
        Some("unsupported sysx_version: "@ + crate::text::decimal(version as nat))
    } else if name.len() == 0 {
        Some("service.name cannot be empty"@)
    } else if !is_service_name(name) {
        Some(
            "service.name must match ^[a-z0-9_-]{1,32}$ (15 §1): "@ + crate::text::debug_text(name),
        )
    } else {
        None
    }
}

impl ServiceSchema {
    /// The rule that this definition breaks.
    pub open spec fn fault(&self) -> Option<Seq<char>> {
        schema_fault(self.sysx_version, self.service.name@)
    }
}

/// Whether `id` is a service name.
pub fn valid_service_name(id: &str) -> (r: bool)
    ensures
        r == is_service_name(id@),
{
    let chars = chars_of(id);
    if chars.len() == 0 || chars.len() > 32 {
        return false;
    }
    let mut i: usize = 0;
    while i < chars.len()
        invariant
            i <= chars.len(),
            chars@ == id@,
            forall|j: int| 0 <= j < i ==> is_name_char(#[trigger] id@[j]),
        decreases chars.len() - i,
    {
        let c = chars[i];
        if !(('a' <= c && c <= 'z') || ('0' <= c && c <= '9') || c == '_' || c == '-') {
            assert(!is_name_char(id@[i as int]));
            return false;
        }
        i += 1;
    }
    true
}

/// Checks the rules that go beyond the shape of a definition.
pub fn validate_schema(schema: &ServiceSchema) -> (r: Result<(), SchemaError>)
    ensures
        match schema.fault() {
            None => r is Ok,
            Some(text) => r matches Err(SchemaError::Validation(m)) && m@ == text,
        },
{
    if schema.sysx_version != 1 {
        let mut m = "unsupported sysx_version: ".to_owned();
        let n = decimal_string(schema.sysx_version as u64);
        push_text(&mut m, n.as_str());
        return Err(SchemaError::Validation(m));
    }
    if schema.service.name.as_str().is_empty() {
        return Err(SchemaError::Validation("service.name cannot be empty".to_owned()));
    }
    if !valid_service_name(schema.service.name.as_str()) {
        let mut m = "service.name must match ^[a-z0-9_-]{1,32}$ (15 §1): ".to_owned();
        let q = debug_string(schema.service.name.as_str());
        push_text(&mut m, q.as_str());
        return Err(SchemaError::Validation(m));
    }
    Ok(())
}

/// Turns what the YAML parser made of a document into a valid definition: the parser's
/// error is passed on, and a definition that breaks a rule is refused.
pub fn from_yaml(parsed: Result<ServiceSchema, serde_yaml::Error>) -> (r: Result<
    ServiceSchema,
    SchemaError,
>)
    ensures
        match parsed {
            Err(e) => r == Err::<ServiceSchema, SchemaError>(SchemaError::Yaml(e)),
            Ok(schema) => match schema.fault() {
                None => r == Ok::<ServiceSchema, SchemaError>(schema),
                Some(text) => r matches Err(SchemaError::Validation(m)) && m@ == text,
            },
        },
{
    match parsed {
        Err(e) => Err(SchemaError::from(e)),
        Ok(schema) => match validate_schema(&schema) {
            Ok(()) => Ok(schema),
            Err(e) => Err(e),
        },
    }
}

/// A key of a document: of its top level, where `section` is empty, or of the map under the
/// top-level key `section`.
#[derive(Debug, Clone)]
pub struct SchemaKey {
    pub section: String,
    pub key: String,
}

/// Whether a field of [`ServiceSchema`] stands for the key. What lies deeper than these keys
/// is free: variables of the environment and mount points.
pub open spec fn is_mapped(section: Seq<char>, key: Seq<char>) -> bool {
    if section.len() == 0 {
        key == "sysx_version"@
            || key == "enabled"@
            || key == "service"@
            || key == "type"@
            || key == "timeout_sec"@
            || key == "depends_on"@
            || key == "recovery"@
            || key == "pids"@
            || key == "memory"@
            || key == "cpu"@
            || key == "namespaces"@
            || key == "capabilities"@
            || key == "rootfs"@
            || key == "logging"@
    } else if section == "service"@ {
        key == "name"@
            || key == "exec"@
            || key == "args"@
            || key == "env"@
            || key == "user"@
    } else if section == "recovery"@ {
        key == "policy"@
            || key == "backoff_ms"@
            || key == "max_restarts"@
            || key == "window_sec"@
    } else if section == "pids"@ {
        key == "max"@
    } else if section == "memory"@ {
        key == "max_mb"@
            || key == "swap_mb"@
    } else if section == "cpu"@ {
        key == "weight"@
    } else if section == "namespaces"@ {
        key == "mount"@
            || key == "network"@
            || key == "pid"@
            || key == "uts"@
            || key == "user"@
    } else if section == "capabilities"@ {
        key == "keep"@
    } else if section == "rootfs"@ {
        key == "read_only"@
            || key == "tmpfs"@
    } else if section == "logging"@ {
        key == "stdout"@
            || key == "stderr"@
            || key == "log_rotate_signal"@
    } else {
        false
    }
}

/// Whether a field of [`ServiceSchema`] stands for the key.
pub fn key_is_mapped(section: &str, key: &str) -> (r: bool)
    ensures
        r == is_mapped(section@, key@),
{
    if section.is_empty() {
        same_text(key, "sysx_version")
            || same_text(key, "enabled")
            || same_text(key, "service")
            || same_text(key, "type")
            || same_text(key, "timeout_sec")
            || same_text(key, "depends_on")
            || same_text(key, "recovery")
            || same_text(key, "pids")
            || same_text(key, "memory")
            || same_text(key, "cpu")
            || same_text(key, "namespaces")
            || same_text(key, "capabilities")
            || same_text(key, "rootfs")
            || same_text(key, "logging")
    } else if same_text(section, "service") {
        same_text(key, "name")
            || same_text(key, "exec")
            || same_text(key, "args")
            || same_text(key, "env")
            || same_text(key, "user")
    } else if same_text(section, "recovery") {
        same_text(key, "policy")
            || same_text(key, "backoff_ms")
            || same_text(key, "max_restarts")
            || same_text(key, "window_sec")
    } else if same_text(section, "pids") {
        same_text(key, "max")
    } else if same_text(section, "memory") {
        same_text(key, "max_mb")
            || same_text(key, "swap_mb")
    } else if same_text(section, "cpu") {
        same_text(key, "weight")
    } else if same_text(section, "namespaces") {
        same_text(key, "mount")
            || same_text(key, "network")
            || same_text(key, "pid")
            || same_text(key, "uts")
            || same_text(key, "user")
    } else if same_text(section, "capabilities") {
        same_text(key, "keep")
    } else if same_text(section, "rootfs") {
        same_text(key, "read_only")
            || same_text(key, "tmpfs")
    } else if same_text(section, "logging") {
        same_text(key, "stdout")
            || same_text(key, "stderr")
            || same_text(key, "log_rotate_signal")
    } else {
        false
    }
}

/// A key as it is told: behind its section, if it has one.
pub open spec fn key_path(section: Seq<char>, key: Seq<char>) -> Seq<char> {
    if section.len() == 0 {
        key
    } else {
        section + "."@ + key
    }
}

impl SchemaKey {
    fn path_string(&self) -> (r: String)
        ensures
            r@ == key_path(self.section@, self.key@),
    {
        if self.section.as_str().is_empty() {
            self.key.as_str().to_owned()
        } else {
            let mut m = self.section.as_str().to_owned();
            push_text(&mut m, ".");
            push_text(&mut m, self.key.as_str());
            m
        }
    }
}

/// The sections and keys of `keys`.
pub open spec fn pairs(keys: Seq<SchemaKey>) -> Seq<(Seq<char>, Seq<char>)> {
    keys.map_values(|k: SchemaKey| (k.section@, k.key@))
}

/// Those of `keys` that no field stands for, in their order.
pub open spec fn unmapped(keys: Seq<(Seq<char>, Seq<char>)>) -> Seq<Seq<char>>
    decreases keys.len(),
{
    if keys.len() == 0 {
        Seq::empty()
    } else {
        let before = unmapped(keys.drop_last());
        let (section, key) = keys.last();
        if is_mapped(section, key) {
            before
        } else {
            before.push(key_path(section, key))
        }
    }
}

/// Finds the keys that no field stands for.
pub fn unknown_fields(keys: &Vec<SchemaKey>) -> (r: Vec<String>)
    ensures
        crate::names::texts(r@) == unmapped(pairs(keys@)),
{
    let ghost ps = pairs(keys@);
    let mut r: Vec<String> = Vec::new();
    let mut i: usize = 0;
    assert(crate::names::texts(r@) =~= unmapped(ps.take(0)));
    while i < keys.len()
        invariant
            i <= keys.len(),
            ps == pairs(keys@),
            crate::names::texts(r@) == unmapped(ps.take(i as int)),
        decreases keys.len() - i,
    {
        let k = &keys[i];
        let ghost before = r@;
        assert(ps.take(i + 1).drop_last() =~= ps.take(i as int));
        assert(ps.take(i + 1).last() == (k.section@, k.key@));
        if !key_is_mapped(k.section.as_str(), k.key.as_str()) {
            r.push(k.path_string());
            assert(crate::names::texts(r@) =~= crate::names::texts(before).push(
                key_path(k.section@, k.key@),
            ));
        }
        i += 1;
    }
    assert(ps.take(ps.len() as int) =~= ps);
    r
}

/// The keys of the map that the YAML document `text` is.
pub uninterp spec fn yaml_keys(text: Seq<char>) -> Option<Seq<Seq<char>>>;

/// `serde_yaml::from_str` into a map: its keys, or an error if `text` is no document that is
/// a map with scalar keys. The result depends on `text` alone.
#[verifier::external_body]
fn keys_of_map(text: &str) -> (r: Result<Vec<String>, serde_yaml::Error>)
    ensures
        match r {
            Ok(v) => yaml_keys(text@) == Some(crate::names::texts(v@)),
            Err(_) => yaml_keys(text@) is None,
        },
{
    let map: BTreeMap<String, serde::de::IgnoredAny> = serde_yaml::from_str(text)?;
    Ok(map.into_keys().collect())
}

/// The value under `key` in the map that the YAML document `text` is, as a document.
pub uninterp spec fn yaml_value(text: Seq<char>, key: Seq<char>) -> Option<Seq<char>>;

/// `serde_yaml::from_str` into a map, and the value under `key` in it turned into a document
/// of its own with `serde_yaml::to_string`; a key that is not there counts as null. An error
/// if the values of `text` cannot be read. The result depends on `text` and `key` alone.
#[verifier::external_body]
fn value_of_key(text: &str, key: &str) -> (r: Result<String, serde_yaml::Error>)
    ensures
        match r {
            Ok(v) => yaml_value(text@, key@) == Some(v@),
            Err(_) => yaml_value(text@, key@) is None,
        },
{
    let mut map: BTreeMap<String, serde_yaml::Value> = serde_yaml::from_str(text)?;
    serde_yaml::to_string(&map.remove(key).unwrap_or_default())
}

/// A key of the top level of a document, with the keys of the map under it. What is no map
/// has none.
#[derive(Debug)]
pub struct YamlSection {
    pub key: String,
    pub keys: Vec<String>,
}

impl View for YamlSection {
    type V = (Seq<char>, Seq<Seq<char>>);

    open spec fn view(&self) -> (Seq<char>, Seq<Seq<char>>) {
        (self.key@, crate::names::texts(self.keys@))
    }
}

/// What `sections` hold.
pub open spec fn section_views(sections: Seq<YamlSection>) -> Seq<(Seq<char>, Seq<Seq<char>>)> {
    sections.map_values(|s: YamlSection| s@)
}

/// The sections of `text` under the keys `tops`, if all of them can be read.
pub open spec fn sections_under(text: Seq<char>, tops: Seq<Seq<char>>) -> Option<
    Seq<(Seq<char>, Seq<Seq<char>>)>,
>
    decreases tops.len(),
{
    if tops.len() == 0 {
        Some(Seq::empty())
    } else {
        match (sections_under(text, tops.drop_last()), yaml_value(text, tops.last())) {
            (Some(before), Some(value)) => Some(
                before.push(
                    (
                        tops.last(),
                        match yaml_keys(value) {
                            Some(keys) => keys,
                            None => Seq::empty(),
                        },
                    ),
                ),
            ),
            _ => None,
        }
    }
}

/// The sections of the document `text`, if it is a map that can be read.
pub open spec fn sections_of(text: Seq<char>) -> Option<Seq<(Seq<char>, Seq<Seq<char>>)>> {
    match yaml_keys(text) {
        Some(tops) => sections_under(text, tops),
        None => None,
    }
}

proof fn lemma_sections_prefix(text: Seq<char>, tops: Seq<Seq<char>>, i: int)
    requires
        0 <= i <= tops.len(),
        sections_under(text, tops.take(i)) is None,
    ensures
        sections_under(text, tops) is None,
    decreases tops.len() - i,
{
    if i < tops.len() {
        assert(tops.take(i + 1).drop_last() =~= tops.take(i));
        lemma_sections_prefix(text, tops, i + 1);
    } else {
        assert(tops.take(i) =~= tops);
    }
}

/// Lists the keys of a document, down to where they are free.
pub fn document_sections(text: &str) -> (r: Result<Vec<YamlSection>, serde_yaml::Error>)
    ensures
        match r {
            Ok(sections) => sections_of(text@) == Some(section_views(sections@)),
            Err(_) => sections_of(text@) is None,
        },
{
    let tops = match keys_of_map(text) {
        Ok(v) => v,
        Err(e) => {
            return Err(e);
        },
    };
    let ghost ts = crate::names::texts(tops@);
    let mut r: Vec<YamlSection> = Vec::new();
    let mut i: usize = 0;
    assert(section_views(r@) =~= Seq::<(Seq<char>, Seq<Seq<char>>)>::empty());
    while i < tops.len()
        invariant
            i <= tops.len(),
            ts == crate::names::texts(tops@),
            yaml_keys(text@) == Some(ts),
            sections_under(text@, ts.take(i as int)) == Some(section_views(r@)),
        decreases tops.len() - i,
    {
        assert(ts.take(i + 1).drop_last() =~= ts.take(i as int));
        assert(ts.take(i + 1).last() == tops@[i as int]@);
        let value = match value_of_key(text, tops[i].as_str()) {
            Ok(v) => v,
            Err(e) => {
                proof {
                    lemma_sections_prefix(text@, ts, i + 1);
                }
                return Err(e);
            },
        };
        let keys = match keys_of_map(value.as_str()) {
            Ok(v) => v,
            Err(_) => Vec::new(),
        };
        assert(yaml_keys(value@) is None ==> crate::names::texts(keys@) =~= Seq::<
            Seq<char>,
        >::empty());
        let ghost before = section_views(r@);
        r.push(YamlSection { key: tops[i].as_str().to_owned(), keys });
        assert(section_views(r@) =~= before.push(r@.last()@));
        i += 1;
    }
    assert(ts.take(ts.len() as int) =~= ts);
    Ok(r)
}

/// The keys in `sections`: each section at the top level, followed by what is under it.
pub open spec fn keys_in(sections: Seq<(Seq<char>, Seq<Seq<char>>)>) -> Seq<(Seq<char>, Seq<char>)>
    decreases sections.len(),
{
    if sections.len() == 0 {
        Seq::empty()
    } else {
        let (section, keys) = sections.last();
        keys_in(sections.drop_last()).push((Seq::empty(), section)) + keys.map_values(
            |k: Seq<char>| (section, k),
        )
    }
}

/// Lists the keys of the sections.
pub fn section_keys(sections: &Vec<YamlSection>) -> (r: Vec<SchemaKey>)
    ensures
        pairs(r@) == keys_in(section_views(sections@)),
{
    let ghost vs = section_views(sections@);
    let mut r: Vec<SchemaKey> = Vec::new();
    let mut i: usize = 0;
    assert(pairs(r@) =~= keys_in(vs.take(0)));
    while i < sections.len()
        invariant
            i <= sections.len(),
            vs == section_views(sections@),
            pairs(r@) == keys_in(vs.take(i as int)),
        decreases sections.len() - i,
    {
        let s = &sections[i];
        let ghost section = s.key@;
        let ghost ks = crate::names::texts(s.keys@);
        assert(vs.take(i + 1).drop_last() =~= vs.take(i as int));
        assert(vs.take(i + 1).last() == (section, ks));
        let ghost head = pairs(r@).push((Seq::empty(), section));
        r.push(SchemaKey { section: String::new(), key: s.key.as_str().to_owned() });
        assert(pairs(r@) =~= head);
        let mut j: usize = 0;
        assert(pairs(r@) =~= head + ks.take(0).map_values(|k: Seq<char>| (section, k)));
        while j < s.keys.len()
            invariant
                j <= s.keys.len(),
                section == s.key@,
                ks == crate::names::texts(s.keys@),
                pairs(r@) == head + ks.take(j as int).map_values(|k: Seq<char>| (section, k)),
            decreases s.keys.len() - j,
        {
            let ghost before = r@;
            r.push(
                SchemaKey {
                    section: s.key.as_str().to_owned(),
                    key: s.keys[j].as_str().to_owned(),
                },
            );
            assert(pairs(r@) =~= pairs(before).push((section, ks[j as int])));
            assert(pairs(r@) =~= head + ks.take(j + 1).map_values(|k: Seq<char>| (section, k)));
            j += 1;
        }
        assert(ks.take(ks.len() as int) =~= ks);
        i += 1;
    }
    assert(vs.take(vs.len() as int) =~= vs);
    r
}

/// `names` in one line, with a comma and a space between them.
pub open spec fn listed(names: Seq<Seq<char>>) -> Seq<char>
    decreases names.len(),
{
    if names.len() == 0 {
        Seq::empty()
    } else if names.len() == 1 {
        names[0]
    } else {
        listed(names.drop_last()) + ", "@ + names.last()
    }
}

fn listed_string(names: &Vec<String>) -> (r: String)
    ensures
        r@ == listed(crate::names::texts(names@)),
{
    let ghost ns = crate::names::texts(names@);
    let mut r = String::new();
    let mut i: usize = 0;
    assert(r@ =~= listed(ns.take(0)));
    while i < names.len()
        invariant
            i <= names.len(),
            ns == crate::names::texts(names@),
            r@ == listed(ns.take(i as int)),
        decreases names.len() - i,
    {
        assert(ns.take(i + 1).drop_last() =~= ns.take(i as int));
        assert(ns.take(i + 1).last() == names@[i as int]@);
        if i > 0 {
            push_text(&mut r, ", ");
        }
        push_text(&mut r, names[i].as_str());
        assert(r@ =~= listed(ns.take(i + 1)));
        i += 1;
    }
    assert(ns.take(ns.len() as int) =~= ns);
    r
}

/// Whether `r` is what becomes of a parsed document with the keys `unknown` that no field
/// stands for.
pub open spec fn is_strict_outcome(
    parsed: Result<ServiceSchema, serde_yaml::Error>,
    unknown: Seq<Seq<char>>,
    r: Result<ServiceSchema, SchemaError>,
) -> bool {
    match parsed {
        Err(e) => r == Err::<ServiceSchema, SchemaError>(SchemaError::Yaml(e)),
        Ok(schema) => if unknown.len() > 0 {
            r matches Err(SchemaError::UnknownFields(m)) && m@ == listed(unknown)
        } else {
            match schema.fault() {
                None => r == Ok::<ServiceSchema, SchemaError>(schema),
                Some(text) => r matches Err(SchemaError::Validation(m)) && m@ == text,
            }
        },
    }
}

/// The strict entry point: refuses a definition with keys that no field stands for, and
/// holds every other to the rules of [`from_yaml`].
pub fn from_yaml_strict(
    parsed: Result<ServiceSchema, serde_yaml::Error>,
    unknown: Vec<String>,
) -> (r: Result<ServiceSchema, SchemaError>)
    ensures
        is_strict_outcome(parsed, crate::names::texts(unknown@), r),
{
    match parsed {
        Err(e) => Err(SchemaError::from(e)),
        Ok(schema) => {
            if unknown.len() > 0 {
                return Err(SchemaError::UnknownFields(listed_string(&unknown)));
            }
            from_yaml(Ok(schema))
        },
    }
}

// ---------------------------------------------------------------------------
// Laws
// ---------------------------------------------------------------------------

/// Law: a single key that no field stands for keeps a document from being accepted,
/// whatever else it holds.
pub proof fn lemma_unknown_key_refused(
    parsed: Result<ServiceSchema, serde_yaml::Error>,
    keys: Seq<(Seq<char>, Seq<char>)>,
    i: int,
    r: Result<ServiceSchema, SchemaError>,
)
    requires
        0 <= i < keys.len(),
        !is_mapped(keys[i].0, keys[i].1),
        is_strict_outcome(parsed, unmapped(keys), r),
    ensures
        r is Err,
        parsed is Ok ==> r matches Err(SchemaError::UnknownFields(_)),
{
    lemma_unmapped_found(keys, i);
}

proof fn lemma_unmapped_found(keys: Seq<(Seq<char>, Seq<char>)>, i: int)
    requires
        0 <= i < keys.len(),
        !is_mapped(keys[i].0, keys[i].1),
    ensures
        unmapped(keys).len() > 0,
    decreases keys.len(),
{
    if i < keys.len() - 1 {
        lemma_unmapped_found(keys.drop_last(), i);
    }
}

} // verus!
