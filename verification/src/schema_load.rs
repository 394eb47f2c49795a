//! Loading the service definitions of a directory.
use vstd::prelude::*;

use crate::names::NameMap;
use crate::runtime::IoFailure;
use crate::schema::{from_yaml, SchemaError, ServiceSchema};
use crate::text::{chars_of, debug_string, push_text, same_text};
use crate::SysXError;

verus! {

/// Where the definitions are, if nothing else is said.
pub const SCHEMA_DIR: &'static str = "/etc/sysx/schemas";

/// The directory of the definitions.
pub fn schema_dir(dir: Option<String>) -> (r: String)
    ensures
        r@ == match dir {
            Some(d) => d@,
            None => SCHEMA_DIR@,
        },
{
    match dir {
        Some(d) => d,
        None => SCHEMA_DIR.to_owned(),
    }
}

/// Whether `name` is a name in front of `suffix`.
pub open spec fn has_suffix(name: Seq<char>, suffix: Seq<char>) -> bool {
    name.len() > suffix.len() && name.skip(name.len() - suffix.len()) == suffix
}

/// Whether a file of this name holds a definition: it ends in `.yaml` or `.yml`, behind at
/// least one other character.
pub open spec fn is_yaml_name(name: Seq<char>) -> bool {
    has_suffix(name, ".yaml"@) || has_suffix(name, ".yml"@)
}

fn ends_in(name: &str, suffix: &str) -> (r: bool)
    ensures
        r == has_suffix(name@, suffix@),
{
    let n = chars_of(name);
    let s = chars_of(suffix);
    if n.len() <= s.len() {
        return false;
    }
    let from: usize = n.len() - s.len();
    let mut i: usize = 0;
    while i < s.len()
        invariant
            i <= s.len(),
            from == n.len() - s.len(),
            n@ == name@,
            s@ == suffix@,
            forall|j: int| 0 <= j < i ==> n@[from + j] == #[trigger] s@[j],
        decreases s.len() - i,
    {
        if n[from + i] != s[i] {
            assert(name@.skip(from as int)[i as int] != suffix@[i as int]);
            return false;
        }
        i += 1;
    }
    assert(name@.skip(from as int) =~= suffix@);
    true
}

/// Whether a file of this name holds a definition.
pub fn is_yaml_file(file_name: &str) -> (r: bool)
    ensures
        r == is_yaml_name(file_name@),
{
    ends_in(file_name, ".yaml") || ends_in(file_name, ".yml")
}

/// One entry of the directory.
#[derive(Debug)]
pub enum SchemaEntry {
    /// The entry itself could not be read.
    Failed(IoFailure),
    /// The entry holds no definition.
    Ignored,
    /// The entry was read and parsed.
    Read { path: String, parsed: Result<Result<ServiceSchema, serde_yaml::Error>, IoFailure> },
}

impl SchemaEntry {
    /// Whether the entry keeps the definitions from being loaded.
    pub open spec fn is_bad(&self) -> bool {
        match self {
            SchemaEntry::Failed(_) => true,
            SchemaEntry::Ignored => false,
            SchemaEntry::Read { path, parsed } => match parsed {
                Ok(Ok(schema)) => schema.fault() is Some,
                _ => true,
            },
        }
    }

    /// The name of the service that the entry defines.
    pub open spec fn defines(&self) -> Option<Seq<char>> {
        match self {
            SchemaEntry::Read { path, parsed: Ok(Ok(schema)) } => Some(schema.service.name@),
            _ => None,
        }
    }

    /// Whether `m` is the complaint about the entry.
    pub open spec fn is_complaint(&self, m: Seq<char>) -> bool {
        match self {
            SchemaEntry::Failed(e) => m == "schema dir entry: "@ + e.message@,
            SchemaEntry::Ignored => false,
            SchemaEntry::Read { path, parsed } => match parsed {
                Err(e) => m == "read "@ + path@ + ": "@ + e.message@,
                Ok(Err(e)) => exists|words: Seq<char>|
                    m == "parse "@ + path@ + ": "@ + #[trigger] SchemaError::Yaml(*e).text(words),
                Ok(Ok(schema)) => schema.fault() matches Some(text) && m == "parse "@ + path@
                    + ": "@ + "validation error: "@ + text,
            },
        }
    }
}

/// The definitions in `entries`, in their order.
pub open spec fn definitions(entries: Seq<SchemaEntry>) -> Seq<ServiceSchema>
    decreases entries.len(),
{
    if entries.len() == 0 {
        Seq::empty()
    } else {
        let rest = definitions(entries.skip(1));
        match entries[0] {
            SchemaEntry::Read { path, parsed: Ok(Ok(schema)) } => seq![schema] + rest,
            _ => rest,
        }
    }
}

/// Whether the entry at `k` defines a service that an earlier entry defines.
pub open spec fn repeats(entries: Seq<SchemaEntry>, k: int) -> bool {
    entries[k].defines() is Some && exists|j: int|
        0 <= j < k && (#[trigger] entries[j]).defines() == entries[k].defines()
}

/// Whether the entry at `k` keeps the definitions from being loaded.
pub open spec fn is_refused(entries: Seq<SchemaEntry>, k: int) -> bool {
    entries[k].is_bad() || repeats(entries, k)
}

/// Whether `m` is the complaint about the entry at `k`.
pub open spec fn is_refusal(entries: Seq<SchemaEntry>, k: int, m: Seq<char>) -> bool {
    if entries[k].is_bad() {
        entries[k].is_complaint(m)
    } else {
        entries[k] matches SchemaEntry::Read { path, parsed: Ok(Ok(schema)) } && m == repeated_text(
            path@,
            schema.service.name@,
        )
    }
}

/// The complaint about a second definition of `name`.
pub open spec fn repeated_text(path: Seq<char>, name: Seq<char>) -> Seq<char> {
    "parse "@ + path + ": duplicate service.name: "@ + crate::text::debug_text(name)
}

/// Whether no two of `schemas` have the same name.
pub open spec fn names_distinct(schemas: Seq<ServiceSchema>) -> bool {
    forall|i: int, j: int|
        0 <= i < j < schemas.len() ==> (#[trigger] schemas[i]).service.name@ != (
        #[trigger] schemas[j]).service.name@
}

/// Whether `r` is what becomes of the directory `dir`: `listing` is `None` if there is no
/// such directory, and else what reading it gave.
pub open spec fn is_loaded(
    dir: Seq<char>,
    listing: Option<Result<Vec<SchemaEntry>, IoFailure>>,
    r: Result<Vec<ServiceSchema>, SysXError>,
) -> bool {
    match listing {
        None => r matches Ok(v) && v@.len() == 0,
        Some(Err(e)) => r matches Err(SysXError::Dag(m)) && m@ == "read schema dir "@ + dir + ": "@
            + e.message@,
        Some(Ok(entries)) => match r {
            Ok(v) => v@ == definitions(entries@) && forall|k: int|
                0 <= k < entries@.len() ==> !(#[trigger] is_refused(entries@, k)),
            Err(SysXError::Dag(m)) => exists|k: int|
                0 <= k < entries@.len() && (#[trigger] is_refused(entries@, k)) && is_refusal(
                    entries@,
                    k,
                    m@,
                ) && forall|j: int| 0 <= j < k ==> !(#[trigger] is_refused(entries@, j)),
            Err(_) => false,
        },
    }
}

fn load_entry(entry: SchemaEntry) -> (r: Result<Option<(String, ServiceSchema)>, SysXError>)
    ensures
        match r {
            Ok(s) => !entry.is_bad() && s == match entry {
                SchemaEntry::Read { path, parsed: Ok(Ok(schema)) } => Some((path, schema)),
                _ => None,
            },
            Err(SysXError::Dag(m)) => entry.is_bad() && entry.is_complaint(m@),
            Err(_) => false,
        },
{
    match entry {
        SchemaEntry::Failed(e) => {
            let mut m = "schema dir entry: ".to_owned();
            push_text(&mut m, e.message.as_str());
            Err(SysXError::Dag(m))
        },
        SchemaEntry::Ignored => Ok(None),
        SchemaEntry::Read { path, parsed } => match parsed {
            Err(e) => {
                let mut m = "read ".to_owned();
                push_text(&mut m, path.as_str());
                push_text(&mut m, ": ");
                push_text(&mut m, e.message.as_str());
                Err(SysXError::Dag(m))
            },
            Ok(p) => {
                let ghost was = p;
                match from_yaml(p) {
                Ok(schema) => Ok(Some((path, schema))),
                Err(e) => {
                    let text = e.message();
                    let mut m = "parse ".to_owned();
                    push_text(&mut m, path.as_str());
                    push_text(&mut m, ": ");
                    push_text(&mut m, text.as_str());
                    proof {
                        let words = choose|words: Seq<char>| text@ == #[trigger] e.text(words);
                        assert(text@ == e.text(words));
                        match was {
                            Err(y) => {
                                assert(e == SchemaError::Yaml(y));
                                assert(m@ == "parse "@ + path@ + ": "@ + SchemaError::Yaml(y).text(
                                    words,
                                ));
                            },
                            Ok(schema) => {
                                assert(m@ =~= "parse "@ + path@ + ": "@ + "validation error: "@
                                    + schema.fault()->0);
                            },
                        }
                    }
                    Err(SysXError::Dag(m))
                },
                }
            },
        },
    }
}

/// `schemas`, each under its name.
pub open spec fn filed(schemas: Seq<ServiceSchema>) -> Map<Seq<char>, ServiceSchema>
    decreases schemas.len(),
{
    if schemas.len() == 0 {
        Map::empty()
    } else {
        filed(schemas.drop_last()).insert(schemas.last().service.name@, schemas.last())
    }
}

/// Files the definitions under their names.
pub fn file_schemas(schemas: Vec<ServiceSchema>) -> (r: NameMap<ServiceSchema>)
    ensures
        r@ == filed(schemas@),
        forall|n: Seq<char>| #[trigger] r@.contains_key(n) ==> r@[n].service.name@ == n,
{
    let ghost all = schemas@;
    let mut schemas = schemas;
    let mut r: NameMap<ServiceSchema> = NameMap::new();
    let ghost mut k: int = 0;
    assert(all.take(0) =~= Seq::<ServiceSchema>::empty());
    assert(all.skip(0) =~= all);
    while schemas.len() > 0
        invariant
            0 <= k <= all.len(),
            schemas@ == all.skip(k),
            r@ == filed(all.take(k)),
            forall|n: Seq<char>| #[trigger] r@.contains_key(n) ==> r@[n].service.name@ == n,
        decreases schemas.len(),
    {
        let schema = schemas.remove(0);
        assert(schema == all[k]);
        assert(all.take(k + 1).drop_last() =~= all.take(k));
        assert(all.skip(k).remove(0) =~= all.skip(k + 1));
        let name = schema.service.name.as_str().to_owned();
        r.insert(name.as_str(), schema);
        proof {
            k = k + 1;
        }
    }
    assert(all.take(k) =~= all);
    r
}

/// Law: definitions with different names are all filed, and found under their names.
pub proof fn lemma_filed_found(schemas: Seq<ServiceSchema>, i: int)
    requires
        names_distinct(schemas),
        0 <= i < schemas.len(),
    ensures
        filed(schemas).contains_key(schemas[i].service.name@),
        filed(schemas)[schemas[i].service.name@] == schemas[i],
    decreases schemas.len(),
{
    if i < schemas.len() - 1 {
        assert forall|a: int, b: int| 0 <= a < b < schemas.drop_last().len() implies (
        #[trigger] schemas.drop_last()[a]).service.name@ != (
        #[trigger] schemas.drop_last()[b]).service.name@ by {
            assert(schemas[a].service.name@ != schemas[b].service.name@);
        }
        lemma_filed_found(schemas.drop_last(), i);
        assert(schemas[i].service.name@ != schemas[schemas.len() - 1].service.name@);
    }
}

fn defined_in(schemas: &Vec<ServiceSchema>, name: &str) -> (r: bool)
    ensures
        r == exists|i: int|
            0 <= i < schemas@.len() && (#[trigger] schemas@[i]).service.name@ == name@,
{
    let mut i: usize = 0;
    while i < schemas.len()
        invariant
            i <= schemas.len(),
            forall|j: int| 0 <= j < i ==> (#[trigger] schemas@[j]).service.name@ != name@,
        decreases schemas.len() - i,
    {
        if same_text(schemas[i].service.name.as_str(), name) {
            return true;
        }
        i += 1;
    }
    false
}

/// Takes the definitions out of a directory. The first entry that is no valid definition, or
/// that defines a service once more, fails the whole; a missing directory holds none.
pub fn load_schemas(
    dir: &str,
    listing: Option<Result<Vec<SchemaEntry>, IoFailure>>,
) -> (r: Result<Vec<ServiceSchema>, SysXError>)
    ensures
        is_loaded(dir@, listing, r),
        r matches Ok(v) ==> names_distinct(v@),
{
    match listing {
        None => Ok(Vec::new()),
        Some(Err(e)) => {
            let mut m = "read schema dir ".to_owned();
            push_text(&mut m, dir);
            push_text(&mut m, ": ");
            push_text(&mut m, e.message.as_str());
            Err(SysXError::Dag(m))
        },
        Some(Ok(entries)) => {
            let ghost all = entries@;
            let mut entries = entries;
            let mut out: Vec<ServiceSchema> = Vec::new();
            let ghost mut k: int = 0;
            assert(all.skip(0) == all);
            while entries.len() > 0
                invariant
                    0 <= k <= all.len(),
                    listing matches Some(Ok(given)) && given@ == all,
                    entries@ == all.skip(k),
                    out@ + definitions(entries@) == definitions(all),
                    forall|i: int| 0 <= i < k ==> !(#[trigger] is_refused(all, i)),
                    names_distinct(out@),
                    forall|i: int|
                        0 <= i < out@.len() ==> exists|j: int|
                            0 <= j < k && (#[trigger] all[j]).defines() == Some(
                                (#[trigger] out@[i]).service.name@,
                            ),
                    forall|j: int|
                        0 <= j < k && (#[trigger] all[j]).defines() is Some ==> exists|i: int|
                            0 <= i < out@.len() && Some((#[trigger] out@[i]).service.name@)
                                == all[j].defines(),
                decreases entries.len(),
            {
                let ghost before = entries@;
                let ghost out_before = out@;
                let entry = entries.remove(0);
                assert(entry == all[k]);
                assert(entries@ =~= before.skip(1));
                assert(all.skip(k).skip(1) =~= all.skip(k + 1));
                match load_entry(entry) {
                    Err(e) => {
                        assert(is_refused(all, k));
                        return Err(e);
                    },
                    Ok(None) => {
                        assert(!is_refused(all, k));
                    },
                    Ok(Some((path, schema))) => {
                        let ghost name = schema.service.name@;
                        assert(all[k].defines() == Some(name));
                        if defined_in(&out, schema.service.name.as_str()) {
                            let mut m = "parse ".to_owned();
                            push_text(&mut m, path.as_str());
                            push_text(&mut m, ": duplicate service.name: ");
                            let q = debug_string(schema.service.name.as_str());
                            push_text(&mut m, q.as_str());
                            assert(is_refused(all, k));
                            return Err(SysXError::Dag(m));
                        }
                        assert(!is_refused(all, k));
                        out.push(schema);
                        assert(out_before + (seq![schema] + definitions(entries@)) =~= out@
                            + definitions(entries@));
                        assert forall|i: int| 0 <= i < out@.len() implies exists|j: int|
                            0 <= j < k + 1 && (#[trigger] all[j]).defines() == Some(
                                (#[trigger] out@[i]).service.name@,
                            ) by {
                            if i < out_before.len() {
                                assert(out@[i] == out_before[i]);
                            } else {
                                assert(all[k].defines() == Some(out@[i].service.name@));
                            }
                        }
                        assert forall|j: int|
                            0 <= j < k + 1 && (#[trigger] all[j]).defines() is Some implies exists|
                            i: int,
                        |
                            0 <= i < out@.len() && Some((#[trigger] out@[i]).service.name@)
                                == all[j].defines() by {
                            if j < k {
                                let i = choose|i: int|
                                    0 <= i < out_before.len() && Some(
                                        (#[trigger] out_before[i]).service.name@,
                                    ) == all[j].defines();
                                assert(out@[i] == out_before[i]);
                            } else {
                                assert(out@[out_before.len() as int] == schema);
                            }
                        }
                    },
                }
                proof {
                    k = k + 1;
                }
            }
            assert(out@ + definitions(entries@) =~= out@);
            Ok(out)
        },
    }
}

} // verus!
