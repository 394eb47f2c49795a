//! What definitions promise: which are valid, which keys they may hold, and what becomes of a
//! directory of them.
use vstd::prelude::*;

use crate::names::{texts, NameMap};
use crate::runtime::IoFailure;
use crate::runtime_laws::plain_characters;
use crate::schema::{
    document_sections, from_yaml, from_yaml_strict, key_is_mapped, key_path, keys_in, pairs,
    section_keys, section_views, sections_under, unknown_fields, unmapped, validate_schema,
    yaml_keys, yaml_value, SchemaError, SchemaKey, ServiceSchema, YamlSection,
};
use crate::schema_load::{
    definitions, file_schemas, filed, is_refused, is_yaml_file, load_schemas, repeats, schema_dir,
    SchemaEntry,
};
use crate::SysXError;

verus! {

// ---------------------------------------------------------------------------
// Valid definitions
// ---------------------------------------------------------------------------

/// Whether a definition is of version one, and has a name of one to thirty-two small letters,
/// digits, hyphens and underscores.
pub open spec fn keeps_the_rules(s: &ServiceSchema) -> bool {
    s.sysx_version == 1 && 1 <= s.service.name@.len() <= 32 && plain_characters(s.service.name@)
}

proof fn lemma_name_rule(s: Seq<char>)
    ensures
        crate::schema::is_service_name(s) == (1 <= s.len() <= 32 && plain_characters(s)),
{
    if 1 <= s.len() <= 32 && plain_characters(s) {
        assert forall|i: int| 0 <= i < s.len() implies crate::schema::is_name_char(
            #[trigger] s[i],
        ) by {}
    }
    if crate::schema::is_service_name(s) {
        assert forall|i: int| 0 <= i < s.len() implies {
            ||| 'a' <= #[trigger] s[i] <= 'z'
            ||| '0' <= s[i] <= '9'
            ||| s[i] == '-'
            ||| s[i] == '_'
        } by {
            assert(crate::schema::is_name_char(s[i]));
        }
    }
}

/// Law: a definition is valid exactly if it keeps the two rules, whatever else it says.
pub proof fn lemma_valid_exactly(s: &ServiceSchema, r: Result<(), SchemaError>)
    requires
        call_ensures(validate_schema, (s,), r),
    ensures
        r is Ok <==> keeps_the_rules(s),
        r is Err ==> r->Err_0 is Validation,
{
    lemma_name_rule(s.service.name@);
}

/// Law: a document becomes a definition exactly if it was parsed and keeps the rules, and then
/// becomes what was parsed.
pub proof fn lemma_definition_exactly(
    parsed: Result<ServiceSchema, serde_yaml::Error>,
    r: Result<ServiceSchema, SchemaError>,
)
    requires
        call_ensures(from_yaml, (parsed,), r),
    ensures
        r is Ok <==> (parsed matches Ok(s) && keeps_the_rules(&s)),
        r is Ok ==> parsed == Ok::<ServiceSchema, serde_yaml::Error>(r->Ok_0),
        parsed matches Err(e) ==> r == Err::<ServiceSchema, SchemaError>(SchemaError::Yaml(e)),
{
    if parsed is Ok {
        lemma_name_rule(parsed->Ok_0.service.name@);
    }
}

/// Law: the strict way accepts what the other accepts, without a key that is not known, and
/// nothing else; and it names the unknown keys before it looks at the rules.
pub proof fn lemma_strict_exactly(
    parsed: Result<ServiceSchema, serde_yaml::Error>,
    unknown: Vec<String>,
    plain: Result<ServiceSchema, SchemaError>,
    r: Result<ServiceSchema, SchemaError>,
)
    requires
        call_ensures(from_yaml, (parsed,), plain),
        call_ensures(from_yaml_strict, (parsed, unknown), r),
    ensures
        r is Ok <==> plain is Ok && unknown@.len() == 0,
        r is Ok ==> plain is Ok && r->Ok_0 == plain->Ok_0,
        parsed is Ok && unknown@.len() > 0 ==> r is Err && r->Err_0 is UnknownFields,
        parsed is Ok && unknown@.len() == 1 ==> r->Err_0->UnknownFields_0@ == unknown@[0]@,
        parsed is Ok && unknown@.len() == 2 ==> r->Err_0->UnknownFields_0@ == unknown@[0]@ + ", "@
            + unknown@[1]@,
{
    let t = texts(unknown@);
    if unknown@.len() == 2 {
        assert(t.drop_last().len() == 1);
        assert(t.drop_last()[0] == t[0]);
        assert(crate::schema::listed(t.drop_last()) == t[0]);
    }
}

// ---------------------------------------------------------------------------
// Keys
// ---------------------------------------------------------------------------

/// Law: the keys that a definition may hold, at the top level and under it.
pub proof fn lemma_known_keys(section: &str, key: &str, r: bool)
    requires
        call_ensures(key_is_mapped, (section, key), r),
    ensures
        r <==> {
            ||| section@.len() == 0 && (key@ == "sysx_version"@ || key@ == "enabled"@
                || key@ == "service"@ || key@ == "type"@ || key@ == "timeout_sec"@ || key@
                == "depends_on"@ || key@ == "recovery"@ || key@ == "pids"@ || key@ == "memory"@
                || key@ == "cpu"@ || key@ == "namespaces"@ || key@ == "capabilities"@ || key@
                == "rootfs"@ || key@ == "logging"@)
            ||| section@ == "service"@ && (key@ == "name"@ || key@ == "exec"@ || key@ == "args"@
                || key@ == "env"@ || key@ == "user"@)
            ||| section@ == "recovery"@ && (key@ == "policy"@ || key@ == "backoff_ms"@ || key@
                == "max_restarts"@ || key@ == "window_sec"@)
            ||| section@ == "pids"@ && key@ == "max"@
            ||| section@ == "memory"@ && (key@ == "max_mb"@ || key@ == "swap_mb"@)
            ||| section@ == "cpu"@ && key@ == "weight"@
            ||| section@ == "namespaces"@ && (key@ == "mount"@ || key@ == "network"@ || key@
                == "pid"@ || key@ == "uts"@ || key@ == "user"@)
            ||| section@ == "capabilities"@ && key@ == "keep"@
            ||| section@ == "rootfs"@ && (key@ == "read_only"@ || key@ == "tmpfs"@)
            ||| section@ == "logging"@ && (key@ == "stdout"@ || key@ == "stderr"@ || key@
                == "log_rotate_signal"@)
        },
{
    reveal_strlit("service");
    reveal_strlit("recovery");
    reveal_strlit("pids");
    reveal_strlit("memory");
    reveal_strlit("cpu");
    reveal_strlit("namespaces");
    reveal_strlit("capabilities");
    reveal_strlit("rootfs");
    reveal_strlit("logging");
    assert("service"@[0] == 's' && "logging"@[0] == 'l');
    assert("memory"@[0] == 'm' && "rootfs"@[0] == 'r');
}

/// Law: the unknown keys are those that are not known, each told once for each time that it
/// occurs, in their order, behind their section.
pub proof fn lemma_unknown_keys(keys: &Vec<SchemaKey>, r: Vec<String>)
    requires
        call_ensures(unknown_fields, (keys,), r),
    ensures
        texts(r@) == pairs(keys@).filter(
            |k: (Seq<char>, Seq<char>)| !crate::schema::is_mapped(k.0, k.1),
        ).map_values(
            |k: (Seq<char>, Seq<char>)|
                if k.0.len() == 0 {
                    k.1
                } else {
                    k.0 + "."@ + k.1
                },
        ),
{
    lemma_unmapped_is_filter(pairs(keys@));
}

proof fn lemma_unmapped_is_filter(keys: Seq<(Seq<char>, Seq<char>)>)
    ensures
        unmapped(keys) == keys.filter(
            |k: (Seq<char>, Seq<char>)| !crate::schema::is_mapped(k.0, k.1),
        ).map_values(
            |k: (Seq<char>, Seq<char>)|
                if k.0.len() == 0 {
                    k.1
                } else {
                    k.0 + "."@ + k.1
                },
        ),
    decreases keys.len(),
{
    reveal(Seq::filter);
    let p = |k: (Seq<char>, Seq<char>)| !crate::schema::is_mapped(k.0, k.1);
    let f = |k: (Seq<char>, Seq<char>)|
        if k.0.len() == 0 {
            k.1
        } else {
            k.0 + "."@ + k.1
        };
    if keys.len() == 0 {
        assert(unmapped(keys) =~= keys.filter(p).map_values(f));
    } else {
        lemma_unmapped_is_filter(keys.drop_last());
        let last = keys.last();
        assert(key_path(last.0, last.1) == f(last));
        assert(unmapped(keys) =~= keys.filter(p).map_values(f));
    }
}

/// Law: a section is told as a key of the top level, and then what is under it; sections that
/// follow each other are told one after the other.
pub proof fn lemma_section_keys(
    whole: &Vec<YamlSection>,
    a: &Vec<YamlSection>,
    b: &Vec<YamlSection>,
    r: Vec<SchemaKey>,
    ra: Vec<SchemaKey>,
    rb: Vec<SchemaKey>,
    j: int,
)
    requires
        call_ensures(section_keys, (whole,), r),
        call_ensures(section_keys, (a,), ra),
        call_ensures(section_keys, (b,), rb),
    ensures
        whole@ == a@ + b@ ==> pairs(r@) == pairs(ra@) + pairs(rb@),
        whole@.len() == 0 ==> r@.len() == 0,
        whole@.len() == 1 ==> {
            &&& r@.len() == 1 + whole@[0].keys@.len()
            &&& r@[0].section@.len() == 0
            &&& r@[0].key@ == whole@[0].key@
            &&& 0 <= j < whole@[0].keys@.len() ==> r@[j + 1].section@ == whole@[0].key@ && r@[j
                + 1].key@ == whole@[0].keys@[j]@
        },
{
    if whole@ == a@ + b@ {
        assert(section_views(whole@) =~= section_views(a@) + section_views(b@));
        lemma_keys_append(section_views(a@), section_views(b@));
    }
    let v = section_views(whole@);
    let p = pairs(r@);
    assert(p.len() == r@.len());
    if whole@.len() == 0 {
        assert(v.len() == 0);
    }
    if whole@.len() == 1 {
        let section = v[0].0;
        let ks = v[0].1;
        assert(v.drop_last() =~= Seq::<(Seq<char>, Seq<Seq<char>>)>::empty());
        assert(keys_in(v.drop_last()) =~= Seq::<(Seq<char>, Seq<char>)>::empty());
        let f = |k: Seq<char>| (section, k);
        assert(keys_in(v) == keys_in(v.drop_last()).push((Seq::<char>::empty(), section))
            + ks.map_values(f));
        assert(p[0] == (Seq::<char>::empty(), section));
        assert(p[0] == (r@[0].section@, r@[0].key@));
        if 0 <= j < whole@[0].keys@.len() {
            assert(p[j + 1] == f(ks[j]));
            assert(p[j + 1] == (r@[j + 1].section@, r@[j + 1].key@));
        }
    }
}

proof fn lemma_keys_append(
    a: Seq<(Seq<char>, Seq<Seq<char>>)>,
    b: Seq<(Seq<char>, Seq<Seq<char>>)>,
)
    ensures
        keys_in(a + b) == keys_in(a) + keys_in(b),
    decreases b.len(),
{
    if b.len() == 0 {
        assert(a + b =~= a);
        assert(keys_in(a + b) =~= keys_in(a) + keys_in(b));
    } else {
        lemma_keys_append(a, b.drop_last());
        assert((a + b).drop_last() =~= a + b.drop_last());
        assert((a + b).last() == b.last());
        assert(keys_in(a + b) =~= keys_in(a) + keys_in(b));
    }
}

/// Law: the sections of a document are the keys of its map, in their order, each with the keys
/// of the map under it; what is no map has none. A document that is no map, or of which a value
/// cannot be read, has no sections at all.
pub proof fn lemma_document_sections(
    text: &str,
    r: Result<Vec<YamlSection>, serde_yaml::Error>,
    i: int,
)
    requires
        call_ensures(document_sections, (text,), r),
    ensures
        yaml_keys(text@) is None ==> r is Err,
        yaml_keys(text@) matches Some(tops) ==> {
            &&& 0 <= i < tops.len() && yaml_value(text@, tops[i]) is None ==> r is Err
            &&& (forall|k: int|
                0 <= k < tops.len() ==> yaml_value(text@, #[trigger] tops[k]) is Some) ==> r is Ok
            &&& r is Ok ==> r->Ok_0@.len() == tops.len()
            &&& r is Ok && 0 <= i < tops.len() ==> {
                let s = r->Ok_0@[i];
                &&& s.key@ == tops[i]
                &&& yaml_keys(yaml_value(text@, tops[i])->0) is None ==> s.keys@.len() == 0
                &&& yaml_keys(yaml_value(text@, tops[i])->0) matches Some(ks) ==> texts(s.keys@)
                    == ks
            }
        },
{
    if yaml_keys(text@) is Some {
        let tops = yaml_keys(text@)->0;
        lemma_sections_each(text@, tops, i);
        if r is Ok && 0 <= i < tops.len() {
            let v = section_views(r->Ok_0@);
            assert(v[i] == r->Ok_0@[i]@);
            assert(texts(r->Ok_0@[i].keys@).len() == r->Ok_0@[i].keys@.len());
        }
        if r is Ok {
            assert(section_views(r->Ok_0@).len() == r->Ok_0@.len());
        }
    }
}

proof fn lemma_sections_each(text: Seq<char>, tops: Seq<Seq<char>>, i: int)
    ensures
        0 <= i < tops.len() && yaml_value(text, tops[i]) is None ==> sections_under(text, tops)
            is None,
        (forall|k: int| 0 <= k < tops.len() ==> yaml_value(text, #[trigger] tops[k]) is Some)
            ==> sections_under(text, tops) is Some,
        sections_under(text, tops) matches Some(v) ==> v.len() == tops.len() && (0 <= i
            < tops.len() ==> v[i].0 == tops[i] && v[i].1 == (match yaml_keys(
            yaml_value(text, tops[i])->0,
        ) {
            Some(ks) => ks,
            None => Seq::empty(),
        })),
    decreases tops.len(),
{
    if tops.len() > 0 {
        let front = tops.drop_last();
        lemma_sections_each(text, front, i);
        if forall|k: int| 0 <= k < tops.len() ==> yaml_value(text, #[trigger] tops[k]) is Some {
            assert forall|k: int| 0 <= k < front.len() implies yaml_value(
                text,
                #[trigger] front[k],
            ) is Some by {
                assert(front[k] == tops[k]);
            }
            assert(yaml_value(text, tops[tops.len() - 1]) is Some);
        }
        if 0 <= i < front.len() {
            assert(front[i] == tops[i]);
        }
    }
}

// ---------------------------------------------------------------------------
// Directories of definitions
// ---------------------------------------------------------------------------

/// Law: the definitions are in `/etc/sysx/schemas`, unless a directory is given.
pub proof fn lemma_where_definitions_are(dir: Option<String>, r: String)
    requires
        call_ensures(schema_dir, (dir,), r),
    ensures
        dir is None ==> r@ == "/etc/sysx/schemas"@,
        dir matches Some(d) ==> r@ == d@,
{
}

/// Law: a file is read exactly if its name ends in `.yaml` or `.yml`, with something in front.
pub proof fn lemma_yaml_names(name: &str, stem: Seq<char>, r: bool)
    requires
        call_ensures(is_yaml_file, (name,), r),
    ensures
        stem.len() > 0 && name@ == stem + ".yaml"@ ==> r,
        stem.len() > 0 && name@ == stem + ".yml"@ ==> r,
        r ==> (name@.len() > 5 && name@ == name@.take(name@.len() - 5) + ".yaml"@) || (name@.len()
            > 4 && name@ == name@.take(name@.len() - 4) + ".yml"@),
{
    reveal_strlit(".yaml");
    reveal_strlit(".yml");
    if name@ == stem + ".yaml"@ {
        assert(name@.skip(name@.len() - 5) =~= ".yaml"@);
    }
    if name@ == stem + ".yml"@ {
        assert(name@.skip(name@.len() - 4) =~= ".yml"@);
    }
    if name@.len() > 5 {
        assert(name@ =~= name@.take(name@.len() - 5) + name@.skip(name@.len() - 5));
    }
    if name@.len() > 4 {
        assert(name@ =~= name@.take(name@.len() - 4) + name@.skip(name@.len() - 4));
    }
}

/// Whether the entry is no file of a definition, or a definition that keeps the rules.
pub open spec fn is_harmless(e: SchemaEntry) -> bool {
    match e {
        SchemaEntry::Failed(_) => false,
        SchemaEntry::Ignored => true,
        SchemaEntry::Read { path, parsed } => parsed matches Ok(p) && (p matches Ok(s)
            && keeps_the_rules(&s)),
    }
}

/// Whether both entries define a service, and the same.
pub open spec fn define_the_same(a: SchemaEntry, b: SchemaEntry) -> bool {
    match (a, b) {
        (
            SchemaEntry::Read { path: p, parsed: Ok(Ok(s)) },
            SchemaEntry::Read { path: q, parsed: Ok(Ok(t)) },
        ) => s.service.name@ == t.service.name@,
        _ => false,
    }
}

/// Whether no two of `entries` define the same service.
pub open spec fn defined_once(entries: Seq<SchemaEntry>) -> bool {
    forall|i: int, j: int|
        0 <= i < j < entries.len() ==> !define_the_same(#[trigger] entries[i], #[trigger] entries[j])
}

/// Whether every entry is harmless.
pub open spec fn all_harmless(entries: Seq<SchemaEntry>) -> bool {
    forall|k: int| 0 <= k < entries.len() ==> is_harmless(#[trigger] entries[k])
}

/// Law: a directory is loaded exactly if each of its entries is harmless and no two define the
/// same service; a missing one holds nothing, and one that cannot be read fails.
pub proof fn lemma_loaded_exactly(
    dir: &str,
    listing: Option<Result<Vec<SchemaEntry>, IoFailure>>,
    r: Result<Vec<ServiceSchema>, SysXError>,
)
    requires
        call_ensures(load_schemas, (dir, listing), r),
    ensures
        listing is None ==> r is Ok && r->Ok_0@.len() == 0,
        listing matches Some(Err(e)) ==> r is Err,
        listing matches Some(Ok(entries)) ==> (r is Ok <==> all_harmless(entries@) && defined_once(
            entries@,
        )),
        r is Err ==> r->Err_0 is Dag,
{
    if listing is Some && listing->0 is Ok {
        let entries = listing->0->Ok_0@;
        assert forall|k: int| 0 <= k < entries.len() implies (#[trigger] entries[k]).is_bad()
            == !is_harmless(entries[k]) by {
            if entries[k] is Read && entries[k]->parsed is Ok && entries[k]->parsed->Ok_0 is Ok {
                lemma_name_rule(entries[k]->parsed->Ok_0->Ok_0.service.name@);
            }
        }
        if r is Ok {
            assert forall|k: int| 0 <= k < entries.len() implies is_harmless(
                #[trigger] entries[k],
            ) by {
                assert(!is_refused(entries, k));
            }
            assert forall|i: int, j: int| 0 <= i < j < entries.len() implies !define_the_same(
                #[trigger] entries[i],
                #[trigger] entries[j],
            ) by {
                assert(!is_refused(entries, j));
                if define_the_same(entries[i], entries[j]) {
                    assert(entries[i].defines() == entries[j].defines());
                    assert(repeats(entries, j));
                }
            }
        } else if all_harmless(entries) && defined_once(entries) {
            let k = choose|k: int|
                0 <= k < entries.len() && (#[trigger] is_refused(entries, k))
                    && crate::schema_load::is_refusal(entries, k, r->Err_0->Dag_0@) && forall|j: int|
                    0 <= j < k ==> !(#[trigger] is_refused(entries, j));
            assert(is_harmless(entries[k]));
            assert(repeats(entries, k));
            let j = choose|j: int|
                0 <= j < k && (#[trigger] entries[j]).defines() == entries[k].defines();
            assert(define_the_same(entries[j], entries[k]));
        }
    }
}

/// Law: what is loaded are the definitions of the directory, all of them, in their order.
pub proof fn lemma_loaded_in_order(
    dir: &str,
    entries: Vec<SchemaEntry>,
    r: Result<Vec<ServiceSchema>, SysXError>,
)
    requires
        call_ensures(load_schemas, (dir, Some(Ok(entries))), r),
        r is Ok,
    ensures
        r->Ok_0@ == entries@.filter(|e: SchemaEntry| e is Read).map_values(
            |e: SchemaEntry| e->parsed->Ok_0->Ok_0,
        ),
{
    lemma_loaded_exactly(dir, Some(Ok(entries)), r);
    lemma_definitions_are_filtered(entries@);
}

proof fn lemma_definitions_push(entries: Seq<SchemaEntry>, e: SchemaEntry)
    ensures
        definitions(entries.push(e)) == definitions(entries) + definitions(seq![e]),
    decreases entries.len(),
{
    if entries.len() == 0 {
        assert(entries.push(e) =~= seq![e]);
        assert(definitions(entries) + definitions(seq![e]) =~= definitions(seq![e]));
    } else {
        lemma_definitions_push(entries.skip(1), e);
        assert(entries.push(e).skip(1) =~= entries.skip(1).push(e));
        assert(definitions(entries.push(e)) =~= definitions(entries) + definitions(seq![e]));
    }
}

proof fn lemma_definitions_are_filtered(entries: Seq<SchemaEntry>)
    requires
        all_harmless(entries),
    ensures
        definitions(entries) == entries.filter(|e: SchemaEntry| e is Read).map_values(
            |e: SchemaEntry| e->parsed->Ok_0->Ok_0,
        ),
    decreases entries.len(),
{
    reveal(Seq::filter);
    let p = |e: SchemaEntry| e is Read;
    let f = |e: SchemaEntry| e->parsed->Ok_0->Ok_0;
    if entries.len() == 0 {
        assert(definitions(entries) =~= entries.filter(p).map_values(f));
    } else {
        let front = entries.drop_last();
        let e = entries.last();
        assert(is_harmless(entries[entries.len() - 1]));
        assert forall|k: int| 0 <= k < front.len() implies is_harmless(#[trigger] front[k]) by {
            assert(front[k] == entries[k]);
        }
        lemma_definitions_are_filtered(front);
        lemma_definitions_push(front, e);
        assert(front.push(e) =~= entries);
        assert(seq![e].skip(1) =~= Seq::<SchemaEntry>::empty());
        assert(definitions(seq![e].skip(1)) =~= Seq::<ServiceSchema>::empty());
        assert(definitions(seq![e]) =~= if e is Read {
            seq![f(e)]
        } else {
            Seq::empty()
        });
        assert(definitions(entries) =~= entries.filter(p).map_values(f));
    }
}

/// Law: definitions are filed under their own names, and under no other; of two with one name
/// the later one is filed.
pub proof fn lemma_filed_by_name(
    schemas: Vec<ServiceSchema>,
    r: NameMap<ServiceSchema>,
    n: Seq<char>,
    i: int,
)
    requires
        call_ensures(file_schemas, (schemas,), r),
        0 <= i < schemas@.len(),
    ensures
        r@.contains_key(schemas@[i].service.name@),
        (forall|j: int|
            i < j < schemas@.len() ==> (#[trigger] schemas@[j]).service.name@
                != schemas@[i].service.name@) ==> r@[schemas@[i].service.name@] == schemas@[i],
        r@.contains_key(n) ==> r@[n].service.name@ == n && schemas@.contains(r@[n]),
{
    lemma_filed(schemas@, n, i);
}

proof fn lemma_filed(schemas: Seq<ServiceSchema>, n: Seq<char>, i: int)
    ensures
        0 <= i < schemas.len() ==> filed(schemas).contains_key(schemas[i].service.name@),
        0 <= i < schemas.len() && (forall|j: int|
            i < j < schemas.len() ==> (#[trigger] schemas[j]).service.name@
                != schemas[i].service.name@) ==> filed(schemas)[schemas[i].service.name@]
            == schemas[i],
        filed(schemas).contains_key(n) ==> filed(schemas)[n].service.name@ == n
            && schemas.contains(filed(schemas)[n]),
    decreases schemas.len(),
{
    if schemas.len() > 0 {
        let front = schemas.drop_last();
        lemma_filed(front, n, i);
        if 0 <= i < front.len() {
            assert(front[i] == schemas[i]);
            if forall|j: int|
                i < j < schemas.len() ==> (#[trigger] schemas[j]).service.name@
                    != schemas[i].service.name@ {
                assert forall|j: int| i < j < front.len() implies (
                #[trigger] front[j]).service.name@ != front[i].service.name@ by {
                    assert(front[j] == schemas[j]);
                }
                assert(schemas[schemas.len() - 1].service.name@ != schemas[i].service.name@);
            }
        }
        if filed(schemas).contains_key(n) {
            if n == schemas.last().service.name@ {
                assert(schemas[schemas.len() - 1] == schemas.last());
            } else {
                let k = front.index_of(filed(front)[n]);
                assert(front[k] == schemas[k]);
            }
        }
    }
}

} // verus!
