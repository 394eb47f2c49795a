//! What paths, names and the files of the kernel promise, said over their characters.
use vstd::prelude::*;

use crate::runtime::{
    entry_of, join_path, parse_cgroup_events_populated, parse_memory_events_oom_kill,
    read_sysfs_cgroup_populated, read_sysfs_memory_oom_kill_nonzero, validate_ipc_service_name,
    validate_service_id, IoFailure, IoKind, RuntimeContext, RuntimeError,
};
use crate::schema::valid_service_name;
use crate::text::{parse_u64, split_lines, words};

verus! {

// ---------------------------------------------------------------------------
// Names
// ---------------------------------------------------------------------------

/// Whether every character of `s` is a small letter, a digit, a hyphen or an underscore.
pub open spec fn plain_characters(s: Seq<char>) -> bool {
    forall|i: int|
        0 <= i < s.len() ==> {
            ||| 'a' <= #[trigger] s[i] <= 'z'
            ||| '0' <= s[i] <= '9'
            ||| s[i] == '-'
            ||| s[i] == '_'
        }
}

/// Law: a service name has one to thirty-two characters, each of them a small letter, a digit,
/// a hyphen or an underscore; and everything of that shape is a name.
pub proof fn lemma_names(s: &str, r: bool)
    requires
        call_ensures(valid_service_name, (s,), r),
    ensures
        r == (1 <= s@.len() <= 32 && plain_characters(s@)),
{
    if 1 <= s@.len() <= 32 && plain_characters(s@) {
        assert forall|i: int| 0 <= i < s@.len() implies crate::schema::is_name_char(
            #[trigger] s@[i],
        ) by {}
    }
    if crate::schema::is_service_name(s@) {
        assert forall|i: int| 0 <= i < s@.len() implies {
            ||| 'a' <= #[trigger] s@[i] <= 'z'
            ||| '0' <= s@[i] <= '9'
            ||| s@[i] == '-'
            ||| s@[i] == '_'
        } by {
            assert(crate::schema::is_name_char(s@[i]));
        }
    }
}

/// Law: a name that comes from a peer is accepted exactly if it is a service name, and one that
/// is refused is handed back.
pub proof fn lemma_peer_names(s: &str, valid: bool, r: Result<(), RuntimeError>)
    requires
        call_ensures(valid_service_name, (s,), valid),
        call_ensures(validate_ipc_service_name, (s,), r),
    ensures
        (r is Ok) == (1 <= s@.len() <= 32 && plain_characters(s@)),
        r matches Err(RuntimeError::InvalidServiceId(bad)) ==> bad@ == s@,
{
    lemma_names(s, valid);
}

/// Whether `s` has a character, no slash, and no two dots in a row.
pub open spec fn plain_id(s: Seq<char>) -> bool {
    &&& s.len() > 0
    &&& forall|i: int| 0 <= i < s.len() ==> #[trigger] s[i] != '/'
    &&& forall|i: int| 0 <= i < s.len() - 1 ==> !(#[trigger] s[i] == '.' && s[i + 1] == '.')
}

/// An id is plain, and what is plain is an id.
pub proof fn lemma_plain_id(s: Seq<char>)
    ensures
        crate::runtime::is_service_id(s) == plain_id(s),
{
    if s.contains('/') {
        assert(s[s.index_of('/')] == '/');
    }
}

/// Law: an id is refused exactly if it is empty, holds a slash, or two dots in a row.
pub proof fn lemma_ids(s: &str, r: Result<(), RuntimeError>, at: int)
    requires
        call_ensures(validate_service_id, (s,), r),
    ensures
        s@.len() == 0 ==> r is Err,
        s@.contains('/') ==> r is Err,
        0 <= at < s@.len() - 1 && s@[at] == '.' && s@[at + 1] == '.' ==> r is Err,
        s@.len() > 0 && !s@.contains('/') && (forall|i: int|
            0 <= i < s@.len() - 1 ==> !(#[trigger] s@[i] == '.' && s@[i + 1] == '.')) ==> r is Ok,
        r matches Err(RuntimeError::InvalidServiceId(bad)) ==> bad@ == s@,
{
}

// ---------------------------------------------------------------------------
// Paths
// ---------------------------------------------------------------------------

/// Law: a relative path is appended with exactly one slash before it, and an absolute path
/// stands alone.
pub proof fn lemma_join(base: &str, part: &str, r: String)
    requires
        call_ensures(join_path, (base, part), r),
    ensures
        part@.len() > 0 && part@[0] == '/' ==> r@ == part@,
        base@.len() == 0 ==> r@ == part@,
        base@.len() > 0 && part@.len() > 0 && part@[0] != '/' ==> {
            &&& r@.len() >= base@.len() + part@.len()
            &&& r@.skip(r@.len() - part@.len()) == part@
            &&& r@[r@.len() - part@.len() - 1] == '/'
            &&& r@.take(base@.len() as int) == base@
            &&& r@.len() - base@.len() - part@.len() == (if base@[base@.len() - 1] == '/' {
                0int
            } else {
                1int
            })
        },
{
    assert(base@ + part@ =~= part@ || base@.len() > 0);
    assert(r@.skip(r@.len() - part@.len()) =~= part@);
    assert(base@.len() > 0 && part@.len() > 0 && part@[0] != '/' ==> r@.take(base@.len() as int)
        =~= base@);
}

/// Law: without settings the services live in `/sys/fs/cgroup/sysx`, each in the directory of
/// its name; a setting takes the place of its part and of no other.
pub proof fn lemma_settings(root: Option<String>, slice: Option<String>, r: RuntimeContext)
    requires
        call_ensures(RuntimeContext::from_env, (root, slice), r),
    ensures
        r.cgroup_root@ == (if root is Some {
            root->0@
        } else {
            "/sys/fs/cgroup"@
        }),
        r.service_slice@ == (if slice is Some {
            slice->0@
        } else {
            "sysx"@
        }),
{
}

/// Law: the files of a service stand in its directory, which is there for ids alone; and its
/// directory is what joining the root, the slice and the id gives.
pub proof fn lemma_service_directory(
    rt: &RuntimeContext,
    id: &str,
    root: &str,
    name: &str,
    slice: String,
    slice_path: &str,
    dir: String,
    valid: Result<(), RuntimeError>,
    r: Result<String, RuntimeError>,
)
    requires
        root@ == rt.cgroup_root@,
        name@ == rt.service_slice@,
        call_ensures(join_path, (root, name), slice),
        slice_path@ == slice@,
        call_ensures(join_path, (slice_path, id), dir),
        call_ensures(validate_service_id, (id,), valid),
        call_ensures(RuntimeContext::service_cgroup_path, (rt, id), r),
    ensures
        (r is Ok) == (valid is Ok),
        r matches Ok(p) ==> p@ == dir@,
{
}

/// Law: the two files that the kernel keeps for a service are named `cgroup.events` and
/// `memory.events`, and stand in its directory.
pub proof fn lemma_service_files(
    rt: &RuntimeContext,
    id: &str,
    r: Result<String, RuntimeError>,
    events: Result<String, RuntimeError>,
    memory: Result<String, RuntimeError>,
)
    requires
        call_ensures(RuntimeContext::service_cgroup_path, (rt, id), r),
        call_ensures(RuntimeContext::cgroup_events_path, (rt, id), events),
        call_ensures(RuntimeContext::memory_events_path, (rt, id), memory),
    ensures
        (r is Ok) == (events is Ok),
        (r is Ok) == (memory is Ok),
        r matches Ok(p) ==> (events matches Ok(e) ==> e@ == p@ + "/cgroup.events"@),
        r matches Ok(p) ==> (memory matches Ok(m) ==> m@ == p@ + "/memory.events"@),
{
    reveal_strlit("cgroup.events");
    reveal_strlit("/cgroup.events");
    reveal_strlit("memory.events");
    reveal_strlit("/memory.events");
    if crate::runtime::is_service_id(id@) {
        let p = rt.service_path(id@);
        crate::runtime::lemma_service_path_is_child(rt, id@);
        assert(p.last() == id@.last());
        assert(p.last() != '/') by {
            if id@.last() == '/' {
                assert(id@[id@.len() - 1] == '/');
                assert(id@.contains('/'));
            }
        }
        assert(p.push('/') + "cgroup.events"@ =~= p + "/cgroup.events"@);
        assert(p.push('/') + "memory.events"@ =~= p + "/memory.events"@);
    }
}

// ---------------------------------------------------------------------------
// What the kernel reports
// ---------------------------------------------------------------------------

/// Whether line `k` of `lines` is the first whose first word is `key`.
pub open spec fn first_entry(lines: Seq<Seq<char>>, key: Seq<char>, k: int) -> bool {
    &&& 0 <= k < lines.len()
    &&& starts_with_word(lines[k], key)
    &&& forall|j: int| 0 <= j < k ==> !starts_with_word(#[trigger] lines[j], key)
}

/// Whether the first word of `line` is `key`.
pub open spec fn starts_with_word(line: Seq<char>, key: Seq<char>) -> bool {
    words(line).len() > 0 && words(line)[0] == key
}

proof fn lemma_entry_is_first(lines: Seq<Seq<char>>, key: Seq<char>, k: int)
    ensures
        first_entry(lines, key, k) ==> entry_of(lines, key) == Some(words(lines[k])),
        (forall|j: int| 0 <= j < lines.len() ==> !starts_with_word(#[trigger] lines[j], key))
            ==> entry_of(lines, key) is None,
    decreases lines.len(),
{
    if lines.len() > 0 {
        let front = lines.drop_last();
        lemma_entry_is_first(front, key, k);
        if first_entry(lines, key, k) {
            assert forall|j: int| 0 <= j < k && j < front.len() implies !starts_with_word(
                #[trigger] front[j],
                key,
            ) by {
                assert(front[j] == lines[j]);
            }
            if k < front.len() {
                assert(front[k] == lines[k]);
                assert(first_entry(front, key, k));
            }
        }
        if forall|j: int| 0 <= j < lines.len() ==> !starts_with_word(#[trigger] lines[j], key) {
            assert forall|j: int| 0 <= j < front.len() implies !starts_with_word(
                #[trigger] front[j],
                key,
            ) by {
                assert(front[j] == lines[j]);
            }
            assert(!starts_with_word(lines[lines.len() - 1], key));
        }
    }
}

/// Law: `cgroup.events` says that a group is populated exactly if the word behind `populated`,
/// in the first line that begins with that word, is `1`, and that it is not exactly if that
/// word is `0`. Without such a line it says nothing.
pub proof fn lemma_populated(content: &str, k: int, r: Option<bool>)
    requires
        call_ensures(parse_cgroup_events_populated, (content,), r),
    ensures
        first_entry(split_lines(content@), "populated"@, k) ==> ({
            let w = words(split_lines(content@)[k]);
            &&& (r == Some(true)) == (w.len() > 1 && w[1] == seq!['1'])
            &&& (r == Some(false)) == (w.len() > 1 && w[1] == seq!['0'])
        }),
        (forall|j: int|
            0 <= j < split_lines(content@).len() ==> !starts_with_word(
                #[trigger] split_lines(content@)[j],
                "populated"@,
            )) ==> r is None,
{
    reveal_strlit("1");
    reveal_strlit("0");
    assert("1"@ =~= seq!['1']);
    assert("0"@ =~= seq!['0']);
    lemma_entry_is_first(split_lines(content@), "populated"@, k);
    assert(seq!['0'][0] != seq!['1'][0]);
}

/// Law: `memory.events` says that a process was killed exactly if the word behind `oom_kill`,
/// in the first line that begins with that word, is a number above zero.
pub proof fn lemma_oom_kill(
    content: &str,
    k: int,
    count: &Vec<char>,
    n: Option<u64>,
    r: Option<bool>,
)
    requires
        call_ensures(parse_memory_events_oom_kill, (content,), r),
        call_ensures(parse_u64, (count,), n),
    ensures
        first_entry(split_lines(content@), "oom_kill"@, k) ==> ({
            let w = words(split_lines(content@)[k]);
            &&& w.len() <= 1 ==> r is None
            &&& w.len() > 1 && w[1] == count@ ==> r == (match n {
                Some(v) => Some(v != 0),
                None => None,
            })
        }),
        (forall|j: int|
            0 <= j < split_lines(content@).len() ==> !starts_with_word(
                #[trigger] split_lines(content@)[j],
                "oom_kill"@,
            )) ==> r is None,
{
    lemma_entry_is_first(split_lines(content@), "oom_kill"@, k);
}

/// Law: a missing file counts as one that says nothing, every other failed read stays a
/// failure, and a read that worked says what its text says.
pub proof fn lemma_reads(
    read: Result<String, IoFailure>,
    text: &str,
    populated: Option<bool>,
    killed: Option<bool>,
    p: Result<Option<bool>, IoFailure>,
    o: Result<bool, IoFailure>,
)
    requires
        read matches Ok(s) ==> text@ == s@,
        call_ensures(parse_cgroup_events_populated, (text,), populated),
        call_ensures(parse_memory_events_oom_kill, (text,), killed),
        call_ensures(read_sysfs_cgroup_populated, (read,), p),
        call_ensures(read_sysfs_memory_oom_kill_nonzero, (read,), o),
    ensures
        read is Ok ==> p == Ok::<Option<bool>, IoFailure>(populated) && o == Ok::<bool, IoFailure>(
            killed == Some(true),
        ),
        read matches Err(e) ==> (e.kind == IoKind::NotFound ==> p == Ok::<Option<bool>, IoFailure>(
            None,
        ) && o == Ok::<bool, IoFailure>(false)),
        read matches Err(e) ==> (e.kind != IoKind::NotFound ==> p == Err::<Option<bool>, IoFailure>(
            e,
        ) && o == Err::<bool, IoFailure>(e)),
{
}

} // verus!
