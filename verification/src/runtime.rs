//! Where the services live in the cgroup tree, and what the kernel says of them.
use vstd::prelude::*;

use crate::schema::valid_service_name;
use crate::text::{
    chars_of, debug_string, lines_of, parse_u64, push_char, push_text, spells, words_of,
};

verus! {

/// Version of the supervisor.
pub const VERSION: &'static str = "0.1.0";

// ---------------------------------------------------------------------------
// Failures of the outside world
// ---------------------------------------------------------------------------

/// The kinds of failure that the supervisor tells apart.
#[derive(Debug, Clone, Copy, PartialEq, Eq, Structural)]
pub enum IoKind {
    NotFound,
    AlreadyExists,
    InvalidInput,
    WouldBlock,
    /// A directory is still in use.
    Busy,
    Other,
}

/// A failed operation on a file, a socket or a process.
#[derive(Debug, Clone)]
pub struct IoFailure {
    pub kind: IoKind,
    pub message: String,
}

// ---------------------------------------------------------------------------
// Paths
// ---------------------------------------------------------------------------

/// `base` followed by `part`, with one slash in between. An absolute `part` stands alone.
pub open spec fn joined(base: Seq<char>, part: Seq<char>) -> Seq<char> {
    if part.len() > 0 && part[0] == '/' {
        part
    } else if base.len() == 0 || base.last() == '/' {
        base + part
    } else {
        base.push('/') + part
    }
}

/// Joins two paths.
pub fn join_path(base: &str, part: &str) -> (r: String)
    ensures
        r@ == joined(base@, part@),
{
    let p = chars_of(part);
    if p.len() > 0 && p[0] == '/' {
        return part.to_owned();
    }
    let b = chars_of(base);
    let mut r = base.to_owned();
    if b.len() > 0 && b[b.len() - 1] != '/' {
        push_char(&mut r, '/');
    }
    push_text(&mut r, part);
    r
}

// ---------------------------------------------------------------------------
// Service ids
// ---------------------------------------------------------------------------

/// Whether two dots follow each other in `s`.
pub open spec fn has_double_dot(s: Seq<char>) -> bool {
    exists|i: int| 0 <= i < s.len() - 1 && #[trigger] s[i] == '.' && s[i + 1] == '.'
}

/// Whether `s` is a single path segment that leads nowhere else: not empty, without a slash
/// and without two dots in a row.
pub open spec fn is_service_id(s: Seq<char>) -> bool {
    s.len() > 0 && !s.contains('/') && !has_double_dot(s)
}

/// Why a name was refused.
#[derive(Debug)]
pub enum RuntimeError {
    InvalidServiceId(String),
}

impl RuntimeError {
    /// What [`RuntimeError::message`] says.
    pub open spec fn text(&self) -> Seq<char> {
        match self {
            RuntimeError::InvalidServiceId(id) => "invalid service id "@ + crate::text::debug_text(
                id@,
            ) + ": empty, contains '/', or '..'"@,
        }
    }

    /// The error in words.
    pub fn message(&self) -> (r: String)
        ensures
            r@ == self.text(),
    {
        match self {
            RuntimeError::InvalidServiceId(id) => {
                let mut m = "invalid service id ".to_owned();
                let q = debug_string(id.as_str());
                push_text(&mut m, q.as_str());
                push_text(&mut m, ": empty, contains '/', or '..'");
                m
            },
        }
    }
}

/// Refuses an id that is empty or could lead out of its directory.
pub fn validate_service_id(id: &str) -> (r: Result<(), RuntimeError>)
    ensures
        match r {
            Ok(()) => is_service_id(id@),
            Err(RuntimeError::InvalidServiceId(bad)) => !is_service_id(id@) && bad@ == id@,
        },
{
    let s = chars_of(id);
    if s.len() == 0 {
        return Err(RuntimeError::InvalidServiceId(id.to_owned()));
    }
    let mut i: usize = 0;
    while i < s.len()
        invariant
            i <= s.len(),
            s@ == id@,
            s.len() > 0,
            forall|j: int| 0 <= j < i ==> s@[j] != '/',
            forall|j: int|
                0 <= j < i && j < s.len() - 1 ==> !(#[trigger] s@[j] == '.' && s@[j + 1] == '.'),
        decreases s.len() - i,
    {
        if s[i] == '/' {
            assert(id@.contains('/'));
            return Err(RuntimeError::InvalidServiceId(id.to_owned()));
        }
        if s[i] == '.' && i + 1 < s.len() && s[i + 1] == '.' {
            assert(id@[i as int] == '.' && id@[i + 1] == '.');
            return Err(RuntimeError::InvalidServiceId(id.to_owned()));
        }
        i += 1;
    }
    Ok(())
}

/// Refuses a name that is no service name.
pub fn validate_ipc_service_name(id: &str) -> (r: Result<(), RuntimeError>)
    ensures
        match r {
            Ok(()) => crate::schema::is_service_name(id@),
            Err(RuntimeError::InvalidServiceId(bad)) => !crate::schema::is_service_name(id@) && bad@
                == id@,
        },
{
    proof {
        if crate::schema::is_service_name(id@) {
            lemma_service_name_is_id(id@);
        }
    }
    match validate_service_id(id) {
        Err(e) => Err(e),
        Ok(()) => {
            if valid_service_name(id) {
                Ok(())
            } else {
                Err(RuntimeError::InvalidServiceId(id.to_owned()))
            }
        },
    }
}

/// Law: a service name is a service id, so that a name that was accepted from a peer always
/// has a directory.
pub proof fn lemma_service_name_is_id(s: Seq<char>)
    requires
        crate::schema::is_service_name(s),
    ensures
        is_service_id(s),
{
    if s.contains('/') {
        let i = s.index_of('/');
        assert(crate::schema::is_name_char(s[i]));
    }
    if has_double_dot(s) {
        let i = choose|i: int| 0 <= i < s.len() - 1 && #[trigger] s[i] == '.' && s[i + 1] == '.';
        assert(crate::schema::is_name_char(s[i]));
    }
}

// ---------------------------------------------------------------------------
// The cgroup tree
// ---------------------------------------------------------------------------

/// Where the services of the supervisor live.
#[derive(Debug, Clone)]
pub struct RuntimeContext {
    /// Mount point of the cgroup tree.
    pub cgroup_root: String,
    /// Name of the supervisor's own part of it.
    pub service_slice: String,
}

impl Default for RuntimeContext {
    fn default() -> (r: RuntimeContext)
        ensures
            r.cgroup_root@ == "/sys/fs/cgroup"@,
            r.service_slice@ == "sysx"@,
    {
        RuntimeContext {
            cgroup_root: "/sys/fs/cgroup".to_owned(),
            service_slice: "sysx".to_owned(),
        }
    }
}

impl RuntimeContext {
    /// The directory of all services.
    pub open spec fn slice_path(&self) -> Seq<char> {
        joined(self.cgroup_root@, self.service_slice@)
    }

    /// The directory of one service.
    pub open spec fn service_path(&self, id: Seq<char>) -> Seq<char> {
        joined(self.slice_path(), id)
    }

    /// The defaults, except for what the environment sets.
    pub fn from_env(cgroup_root: Option<String>, service_slice: Option<String>) -> (r:
        RuntimeContext)
        ensures
            r.cgroup_root@ == match cgroup_root {
                Some(p) => p@,
                None => "/sys/fs/cgroup"@,
            },
            r.service_slice@ == match service_slice {
                Some(s) => s@,
                None => "sysx"@,
            },
    {
        let mut s = RuntimeContext::default();
        if let Some(p) = cgroup_root {
            s.cgroup_root = p;
        }
        if let Some(slice) = service_slice {
            s.service_slice = slice;
        }
        s
    }

    /// The directory of a service.
    pub fn service_cgroup_path(&self, service_id: &str) -> (r: Result<String, RuntimeError>)
        ensures
            match r {
                Ok(p) => is_service_id(service_id@) && p@ == self.service_path(service_id@),
                Err(RuntimeError::InvalidServiceId(bad)) => !is_service_id(service_id@) && bad@
                    == service_id@,
            },
    {
        match validate_service_id(service_id) {
            Err(e) => Err(e),
            Ok(()) => {
                let slice = join_path(self.cgroup_root.as_str(), self.service_slice.as_str());
                Ok(join_path(slice.as_str(), service_id))
            },
        }
    }

    /// A file in the directory of a service.
    pub(crate) fn service_file(&self, service_id: &str, file: &str) -> (r: Result<
        String,
        RuntimeError,
    >)
        ensures
            match r {
                Ok(p) => is_service_id(service_id@) && p@ == joined(
                    self.service_path(service_id@),
                    file@,
                ),
                Err(RuntimeError::InvalidServiceId(bad)) => !is_service_id(service_id@) && bad@
                    == service_id@,
            },
    {
        match self.service_cgroup_path(service_id) {
            Err(e) => Err(e),
            Ok(p) => Ok(join_path(p.as_str(), file)),
        }
    }

    /// The file that tells whether processes of the service are alive.
    pub fn cgroup_events_path(&self, service_id: &str) -> (r: Result<String, RuntimeError>)
        ensures
            match r {
                Ok(p) => is_service_id(service_id@) && p@ == joined(
                    self.service_path(service_id@),
                    "cgroup.events"@,
                ),
                Err(RuntimeError::InvalidServiceId(bad)) => !is_service_id(service_id@) && bad@
                    == service_id@,
            },
    {
        self.service_file(service_id, "cgroup.events")
    }

    /// The file that counts the kills for want of memory.
    pub fn memory_events_path(&self, service_id: &str) -> (r: Result<String, RuntimeError>)
        ensures
            match r {
                Ok(p) => is_service_id(service_id@) && p@ == joined(
                    self.service_path(service_id@),
                    "memory.events"@,
                ),
                Err(RuntimeError::InvalidServiceId(bad)) => !is_service_id(service_id@) && bad@
                    == service_id@,
            },
    {
        self.service_file(service_id, "memory.events")
    }
}

/// Law: the directory of a service is a direct child of the directory of all services.
pub proof fn lemma_service_path_is_child(rt: &RuntimeContext, id: Seq<char>)
    requires
        is_service_id(id),
    ensures
        rt.service_path(id) == rt.slice_path() + id || rt.service_path(id)
            == rt.slice_path().push('/') + id,
        !id.contains('/'),
{
    if id[0] == '/' {
        assert(id.contains('/'));
    }
}

/// Law: two services never share a directory.
pub proof fn lemma_service_paths_distinct(rt: &RuntimeContext, a: Seq<char>, b: Seq<char>)
    requires
        is_service_id(a),
        is_service_id(b),
        rt.service_path(a) == rt.service_path(b),
    ensures
        a == b,
{
    let base = rt.slice_path();
    assert(a[0] != '/') by {
        if a[0] == '/' {
            assert(a.contains('/'));
        }
    }
    assert(b[0] != '/') by {
        if b[0] == '/' {
            assert(b.contains('/'));
        }
    }
    let front = if base.len() == 0 || base.last() == '/' {
        base
    } else {
        base.push('/')
    };
    assert(rt.service_path(a) == front + a);
    assert(rt.service_path(b) == front + b);
    assert(a =~= (front + a).skip(front.len() as int));
    assert(b =~= (front + b).skip(front.len() as int));
}

// ---------------------------------------------------------------------------
// What the kernel reports
// ---------------------------------------------------------------------------

/// The words of the first of `lines` whose first word is `key`.
pub open spec fn entry_of(lines: Seq<Seq<char>>, key: Seq<char>) -> Option<Seq<Seq<char>>>
    decreases lines.len(),
{
    if lines.len() == 0 {
        None
    } else {
        match entry_of(lines.drop_last(), key) {
            Some(w) => Some(w),
            None => {
                let w = crate::text::words(lines.last());
                if w.len() > 0 && w[0] == key {
                    Some(w)
                } else {
                    None
                }
            },
        }
    }
}

/// What `content` says of `populated`.
pub open spec fn populated_in(content: Seq<char>) -> Option<bool> {
    match entry_of(crate::text::split_lines(content), "populated"@) {
        Some(w) => if w.len() > 1 && w[1] == "1"@ {
            Some(true)
        } else if w.len() > 1 && w[1] == "0"@ {
            Some(false)
        } else {
            None
        },
        None => None,
    }
}

/// What `content` says of `oom_kill`: whether the count is positive.
pub open spec fn oom_kill_in(content: Seq<char>) -> Option<bool> {
    match entry_of(crate::text::split_lines(content), "oom_kill"@) {
        Some(w) => if w.len() > 1 {
            match crate::text::u64_value(w[1]) {
                Some(n) => Some(n > 0),
                None => None,
            }
        } else {
            None
        },
        None => None,
    }
}

proof fn lemma_entry_prefix(lines: Seq<Seq<char>>, key: Seq<char>, i: int)
    requires
        0 <= i <= lines.len(),
        entry_of(lines.take(i), key) is Some,
    ensures
        entry_of(lines, key) == entry_of(lines.take(i), key),
    decreases lines.len() - i,
{
    if i == lines.len() {
        assert(lines.take(i) == lines);
    } else {
        assert(lines.take(i + 1).drop_last() == lines.take(i));
        lemma_entry_prefix(lines, key, i + 1);
    }
}

/// Finds the words of the first line that starts with `key`.
fn find_entry(content: &str, key: &str) -> (r: Option<Vec<Vec<char>>>)
    ensures
        match r {
            Some(w) => entry_of(crate::text::split_lines(content@), key@) == Some(
                crate::text::views(w@),
            ),
            None => entry_of(crate::text::split_lines(content@), key@) is None,
        },
{
    let lines = lines_of(&chars_of(content));
    let ghost ls = crate::text::split_lines(content@);
    let mut i: usize = 0;
    assert(ls.take(0) == Seq::<Seq<char>>::empty());
    while i < lines.len()
        invariant
            i <= lines.len(),
            crate::text::views(lines@) == ls,
            entry_of(ls.take(i as int), key@) is None,
            ls == crate::text::split_lines(content@),
        decreases lines.len() - i,
    {
        assert(ls.take(i + 1).drop_last() == ls.take(i as int));
        assert(ls[i as int] == lines[i as int]@);
        let w = words_of(&lines[i]);
        if w.len() > 0 {
            assert(crate::text::views(w@)[0] == w[0]@);
            if spells(&w[0], key) {
                proof {
                    lemma_entry_prefix(ls, key@, i + 1);
                }
                return Some(w);
            }
        }
        i += 1;
    }
    assert(ls.take(ls.len() as int) == ls);
    None
}

/// Reads the `populated` entry of `cgroup.events`.
pub fn parse_cgroup_events_populated(content: &str) -> (r: Option<bool>)
    ensures
        r == populated_in(content@),
{
    match find_entry(content, "populated") {
        None => None,
        Some(w) => {
            if w.len() < 2 {
                return None;
            }
            assert(crate::text::views(w@)[1] == w[1]@);
            if spells(&w[1], "1") {
                Some(true)
            } else if spells(&w[1], "0") {
                Some(false)
            } else {
                None
            }
        },
    }
}

/// Reads the `oom_kill` entry of `memory.events`.
pub fn parse_memory_events_oom_kill(content: &str) -> (r: Option<bool>)
    ensures
        r == oom_kill_in(content@),
{
    match find_entry(content, "oom_kill") {
        None => None,
        Some(w) => {
            if w.len() < 2 {
                return None;
            }
            assert(crate::text::views(w@)[1] == w[1]@);
            match parse_u64(&w[1]) {
                Some(n) => Some(n > 0),
                None => None,
            }
        },
    }
}

/// What a read of `cgroup.events` says: nothing if the file is missing or has no valid
/// `populated` entry, and the failure if the read failed otherwise.
pub open spec fn populated_read(read: Result<String, IoFailure>) -> Result<
    Option<bool>,
    IoFailure,
> {
    match read {
        Ok(s) => Ok(populated_in(s@)),
        Err(e) => if e.kind == IoKind::NotFound {
            Ok(None)
        } else {
            Err(e)
        },
    }
}

/// Evaluates a read of `cgroup.events`.
pub fn read_sysfs_cgroup_populated(read: Result<String, IoFailure>) -> (r: Result<
    Option<bool>,
    IoFailure,
>)
    ensures
        r == populated_read(read),
{
    match read {
        Ok(s) => Ok(parse_cgroup_events_populated(s.as_str())),
        Err(e) => {
            if e.kind == IoKind::NotFound {
                Ok(None)
            } else {
                Err(e)
            }
        },
    }
}

/// Evaluates a read of `memory.events`: whether a process was killed for want of memory. A
/// missing file or entry counts as no.
pub fn read_sysfs_memory_oom_kill_nonzero(read: Result<String, IoFailure>) -> (r: Result<
    bool,
    IoFailure,
>)
    ensures
        r == match read {
            Ok(s) => Ok::<bool, IoFailure>(oom_kill_in(s@) == Some(true)),
            Err(e) => if e.kind == IoKind::NotFound {
                Ok::<bool, IoFailure>(false)
            } else {
                Err::<bool, IoFailure>(e)
            },
        },
{
    match read {
        Ok(s) => Ok(
            match parse_memory_events_oom_kill(s.as_str()) {
                Some(b) => b,
                None => false,
            },
        ),
        Err(e) => {
            if e.kind == IoKind::NotFound {
                Ok(false)
            } else {
                Err(e)
            }
        },
    }
}

} // verus!
