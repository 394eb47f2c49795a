//! What is written and prepared before a service is executed.
use std::collections::HashMap;

use vstd::prelude::*;

use crate::names::copy_names;
use crate::runtime::{join_path, IoFailure, IoKind, RuntimeContext};
use crate::schema::{Capabilities, Namespaces, RootFs, ServiceSchema};
use crate::text::{chars_of, debug_string, decimal_string, parse_u64, push_text};

verus! {

/// Where output goes that nobody asked for.
pub const NULL_DEVICE: &'static str = "/dev/null";

/// One limit: a file in the directory of the service, and what is written to it.
#[derive(Debug)]
pub struct LimitWrite {
    pub path: String,
    pub contents: String,
}

impl LimitWrite {
    /// Whether this writes `value` to `file` in the directory `base`.
    pub open spec fn sets(&self, base: Seq<char>, file: Seq<char>, value: nat) -> bool {
        self.path@ == crate::runtime::joined(base, file) && self.contents@ == crate::text::decimal(
            value,
        ) + "\n"@
    }
}

/// The bytes in `mb` mebibytes.
pub open spec fn mebibytes(mb: u32) -> nat {
    mb as nat * 1024 * 1024
}

/// Whether `writes` are the limits that `schema` declares, in the directory `base`: the
/// number of processes, memory and swap in bytes, and the processor weight.
pub open spec fn are_limits(
    base: Seq<char>,
    schema: &ServiceSchema,
    writes: Seq<LimitWrite>,
) -> bool {
    let p: int = if schema.pids is Some {
        1
    } else {
        0
    };
    let m: int = if schema.memory is Some {
        2
    } else {
        0
    };
    let c: int = if schema.cpu is Some {
        1
    } else {
        0
    };
    &&& writes.len() == p + m + c
    &&& schema.pids matches Some(l) ==> writes[0].sets(base, "pids.max"@, l.max as nat)
    &&& schema.memory matches Some(l) ==> writes[p].sets(
        base,
        "memory.max"@,
        mebibytes(l.max_mb),
    ) && writes[p + 1].sets(base, "memory.swap.max"@, mebibytes(l.swap_mb))
    &&& schema.cpu matches Some(l) ==> writes[p + m].sets(base, "cpu.weight"@, l.weight as nat)
}

fn limit(base: &str, file: &str, value: u64) -> (r: LimitWrite)
    ensures
        r.sets(base@, file@, value as nat),
{
    let mut contents = decimal_string(value);
    push_text(&mut contents, "\n");
    LimitWrite { path: join_path(base, file), contents }
}

/// The failure of an id that has no directory.
pub open spec fn is_bad_id(id: Seq<char>, e: IoFailure) -> bool {
    e.kind == IoKind::InvalidInput && exists|s: String|
        s@ == id && e.message@ == #[trigger] crate::runtime::RuntimeError::InvalidServiceId(s).text()
}

/// The limits to write before a service starts.
pub fn apply_cgroup_limits(rt: &RuntimeContext, schema: &ServiceSchema) -> (r: Result<
    Vec<LimitWrite>,
    IoFailure,
>)
    ensures
        match r {
            Ok(writes) => crate::runtime::is_service_id(schema.service.name@) && are_limits(
                rt.service_path(schema.service.name@),
                schema,
                writes@,
            ),
            Err(e) => !crate::runtime::is_service_id(schema.service.name@) && is_bad_id(
                schema.service.name@,
                e,
            ),
        },
{
    let base = match rt.service_cgroup_path(schema.service.name.as_str()) {
        Ok(p) => p,
        Err(e) => {
            return Err(IoFailure { kind: IoKind::InvalidInput, message: e.message() });
        },
    };
    let mut writes: Vec<LimitWrite> = Vec::new();
    match &schema.pids {
        Some(p) => {
            writes.push(limit(base.as_str(), "pids.max", p.max as u64));
        },
        None => {},
    }
    match &schema.memory {
        Some(m) => {
            writes.push(limit(base.as_str(), "memory.max", m.max_mb as u64 * 1024 * 1024));
            writes.push(limit(base.as_str(), "memory.swap.max", m.swap_mb as u64 * 1024 * 1024));
        },
        None => {},
    }
    match &schema.cpu {
        Some(c) => {
            writes.push(limit(base.as_str(), "cpu.weight", c.weight as u64));
        },
        None => {},
    }
    Ok(writes)
}

/// Whether a path can be handed to the kernel: it holds no zero character.
pub fn path_is_plain(path: &str) -> (r: bool)
    ensures
        r == !path@.contains('\0'),
{
    let s = chars_of(path);
    let mut i: usize = 0;
    while i < s.len()
        invariant
            i <= s.len(),
            s@ == path@,
            forall|j: int| 0 <= j < i ==> s@[j] != '\0',
        decreases s.len() - i,
    {
        if s[i] == '\0' {
            assert(path@.contains(path@[i as int]));
            return false;
        }
        i += 1;
    }
    true
}

/// What the child process is set up with before it executes the service.
#[derive(Debug)]
pub struct SpawnPlan {
    /// The file through which the child enters its cgroup.
    pub procs_path: String,
    pub exec_path: String,
    pub args: Vec<String>,
    /// What is added to the environment.
    pub env: HashMap<String, String>,
    /// The user that the child becomes, last of all, before it executes the service.
    pub uid: u32,
    /// The namespaces that the service gets of its own.
    pub namespaces: Option<Namespaces>,
    /// The capabilities that it keeps.
    pub capabilities: Option<Capabilities>,
    /// Its view of the file system.
    pub rootfs: Option<RootFs>,
    /// Becomes file descriptor 1.
    pub stdout_path: String,
    /// Becomes file descriptor 2.
    pub stderr_path: String,
}

/// The user that `user` spells: a number of 32 bits.
pub open spec fn uid_of(user: Seq<char>) -> Option<u32> {
    match crate::text::u64_value(user) {
        Some(n) => if n <= u32::MAX {
            Some(n as u32)
        } else {
            None
        },
        None => None,
    }
}

/// Reads the user of a service.
pub fn parse_uid(user: &str) -> (r: Option<u32>)
    ensures
        r == uid_of(user@),
{
    match parse_u64(&chars_of(user)) {
        Some(n) => if n <= u32::MAX as u64 {
            Some(n as u32)
        } else {
            None
        },
        None => None,
    }
}

/// The file for standard output.
pub open spec fn stdout_of(schema: &ServiceSchema) -> Seq<char> {
    match schema.logging {
        Some(l) => l.stdout@,
        None => NULL_DEVICE@,
    }
}

/// The file for standard error.
pub open spec fn stderr_of(schema: &ServiceSchema) -> Seq<char> {
    match schema.logging {
        Some(l) => l.stderr@,
        None => NULL_DEVICE@,
    }
}

/// Whether the same capabilities are kept in both.
pub open spec fn same_capabilities(a: Option<Capabilities>, b: Option<Capabilities>) -> bool {
    match (a, b) {
        (Some(x), Some(y)) => crate::names::texts(x.keep@) == crate::names::texts(y.keep@),
        (None, None) => true,
        _ => false,
    }
}

/// Whether both give the same view of the file system.
pub open spec fn same_rootfs(a: Option<RootFs>, b: Option<RootFs>) -> bool {
    match (a, b) {
        (Some(x), Some(y)) => x.read_only == y.read_only && match (x.tmpfs, y.tmpfs) {
            (Some(s), Some(t)) => s@ == t@,
            (None, None) => true,
            _ => false,
        },
        (None, None) => true,
        _ => false,
    }
}

fn copy_namespaces(from: &Option<Namespaces>) -> (r: Option<Namespaces>)
    ensures
        r == *from,
{
    match from {
        Some(n) => Some(
            Namespaces {
                mount: n.mount,
                network: n.network,
                pid: n.pid,
                uts: n.uts,
                user: n.user,
            },
        ),
        None => None,
    }
}

fn copy_capabilities(from: &Option<Capabilities>) -> (r: Option<Capabilities>)
    ensures
        same_capabilities(r, *from),
{
    match from {
        Some(c) => Some(Capabilities { keep: copy_names(&c.keep) }),
        None => None,
    }
}

fn copy_rootfs(from: &Option<RootFs>) -> (r: Option<RootFs>)
    ensures
        same_rootfs(r, *from),
{
    match from {
        Some(f) => {
            let tmpfs = match &f.tmpfs {
                Some(t) => Some(t.clone()),
                None => None,
            };
            Some(RootFs { read_only: f.read_only, tmpfs })
        },
        None => None,
    }
}

/// Whether `plan` sets up the service of `schema`.
pub open spec fn is_spawn_plan(rt: &RuntimeContext, schema: &ServiceSchema, plan: &SpawnPlan) -> bool {
    &&& plan.procs_path@ == crate::runtime::joined(
        rt.service_path(schema.service.name@),
        "cgroup.procs"@,
    )
    &&& plan.exec_path@ == schema.service.exec_path@
    &&& crate::names::texts(plan.args@) == crate::names::texts(schema.service.args@)
    &&& plan.env@ == schema.service.env@
    &&& uid_of(schema.service.user@) == Some(plan.uid)
    &&& plan.namespaces == schema.namespaces
    &&& same_capabilities(plan.capabilities, schema.capabilities)
    &&& same_rootfs(plan.rootfs, schema.rootfs)
    &&& plan.stdout_path@ == stdout_of(schema)
    &&& plan.stderr_path@ == stderr_of(schema)
}

/// Whether `e` says why the service of `schema` cannot be set up. The first of these holds:
/// it is disabled, its id has no directory, the path of its cgroup has a zero character, its
/// program is no file, the path of its output has a zero character, or its user is no number
/// of a user.
pub open spec fn spawn_refused(
    rt: &RuntimeContext,
    schema: &ServiceSchema,
    exec_is_file: bool,
    e: IoFailure,
) -> bool {
    let procs = crate::runtime::joined(rt.service_path(schema.service.name@), "cgroup.procs"@);
    if !schema.enabled {
        e.kind == IoKind::InvalidInput && e.message@ == "spawn skipped: disabled"@
    } else if !crate::runtime::is_service_id(schema.service.name@) {
        is_bad_id(schema.service.name@, e)
    } else if procs.contains('\0') {
        e.kind == IoKind::InvalidInput && e.message@ == "path contains NUL"@
    } else if !exec_is_file {
        e.kind == IoKind::NotFound && e.message@ == "exec missing: "@ + schema.service.exec_path@
    } else if stdout_of(schema).contains('\0') || stderr_of(schema).contains('\0') {
        e.kind == IoKind::InvalidInput && e.message@ == "path contains NUL"@
    } else {
        uid_of(schema.service.user@) is None && e.kind == IoKind::InvalidInput && e.message@
            == "user is not a numeric uid: "@ + crate::text::debug_text(schema.service.user@)
    }
}

/// Whether the service of `schema` can be set up.
pub open spec fn can_spawn(rt: &RuntimeContext, schema: &ServiceSchema, exec_is_file: bool) -> bool {
    let procs = crate::runtime::joined(rt.service_path(schema.service.name@), "cgroup.procs"@);
    &&& schema.enabled
    &&& crate::runtime::is_service_id(schema.service.name@)
    &&& !procs.contains('\0')
    &&& exec_is_file
    &&& !stdout_of(schema).contains('\0')
    &&& !stderr_of(schema).contains('\0')
    &&& uid_of(schema.service.user@) is Some
}

fn nul_failure() -> (r: IoFailure)
    ensures
        r.kind == IoKind::InvalidInput,
        r.message@ == "path contains NUL"@,
{
    IoFailure { kind: IoKind::InvalidInput, message: "path contains NUL".to_owned() }
}

/// Refuses a service that is switched off, before anything is written for it.
pub fn check_enabled(schema: &ServiceSchema) -> (r: Result<(), IoFailure>)
    ensures
        match r {
            Ok(()) => schema.enabled,
            Err(e) => !schema.enabled && e.kind == IoKind::InvalidInput && e.message@
                == "spawn skipped: disabled"@,
        },
{
    if schema.enabled {
        Ok(())
    } else {
        Err(
            IoFailure {
                kind: IoKind::InvalidInput,
                message: "spawn skipped: disabled".to_owned(),
            },
        )
    }
}

/// Lays out the start of a service. `exec_is_file` tells whether its program is there.
pub fn spawn_simple_service(
    rt: &RuntimeContext,
    schema: &ServiceSchema,
    exec_is_file: bool,
) -> (r: Result<SpawnPlan, IoFailure>)
    ensures
        match r {
            Ok(plan) => can_spawn(rt, schema, exec_is_file) && is_spawn_plan(rt, schema, &plan),
            Err(e) => !can_spawn(rt, schema, exec_is_file) && spawn_refused(
                rt,
                schema,
                exec_is_file,
                e,
            ),
        },
{
    match check_enabled(schema) {
        Ok(()) => {},
        Err(e) => {
            return Err(e);
        },
    }
    let base = match rt.service_cgroup_path(schema.service.name.as_str()) {
        Ok(p) => p,
        Err(e) => {
            return Err(IoFailure { kind: IoKind::InvalidInput, message: e.message() });
        },
    };
    let procs_path = join_path(base.as_str(), "cgroup.procs");
    if !path_is_plain(procs_path.as_str()) {
        return Err(nul_failure());
    }
    if !exec_is_file {
        let mut m = "exec missing: ".to_owned();
        push_text(&mut m, schema.service.exec_path.as_str());
        return Err(IoFailure { kind: IoKind::NotFound, message: m });
    }
    let (stdout_path, stderr_path) = match &schema.logging {
        Some(l) => (l.stdout.as_str().to_owned(), l.stderr.as_str().to_owned()),
        None => (NULL_DEVICE.to_owned(), NULL_DEVICE.to_owned()),
    };
    if !path_is_plain(stdout_path.as_str()) {
        return Err(nul_failure());
    }
    if !path_is_plain(stderr_path.as_str()) {
        return Err(nul_failure());
    }
    let uid: u32 = match parse_uid(schema.service.user.as_str()) {
        Some(n) => n,
        None => {
            let mut m = "user is not a numeric uid: ".to_owned();
            let q = debug_string(schema.service.user.as_str());
            push_text(&mut m, q.as_str());
            return Err(IoFailure { kind: IoKind::InvalidInput, message: m });
        },
    };
    Ok(
        SpawnPlan {
            procs_path,
            exec_path: schema.service.exec_path.as_str().to_owned(),
            args: copy_names(&schema.service.args),
            env: schema.service.env.clone(),
            uid,
            namespaces: copy_namespaces(&schema.namespaces),
            capabilities: copy_capabilities(&schema.capabilities),
            rootfs: copy_rootfs(&schema.rootfs),
            stdout_path,
            stderr_path,
        },
    )
}

} // verus!
