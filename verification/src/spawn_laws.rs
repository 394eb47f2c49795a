//! What comes before a service runs, said over the fields of its definition.
use vstd::prelude::*;

use crate::cgroup_ops::{
    count_supervised_service_dirs, ensure_start_cgroup, finish_start_cgroup, services_in, DirEntry,
    StartCgroup, StartCgroupError,
};
use crate::names::texts;
use crate::runtime::{IoFailure, IoKind, RuntimeContext, RuntimeError};
use crate::runtime_laws::{lemma_plain_id, plain_id};
use crate::schema::ServiceSchema;
use crate::service_spawn::{
    apply_cgroup_limits, check_enabled, parse_uid, path_is_plain, spawn_simple_service, LimitWrite,
    SpawnPlan,
};
use crate::text::{decimal_string, parse_u64};

verus! {

// ---------------------------------------------------------------------------
// Slots
// ---------------------------------------------------------------------------

/// Whether the entry is a directory that is named like a service.
pub open spec fn is_service_dir(e: DirEntry) -> bool {
    e.is_dir && e.name is Some && plain_id(e.name->0@)
}

proof fn lemma_services_are_counted(entries: Seq<DirEntry>)
    ensures
        services_in(entries) == entries.filter(|e: DirEntry| is_service_dir(e)).len(),
    decreases entries.len(),
{
    reveal(Seq::filter);
    if entries.len() > 0 {
        lemma_services_are_counted(entries.drop_last());
        let e = entries.last();
        if e.name is Some {
            lemma_plain_id(e.name->0@);
        }
    }
}

/// Law: the slots in use are as many as there are directories of services; without a directory
/// of services there is none, and one that cannot be read is a failure.
pub proof fn lemma_slots_are_counted(
    listing: Option<Result<Vec<DirEntry>, IoFailure>>,
    r: Result<u32, IoFailure>,
)
    requires
        call_ensures(count_supervised_service_dirs, (listing,), r),
    ensures
        listing is None ==> r == Ok::<u32, IoFailure>(0),
        listing matches Some(Err(e)) ==> r == Err::<u32, IoFailure>(e),
        listing matches Some(Ok(v)) ==> (r matches Ok(n) && (v@.len() <= u32::MAX ==> n
            == v@.filter(|e: DirEntry| is_service_dir(e)).len())),
{
    if listing is Some && listing->0 is Ok {
        let v = listing->0->Ok_0@;
        lemma_services_are_counted(v);
        v.lemma_filter_len(|e: DirEntry| is_service_dir(e));
    }
}

/// Law: a service gets a new slot exactly if its name is an id, it has none yet, the slots in
/// use can be counted, and fewer are in use than are allowed. A slot that is there is kept even
/// where all are in use.
pub proof fn lemma_slot_exactly(
    rt: &RuntimeContext,
    name: &str,
    max_cgroups: u32,
    exists_already: bool,
    listing: Option<Result<Vec<DirEntry>, IoFailure>>,
    used: Result<u32, IoFailure>,
    path: Result<String, RuntimeError>,
    r: StartCgroup,
)
    requires
        call_ensures(count_supervised_service_dirs, (listing,), used),
        call_ensures(RuntimeContext::service_cgroup_path, (rt, name), path),
        call_ensures(ensure_start_cgroup, (rt, name, max_cgroups, exists_already, listing), r),
    ensures
        r is Present <==> plain_id(name@) && exists_already,
        r is Create <==> plain_id(name@) && !exists_already && used is Ok && used->Ok_0
            < max_cgroups,
        r is Create ==> path is Ok && r->path@ == path->Ok_0@,
        plain_id(name@) && !exists_already && used is Ok && used->Ok_0 >= max_cgroups ==> r
            == StartCgroup::Refused(
            StartCgroupError::AtCapacity { used: used->Ok_0, max: max_cgroups },
        ),
        plain_id(name@) && !exists_already && used is Err ==> r == StartCgroup::Refused(
            StartCgroupError::Mkdir(used->Err_0),
        ),
        !plain_id(name@) ==> r is Refused && r->Refused_0 is Mkdir && r->Refused_0->Mkdir_0.kind
            == IoKind::InvalidInput,
{
    lemma_plain_id(name@);
}

/// Law: a slot that was made, or came up meanwhile, is there; every other failure stays one.
pub proof fn lemma_slot_is_there(made: Result<(), IoFailure>, r: Result<(), StartCgroupError>)
    requires
        call_ensures(finish_start_cgroup, (made,), r),
    ensures
        r is Ok <==> made is Ok || made->Err_0.kind == IoKind::AlreadyExists,
        r is Err ==> r == Err::<(), StartCgroupError>(StartCgroupError::Mkdir(made->Err_0)),
{
}

// ---------------------------------------------------------------------------
// Limits
// ---------------------------------------------------------------------------

/// Whether `w` writes the number `text`, and a line feed, to `file` in `dir`.
pub open spec fn writes_number(
    w: LimitWrite,
    dir: Seq<char>,
    file: Seq<char>,
    text: Seq<char>,
) -> bool {
    w.path@ == dir + file && w.contents@ == text.push('\n')
}

proof fn lemma_file_in(rt: &RuntimeContext, id: Seq<char>, file: Seq<char>, slashed: Seq<char>)
    requires
        plain_id(id),
        file.len() > 0,
        file[0] != '/',
        slashed == seq!['/'] + file,
    ensures
        crate::runtime::joined(rt.service_path(id), file) == rt.service_path(id) + slashed,
{
    lemma_plain_id(id);
    crate::runtime::lemma_service_path_is_child(rt, id);
    let p = rt.service_path(id);
    assert(p.last() == id.last());
    assert(id[id.len() - 1] != '/');
    assert(p.push('/') + file =~= p + slashed);
}

/// Law: a limit is written exactly for what the definition bounds, to the file of that bound in
/// the directory of the service. Processes and weight are written as they are; a mebibyte is
/// 1048576 bytes.
pub proof fn lemma_limits_exactly(
    rt: &RuntimeContext,
    schema: &ServiceSchema,
    name: &str,
    dir: Result<String, RuntimeError>,
    number: u64,
    text: String,
    r: Result<Vec<LimitWrite>, IoFailure>,
)
    requires
        name@ == schema.service.name@,
        call_ensures(RuntimeContext::service_cgroup_path, (rt, name), dir),
        call_ensures(decimal_string, (number,), text),
        call_ensures(apply_cgroup_limits, (rt, schema), r),
    ensures
        r is Ok <==> plain_id(name@),
        r is Ok ==> ({
            let w = r->Ok_0@;
            let d = dir->Ok_0@;
            let p: int = if schema.pids is Some {
                1
            } else {
                0
            };
            let m: int = if schema.memory is Some {
                2
            } else {
                0
            };
            &&& w.len() == p + m + (if schema.cpu is Some {
                1int
            } else {
                0int
            })
            &&& schema.pids is Some && number == schema.pids->0.max ==> writes_number(
                w[0],
                d,
                "/pids.max"@,
                text@,
            )
            &&& schema.memory is Some && number == schema.memory->0.max_mb * 1048576
                ==> writes_number(w[p], d, "/memory.max"@, text@)
            &&& schema.memory is Some && number == schema.memory->0.swap_mb * 1048576
                ==> writes_number(w[p + 1], d, "/memory.swap.max"@, text@)
            &&& schema.cpu is Some && number == schema.cpu->0.weight ==> writes_number(
                w[p + m],
                d,
                "/cpu.weight"@,
                text@,
            )
        }),
        r is Err ==> r->Err_0.kind == IoKind::InvalidInput,
{
    lemma_plain_id(name@);
    if plain_id(name@) {
        reveal_strlit("pids.max");
        reveal_strlit("/pids.max");
        reveal_strlit("memory.max");
        reveal_strlit("/memory.max");
        reveal_strlit("memory.swap.max");
        reveal_strlit("/memory.swap.max");
        reveal_strlit("cpu.weight");
        reveal_strlit("/cpu.weight");
        reveal_strlit("\n");
        assert("/pids.max"@ =~= seq!['/'] + "pids.max"@);
        assert("/memory.max"@ =~= seq!['/'] + "memory.max"@);
        assert("/memory.swap.max"@ =~= seq!['/'] + "memory.swap.max"@);
        assert("/cpu.weight"@ =~= seq!['/'] + "cpu.weight"@);
        lemma_file_in(rt, name@, "pids.max"@, "/pids.max"@);
        lemma_file_in(rt, name@, "memory.max"@, "/memory.max"@);
        lemma_file_in(rt, name@, "memory.swap.max"@, "/memory.swap.max"@);
        lemma_file_in(rt, name@, "cpu.weight"@, "/cpu.weight"@);
        assert(text@ + "\n"@ =~= text@.push('\n'));
    }
}

// ---------------------------------------------------------------------------
// Users, paths and the plan
// ---------------------------------------------------------------------------

/// Law: a user is a number that fits into 32 bits.
pub proof fn lemma_users(user: &str, chars: &Vec<char>, n: Option<u64>, r: Option<u32>)
    requires
        chars@ == user@,
        call_ensures(parse_u64, (chars,), n),
        call_ensures(parse_uid, (user,), r),
    ensures
        r is Some <==> n is Some && n->0 <= 0xffff_ffff,
        r is Some ==> r->0 == n->0,
{
}

/// Law: a path is plain exactly if none of its characters is zero.
pub proof fn lemma_plain_paths(path: &str, i: int, r: bool)
    requires
        call_ensures(path_is_plain, (path,), r),
    ensures
        0 <= i < path@.len() && path@[i] as int == 0 ==> !r,
        !r ==> path@.contains('\0'),
{
    if 0 <= i < path@.len() && path@[i] as int == 0 {
        assert(path@[i] == '\0');
        assert(path@.contains('\0'));
    }
}

/// Law: a service that is switched off is refused, and no other is.
pub proof fn lemma_switched_off(schema: &ServiceSchema, r: Result<(), IoFailure>)
    requires
        call_ensures(check_enabled, (schema,), r),
    ensures
        r is Ok <==> schema.enabled,
        r is Err ==> r->Err_0.kind == IoKind::InvalidInput,
{
}

/// Law: the plan of a start takes everything over that the definition says: the program and its
/// arguments, environment, user, namespaces, capabilities and view of the file system. Output
/// goes where the definition sends it, and else to `/dev/null`; and the child enters the group
/// of its own service.
pub proof fn lemma_plan_is_the_definition(
    rt: &RuntimeContext,
    schema: &ServiceSchema,
    exec_is_file: bool,
    name: &str,
    dir: Result<String, RuntimeError>,
    user: &str,
    uid: Option<u32>,
    r: Result<SpawnPlan, IoFailure>,
)
    requires
        name@ == schema.service.name@,
        call_ensures(RuntimeContext::service_cgroup_path, (rt, name), dir),
        user@ == schema.service.user@,
        call_ensures(parse_uid, (user,), uid),
        call_ensures(spawn_simple_service, (rt, schema, exec_is_file), r),
        r is Ok,
    ensures
        dir is Ok && r->Ok_0.procs_path@ == dir->Ok_0@ + "/cgroup.procs"@,
        r->Ok_0.exec_path@ == schema.service.exec_path@,
        texts(r->Ok_0.args@) == texts(schema.service.args@),
        r->Ok_0.env@ == schema.service.env@,
        uid == Some(r->Ok_0.uid),
        r->Ok_0.namespaces == schema.namespaces,
        (r->Ok_0.capabilities is Some) == (schema.capabilities is Some),
        schema.capabilities is Some ==> texts(r->Ok_0.capabilities->0.keep@) == texts(
            schema.capabilities->0.keep@,
        ),
        (r->Ok_0.rootfs is Some) == (schema.rootfs is Some),
        schema.rootfs is Some ==> {
            let a = r->Ok_0.rootfs->0;
            let b = schema.rootfs->0;
            &&& a.read_only == b.read_only
            &&& (a.tmpfs is Some) == (b.tmpfs is Some)
            &&& b.tmpfs is Some ==> a.tmpfs->0@ == b.tmpfs->0@
        },
        r->Ok_0.stdout_path@ == (if schema.logging is Some {
            schema.logging->0.stdout@
        } else {
            "/dev/null"@
        }),
        r->Ok_0.stderr_path@ == (if schema.logging is Some {
            schema.logging->0.stderr@
        } else {
            "/dev/null"@
        }),
{
    lemma_plain_id(name@);
    reveal_strlit("cgroup.procs");
    reveal_strlit("/cgroup.procs");
    assert("/cgroup.procs"@ =~= seq!['/'] + "cgroup.procs"@);
    lemma_file_in(rt, name@, "cgroup.procs"@, "/cgroup.procs"@);
}

/// Law: a start is planned exactly if the service is switched on, its name is an id, its program
/// is there, its user is a number of a user, and no path that is handed on holds a zero
/// character.
pub proof fn lemma_plan_exactly(
    rt: &RuntimeContext,
    schema: &ServiceSchema,
    exec_is_file: bool,
    name: &str,
    dir: Result<String, RuntimeError>,
    user: &str,
    uid: Option<u32>,
    r: Result<SpawnPlan, IoFailure>,
)
    requires
        name@ == schema.service.name@,
        call_ensures(RuntimeContext::service_cgroup_path, (rt, name), dir),
        user@ == schema.service.user@,
        call_ensures(parse_uid, (user,), uid),
        call_ensures(spawn_simple_service, (rt, schema, exec_is_file), r),
    ensures
        r is Ok <==> {
            &&& schema.enabled
            &&& plain_id(name@)
            &&& exec_is_file
            &&& uid is Some
            &&& !dir->Ok_0@.contains('\0')
            &&& schema.logging is Some ==> !schema.logging->0.stdout@.contains('\0')
                && !schema.logging->0.stderr@.contains('\0')
        },
        r is Err && schema.enabled && plain_id(name@) && !dir->Ok_0@.contains('\0')
            && !exec_is_file ==> r->Err_0.kind == IoKind::NotFound,
        r is Err && exec_is_file ==> r->Err_0.kind == IoKind::InvalidInput,
{
    lemma_plain_id(name@);
    reveal_strlit("/dev/null");
    assert(!"/dev/null"@.contains('\0')) by {
        if "/dev/null"@.contains('\0') {
            let i = "/dev/null"@.index_of('\0');
            assert(0 <= i < 9 && "/dev/null"@[i] == '\0');
        }
    }
    if plain_id(name@) {
        reveal_strlit("cgroup.procs");
        reveal_strlit("/cgroup.procs");
        assert("/cgroup.procs"@ =~= seq!['/'] + "cgroup.procs"@);
        lemma_file_in(rt, name@, "cgroup.procs"@, "/cgroup.procs"@);
        let d = rt.service_path(name@);
        let s = d + "/cgroup.procs"@;
        if d.contains('\0') {
            assert(s[d.index_of('\0')] == '\0');
        }
        if s.contains('\0') {
            let i = s.index_of('\0');
            if i >= d.len() {
                assert("/cgroup.procs"@[i - d.len()] == '\0');
            } else {
                assert(d[i] == '\0');
            }
        }
    }
}

} // verus!
