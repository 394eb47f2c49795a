//! What the smaller events promise: a fresh supervisor, services nobody listens to, tests, the
//! line for the log, timers and the news of the reaper.
use vstd::prelude::*;

use crate::dag::DagRuntime;
use crate::ipc::Command;
use crate::names::{texts, NameMap};
use crate::orchestration::OrchestratorState;
use crate::reactor::{
    drain_reaper_wake_pipe, has_no_timer, log_oracle_dual, names_in, sysfs_populated_label,
    wake_names, CgroupProbe, ReplyCodes, ServiceStatus, Supervisor,
};
use crate::runtime::{
    read_sysfs_cgroup_populated, validate_ipc_service_name, validate_service_id, IoFailure, IoKind,
    RuntimeContext, RuntimeError,
};
use crate::schema::ServiceSchema;
use crate::stop_ladder::{is_rmdir_ebusy, tombstone_kmsg, StopOutcome};
use crate::text::{decimal_string, hex_byte_string, split_lines, trim};

verus! {

// ---------------------------------------------------------------------------
// The beginning
// ---------------------------------------------------------------------------

/// Law: a new supervisor knows its services and their order, and holds nothing of any of them.
pub proof fn lemma_fresh_supervisor(
    schemas: NameMap<ServiceSchema>,
    dag: DagRuntime,
    r: Supervisor,
    n: Seq<char>,
    fd: i32,
)
    requires
        call_ensures(Supervisor::new, (schemas, dag), r),
    ensures
        r.schemas == schemas,
        r.dag == dag,
        !r.tombstoned@.contains(n),
        !r.dfs_proven_dead@.contains(n),
        !r.orch.running@.contains(n),
        !r.orch.starting@.contains(n),
        !r.orch.cascade_failed@.contains(n),
        !r.orch.recovering@.contains(n),
        !r.orch.circuit_origin@.contains(n),
        !r.orch.root_pids@.contains_key(n),
        !r.orch.restart_events@.contains_key(n),
        !r.orch.recovery_generation@.contains_key(n),
        !r.recovery_pending@.contains_key(n),
        !r.readiness@.contains_key(fd),
{
    assert(r@.tombstoned == r.tombstoned@);
    assert(r@.dfs_proven_dead == r.dfs_proven_dead@);
    assert(r@.recovery_pending == r.recovery_pending@);
    if r.readiness@.contains_key(fd) {
        assert(r@.readiness.contains_key(fd));
    }
}

/// Law: a new record of the services is empty.
pub proof fn lemma_fresh_record(r: OrchestratorState, n: Seq<char>)
    requires
        call_ensures(OrchestratorState::new, (), r),
    ensures
        !r.running@.contains(n),
        !r.starting@.contains(n),
        !r.cascade_failed@.contains(n),
        !r.recovering@.contains(n),
        !r.circuit_origin@.contains(n),
        !r.root_pids@.contains_key(n),
        !r.restart_events@.contains_key(n),
        !r.recovery_generation@.contains_key(n),
{
}

/// Law: a service has a tombstone exactly if it was given one.
pub proof fn lemma_tombstone_is_told(s: &Supervisor, name: &str, r: bool)
    requires
        call_ensures(Supervisor::is_tombstoned, (s, name), r),
    ensures
        r == s.tombstoned@.contains(name@),
{
}

// ---------------------------------------------------------------------------
// Starts and stops
// ---------------------------------------------------------------------------

/// Law: a service that nobody will hear of is neither starting nor running, and has no process
/// on record by that; its pipe is known, and it is no longer known to be gone.
pub proof fn lemma_unwatched_spawn(s: &mut Supervisor, name: &str, fd: i32)
    requires
        call_ensures(Supervisor::on_spawned_unwatched, (s, name, fd), ()),
    ensures
        final(s)@.orch == old(s)@.orch,
        final(s)@.tombstoned == old(s)@.tombstoned,
        final(s)@.recovery_pending == old(s)@.recovery_pending,
        !final(s)@.dfs_proven_dead.contains(name@),
        forall|m: Seq<char>|
            m != name@ ==> (#[trigger] final(s)@.dfs_proven_dead.contains(m))
                == old(s)@.dfs_proven_dead.contains(m),
        final(s)@.readiness.contains_key(fd) && final(s)@.readiness[fd] == name@,
        forall|x: i32|
            x != fd ==> (#[trigger] final(s)@.readiness.contains_key(x))
                == old(s)@.readiness.contains_key(x),
        forall|x: i32|
            x != fd && old(s)@.readiness.contains_key(x) ==> #[trigger] final(s)@.readiness[x]
                == old(s)@.readiness[x],
{
}

/// Law: a stop for a test is taken in as any other stop is, but for the tombstones, which stay
/// as they were.
pub proof fn lemma_test_stop(
    s: &mut Supervisor,
    t: &mut Supervisor,
    name: &str,
    result: &Result<StopOutcome, IoFailure>,
    o: crate::reactor::Outcome,
)
    requires
        *old(s) == *old(t),
        call_ensures(Supervisor::finish_autotest_stop, (s, name, result), ()),
        call_ensures(Supervisor::finish_stop, (t, name, result), o),
    ensures
        final(s)@.tombstoned == old(s)@.tombstoned,
        final(s)@.dfs_proven_dead == final(t)@.dfs_proven_dead,
        final(s)@.orch == final(t)@.orch,
        final(s)@.readiness == final(t)@.readiness,
        final(s)@.recovery_pending == final(t)@.recovery_pending,
        result is Ok ==> !final(s)@.orch.running.contains(name@)
            && !final(s)@.orch.starting.contains(name@) && !final(s)@.orch.root_pids.contains_key(
            name@,
        ),
        result is Err ==> final(s)@ == old(s)@,
        result == Ok::<StopOutcome, IoFailure>(StopOutcome::Dead) ==> final(s)@.dfs_proven_dead.contains(name@),
        result == Ok::<StopOutcome, IoFailure>(StopOutcome::Tombstoned) ==> final(s)@.dfs_proven_dead == old(s)@.dfs_proven_dead,
{
}

/// Law: a removal failed for want of use exactly if the directory is busy; and the line for the
/// kernel log names the service.
pub proof fn lemma_busy_and_mourned(e: &IoFailure, busy: bool, name: &str, line: String)
    requires
        call_ensures(is_rmdir_ebusy, (e,), busy),
        call_ensures(tombstone_kmsg, (name,), line),
    ensures
        busy <==> e.kind == IoKind::Busy,
        line@.len() > name@.len(),
        line@.skip(line@.len() - name@.len()) == name@,
        line@.take(line@.len() - name@.len())
            == "SYSX KERNEL_STATE_CORRUPTION: stop ladder step 5 timeout populated!=0 service="@,
{
    reveal_strlit("SYSX KERNEL_STATE_CORRUPTION: stop ladder step 5 timeout populated!=0 service=");
    assert(line@.skip(line@.len() - name@.len()) =~= name@);
    assert(line@.take(line@.len() - name@.len())
        =~= "SYSX KERNEL_STATE_CORRUPTION: stop ladder step 5 timeout populated!=0 service="@);
}

// ---------------------------------------------------------------------------
// The line for the log
// ---------------------------------------------------------------------------

/// Law: the label of a service is what reading its events says, in a word; what is no id has
/// none to read.
pub proof fn lemma_label(
    name: &str,
    read: Result<String, IoFailure>,
    valid: Result<(), RuntimeError>,
    p: Result<Option<bool>, IoFailure>,
    r: &'static str,
)
    requires
        call_ensures(validate_service_id, (name,), valid),
        call_ensures(read_sysfs_cgroup_populated, (read,), p),
        call_ensures(sysfs_populated_label, (name, read), r),
    ensures
        valid is Err ==> r@ == "na"@,
        valid is Ok && p == Ok::<Option<bool>, IoFailure>(Some(true)) ==> r@ == "1"@,
        valid is Ok && p == Ok::<Option<bool>, IoFailure>(Some(false)) ==> r@ == "0"@,
        valid is Ok && p == Ok::<Option<bool>, IoFailure>(None) ==> r@ == "none"@,
        valid is Ok && p is Err ==> r@ == "err"@,
{
}

/// Law: a status that was sent matches exactly if asking again gives the same two bytes; asking
/// changes what any question for the status changes.
pub proof fn lemma_match_is_asked_again(
    s: &mut Supervisor,
    t: &mut Supervisor,
    codes: &ReplyCodes,
    name: &str,
    probe: CgroupProbe,
    b0: u8,
    b1: u8,
    status: ServiceStatus,
    bytes: (u8, u8),
    r: u8,
)
    requires
        *old(s) == *old(t),
        call_ensures(Supervisor::status_reply, (t, name, probe), status),
        call_ensures(ReplyCodes::status_bytes, (codes, status), bytes),
        call_ensures(
            Supervisor::status_sysfs_matches_ipc,
            (s, codes, name, probe, b0, b1),
            r,
        ),
    ensures
        r == 1 <==> bytes.0 == b0 && bytes.1 == b1,
        r == 0 <==> bytes.0 != b0 || bytes.1 != b1,
        final(s)@ == final(t)@,
{
}

/// Law: what the line says: the command, the service, both bytes, the label and the match.
pub proof fn lemma_log_line(
    op: &str,
    name: &str,
    b0: u8,
    b1: u8,
    label: &str,
    m: Option<u8>,
    h0: String,
    h1: String,
    number: u64,
    digits: String,
    r: String,
)
    requires
        call_ensures(log_oracle_dual, (op, name, b0, b1, label, m), r),
        call_ensures(hex_byte_string, (b0,), h0),
        call_ensures(hex_byte_string, (b1,), h1),
        call_ensures(decimal_string, (number,), digits),
        m is Some ==> number == m->0,
    ensures
        m is None ==> r@ == "SYSX_ORACLE_DUAL op="@ + op@ + " service="@ + name@ + " ipc=S:"@ + h0@
            + ":R:"@ + h1@ + " sysfs_populated="@ + label@ + " sysfs_match="@ + "na"@ + " (11)"@,
        m is Some ==> r@ == "SYSX_ORACLE_DUAL op="@ + op@ + " service="@ + name@ + " ipc=S:"@ + h0@
            + ":R:"@ + h1@ + " sysfs_populated="@ + label@ + " sysfs_match="@ + digits@ + " (11)"@,
{
}

/// Law: the report on a request is the line with the word for its command and the label of its
/// service. For a status it tells whether asking again gives the bytes that were sent; for
/// everything else it tells no match, and changes nothing.
pub proof fn lemma_report(
    s: &mut Supervisor,
    t: &mut Supervisor,
    codes: &ReplyCodes,
    command: Command,
    name: &str,
    label: Result<String, IoFailure>,
    probe: CgroupProbe,
    b0: u8,
    b1: u8,
    word: &'static str,
    told: &'static str,
    matched: u8,
    with_match: String,
    without: String,
    r: String,
)
    requires
        *old(s) == *old(t),
        call_ensures(
            Supervisor::oracle_report,
            (s, codes, command, name, label, probe, b0, b1),
            r,
        ),
        call_ensures(Command::word, (&command,), word),
        call_ensures(sysfs_populated_label, (name, label), told),
        call_ensures(
            Supervisor::status_sysfs_matches_ipc,
            (t, codes, name, probe, b0, b1),
            matched,
        ),
        call_ensures(log_oracle_dual, (word, name, b0, b1, told, Some(matched)), with_match),
        call_ensures(log_oracle_dual, (word, name, b0, b1, told, None::<u8>), without),
    ensures
        command is Status ==> r@ == with_match@ && final(s)@ == final(t)@,
        command !is Status ==> r@ == without@ && final(s)@ == old(s)@,
{
}

// ---------------------------------------------------------------------------
// Timers
// ---------------------------------------------------------------------------

/// Law: the service of a timer is found exactly if there is one.
pub proof fn lemma_timer_is_found(s: &Supervisor, fd: i32, n: Seq<char>, r: Option<String>)
    requires
        call_ensures(Supervisor::recovery_timer_lookup, (s, fd), r),
    ensures
        s.recovery_pending@.contains_key(n) && s.recovery_pending@[n] == fd ==> r is Some,
        r is Some ==> s.recovery_pending@.contains_key(r->0@) && s.recovery_pending@[r->0@] == fd,
{
    assert(s@.recovery_pending == s.recovery_pending@);
    if r is None {
        assert(has_no_timer(s@.recovery_pending, fd));
    }
}

// ---------------------------------------------------------------------------
// The reaper
// ---------------------------------------------------------------------------

/// Law: the reaper speaks of one service on a line, white space at its ends aside; a blank line
/// names none, and lines follow each other.
pub proof fn lemma_wake_lines(
    whole: &str,
    front: &str,
    back: &str,
    r: Vec<String>,
    rf: Vec<String>,
    rb: Vec<String>,
    line: &Vec<char>,
    name: Vec<char>,
)
    requires
        call_ensures(wake_names, (whole,), r),
        call_ensures(wake_names, (front,), rf),
        call_ensures(wake_names, (back,), rb),
        call_ensures(trim, (line,), name),
    ensures
        whole@ == front@.push('\n') + back@ ==> texts(r@) == texts(rf@) + texts(rb@),
        whole@ == line@ && !line@.contains('\n') && name@.len() > 0 ==> texts(r@) == seq![name@],
        whole@ == line@ && !line@.contains('\n') && name@.len() == 0 ==> r@.len() == 0,
{
    if whole@ == front@.push('\n') + back@ {
        crate::text_laws::lemma_lines_append(front@, back@);
        lemma_names_append(split_lines(front@), split_lines(back@));
    }
    if whole@ == line@ && !line@.contains('\n') {
        crate::text_laws::lemma_one_line(line@);
        let ls = seq![line@];
        assert(ls.drop_last() =~= Seq::<Seq<char>>::empty());
        assert(names_in(ls.drop_last()) =~= Seq::<Seq<char>>::empty());
        assert(ls.last() == line@);
        assert(texts(r@).len() == r@.len());
        assert(name@.len() > 0 ==> texts(r@) =~= seq![name@]);
    }
}

proof fn lemma_names_append(a: Seq<Seq<char>>, b: Seq<Seq<char>>)
    ensures
        names_in(a + b) == names_in(a) + names_in(b),
    decreases b.len(),
{
    if b.len() == 0 {
        assert(a + b =~= a);
        assert(names_in(a + b) =~= names_in(a) + names_in(b));
    } else {
        lemma_names_append(a, b.drop_last());
        assert((a + b).drop_last() =~= a + b.drop_last());
        assert((a + b).last() == b.last());
        assert(names_in(a + b) =~= names_in(a) + names_in(b));
    }
}

/// Law: bytes out of the pipe that are text name what their text names.
pub proof fn lemma_wake_bytes(chunk: &[u8], text: &str, r: Vec<String>, named: Vec<String>)
    requires
        call_ensures(drain_reaper_wake_pipe, (chunk,), r),
        call_ensures(wake_names, (text,), named),
        vstd::utf8::valid_utf8(chunk@),
        text@ == vstd::utf8::decode_utf8(chunk@),
    ensures
        texts(r@) == texts(named@),
{
}

/// Law: for the reaper the directory of a service is swept exactly if what it named is a service
/// name.
pub proof fn lemma_reaper_target(
    rt: &RuntimeContext,
    name: &str,
    valid: Result<(), RuntimeError>,
    dir: Result<String, RuntimeError>,
    r: Option<String>,
)
    requires
        call_ensures(Supervisor::reaper_target, (rt, name), r),
        call_ensures(validate_ipc_service_name, (name,), valid),
        call_ensures(RuntimeContext::service_cgroup_path, (rt, name), dir),
    ensures
        r is Some <==> valid is Ok,
        r is Some ==> dir is Ok && r->0@ == dir->Ok_0@,
{
    if crate::schema::is_service_name(name@) {
        crate::runtime::lemma_service_name_is_id(name@);
    }
}

} // verus!
