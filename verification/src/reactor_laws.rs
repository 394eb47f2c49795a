//! What the supervisor promises, request by request and event by event.
use vstd::prelude::*;

use crate::ipc::{Command, Header};
use crate::orchestration::OrchView;
use crate::reactor::{
    CgroupProbe, Dispatch, EventSource, Outcome, ReadinessRead, ReadinessStep, ReplyCodes,
    ServiceStatus, SpawnDenial, StartResult, Supervisor, SupervisorView,
};
use crate::recovery::Moment;
use crate::runtime::{IoFailure, IoKind, RuntimeContext};
use crate::schema::{RecoveryMode, RecoveryPolicy};
use crate::stop_ladder::StopOutcome;
use crate::terminal_broadcast::TerminalBroadcastKind;

verus! {

// ---------------------------------------------------------------------------
// Words for the laws
// ---------------------------------------------------------------------------

/// Whether a request names the service `name`: its payload is the name in UTF-8, and the name
/// is one to thirty-two lower-case letters, digits, `_` or `-`.
pub open spec fn names_service(hdr: &Header, payload: Seq<u8>, name: Seq<char>) -> bool {
    &&& hdr.payload_length > 0
    &&& payload.len() > 0
    &&& vstd::utf8::valid_utf8(payload)
    &&& vstd::utf8::decode_utf8(payload) == name
    &&& 1 <= name.len() <= 32
    &&& forall|i: int|
        0 <= i < name.len() ==> {
            let c = #[trigger] name[i];
            ('a' <= c && c <= 'z') || ('0' <= c && c <= '9') || c == '_' || c == '-'
        }
}

/// Whether `r` is the answer `outcome` to `command` about the service `name`.
pub open spec fn replies(r: Dispatch, c: Command, o: Outcome, name: Seq<char>) -> bool {
    r matches Dispatch::Reply { command, outcome, about } && command == c && outcome == o && (
    about matches Some(n) && n@ == name)
}

/// Whether nothing that is known of any service but `name` differs.
pub open spec fn same_but_for(
    before: SupervisorView,
    after: SupervisorView,
    name: Seq<char>,
) -> bool {
    forall|m: Seq<char>| #![trigger before.orch.running.contains(m)]
        #![trigger after.orch.running.contains(m)]
        #![trigger after.orch.cascade_failed.contains(m)]
        m != name ==> {
            &&& after.tombstoned.contains(m) == before.tombstoned.contains(m)
            &&& after.dfs_proven_dead.contains(m) == before.dfs_proven_dead.contains(m)
            &&& after.orch.running.contains(m) == before.orch.running.contains(m)
            &&& after.orch.starting.contains(m) == before.orch.starting.contains(m)
            &&& after.orch.cascade_failed.contains(m) == before.orch.cascade_failed.contains(m)
            &&& after.orch.recovering.contains(m) == before.orch.recovering.contains(m)
            &&& after.orch.circuit_origin.contains(m) == before.orch.circuit_origin.contains(m)
            &&& after.orch.root_pids.contains_key(m) == before.orch.root_pids.contains_key(m)
            &&& before.orch.root_pids.contains_key(m) ==> after.orch.root_pids[m]
                == before.orch.root_pids[m]
            &&& after.orch.recovery_generation.contains_key(m)
                == before.orch.recovery_generation.contains_key(m)
            &&& before.orch.recovery_generation.contains_key(m)
                ==> after.orch.recovery_generation[m] == before.orch.recovery_generation[m]
            &&& after.orch.restart_events.contains_key(m)
                == before.orch.restart_events.contains_key(m)
            &&& before.orch.restart_events.contains_key(m) ==> after.orch.restart_events[m]
                == before.orch.restart_events[m]
            &&& after.recovery_pending.contains_key(m) == before.recovery_pending.contains_key(m)
            &&& before.recovery_pending.contains_key(m) ==> after.recovery_pending[m]
                == before.recovery_pending[m]
        }
}

/// Whether every service that `name` declares to depend on runs, and none of them has failed.
pub open spec fn dependencies_run(s: &Supervisor, name: Seq<char>) -> bool {
    forall|i: int|
        0 <= i < s.schemas@[name].depends_on@.len() ==> {
            let d = (#[trigger] s.schemas@[name].depends_on@[i])@;
            s.orch.running@.contains(d) && !s.orch.cascade_failed@.contains(d)
        }
}

/// Whether the first dependency of `name` that stands in the way has failed.
pub open spec fn failed_upstream_first(s: &Supervisor, name: Seq<char>) -> bool {
    exists|i: int| #![trigger s.schemas@[name].depends_on@[i]]
        0 <= i < s.schemas@[name].depends_on@.len() && s.orch.cascade_failed@.contains(
            s.schemas@[name].depends_on@[i]@,
        ) && forall|j: int| 0 <= j < i ==> {
            let d = (#[trigger] s.schemas@[name].depends_on@[j])@;
            s.orch.running@.contains(d) && !s.orch.cascade_failed@.contains(d)
        }
}

proof fn lemma_named(hdr: &Header, payload: Seq<u8>, name: Seq<char>)
    ensures
        names_service(hdr, payload, name) <==> crate::reactor::requested_name(
            hdr.payload_length,
            payload,
        ) == Some(name),
{
    if names_service(hdr, payload, name) {
        assert forall|i: int| 0 <= i < name.len() implies crate::schema::is_name_char(
            #[trigger] name[i],
        ) by {}
    }
    if crate::reactor::requested_name(hdr.payload_length, payload) == Some(name) {
        assert forall|i: int| 0 <= i < name.len() implies {
            let c = #[trigger] name[i];
            ('a' <= c && c <= 'z') || ('0' <= c && c <= '9') || c == '_' || c == '-'
        } by {
            assert(crate::schema::is_name_char(name[i]));
        }
    }
}

proof fn lemma_blocks(s: &Supervisor, name: Seq<char>)
    requires
        s.schemas@.contains_key(name),
    ensures
        (s.start_block(name) is None) == dependencies_run(s, name),
        (s.start_block(name) == Some(crate::reactor::StartBlock::UpstreamFailed))
            == failed_upstream_first(s, name),
{
    let deps = crate::names::texts(s.schemas@[name].depends_on@);
    let failed = s.orch.cascade_failed@;
    let running = s.orch.running@;
    crate::reactor::lemma_first_block(deps, failed, running);
    assert(deps.len() == s.schemas@[name].depends_on@.len());
    assert forall|i: int| 0 <= i < deps.len() implies #[trigger] deps[i]
        == s.schemas@[name].depends_on@[i]@ by {}
    if s.start_block(name) is None {
        assert forall|i: int| 0 <= i < s.schemas@[name].depends_on@.len() implies {
            let d = (#[trigger] s.schemas@[name].depends_on@[i])@;
            running.contains(d) && !failed.contains(d)
        } by {
            assert(deps[i] == s.schemas@[name].depends_on@[i]@);
        }
    } else {
        let i = choose|i: int| 0 <= i < deps.len() && crate::reactor::is_first_block(
            deps,
            failed,
            running,
            i,
        );
        assert(crate::reactor::is_first_block(deps, failed, running, i));
        assert(deps[i] == s.schemas@[name].depends_on@[i]@);
        assert forall|j: int| 0 <= j < i implies {
            let d = (#[trigger] s.schemas@[name].depends_on@[j])@;
            running.contains(d) && !failed.contains(d)
        } by {
            assert(deps[j] == s.schemas@[name].depends_on@[j]@);
        }
        if failed_upstream_first(s, name) {
            let k = choose|k: int| #![trigger s.schemas@[name].depends_on@[k]]
                0 <= k < s.schemas@[name].depends_on@.len() && failed.contains(
                    s.schemas@[name].depends_on@[k]@,
                ) && forall|j: int| 0 <= j < k ==> {
                    let d = (#[trigger] s.schemas@[name].depends_on@[j])@;
                    running.contains(d) && !failed.contains(d)
                };
            assert(i == k) by {
                if i < k {
                    let d = s.schemas@[name].depends_on@[i]@;
                    assert(running.contains(d) && !failed.contains(d));
                }
                if k < i {
                    let d = s.schemas@[name].depends_on@[k]@;
                    assert(running.contains(d) && !failed.contains(d));
                }
            }
        }
    }
}

// ---------------------------------------------------------------------------
// Requests
// ---------------------------------------------------------------------------

/// Law: a start is let through exactly if the service is known, has no tombstone, is neither
/// recovering nor failed, and everything that it depends on runs and has not failed. Nothing
/// else that is known of the service matters. A tombstone is answered as such, and everything
/// else that stands in the way as a conflict.
pub proof fn lemma_start_exactly_if_allowed(
    s: &mut Supervisor,
    rt: &RuntimeContext,
    hdr: &Header,
    payload: &[u8],
    name: Seq<char>,
    r: Dispatch,
)
    requires
        call_ensures(Supervisor::dispatch_ipc, (s, rt, hdr, payload), r),
        hdr.command == Command::Start,
        names_service(hdr, payload@, name),
    ensures
        ({
            let allowed = old(s).schemas@.contains_key(name) && !old(s).tombstoned@.contains(name)
                && !old(s).orch.recovering@.contains(name)
                && !old(s).orch.cascade_failed@.contains(name) && dependencies_run(old(s), name);
            &&& allowed ==> (r matches Dispatch::Start { name: n } && n@ == name)
            &&& !allowed && old(s).tombstoned@.contains(name) ==> replies(
                r,
                Command::Start,
                Outcome::Tombstoned,
                name,
            )
            &&& !allowed && !old(s).tombstoned@.contains(name) ==> replies(
                r,
                Command::Start,
                Outcome::EpistemicConflict,
                name,
            )
        }),
{
    lemma_named(hdr, payload@, name);
    if old(s).schemas@.contains_key(name) {
        lemma_blocks(old(s), name);
    }
}

/// Law: a request for a start leaves everything as it was, except that a service whose first
/// obstacle is a failed dependency fails itself, with exactly the services that hang on it.
pub proof fn lemma_start_changes_only_failures(
    s: &mut Supervisor,
    rt: &RuntimeContext,
    hdr: &Header,
    payload: &[u8],
    name: Seq<char>,
    r: Dispatch,
)
    requires
        call_ensures(Supervisor::dispatch_ipc, (s, rt, hdr, payload), r),
        hdr.command == Command::Start,
        names_service(hdr, payload@, name),
    ensures
        ({
            let fails = old(s).schemas@.contains_key(name) && !old(s).tombstoned@.contains(name)
                && !old(s).orch.recovering@.contains(name)
                && !old(s).orch.cascade_failed@.contains(name) && failed_upstream_first(
                old(s),
                name,
            );
            &&& !fails ==> final(s)@ == old(s)@
            &&& fails ==> crate::orchestration::fails_with_dependents(
                &old(s).dag,
                old(s)@.orch,
                final(s)@.orch,
                name,
            )
            &&& final(s)@.orch.circuit_origin == old(s)@.orch.circuit_origin
            &&& final(s)@.tombstoned == old(s)@.tombstoned
            &&& final(s)@.dfs_proven_dead == old(s)@.dfs_proven_dead
            &&& final(s)@.recovery_pending == old(s)@.recovery_pending
            &&& final(s)@.readiness == old(s)@.readiness
        }),
{
    lemma_named(hdr, payload@, name);
    if old(s).schemas@.contains_key(name) {
        lemma_blocks(old(s), name);
    }
    crate::orchestration::lemma_failing_is_cascade(&old(s).dag, old(s)@.orch, name);
}

/// Law: a stop is carried out unless the service has a tombstone, which is the answer then. It
/// does not matter whether the service is known, runs or has failed. Nothing changes yet.
pub proof fn lemma_stop_exactly_without_tombstone(
    s: &mut Supervisor,
    rt: &RuntimeContext,
    hdr: &Header,
    payload: &[u8],
    name: Seq<char>,
    r: Dispatch,
)
    requires
        call_ensures(Supervisor::dispatch_ipc, (s, rt, hdr, payload), r),
        hdr.command == Command::Stop,
        names_service(hdr, payload@, name),
    ensures
        old(s).tombstoned@.contains(name) ==> replies(
            r,
            Command::Stop,
            Outcome::Tombstoned,
            name,
        ),
        !old(s).tombstoned@.contains(name) ==> (r matches Dispatch::Stop { name: n } && n@ == name),
        final(s)@ == old(s)@,
{
    lemma_named(hdr, payload@, name);
}

/// Law: a reset is carried out exactly on a tombstone, and sweeps the service's own directory:
/// the directory of all services, a slash and the name. Nothing changes yet.
pub proof fn lemma_reset_exactly_on_tombstone(
    s: &mut Supervisor,
    rt: &RuntimeContext,
    hdr: &Header,
    payload: &[u8],
    name: Seq<char>,
    r: Dispatch,
)
    requires
        call_ensures(Supervisor::dispatch_ipc, (s, rt, hdr, payload), r),
        hdr.command == Command::Reset,
        names_service(hdr, payload@, name),
    ensures
        !old(s).tombstoned@.contains(name) ==> replies(
            r,
            Command::Reset,
            Outcome::EpistemicConflict,
            name,
        ),
        old(s).tombstoned@.contains(name) ==> (r matches Dispatch::Reset { name: n, path } && n@
            == name && path@ == rt.service_path(name)),
        final(s)@ == old(s)@,
{
    lemma_named(hdr, payload@, name);
}

/// Law: a question for the status is always looked up, and changes nothing yet.
pub proof fn lemma_status_always_looked_up(
    s: &mut Supervisor,
    rt: &RuntimeContext,
    hdr: &Header,
    payload: &[u8],
    name: Seq<char>,
    r: Dispatch,
)
    requires
        call_ensures(Supervisor::dispatch_ipc, (s, rt, hdr, payload), r),
        hdr.command == Command::Status,
        names_service(hdr, payload@, name),
    ensures
        r matches Dispatch::Status { name: n } && n@ == name,
        final(s)@ == old(s)@,
{
    lemma_named(hdr, payload@, name);
}

/// Law: a command to the machine is carried out exactly if it comes without a payload; it ends
/// in what was asked for, whatever state the services are in.
pub proof fn lemma_power_exactly_without_payload(
    s: &mut Supervisor,
    rt: &RuntimeContext,
    hdr: &Header,
    payload: &[u8],
    r: Dispatch,
)
    requires
        call_ensures(Supervisor::dispatch_ipc, (s, rt, hdr, payload), r),
        hdr.command == Command::Poweroff || hdr.command == Command::Reboot,
    ensures
        ({
            let bare = hdr.payload_length == 0 && payload@.len() == 0;
            &&& bare && hdr.command == Command::Poweroff ==> r == (Dispatch::Broadcast {
                command: Command::Poweroff,
                kind: TerminalBroadcastKind::Poweroff,
            })
            &&& bare && hdr.command == Command::Reboot ==> r == (Dispatch::Broadcast {
                command: Command::Reboot,
                kind: TerminalBroadcastKind::Reboot,
            })
            &&& !bare ==> (r matches Dispatch::Reply { command, outcome, about } && command
                == Command::Start && outcome == Outcome::WireParse && about is None)
            &&& final(s)@ == old(s)@
        }),
{
}

/// Law: a request about a service that names none is malformed, and every other is not.
pub proof fn lemma_malformed_exactly_without_name(
    s: &mut Supervisor,
    rt: &RuntimeContext,
    hdr: &Header,
    payload: &[u8],
    r: Dispatch,
)
    requires
        call_ensures(Supervisor::dispatch_ipc, (s, rt, hdr, payload), r),
        hdr.command != Command::Poweroff,
        hdr.command != Command::Reboot,
    ensures
        (r matches Dispatch::Reply { command, outcome, about } && outcome == Outcome::WireParse)
            == !(exists|name: Seq<char>| names_service(hdr, payload@, name)),
        (r matches Dispatch::Reply { command, outcome, about } && outcome == Outcome::WireParse)
            ==> (r matches Dispatch::Reply { command, outcome, about } && command == Command::Start
            && about is None && final(s)@ == old(s)@),
{
    let wanted = crate::reactor::requested_name(hdr.payload_length, payload@);
    if wanted is Some {
        lemma_named(hdr, payload@, wanted->0);
    }
    if exists|name: Seq<char>| names_service(hdr, payload@, name) {
        let name = choose|name: Seq<char>| names_service(hdr, payload@, name);
        lemma_named(hdr, payload@, name);
    }
}

// ---------------------------------------------------------------------------
// Status
// ---------------------------------------------------------------------------

/// Whether nothing that outranks the cgroup tree is known of `name`, and `name` has a directory.
pub open spec fn told_by_the_tree(s: &Supervisor, name: Seq<char>) -> bool {
    &&& !s.tombstoned@.contains(name)
    &&& !s.orch.cascade_failed@.contains(name)
    &&& !s.orch.recovering@.contains(name)
    &&& name.len() > 0
    &&& forall|i: int| 0 <= i < name.len() ==> #[trigger] name[i] != '/'
    &&& forall|i: int|
        0 <= i < name.len() - 1 ==> !(#[trigger] name[i] == '.' && name[i + 1] == '.')
}

/// Law: with the directory there and processes in it a service runs; without processes it is
/// being swept; and if the tree does not tell, it is offline. Which services announced readiness,
/// or were spawned, does not matter.
pub proof fn lemma_live_service_is_running(
    s: &mut Supervisor,
    name: &str,
    probe: CgroupProbe,
    r: ServiceStatus,
)
    requires
        call_ensures(Supervisor::status_reply, (s, name, probe), r),
        told_by_the_tree(old(s), name@),
        probe.dir_exists,
    ensures
        (r is Running) == (probe.events matches Ok(t) && crate::runtime::populated_in(t@) == Some(
            true,
        )),
        (r is Sweeping) == (probe.events matches Ok(t) && crate::runtime::populated_in(t@) == Some(
            false,
        )),
        r is Running || r is Sweeping || r is Offline,
{
    assert(crate::runtime::is_service_id(name@)) by {
        if name@.contains('/') {
            assert(name@[name@.index_of('/')] == '/');
        }
    }
}

/// Law: without its directory a service is dead if it was seen to go, and else offline, whatever
/// else is known of it.
pub proof fn lemma_gone_service_is_dead_or_offline(
    s: &mut Supervisor,
    name: &str,
    probe: CgroupProbe,
    r: ServiceStatus,
)
    requires
        call_ensures(Supervisor::status_reply, (s, name, probe), r),
        told_by_the_tree(old(s), name@),
        !probe.dir_exists,
    ensures
        old(s).dfs_proven_dead@.contains(name@) ==> r is Dead,
        !old(s).dfs_proven_dead@.contains(name@) ==> r is Offline,
{
    assert(crate::runtime::is_service_id(name@)) by {
        if name@.contains('/') {
            assert(name@[name@.index_of('/')] == '/');
        }
    }
}

/// Law: a tombstone outranks a failure, a failure a restart that is scheduled, and that the
/// cgroup tree. An open circuit is told from a failure of another service.
pub proof fn lemma_status_ranks(
    s: &mut Supervisor,
    name: &str,
    probe: CgroupProbe,
    r: ServiceStatus,
)
    requires
        call_ensures(Supervisor::status_reply, (s, name, probe), r),
    ensures
        (r is Tombstoned) == old(s).tombstoned@.contains(name@),
        (r is FailedCircuitOpen) == (!old(s).tombstoned@.contains(name@) && old(s).orch.cascade_failed@.contains(name@) && old(s).orch.circuit_origin@.contains(name@)),
        (r is FailedOrphaned) == (!old(s).tombstoned@.contains(name@) && old(s).orch.cascade_failed@.contains(name@) && !old(s).orch.circuit_origin@.contains(name@)),
        (r is Recovering) == (!old(s).tombstoned@.contains(name@) && !old(s).orch.cascade_failed@.contains(name@) && old(s).orch.recovering@.contains(name@)),
        !told_by_the_tree(old(s), name@) && (r is Running || r is Sweeping || r is Dead) ==> false,
{
    if crate::runtime::is_service_id(name@) {
        assert forall|i: int| 0 <= i < name@.len() implies #[trigger] name@[i] != '/' by {
            if name@[i] == '/' {
                assert(name@.contains('/'));
            }
        }
    }
}

/// Law: two supervisors that agree on the tombstone, the failure, the recovery and the end of a
/// service give the same status of it for the same state of the tree.
pub proof fn lemma_status_depends_on_nothing_else(
    s: &mut Supervisor,
    t: &mut Supervisor,
    name: &str,
    p: CgroupProbe,
    q: CgroupProbe,
    a: ServiceStatus,
    b: ServiceStatus,
)
    requires
        call_ensures(Supervisor::status_reply, (s, name, p), a),
        call_ensures(Supervisor::status_reply, (t, name, q), b),
        p.dir_exists == q.dir_exists,
        p.events == q.events,
        old(s).tombstoned@.contains(name@) == old(t).tombstoned@.contains(name@),
        old(s).dfs_proven_dead@.contains(name@) == old(t).dfs_proven_dead@.contains(name@),
        old(s).orch.cascade_failed@.contains(name@) == old(t).orch.cascade_failed@.contains(name@),
        old(s).orch.circuit_origin@.contains(name@) == old(t).orch.circuit_origin@.contains(name@),
        old(s).orch.recovering@.contains(name@) == old(t).orch.recovering@.contains(name@),
    ensures
        a == b,
{
}

/// Law: giving a status changes nothing but this: a directory that is there is no longer taken
/// for gone.
pub proof fn lemma_status_keeps_the_rest(
    s: &mut Supervisor,
    name: &str,
    probe: CgroupProbe,
    r: ServiceStatus,
)
    requires
        call_ensures(Supervisor::status_reply, (s, name, probe), r),
    ensures
        final(s)@.tombstoned == old(s)@.tombstoned,
        final(s)@.orch == old(s)@.orch,
        final(s)@.readiness == old(s)@.readiness,
        final(s)@.recovery_pending == old(s)@.recovery_pending,
        forall|m: Seq<char>| #[trigger]
            final(s).dfs_proven_dead@.contains(m) == (old(s).dfs_proven_dead@.contains(m) && !(m
                == name@ && probe.dir_exists && told_by_the_tree(old(s), name@))),
{
    if crate::runtime::is_service_id(name@) {
        assert forall|i: int| 0 <= i < name@.len() implies #[trigger] name@[i] != '/' by {
            if name@[i] == '/' {
                assert(name@.contains('/'));
            }
        }
    }
    if told_by_the_tree(old(s), name@) {
        if name@.contains('/') {
            assert(name@[name@.index_of('/')] == '/');
        }
        assert(crate::runtime::is_service_id(name@));
    }
    assert(old(s)@.dfs_proven_dead == old(s).dfs_proven_dead@);
    assert(final(s)@.dfs_proven_dead == final(s).dfs_proven_dead@);
}

// ---------------------------------------------------------------------------
// What came of a request
// ---------------------------------------------------------------------------

/// Law: a stop that found or left nothing succeeds: the service is known to be gone, without
/// tombstone, and neither runs nor starts. One that timed out leaves a tombstone. A stop that
/// failed changes nothing. No other service is touched.
pub proof fn lemma_stop_is_taken_in(
    s: &mut Supervisor,
    name: &str,
    result: &Result<StopOutcome, IoFailure>,
    r: Outcome,
)
    requires
        call_ensures(Supervisor::finish_stop, (s, name, result), r),
    ensures
        result is Err ==> r == Outcome::EpistemicConflict && final(s)@ == old(s)@,
        result is Ok ==> same_but_for(old(s)@, final(s)@, name@),
        result is Ok ==> !final(s).orch.running@.contains(name@)
            && !final(s).orch.starting@.contains(name@) && !final(s).orch.root_pids@.contains_key(name@),
        (result matches Ok(o) && o != StopOutcome::Tombstoned) ==> r == Outcome::Success
            && final(s).dfs_proven_dead@.contains(name@) && !final(s).tombstoned@.contains(name@),
        (result matches Ok(o) && o == StopOutcome::Tombstoned) ==> r == Outcome::Tombstoned
            && final(s).tombstoned@.contains(name@) && final(s).dfs_proven_dead@.contains(name@)
            == old(s).dfs_proven_dead@.contains(name@),
        final(s).orch.cascade_failed@ == old(s).orch.cascade_failed@,
        final(s).orch.circuit_origin@ == old(s).orch.circuit_origin@,
        final(s).orch.recovering@ == old(s).orch.recovering@,
        final(s)@.readiness == old(s)@.readiness,
        final(s)@.recovery_pending == old(s)@.recovery_pending,
        final(s)@.orch.restart_events == old(s)@.orch.restart_events,
        final(s)@.orch.recovery_generation == old(s)@.orch.recovery_generation,
{
    assert(final(s)@.orch.running == final(s).orch.running@);
}

/// Law: a service that was stopped can be started again by a request, if nothing but its stop
/// has happened and what it depends on runs.
pub proof fn lemma_stopped_service_starts_again(
    s: &mut Supervisor,
    name: &str,
    result: &Result<StopOutcome, IoFailure>,
    stopped: Outcome,
    t: &mut Supervisor,
    rt: &RuntimeContext,
    hdr: &Header,
    payload: &[u8],
    r: Dispatch,
)
    requires
        call_ensures(Supervisor::finish_stop, (s, name, result), stopped),
        result matches Ok(o) && o != StopOutcome::Tombstoned,
        *final(s) == *old(t),
        call_ensures(Supervisor::dispatch_ipc, (t, rt, hdr, payload), r),
        hdr.command == Command::Start,
        names_service(hdr, payload@, name@),
        old(s).schemas@.contains_key(name@),
        !old(s).orch.recovering@.contains(name@),
        !old(s).orch.cascade_failed@.contains(name@),
        dependencies_run(old(s), name@),
        forall|i: int|
            0 <= i < old(s).schemas@[name@].depends_on@.len() ==> (#[trigger] old(s).schemas@[name@].depends_on@[i])@ != name@,
    ensures
        r matches Dispatch::Start { name: n } && n@ == name@,
{
    assert(old(t).schemas@ == old(s).schemas@);
    assert(old(t)@.orch.running == old(s)@.orch.running.remove(name@));
    assert forall|i: int| 0 <= i < old(t).schemas@[name@].depends_on@.len() implies {
        let d = (#[trigger] old(t).schemas@[name@].depends_on@[i])@;
        old(t).orch.running@.contains(d) && !old(t).orch.cascade_failed@.contains(d)
    } by {
        let d = old(s).schemas@[name@].depends_on@[i]@;
        assert(old(s).orch.running@.contains(d) && !old(s).orch.cascade_failed@.contains(d));
        assert(old(t)@.orch.running.contains(d));
    }
    lemma_start_exactly_if_allowed(t, rt, hdr, payload, name@, r);
}

/// Law: a start succeeds exactly if the service was spawned, or has a slot and no definition. A
/// service that was spawned is starting, its process is on record, its pipe is awaited, and it
/// is not taken for gone. Whatever fails changes nothing. No other service is touched.
pub proof fn lemma_start_is_taken_in(
    s: &mut Supervisor,
    name: &str,
    result: &StartResult,
    r: Outcome,
)
    requires
        call_ensures(Supervisor::finish_start, (s, name, result), r),
    ensures
        (r == Outcome::Success) == (result is Spawned || result is NoSchema),
        (r == Outcome::CgroupCapacity) == (result matches StartResult::Refused(e)
            && e is AtCapacity),
        r == Outcome::Success || r == Outcome::CgroupCapacity || r == Outcome::EpistemicConflict,
        !(result is Spawned) && !(result is NoSchema) ==> final(s)@ == old(s)@,
        same_but_for(old(s)@, final(s)@, name@),
        result is Spawned || result is NoSchema ==> !final(s).dfs_proven_dead@.contains(name@),
        result matches StartResult::Spawned { fd, pid } ==> {
            &&& final(s).orch.starting@.contains(name@)
            &&& final(s).orch.root_pids@.contains_key(name@)
            &&& final(s).orch.root_pids@[name@] == *pid
            &&& final(s)@.readiness == old(s)@.readiness.insert(*fd, name@)
        },
        result is NoSchema ==> final(s)@.orch == old(s)@.orch && final(s)@.readiness
            == old(s)@.readiness,
        final(s).tombstoned@ == old(s).tombstoned@,
        final(s).orch.running@ == old(s).orch.running@,
        final(s).orch.cascade_failed@ == old(s).orch.cascade_failed@,
        final(s).orch.circuit_origin@ == old(s).orch.circuit_origin@,
        final(s).orch.recovering@ == old(s).orch.recovering@,
        final(s)@.recovery_pending == old(s)@.recovery_pending,
        final(s)@.orch.restart_events == old(s)@.orch.restart_events,
        final(s)@.orch.recovery_generation == old(s)@.orch.recovery_generation,
{
    assert(final(s)@.orch.starting == final(s).orch.starting@);
}

/// Law: a service that was spawned in the boot order or by a timer is starting, its process is
/// on record, its pipe is awaited, and it is not taken for gone. Nothing else changes.
pub proof fn lemma_spawn_is_taken_in(s: &mut Supervisor, name: &str, fd: i32, pid: i32)
    requires
        call_ensures(Supervisor::on_spawned, (s, name, fd, pid), ()),
    ensures
        same_but_for(old(s)@, final(s)@, name@),
        !final(s).dfs_proven_dead@.contains(name@),
        final(s).orch.starting@.contains(name@),
        final(s).orch.root_pids@.contains_key(name@) && final(s).orch.root_pids@[name@] == pid,
        final(s)@.readiness == old(s)@.readiness.insert(fd, name@),
        final(s).tombstoned@ == old(s).tombstoned@,
        final(s).orch.running@ == old(s).orch.running@,
        final(s).orch.cascade_failed@ == old(s).orch.cascade_failed@,
        final(s).orch.circuit_origin@ == old(s).orch.circuit_origin@,
        final(s).orch.recovering@ == old(s).orch.recovering@,
        final(s)@.recovery_pending == old(s)@.recovery_pending,
        final(s)@.orch.restart_events == old(s)@.orch.restart_events,
        final(s)@.orch.recovery_generation == old(s)@.orch.recovery_generation,
{
    assert(final(s)@.orch.starting == final(s).orch.starting@);
}

/// Law: a reset succeeds exactly if the directories went. Then the tombstone is gone, the
/// service is not taken for gone, and its failure is lifted unless one that it depends on has
/// failed. A reset that failed changes nothing. No other service is touched.
pub proof fn lemma_reset_is_taken_in(
    s: &mut Supervisor,
    name: &str,
    swept: &Result<(), IoFailure>,
    r: Outcome,
)
    requires
        call_ensures(Supervisor::finish_reset, (s, name, swept), r),
    ensures
        swept is Ok ==> r == Outcome::Success,
        swept is Err ==> r == Outcome::EpistemicConflict && final(s)@ == old(s)@,
        same_but_for(old(s)@, final(s)@, name@),
        swept is Ok ==> !final(s).tombstoned@.contains(name@)
            && !final(s).dfs_proven_dead@.contains(name@),
        ({
            let upstream = old(s).schemas@.contains_key(name@) && exists|i: int|
                0 <= i < old(s).schemas@[name@].depends_on@.len() && old(s).orch.cascade_failed@.contains(
                    (#[trigger] old(s).schemas@[name@].depends_on@[i])@,
                );
            &&& swept is Ok && !upstream ==> !final(s).orch.cascade_failed@.contains(name@)
                && !final(s).orch.circuit_origin@.contains(name@)
            &&& swept is Ok && upstream ==> final(s)@.orch == old(s)@.orch
        }),
        final(s).orch.running@ == old(s).orch.running@,
        final(s).orch.starting@ == old(s).orch.starting@,
        final(s).orch.recovering@ == old(s).orch.recovering@,
        final(s)@.orch.root_pids == old(s)@.orch.root_pids,
        final(s)@.readiness == old(s)@.readiness,
        final(s)@.recovery_pending == old(s)@.recovery_pending,
        final(s)@.orch.restart_events == old(s)@.orch.restart_events,
        final(s)@.orch.recovery_generation == old(s)@.orch.recovery_generation,
{
    let n = name@;
    if old(s).schemas@.contains_key(n) {
        let deps = crate::names::texts(old(s).schemas@[n].depends_on@);
        if old(s).upstream_failed(n) {
            let i = choose|i: int|
                0 <= i < deps.len() && old(s).orch.cascade_failed@.contains(#[trigger] deps[i]);
            assert(deps[i] == old(s).schemas@[n].depends_on@[i]@);
        } else {
            assert forall|i: int| 0 <= i < old(s).schemas@[n].depends_on@.len() implies !old(s).orch.cascade_failed@.contains((#[trigger] old(s).schemas@[n].depends_on@[i])@) by {
                assert(deps[i] == old(s).schemas@[n].depends_on@[i]@);
            }
        }
    }
    assert(final(s)@.orch.running == final(s).orch.running@);
}

/// Law: a sweep for the reaper proves a service dead and lifts its tombstone if it went through,
/// leaves a tombstone if a directory was in use, and else changes nothing. No other service is
/// touched.
pub proof fn lemma_reaper_sweep_is_taken_in(
    s: &mut Supervisor,
    name: &str,
    swept: &Result<(), IoFailure>,
)
    requires
        call_ensures(Supervisor::apply_reaper_dfs, (s, name, swept), ()),
    ensures
        swept is Ok ==> final(s).dfs_proven_dead@.contains(name@)
            && !final(s).tombstoned@.contains(name@),
        (swept matches Err(e) && e.kind == IoKind::Busy) ==> final(s).tombstoned@.contains(name@)
            && final(s).dfs_proven_dead@ == old(s).dfs_proven_dead@,
        (swept matches Err(e) && e.kind != IoKind::Busy) ==> final(s)@ == old(s)@,
        same_but_for(old(s)@, final(s)@, name@),
        final(s)@.orch == old(s)@.orch,
        final(s)@.readiness == old(s)@.readiness,
        final(s)@.recovery_pending == old(s)@.recovery_pending,
{
    assert(final(s)@.tombstoned == final(s).tombstoned@);
    assert(old(s)@.tombstoned == old(s).tombstoned@);
}

// ---------------------------------------------------------------------------
// The boot order
// ---------------------------------------------------------------------------

/// Whether `name` could be started now: enabled and known, idle, not failed, with everything
/// that it depends on running.
pub open spec fn could_start(s: &Supervisor, name: Seq<char>) -> bool {
    &&& s.schemas@.contains_key(name)
    &&& s.schemas@[name].enabled
    &&& !s.orch.running@.contains(name)
    &&& !s.orch.starting@.contains(name)
    &&& !s.orch.recovering@.contains(name)
    &&& !s.orch.cascade_failed@.contains(name)
    &&& dependencies_run(s, name)
}

proof fn lemma_could_start(s: &Supervisor, name: Seq<char>)
    ensures
        s.is_ready(name) == could_start(s, name),
{
    if s.schemas@.contains_key(name) {
        lemma_blocks(s, name);
        let deps = s.declared_dependencies(name);
        assert(deps.len() == s.schemas@[name].depends_on@.len());
        if dependencies_run(s, name) {
            assert forall|i: int| 0 <= i < deps.len() implies s@.orch.running.contains(
                #[trigger] deps[i],
            ) && !s@.orch.cascade_failed.contains(deps[i]) by {
                assert(deps[i] == s.schemas@[name].depends_on@[i]@);
            }
        }
        if s.is_ready(name) {
            assert forall|i: int| 0 <= i < s.schemas@[name].depends_on@.len() implies {
                let d = (#[trigger] s.schemas@[name].depends_on@[i])@;
                s.orch.running@.contains(d) && !s.orch.cascade_failed@.contains(d)
            } by {
                assert(s.declared_dependencies(name)[i] == s.schemas@[name].depends_on@[i]@);
            }
        }
    }
}

/// Law: the next service to start is the first in the boot order that could start; none is
/// passed over, and none is picked that could not.
pub proof fn lemma_next_to_start(s: &Supervisor, from: usize, r: Option<usize>, k: usize)
    requires
        call_ensures(Supervisor::try_spawn_ready_services, (s, from), r),
        from <= k < s.dag.boot_order@.len(),
    ensures
        could_start(s, s.dag.boot_order@[k as int]@) ==> (r matches Some(i) && i <= k),
        r == Some(k) ==> could_start(s, s.dag.boot_order@[k as int]@),
        r matches Some(i) ==> from <= i < s.dag.boot_order@.len(),
{
    let name = s.dag.boot_order@[k as int]@;
    lemma_could_start(s, name);
    assert(s.dag.boot_order@[k as int]@ == name);
}

/// Law: a service is spawned exactly if it has no tombstone, has not failed, and neither runs,
/// starts nor recovers; the first of these that does not hold is the reason that is given.
pub proof fn lemma_spawn_exactly_if_idle(s: &Supervisor, name: &str, r: Result<(), SpawnDenial>)
    requires
        call_ensures(Supervisor::spawn_service_for_orchestration, (s, name), r),
    ensures
        (r is Ok) == (!s.tombstoned@.contains(name@) && !s.orch.cascade_failed@.contains(name@)
            && !s.orch.running@.contains(name@) && !s.orch.starting@.contains(name@)
            && !s.orch.recovering@.contains(name@)),
        (r matches Err(d) && d == SpawnDenial::Tombstoned) == s.tombstoned@.contains(name@),
        (r matches Err(d) && d == SpawnDenial::CascadeFailed) == (!s.tombstoned@.contains(name@)
            && s.orch.cascade_failed@.contains(name@)),
{
}

// ---------------------------------------------------------------------------
// Readiness and recovery
// ---------------------------------------------------------------------------

/// Law: the first bytes on a readiness pipe make the service run, whatever else is known of it:
/// it no longer starts, and its failures and restarts are forgotten. Further bytes change
/// nothing. No other service is touched.
pub proof fn lemma_bytes_make_ready(
    s: &mut Supervisor,
    fd: i32,
    k: usize,
    now: Moment,
    step: ReadinessStep,
)
    requires
        call_ensures(
            Supervisor::handle_readiness_fd,
            (s, fd, ReadinessRead::Bytes(k), now),
            step,
        ),
        k > 0,
        old(s)@.readiness.contains_key(fd),
    ensures
        ({
            let n = old(s)@.readiness[fd];
            &&& old(s).orch.running@.contains(n) ==> step is Ignore && final(s)@ == old(s)@
            &&& !old(s).orch.running@.contains(n) ==> {
                &&& step matches ReadinessStep::Ready { name } && name@ == n
                &&& final(s).orch.running@.contains(n)
                &&& !final(s).orch.starting@.contains(n)
                &&& !final(s)@.orch.recovery_generation.contains_key(n)
                &&& !final(s)@.orch.restart_events.contains_key(n)
                &&& same_but_for(old(s)@, final(s)@, n)
            }
            &&& final(s)@.readiness == old(s)@.readiness
            &&& final(s)@.tombstoned == old(s)@.tombstoned
            &&& final(s)@.dfs_proven_dead == old(s)@.dfs_proven_dead
            &&& final(s)@.recovery_pending == old(s)@.recovery_pending
            &&& final(s)@.orch.cascade_failed == old(s)@.orch.cascade_failed
            &&& final(s)@.orch.circuit_origin == old(s)@.orch.circuit_origin
            &&& final(s)@.orch.recovering == old(s)@.orch.recovering
            &&& final(s)@.orch.root_pids == old(s)@.orch.root_pids
        }),
{
    assert(final(s)@.orch.running == final(s).orch.running@);
    assert(final(s)@.orch.starting == final(s).orch.starting@);
}

/// Law: a pipe that is not awaited, has nothing to read or cannot be read changes nothing.
pub proof fn lemma_silence_changes_nothing(
    s: &mut Supervisor,
    fd: i32,
    read: ReadinessRead,
    now: Moment,
    step: ReadinessStep,
)
    requires
        call_ensures(Supervisor::handle_readiness_fd, (s, fd, read, now), step),
        !old(s)@.readiness.contains_key(fd) || read == ReadinessRead::WouldBlock || read
            == ReadinessRead::Failed,
    ensures
        step is Ignore,
        final(s)@ == old(s)@,
{
}

/// Whether a read says that a pipe has ended.
pub open spec fn ends(read: ReadinessRead) -> bool {
    read == ReadinessRead::Eof || read == ReadinessRead::Bytes(0)
}

/// Law: the end of a pipe is no failure of a service that runs or does not start: the pipe and
/// the process are struck off, and nothing else changes.
pub proof fn lemma_end_of_a_running_pipe(
    s: &mut Supervisor,
    fd: i32,
    read: ReadinessRead,
    now: Moment,
    step: ReadinessStep,
)
    requires
        call_ensures(Supervisor::handle_readiness_fd, (s, fd, read, now), step),
        ends(read),
        old(s)@.readiness.contains_key(fd),
        !old(s).orch.starting@.contains(old(s)@.readiness[fd])
            || old(s).orch.running@.contains(old(s)@.readiness[fd]),
    ensures
        ({
            let n = old(s)@.readiness[fd];
            &&& step matches ReadinessStep::Close { name } && name@ == n
            &&& same_but_for(old(s)@, final(s)@, n)
            &&& !final(s).orch.starting@.contains(n)
            &&& !final(s).orch.root_pids@.contains_key(n)
            &&& final(s)@.readiness == old(s)@.readiness.remove(fd)
            &&& final(s)@.tombstoned == old(s)@.tombstoned
            &&& final(s)@.dfs_proven_dead == old(s)@.dfs_proven_dead
            &&& final(s)@.recovery_pending == old(s)@.recovery_pending
            &&& final(s)@.orch.running == old(s)@.orch.running
            &&& final(s)@.orch.cascade_failed == old(s)@.orch.cascade_failed
            &&& final(s)@.orch.circuit_origin == old(s)@.orch.circuit_origin
            &&& final(s)@.orch.recovering == old(s)@.orch.recovering
            &&& final(s)@.orch.restart_events == old(s)@.orch.restart_events
            &&& final(s)@.orch.recovery_generation == old(s)@.orch.recovery_generation
        }),
{
    assert(final(s)@.orch.starting == final(s).orch.starting@);
    assert(final(s)@.orch.running == final(s).orch.running@);
}

/// The policy under which a service that failed before it was ready is started again.
pub open spec fn restart_policy(s: &Supervisor, name: Seq<char>) -> Option<RecoveryPolicy> {
    if s.schemas@.contains_key(name) {
        match s.schemas@[name].recovery {
            Some(p) => if p.policy == RecoveryMode::Manual {
                None
            } else {
                Some(p)
            },
            None => None,
        }
    } else {
        None
    }
}

/// Law: a service that ends before it was ready, and is not to be started again, fails for good
/// with every service that depends on it, and its circuit is not the reason.
pub proof fn lemma_end_without_policy_fails(
    s: &mut Supervisor,
    fd: i32,
    read: ReadinessRead,
    now: Moment,
    step: ReadinessStep,
)
    requires
        call_ensures(Supervisor::handle_readiness_fd, (s, fd, read, now), step),
        ends(read),
        old(s)@.readiness.contains_key(fd),
        old(s).orch.starting@.contains(old(s)@.readiness[fd]),
        !old(s).orch.running@.contains(old(s)@.readiness[fd]),
        restart_policy(old(s), old(s)@.readiness[fd]) is None,
    ensures
        ({
            let n = old(s)@.readiness[fd];
            &&& step matches ReadinessStep::Fail { name } && name@ == n
            &&& final(s)@.readiness == old(s)@.readiness.remove(fd)
            &&& crate::orchestration::fails_with_dependents(
                &old(s).dag,
                old(s)@.orch,
                final(s)@.orch,
                n,
            )
            &&& final(s)@.orch.circuit_origin == old(s)@.orch.circuit_origin
            &&& final(s)@.tombstoned == old(s)@.tombstoned
            &&& final(s)@.dfs_proven_dead == old(s)@.dfs_proven_dead
            &&& final(s)@.recovery_pending == old(s)@.recovery_pending
        }),
{
    let n = old(s)@.readiness[fd];
    crate::orchestration::lemma_failing_is_cascade(
        &old(s).dag,
        old(s)@.pipe_closed(fd, n).orch,
        n,
    );
    crate::orchestration::lemma_cascade_forgets(
        &old(s).dag,
        old(s)@.pipe_closed(fd, n).orch,
        old(s)@.orch,
        final(s)@.orch,
        n,
    );
}

/// The failures of `name` that count at `now`, this one among them.
pub open spec fn counted(s: &Supervisor, name: Seq<char>, window_sec: u64, now: Moment) -> Seq<
    Moment,
> {
    let past = if s@.orch.restart_events.contains_key(name) {
        s@.orch.restart_events[name]
    } else {
        Seq::empty()
    };
    past.push(now).filter(|t: Moment| crate::recovery::in_window(t, window_sec as nat, now))
}

/// How many restarts of `name` were scheduled since it was last ready.
pub open spec fn restarts(s: &Supervisor, name: Seq<char>) -> int {
    if s.orch.recovery_generation@.contains_key(name) {
        s.orch.recovery_generation@[name] as int
    } else {
        0
    }
}

/// Law: a service that ends before it was ready is started again exactly as long as fewer
/// failures than its budget lie in the window. The wait is the base time doubled as often as
/// restarts were scheduled before, and one more restart is counted. No other service is touched.
pub proof fn lemma_restart_is_scheduled(
    s: &mut Supervisor,
    fd: i32,
    read: ReadinessRead,
    now: Moment,
    step: ReadinessStep,
    p: RecoveryPolicy,
)
    requires
        call_ensures(Supervisor::handle_readiness_fd, (s, fd, read, now), step),
        ends(read),
        old(s)@.readiness.contains_key(fd),
        old(s).orch.starting@.contains(old(s)@.readiness[fd]),
        !old(s).orch.running@.contains(old(s)@.readiness[fd]),
        restart_policy(old(s), old(s)@.readiness[fd]) == Some(p),
    ensures
        ({
            let n = old(s)@.readiness[fd];
            let kept = counted(old(s), n, p.window_sec, now);
            let g = restarts(old(s), n);
            &&& (step is Schedule) == (kept.len() < p.max_restarts)
            &&& step is Schedule || step is Fail
            &&& step matches ReadinessStep::Schedule { name, ms, dropped } ==> {
                &&& name@ == n
                &&& ms == capped_doubling(p.backoff_ms as nat, g as nat)
                &&& restarts(final(s), n) == if g < u32::MAX {
                    g + 1
                } else {
                    g
                }
                &&& final(s)@.orch.restart_events.contains_key(n)
                &&& final(s)@.orch.restart_events[n] == kept
                &&& final(s).orch.recovering@.contains(n)
                &&& !final(s).orch.starting@.contains(n)
                &&& !final(s).orch.root_pids@.contains_key(n)
                &&& !final(s).recovery_pending@.contains_key(n)
                &&& dropped == (if old(s).recovery_pending@.contains_key(n) {
                    Some(old(s).recovery_pending@[n])
                } else {
                    None
                })
                &&& same_but_for(old(s)@, final(s)@, n)
                &&& final(s)@.orch.cascade_failed == old(s)@.orch.cascade_failed
                &&& final(s)@.orch.circuit_origin == old(s)@.orch.circuit_origin
                &&& final(s)@.orch.running == old(s)@.orch.running
                &&& final(s)@.tombstoned == old(s)@.tombstoned
                &&& final(s)@.dfs_proven_dead == old(s)@.dfs_proven_dead
            }
            &&& step matches ReadinessStep::Fail { name } ==> {
                &&& name@ == n
                &&& crate::orchestration::fails_with_dependents(
                    &old(s).dag,
                    old(s)@.orch,
                    final(s)@.orch,
                    n,
                )
                &&& final(s)@.orch.circuit_origin == old(s)@.orch.circuit_origin.insert(n)
                &&& final(s)@.tombstoned == old(s)@.tombstoned
                &&& final(s)@.dfs_proven_dead == old(s)@.dfs_proven_dead
                &&& final(s)@.recovery_pending == old(s)@.recovery_pending
            }
            &&& final(s)@.readiness == old(s)@.readiness.remove(fd)
        }),
{
    let n = old(s)@.readiness[fd];
    let closed = old(s)@.pipe_closed(fd, n);
    let past = if old(s)@.orch.restart_events.contains_key(n) {
        old(s)@.orch.restart_events[n]
    } else {
        Seq::empty()
    };
    crate::recovery::lemma_recent_is_filter(past.push(now), p.window_sec as nat, now);
    assert(crate::reactor::failures(closed.orch, n, p, now) == counted(
        old(s),
        n,
        p.window_sec,
        now,
    ));
    lemma_backoff_is_doubling(p.backoff_ms as nat, restarts(old(s), n) as nat);
    assert(final(s)@.orch.starting == final(s).orch.starting@);
    assert(final(s)@.orch.running == final(s).orch.running@);
    assert(final(s)@.orch.recovery_generation == final(s).orch.recovery_generation@);
    if step is Fail {
        let noted = closed.failure_noted(n, p, now);
        let origin = OrchView {
            circuit_origin: noted.orch.circuit_origin.insert(n),
            ..noted.orch
        };
        crate::orchestration::lemma_failing_is_cascade(&old(s).dag, origin, n);
        crate::orchestration::lemma_cascade_forgets(
            &old(s).dag,
            origin,
            old(s)@.orch,
            final(s)@.orch,
            n,
        );
    }
}

/// `base` doubled `k` times, at most thirty-one times, and no more than fits in 64 bits.
pub open spec fn capped_doubling(base: nat, k: nat) -> nat
    decreases k,
{
    if k == 0 {
        base
    } else {
        let half = capped_doubling(base, (k - 1) as nat);
        if k > 31 {
            half
        } else if 2 * half <= 0xffff_ffff_ffff_ffff {
            2 * half
        } else {
            0xffff_ffff_ffff_ffff
        }
    }
}

proof fn lemma_backoff_is_doubling(base: nat, k: nat)
    requires
        base <= u64::MAX,
    ensures
        crate::recovery::backoff(base, k) == capped_doubling(base, k),
    decreases k,
{
    if k > 0 {
        lemma_backoff_is_doubling(base, (k - 1) as nat);
        crate::recovery::lemma_backoff_step(base, (k - 1) as nat);
    } else {
        crate::recovery::lemma_backoff_step(base, 0);
    }
}

/// Law: of two restarts in a row of a service that was not ready in between the second waits
/// twice as long as the first, up to the thirty-first doubling and to what fits.
pub proof fn lemma_restarts_in_a_row(
    s: &mut Supervisor,
    t: &mut Supervisor,
    fd: i32,
    gd: i32,
    a: ReadinessRead,
    b: ReadinessRead,
    now: Moment,
    later: Moment,
    x: ReadinessStep,
    y: ReadinessStep,
)
    requires
        call_ensures(Supervisor::handle_readiness_fd, (s, fd, a, now), x),
        call_ensures(Supervisor::handle_readiness_fd, (t, gd, b, later), y),
        x is Schedule,
        y is Schedule,
        old(t).schemas == old(s).schemas,
        y->Schedule_name@ == x->Schedule_name@,
        restarts(old(t), x->Schedule_name@) == restarts(final(s), x->Schedule_name@),
    ensures
        ({
            let n = x->Schedule_name@;
            let g = restarts(old(s), n);
            &&& g == 0 ==> x->ms == old(s).schemas@[n].recovery->0.backoff_ms
            &&& g < 31 && 2 * x->ms <= u64::MAX ==> y->ms == 2 * x->ms
            &&& g < 31 && 2 * x->ms > u64::MAX ==> y->ms == u64::MAX
            &&& g >= 31 ==> y->ms == x->ms
        }),
{
    let n = x->Schedule_name@;
    let p = old(s).schemas@[n].recovery->0;
    let g = restarts(old(s), n) as nat;
    crate::recovery::lemma_backoff_step(p.backoff_ms as nat, g);
    if g == u32::MAX {
        crate::recovery::lemma_backoff_step(p.backoff_ms as nat, g);
    }
}

/// Law: a timer that fires leads to the service it was set for: that is no longer recovering,
/// and nothing else changes.
pub proof fn lemma_timer_fires(s: &mut Supervisor, fd: i32, r: Result<String, crate::SysXError>)
    requires
        call_ensures(Supervisor::handle_recovery_timer_fd, (s, fd), r),
        r is Ok,
    ensures
        ({
            let n = r->Ok_0@;
            &&& old(s).recovery_pending@.contains_key(n)
            &&& old(s).recovery_pending@[n] == fd
            &&& !final(s).recovery_pending@.contains_key(n)
            &&& !final(s).orch.recovering@.contains(n)
            &&& same_but_for(old(s)@, final(s)@, n)
            &&& final(s)@.tombstoned == old(s)@.tombstoned
            &&& final(s)@.dfs_proven_dead == old(s)@.dfs_proven_dead
            &&& final(s)@.readiness == old(s)@.readiness
            &&& final(s)@.orch.running == old(s)@.orch.running
            &&& final(s)@.orch.starting == old(s)@.orch.starting
            &&& final(s)@.orch.cascade_failed == old(s)@.orch.cascade_failed
            &&& final(s)@.orch.circuit_origin == old(s)@.orch.circuit_origin
            &&& final(s)@.orch.root_pids == old(s)@.orch.root_pids
            &&& final(s)@.orch.restart_events == old(s)@.orch.restart_events
            &&& final(s)@.orch.recovery_generation == old(s)@.orch.recovery_generation
        }),
{
    assert(final(s)@.orch.recovering == final(s).orch.recovering@);
}

/// Law: a timer that fires is found whenever a service has it; one that no service has is an
/// error, and changes nothing.
pub proof fn lemma_timer_is_known(
    s: &mut Supervisor,
    fd: i32,
    n: Seq<char>,
    r: Result<String, crate::SysXError>,
)
    requires
        call_ensures(Supervisor::handle_recovery_timer_fd, (s, fd), r),
    ensures
        old(s).recovery_pending@.contains_key(n) && old(s).recovery_pending@[n] == fd ==> r is Ok,
        r is Err ==> r->Err_0 is Reactor && final(s)@ == old(s)@,
{
    assert(old(s)@.recovery_pending == old(s).recovery_pending@);
    if r is Err {
        assert(crate::reactor::has_no_timer(old(s)@.recovery_pending, fd));
    }
}

/// Law: a timer that was set is the timer of the service, and replaces an earlier one.
pub proof fn lemma_timer_is_set(s: &mut Supervisor, name: &str, fd: i32)
    requires
        call_ensures(Supervisor::recovery_armed, (s, name, fd), ()),
    ensures
        final(s).recovery_pending@ == old(s).recovery_pending@.insert(name@, fd),
        final(s)@.orch == old(s)@.orch,
        final(s)@.tombstoned == old(s)@.tombstoned,
        final(s)@.dfs_proven_dead == old(s)@.dfs_proven_dead,
        final(s)@.readiness == old(s)@.readiness,
{
    assert(final(s)@.recovery_pending == final(s).recovery_pending@);
}

// ---------------------------------------------------------------------------
// Events and replies
// ---------------------------------------------------------------------------

/// Law: an event goes to the one that waits on the descriptor. The fixed descriptors come first,
/// then the timers, then the pipes; whatever nobody else waits on is a control connection.
pub proof fn lemma_events_find_their_way(
    s: &Supervisor,
    fd: i32,
    listen_fd: i32,
    signal_fd: Option<i32>,
    wake_fd: i32,
    n: Seq<char>,
    r: EventSource,
)
    requires
        call_ensures(Supervisor::event_source, (s, fd, listen_fd, signal_fd, wake_fd), r),
    ensures
        (r is Listener) == (fd == listen_fd),
        fd != listen_fd && signal_fd == Some(fd) ==> r is PowerSignal,
        r is PowerSignal ==> signal_fd == Some(fd),
        fd != listen_fd && signal_fd != Some(fd) && fd == wake_fd ==> r is Reaper,
        r is Reaper ==> fd == wake_fd,
        fd != listen_fd && signal_fd != Some(fd) && fd != wake_fd ==> {
            &&& s.recovery_pending@.contains_key(n) && s.recovery_pending@[n] == fd ==> r
                is RecoveryTimer
            &&& s@.readiness.contains_key(fd) && !(r is RecoveryTimer) ==> r is Readiness
            &&& r is Readiness ==> s@.readiness.contains_key(fd)
            &&& r is RecoveryTimer || r is Readiness || r is Client
            &&& r is RecoveryTimer ==> !crate::reactor::has_no_timer(s.recovery_pending@, fd)
        },
{
    assert(s@.recovery_pending == s.recovery_pending@);
}

/// Law: the bytes that the protocol fixes are these: success, a peer without rights, a service
/// that runs, and one that failed with another. Every other outcome and status has the byte that
/// was set for it, and no reason but for a want of slots and an open circuit.
pub proof fn lemma_reply_bytes(
    codes: &ReplyCodes,
    o: Outcome,
    st: ServiceStatus,
    a: (u8, u8),
    b: (u8, u8),
)
    requires
        call_ensures(ReplyCodes::outcome_bytes, (codes, o), a),
        call_ensures(ReplyCodes::status_bytes, (codes, st), b),
    ensures
        o == Outcome::Success ==> a == (0x00u8, 0x00u8),
        o == Outcome::Unauthorized ==> a == (0x02u8, 0x00u8),
        o == Outcome::WireParse ==> a == (codes.outcome_wire_parse, 0x00u8),
        o == Outcome::EpistemicConflict ==> a == (codes.outcome_epistemic_conflict, 0x00u8),
        o == Outcome::CgroupCapacity ==> a == (
            codes.outcome_epistemic_conflict,
            codes.reason_cgroup_capacity,
        ),
        o == Outcome::Tombstoned ==> a == (codes.outcome_tombstoned, 0x00u8),
        st is Running ==> b == (0x02u8, 0x00u8),
        st is FailedOrphaned ==> b == (0x05u8, 0x01u8),
        st is FailedCircuitOpen ==> b == (0x05u8, codes.status_reason_circuit_open),
        st is Offline ==> b == (codes.status_offline, 0x00u8),
        st is Sweeping ==> b == (codes.status_sweeping, 0x00u8),
        st is Dead ==> b == (codes.status_dead, 0x00u8),
        st is Tombstoned ==> b == (codes.status_tombstoned, 0x00u8),
        st is Recovering ==> b == (codes.status_recovering, 0x00u8),
{
}

/// Law: other services allow a start exactly if the service is known and all it declares to
/// depend on runs and has not failed. Only where the first dependency in the way has failed does
/// anything change: the service then fails too.
pub proof fn lemma_allowed_exactly(
    s: &mut Supervisor,
    name: &str,
    r: Result<(), crate::reactor::StartBlock>,
)
    requires
        call_ensures(Supervisor::orchestration_ipc_start_allowed, (s, name), r),
    ensures
        r is Ok <==> old(s).schemas@.contains_key(name@) && dependencies_run(old(s), name@),
        r == Err::<(), crate::reactor::StartBlock>(crate::reactor::StartBlock::UnknownService)
            <==> !old(s).schemas@.contains_key(name@),
        r == Err::<(), crate::reactor::StartBlock>(crate::reactor::StartBlock::UpstreamFailed)
            <==> old(s).schemas@.contains_key(name@) && failed_upstream_first(old(s), name@),
        r != Err::<(), crate::reactor::StartBlock>(crate::reactor::StartBlock::UpstreamFailed)
            ==> final(s)@ == old(s)@,
        r == Err::<(), crate::reactor::StartBlock>(crate::reactor::StartBlock::UpstreamFailed)
            ==> final(s).orch.cascade_failed@ == old(s).orch.cascade_failed@.union(
            old(s).affected(name@),
        ) && final(s)@.tombstoned == old(s)@.tombstoned && final(s)@.readiness
            == old(s)@.readiness,
        final(s).schemas == old(s).schemas && final(s).dag == old(s).dag,
{
    if old(s).schemas@.contains_key(name@) {
        lemma_blocks(old(s), name@);
        crate::reactor::lemma_first_block(
            old(s).declared_dependencies(name@),
            old(s)@.orch.cascade_failed,
            old(s)@.orch.running,
        );
    }
}

/// Law: the frames that answer a request and a question for the status are read back as the
/// command that was asked and the two bytes that tell the answer. A peer whose request was not
/// looked at is answered as if it had asked for a start.
#[verifier::rlimit(40)]
pub proof fn lemma_replies_are_understood(
    codes: &ReplyCodes,
    command: Command,
    o: Outcome,
    st: ServiceStatus,
    a: (u8, u8),
    b: (u8, u8),
    x: bytes::Bytes,
    y: bytes::Bytes,
    z: bytes::Bytes,
)
    requires
        call_ensures(ReplyCodes::outcome_bytes, (codes, o), a),
        call_ensures(ReplyCodes::status_bytes, (codes, st), b),
        call_ensures(ReplyCodes::outcome_frame, (codes, command, o), x),
        call_ensures(ReplyCodes::status_frame, (codes, st), y),
        call_ensures(ReplyCodes::reply_pre_dispatch_error, (codes, o), z),
    ensures
        ({
            let s = crate::wire::bytes_of(x);
            &&& crate::ipc::frame_fault(s) is None
            &&& s.len() == 18
            &&& s[5] == command.code()
            &&& s[16] == a.0 && s[17] == a.1
        }),
        ({
            let s = crate::wire::bytes_of(y);
            &&& crate::ipc::frame_fault(s) is None
            &&& s.len() == 18
            &&& s[5] == Command::Status.code()
            &&& s[16] == b.0 && s[17] == b.1
        }),
        ({
            let s = crate::wire::bytes_of(z);
            &&& crate::ipc::frame_fault(s) is None
            &&& s.len() == 18
            &&& s[5] == Command::Start.code()
            &&& s[16] == a.0 && s[17] == a.1
        }),
{
    crate::ipc::lemma_reply_reads_back(command, a.0, a.1);
    crate::ipc::lemma_reply_reads_back(Command::Status, b.0, b.1);
    crate::ipc::lemma_reply_reads_back(Command::Start, a.0, a.1);
}

/// Law: the machine goes down as it was asked to exactly if the peer could be told.
pub proof fn lemma_down_only_when_told(
    kind: TerminalBroadcastKind,
    written: bool,
    r: Option<TerminalBroadcastKind>,
)
    requires
        call_ensures(Supervisor::finish_broadcast, (kind, written), r),
    ensures
        written ==> r == Some(kind),
        !written ==> r is None,
{
}

/// Law: a service is stopped for a test exactly if it is the one that was chosen and has no
/// tombstone.
pub proof fn lemma_test_stops_the_chosen(
    s: &Supervisor,
    chosen: &Option<String>,
    name: &str,
    r: bool,
)
    requires
        call_ensures(Supervisor::autotest_stop_wanted, (s, chosen, name), r),
    ensures
        chosen is None ==> !r,
        chosen matches Some(c) ==> r == (c@ == name@ && !s.tombstoned@.contains(name@)),
{
}

} // verus!
