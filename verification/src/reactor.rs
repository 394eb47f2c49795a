//! The supervisor: what it makes of requests, of news from the services and of timers.
use bytes::Bytes;
use std::collections::HashMap;
use vstd::prelude::*;

use crate::cgroup_ops::StartCgroupError;
use crate::dag::DagRuntime;
use crate::ipc::{
    encode_ipc_reply, Command, Header, OUTCOME_SUCCESS, OUTCOME_UNAUTHORIZED, REASON_NA,
    STATUS_FAILED_PRIMARY, STATUS_REASON_NONE, STATUS_REASON_ORPHANED, STATUS_RUNNING,
};
use crate::names::{NameMap, NameSet};
use crate::orchestration::{
    propagate_cascade_failure, record_service_failed, OrchView, OrchestratorState,
};
use crate::recovery::{
    backoff_exponential_ms, circuit_should_open, prune_restart_window, recovery_applies, Moment,
};
use crate::runtime::{
    read_sysfs_cgroup_populated, validate_ipc_service_name, IoFailure, IoKind, RuntimeContext,
};
use crate::schema::{RecoveryPolicy, ServiceSchema};
use crate::stop_ladder::{is_rmdir_ebusy, StopOutcome};
use crate::terminal_broadcast::TerminalBroadcastKind;
use crate::text::{
    chars_of, hex_byte_string, lines_of, push_text, same_text, string_of, trim, utf8_lossy,
    utf8_text,
};
use crate::SysXError;

verus! {

broadcast use vstd::std_specs::hash::group_hash_axioms;

// ---------------------------------------------------------------------------
// Replies
// ---------------------------------------------------------------------------

/// What a peer is told of its command.
#[derive(Debug, Clone, Copy, PartialEq, Eq, Structural)]
pub enum Outcome {
    Success,
    Unauthorized,
    /// The request makes no sense.
    WireParse,
    /// The request contradicts what is known of the service.
    EpistemicConflict,
    /// There is no slot left for the service.
    CgroupCapacity,
    /// The service has processes that cannot be removed.
    Tombstoned,
}

/// What a peer is told of a service.
#[derive(Debug, Clone, Copy, PartialEq, Eq, Structural)]
pub enum ServiceStatus {
    Offline,
    Running,
    /// No process is left, and the directory is still there.
    Sweeping,
    /// No process is left, and the directory is known to be gone.
    Dead,
    Tombstoned,
    /// A restart is scheduled.
    Recovering,
    /// A service that this one depends on has failed, or it failed itself.
    FailedOrphaned,
    /// The restart budget is used up.
    FailedCircuitOpen,
}

/// The bytes of a reply that the frame format leaves open.
#[derive(Debug, Clone, Copy, PartialEq, Eq, Structural)]
pub struct ReplyCodes {
    pub outcome_wire_parse: u8,
    pub outcome_epistemic_conflict: u8,
    pub outcome_tombstoned: u8,
    pub reason_cgroup_capacity: u8,
    pub status_offline: u8,
    pub status_sweeping: u8,
    pub status_dead: u8,
    pub status_tombstoned: u8,
    pub status_recovering: u8,
    pub status_reason_circuit_open: u8,
}

impl ReplyCodes {
    /// The two bytes that tell `o`.
    pub open spec fn outcome_spec(&self, o: Outcome) -> (u8, u8) {
        match o {
            Outcome::Success => (OUTCOME_SUCCESS, REASON_NA),
            Outcome::Unauthorized => (OUTCOME_UNAUTHORIZED, REASON_NA),
            Outcome::WireParse => (self.outcome_wire_parse, REASON_NA),
            Outcome::EpistemicConflict => (self.outcome_epistemic_conflict, REASON_NA),
            Outcome::CgroupCapacity => (
                self.outcome_epistemic_conflict,
                self.reason_cgroup_capacity,
            ),
            Outcome::Tombstoned => (self.outcome_tombstoned, REASON_NA),
        }
    }

    /// The two bytes that tell `s`.
    pub open spec fn status_spec(&self, s: ServiceStatus) -> (u8, u8) {
        match s {
            ServiceStatus::Offline => (self.status_offline, STATUS_REASON_NONE),
            ServiceStatus::Running => (STATUS_RUNNING, STATUS_REASON_NONE),
            ServiceStatus::Sweeping => (self.status_sweeping, STATUS_REASON_NONE),
            ServiceStatus::Dead => (self.status_dead, STATUS_REASON_NONE),
            ServiceStatus::Tombstoned => (self.status_tombstoned, STATUS_REASON_NONE),
            ServiceStatus::Recovering => (self.status_recovering, STATUS_REASON_NONE),
            ServiceStatus::FailedOrphaned => (STATUS_FAILED_PRIMARY, STATUS_REASON_ORPHANED),
            ServiceStatus::FailedCircuitOpen => (
                STATUS_FAILED_PRIMARY,
                self.status_reason_circuit_open,
            ),
        }
    }

    /// The two bytes that tell `o`.
    pub fn outcome_bytes(&self, o: Outcome) -> (r: (u8, u8))
        ensures
            r == self.outcome_spec(o),
    {
        match o {
            Outcome::Success => (OUTCOME_SUCCESS, REASON_NA),
            Outcome::Unauthorized => (OUTCOME_UNAUTHORIZED, REASON_NA),
            Outcome::WireParse => (self.outcome_wire_parse, REASON_NA),
            Outcome::EpistemicConflict => (self.outcome_epistemic_conflict, REASON_NA),
            Outcome::CgroupCapacity => (
                self.outcome_epistemic_conflict,
                self.reason_cgroup_capacity,
            ),
            Outcome::Tombstoned => (self.outcome_tombstoned, REASON_NA),
        }
    }

    /// The two bytes that tell `s`.
    pub fn status_bytes(&self, s: ServiceStatus) -> (r: (u8, u8))
        ensures
            r == self.status_spec(s),
    {
        match s {
            ServiceStatus::Offline => (self.status_offline, STATUS_REASON_NONE),
            ServiceStatus::Running => (STATUS_RUNNING, STATUS_REASON_NONE),
            ServiceStatus::Sweeping => (self.status_sweeping, STATUS_REASON_NONE),
            ServiceStatus::Dead => (self.status_dead, STATUS_REASON_NONE),
            ServiceStatus::Tombstoned => (self.status_tombstoned, STATUS_REASON_NONE),
            ServiceStatus::Recovering => (self.status_recovering, STATUS_REASON_NONE),
            ServiceStatus::FailedOrphaned => (STATUS_FAILED_PRIMARY, STATUS_REASON_ORPHANED),
            ServiceStatus::FailedCircuitOpen => (
                STATUS_FAILED_PRIMARY,
                self.status_reason_circuit_open,
            ),
        }
    }

    /// The frame that answers `command` with `o`.
    pub fn outcome_frame(&self, command: Command, o: Outcome) -> (r: Bytes)
        ensures
            crate::wire::bytes_of(r) == crate::ipc::reply_bytes(
                command,
                self.outcome_spec(o).0,
                self.outcome_spec(o).1,
            ),
    {
        let (b0, b1) = self.outcome_bytes(o);
        encode_ipc_reply(command, b0, b1)
    }

    /// The frame that answers a question for the status.
    pub fn status_frame(&self, s: ServiceStatus) -> (r: Bytes)
        ensures
            crate::wire::bytes_of(r) == crate::ipc::reply_bytes(
                Command::Status,
                self.status_spec(s).0,
                self.status_spec(s).1,
            ),
    {
        let (b0, b1) = self.status_bytes(s);
        encode_ipc_reply(Command::Status, b0, b1)
    }

    /// The frame for a peer whose request was not even looked at.
    pub fn reply_pre_dispatch_error(&self, o: Outcome) -> (r: Bytes)
        ensures
            crate::wire::bytes_of(r) == crate::ipc::reply_bytes(
                Command::Start,
                self.outcome_spec(o).0,
                self.outcome_spec(o).1,
            ),
    {
        self.outcome_frame(Command::Start, o)
    }
}

// ---------------------------------------------------------------------------
// The state
// ---------------------------------------------------------------------------

/// The bounds that the boot artifact seals for the supervisor.
#[derive(Debug, Clone, Copy, PartialEq, Eq, Structural)]
pub struct SysxCoreBin {
    pub admin_gid: u32,
    pub epoll_timeout_ms: u16,
    pub max_cgroups: u32,
}

/// All that the supervisor knows.
#[derive(Debug)]
pub struct Supervisor {
    pub schemas: NameMap<ServiceSchema>,
    pub dag: DagRuntime,
    /// Services whose processes outlived a stop.
    pub tombstoned: NameSet,
    /// Services whose directories were seen to go.
    pub dfs_proven_dead: NameSet,
    pub orch: OrchestratorState,
    /// The services that readiness is awaited of, by file descriptor.
    pub readiness: HashMap<i32, String>,
    /// The timers of the services that recover.
    pub recovery_pending: NameMap<i32>,
}

/// What changes of what the supervisor knows.
#[verifier::ext_equal]
pub struct SupervisorView {
    pub tombstoned: Set<Seq<char>>,
    pub dfs_proven_dead: Set<Seq<char>>,
    pub orch: OrchView,
    pub readiness: Map<i32, Seq<char>>,
    pub recovery_pending: Map<Seq<char>, i32>,
}

impl View for Supervisor {
    type V = SupervisorView;

    open spec fn view(&self) -> SupervisorView {
        SupervisorView {
            tombstoned: self.tombstoned@,
            dfs_proven_dead: self.dfs_proven_dead@,
            orch: self.orch@,
            readiness: self.readiness@.map_values(|s: String| s@),
            recovery_pending: self.recovery_pending@,
        }
    }
}

impl Supervisor {
    /// Whether the services and their dependencies are the same in `before`.
    pub open spec fn same_services(&self, before: &Supervisor) -> bool {
        self.schemas == before.schemas && self.dag == before.dag
    }

    /// `name` and all the services that depend on it, directly or not.
    pub open spec fn affected(&self, name: Seq<char>) -> Set<Seq<char>> {
        crate::orchestration::downstream(crate::dag::graph_of(self.dag.dependents@), name)
    }

    /// The services that `name` declares to depend on.
    pub open spec fn declared_dependencies(&self, name: Seq<char>) -> Seq<Seq<char>> {
        crate::names::texts(self.schemas@[name].depends_on@)
    }

    /// Whether the edges of the graph agree with each other and with the schemas, and every
    /// service that depends on a failed one has failed too.
    pub open spec fn sound(&self) -> bool {
        &&& self.dag.wf()
        &&& crate::dag::edges_declared(crate::dag::graph_of(self.dag.graph@), self.schemas@)
        &&& self.orch.failure_closed(&self.dag)
    }

    /// A supervisor that has started nothing.
    pub fn new(schemas: NameMap<ServiceSchema>, dag: DagRuntime) -> (r: Supervisor)
        ensures
            r.schemas == schemas,
            r.dag == dag,
            r.orch.is_fresh(),
            r@.tombstoned == Set::<Seq<char>>::empty(),
            r@.dfs_proven_dead == Set::<Seq<char>>::empty(),
            r@.readiness == Map::<i32, Seq<char>>::empty(),
            r@.recovery_pending == Map::<Seq<char>, i32>::empty(),
            dag.wf() && crate::dag::edges_declared(crate::dag::graph_of(dag.graph@), schemas@)
                ==> r.sound(),
    {
        let r = Supervisor {
            schemas,
            dag,
            tombstoned: NameSet::new(),
            dfs_proven_dead: NameSet::new(),
            orch: OrchestratorState::new(),
            readiness: HashMap::new(),
            recovery_pending: NameMap::new(),
        };
        assert(r@.readiness =~= Map::<i32, Seq<char>>::empty());
        r
    }

    /// Whether a service has processes that cannot be removed.
    pub fn is_tombstoned(&self, name: &str) -> (r: bool)
        ensures
            r == self@.tombstoned.contains(name@),
    {
        self.tombstoned.contains(name)
    }
}

// ---------------------------------------------------------------------------
// Requests
// ---------------------------------------------------------------------------

/// Why a service may not start now.
#[derive(Debug, Clone, Copy, PartialEq, Eq, Structural)]
pub enum StartBlock {
    UnknownService,
    UpstreamFailed,
    UpstreamNotRunning,
}

impl StartBlock {
    /// What [`StartBlock::message`] says.
    pub open spec fn text(&self) -> Seq<char> {
        match self {
            StartBlock::UnknownService => "unknown service"@,
            StartBlock::UpstreamFailed => "upstream dependency failed"@,
            StartBlock::UpstreamNotRunning => "upstream not Running"@,
        }
    }

    /// The reason in words.
    pub fn message(&self) -> (r: &'static str)
        ensures
            r@ == self.text(),
    {
        match self {
            StartBlock::UnknownService => "unknown service",
            StartBlock::UpstreamFailed => "upstream dependency failed",
            StartBlock::UpstreamNotRunning => "upstream not Running",
        }
    }
}

/// What the first of `deps` that is not in order stands in the way with.
pub open spec fn first_block(
    deps: Seq<Seq<char>>,
    failed: Set<Seq<char>>,
    running: Set<Seq<char>>,
) -> Option<StartBlock>
    decreases deps.len(),
{
    if deps.len() == 0 {
        None
    } else {
        match first_block(deps.drop_last(), failed, running) {
            Some(b) => Some(b),
            None => if failed.contains(deps.last()) {
                Some(StartBlock::UpstreamFailed)
            } else if !running.contains(deps.last()) {
                Some(StartBlock::UpstreamNotRunning)
            } else {
                None
            },
        }
    }
}

proof fn lemma_first_block_prefix(
    deps: Seq<Seq<char>>,
    failed: Set<Seq<char>>,
    running: Set<Seq<char>>,
    i: int,
)
    requires
        0 <= i <= deps.len(),
        first_block(deps.take(i), failed, running) is Some,
    ensures
        first_block(deps, failed, running) == first_block(deps.take(i), failed, running),
    decreases deps.len() - i,
{
    if i == deps.len() {
        assert(deps.take(i) == deps);
    } else {
        assert(deps.take(i + 1).drop_last() == deps.take(i));
        lemma_first_block_prefix(deps, failed, running, i + 1);
    }
}

/// Nothing stands in the way exactly if every dependency runs and none has failed.
proof fn lemma_no_block(deps: Seq<Seq<char>>, failed: Set<Seq<char>>, running: Set<Seq<char>>)
    ensures
        first_block(deps, failed, running) is None <==> (forall|i: int|
            0 <= i < deps.len() ==> running.contains(#[trigger] deps[i]) && !failed.contains(
                deps[i],
            )),
    decreases deps.len(),
{
    if deps.len() > 0 {
        let front = deps.drop_last();
        lemma_no_block(front, failed, running);
        if first_block(deps, failed, running) is None {
            assert forall|i: int| 0 <= i < deps.len() implies running.contains(#[trigger] deps[i])
                && !failed.contains(deps[i]) by {
                if i < front.len() {
                    assert(front[i] == deps[i]);
                }
            }
        }
        if forall|i: int|
            0 <= i < deps.len() ==> running.contains(#[trigger] deps[i]) && !failed.contains(
                deps[i],
            ) {
            assert forall|i: int| 0 <= i < front.len() implies running.contains(
                #[trigger] front[i],
            ) && !failed.contains(front[i]) by {
                assert(front[i] == deps[i]);
            }
            assert(deps[deps.len() - 1] == deps.last());
        }
    }
}

/// Whether the dependency at `i` is the first that has failed or does not run.
pub open spec fn is_first_block(
    deps: Seq<Seq<char>>,
    failed: Set<Seq<char>>,
    running: Set<Seq<char>>,
    i: int,
) -> bool {
    &&& 0 <= i < deps.len()
    &&& failed.contains(deps[i]) || !running.contains(deps[i])
    &&& forall|j: int|
        0 <= j < i ==> running.contains(#[trigger] deps[j]) && !failed.contains(deps[j])
}

/// Law: what stands in the way is the first dependency that has failed or does not run, and it
/// stands in the way as a failed one exactly if it has failed.
pub proof fn lemma_first_block(
    deps: Seq<Seq<char>>,
    failed: Set<Seq<char>>,
    running: Set<Seq<char>>,
)
    ensures
        first_block(deps, failed, running) is None <==> (forall|i: int|
            0 <= i < deps.len() ==> running.contains(#[trigger] deps[i]) && !failed.contains(
                deps[i],
            )),
        first_block(deps, failed, running) is Some ==> exists|i: int|
            0 <= i < deps.len() && #[trigger] is_first_block(deps, failed, running, i)
                && first_block(deps, failed, running) == (if failed.contains(deps[i]) {
                Some(StartBlock::UpstreamFailed)
            } else {
                Some(StartBlock::UpstreamNotRunning)
            }),
    decreases deps.len(),
{
    lemma_no_block(deps, failed, running);
    if deps.len() > 0 {
        let front = deps.drop_last();
        lemma_first_block(front, failed, running);
        lemma_no_block(front, failed, running);
        if first_block(front, failed, running) is Some {
            let i = choose|i: int|
                0 <= i < front.len() && #[trigger] is_first_block(front, failed, running, i)
                    && first_block(front, failed, running) == (if failed.contains(front[i]) {
                    Some(StartBlock::UpstreamFailed)
                } else {
                    Some(StartBlock::UpstreamNotRunning)
                });
            assert(is_first_block(deps, failed, running, i)) by {
                assert forall|j: int| 0 <= j < i implies running.contains(#[trigger] deps[j])
                    && !failed.contains(deps[j]) by {
                    assert(front[j] == deps[j]);
                }
            }
        } else if first_block(deps, failed, running) is Some {
            let i = deps.len() - 1;
            assert(is_first_block(deps, failed, running, i)) by {
                assert forall|j: int| 0 <= j < i implies running.contains(#[trigger] deps[j])
                    && !failed.contains(deps[j]) by {
                    assert(front[j] == deps[j]);
                }
            }
        }
    }
}

/// The service that a request names: its payload, if that is a service name.
pub open spec fn requested_name(payload_length: u32, payload: Seq<u8>) -> Option<Seq<char>> {
    if payload_length == 0 || payload.len() == 0 || !vstd::utf8::valid_utf8(payload)
        || !crate::schema::is_service_name(vstd::utf8::decode_utf8(payload)) {
        None
    } else {
        Some(vstd::utf8::decode_utf8(payload))
    }
}

fn request_name(payload_length: u32, payload: &[u8]) -> (r: Option<String>)
    ensures
        match r {
            Some(n) => requested_name(payload_length, payload@) == Some(n@),
            None => requested_name(payload_length, payload@) is None,
        },
{
    if payload_length == 0 || payload.len() == 0 {
        return None;
    }
    match utf8_text(payload) {
        None => None,
        Some(name) => match validate_ipc_service_name(name) {
            Ok(()) => Some(name.to_owned()),
            Err(_) => None,
        },
    }
}

/// What follows a request.
#[derive(Debug)]
pub enum Dispatch {
    /// The peer is answered at once. `about` is the service, if the request named one.
    Reply { command: Command, outcome: Outcome, about: Option<String> },
    /// The peer is told of success, and then everything is stopped.
    Broadcast { command: Command, kind: TerminalBroadcastKind },
    /// The directories of the service are swept; see [`Supervisor::finish_reset`].
    Reset { name: String, path: String },
    /// The service gets its slot and is spawned; see [`Supervisor::finish_start`].
    Start { name: String },
    /// The service is stopped; see [`Supervisor::finish_stop`].
    Stop { name: String },
    /// The state of the service is looked up; see [`Supervisor::status_reply`].
    Status { name: String },
}

/// Whether `r` answers `command` with `outcome`, and speaks of the service `name`.
pub open spec fn answers(
    r: Dispatch,
    c: Command,
    o: Outcome,
    about: Option<Seq<char>>,
) -> bool {
    r matches Dispatch::Reply { command, outcome, about: named } && command == c && outcome == o && (
    match about {
        Some(n) => named matches Some(m) && m@ == n,
        None => named is None,
    })
}

/// Why a start is denied, if it is.
pub open spec fn start_denial(s: SupervisorView, block: Option<StartBlock>, name: Seq<char>) -> Option<
    Outcome,
> {
    if s.tombstoned.contains(name) {
        Some(Outcome::Tombstoned)
    } else if s.orch.recovering.contains(name) || s.orch.cascade_failed.contains(name) {
        Some(Outcome::EpistemicConflict)
    } else if block is Some {
        Some(Outcome::EpistemicConflict)
    } else {
        None
    }
}

impl Supervisor {
    /// What stands in the way of a start of `name`, as far as other services go.
    pub open spec fn start_block(&self, name: Seq<char>) -> Option<StartBlock> {
        if !self.schemas@.contains_key(name) {
            Some(StartBlock::UnknownService)
        } else {
            first_block(
                self.declared_dependencies(name),
                self@.orch.cascade_failed,
                self@.orch.running,
            )
        }
    }

    /// Whether `r` is what follows a request.
    pub open spec fn is_dispatch(
        &self,
        rt: &RuntimeContext,
        hdr: &Header,
        payload: Seq<u8>,
        r: Dispatch,
    ) -> bool {
        let wanted = requested_name(hdr.payload_length, payload);
        match hdr.command {
            Command::Poweroff | Command::Reboot => if hdr.payload_length != 0 || payload.len()
                != 0 {
                answers(r, Command::Start, Outcome::WireParse, None)
            } else {
                r == (Dispatch::Broadcast {
                    command: hdr.command,
                    kind: if hdr.command == Command::Poweroff {
                        TerminalBroadcastKind::Poweroff
                    } else {
                        TerminalBroadcastKind::Reboot
                    },
                })
            },
            Command::Reset => match wanted {
                None => answers(r, Command::Start, Outcome::WireParse, None),
                Some(n) => if !self@.tombstoned.contains(n) {
                    answers(r, Command::Reset, Outcome::EpistemicConflict, wanted)
                } else {
                    r matches Dispatch::Reset { name, path } && name@ == n && path@
                        == rt.service_path(n)
                },
            },
            Command::Start => match wanted {
                None => answers(r, Command::Start, Outcome::WireParse, None),
                Some(n) => match start_denial(self@, self.start_block(n), n) {
                    Some(o) => answers(r, Command::Start, o, wanted),
                    None => r matches Dispatch::Start { name } && name@ == n,
                },
            },
            Command::Stop => match wanted {
                None => answers(r, Command::Start, Outcome::WireParse, None),
                Some(n) => if self@.tombstoned.contains(n) {
                    answers(r, Command::Stop, Outcome::Tombstoned, wanted)
                } else {
                    r matches Dispatch::Stop { name } && name@ == n
                },
            },
            Command::Status => match wanted {
                None => answers(r, Command::Start, Outcome::WireParse, None),
                Some(n) => r matches Dispatch::Status { name } && name@ == n,
            },
        }
    }

    /// Whether a request makes a service fail: it asks for a start that only a failed
    /// dependency stands in the way of.
    pub open spec fn start_fails(&self, hdr: &Header, payload: Seq<u8>) -> Option<Seq<char>> {
        match requested_name(hdr.payload_length, payload) {
            Some(n) => if hdr.command == Command::Start && start_denial(self@, None, n) is None
                && self.start_block(n) == Some(StartBlock::UpstreamFailed) {
                Some(n)
            } else {
                None
            },
            None => None,
        }
    }

    fn dependency_block(&self, deps: &Vec<String>) -> (r: Option<StartBlock>)
        ensures
            r == first_block(
                crate::names::texts(deps@),
                self@.orch.cascade_failed,
                self@.orch.running,
            ),
    {
        let ghost ds = crate::names::texts(deps@);
        let ghost failed = self@.orch.cascade_failed;
        let ghost running = self@.orch.running;
        let mut i: usize = 0;
        assert(ds.take(0) == Seq::<Seq<char>>::empty());
        while i < deps.len()
            invariant
                i <= deps.len(),
                ds == crate::names::texts(deps@),
                failed == self@.orch.cascade_failed,
                running == self@.orch.running,
                first_block(ds.take(i as int), failed, running) is None,
            decreases deps.len() - i,
        {
            assert(ds.take(i + 1).drop_last() == ds.take(i as int));
            assert(ds.take(i + 1).last() == deps[i as int]@);
            if self.orch.cascade_failed.contains(deps[i].as_str()) {
                proof {
                    lemma_first_block_prefix(ds, failed, running, i + 1);
                }
                return Some(StartBlock::UpstreamFailed);
            }
            if !self.orch.running.contains(deps[i].as_str()) {
                proof {
                    lemma_first_block_prefix(ds, failed, running, i + 1);
                }
                return Some(StartBlock::UpstreamNotRunning);
            }
            i += 1;
        }
        assert(ds.take(ds.len() as int) == ds);
        None
    }

    /// Whether other services allow a start. A failed dependency makes the service fail.
    pub fn orchestration_ipc_start_allowed(&mut self, name: &str) -> (r: Result<(), StartBlock>)
        ensures
            r == match old(self).start_block(name@) {
                None => Ok::<(), StartBlock>(()),
                Some(b) => Err::<(), StartBlock>(b),
            },
            final(self).same_services(old(self)),
            old(self).sound() ==> final(self).sound(),
            final(self)@ == if old(self).start_block(name@) == Some(StartBlock::UpstreamFailed) {
                SupervisorView {
                    orch: old(self)@.orch.failing(old(self).affected(name@)),
                    ..old(self)@
                }
            } else {
                old(self)@
            },
    {
        let block = match self.schemas.get(name) {
            None => Some(StartBlock::UnknownService),
            Some(schema) => self.dependency_block(&schema.depends_on),
        };
        match block {
            None => Ok(()),
            Some(b) => {
                if b == StartBlock::UpstreamFailed {
                    propagate_cascade_failure(name, &self.dag, &mut self.orch);
                    proof {
                        if old(self).sound() {
                            lemma_failures_stay_closed(old(self), self, name@);
                        }
                    }
                }
                Err(b)
            },
        }
    }

    /// Decides what follows a request.
    pub fn dispatch_ipc(
        &mut self,
        rt: &RuntimeContext,
        hdr: &Header,
        payload: &[u8],
    ) -> (r: Dispatch)
        ensures
            old(self).is_dispatch(rt, hdr, payload@, r),
            final(self).same_services(old(self)),
            old(self).sound() ==> final(self).sound(),
            final(self)@ == match old(self).start_fails(hdr, payload@) {
                Some(n) => SupervisorView {
                    orch: old(self)@.orch.failing(old(self).affected(n)),
                    ..old(self)@
                },
                None => old(self)@,
            },
    {
        match hdr.command {
            Command::Poweroff | Command::Reboot => {
                if hdr.payload_length != 0 || payload.len() != 0 {
                    return malformed();
                }
                let kind = if hdr.command == Command::Poweroff {
                    TerminalBroadcastKind::Poweroff
                } else {
                    TerminalBroadcastKind::Reboot
                };
                return Dispatch::Broadcast { command: hdr.command, kind };
            },
            _ => {},
        }
        let name = match request_name(hdr.payload_length, payload) {
            Some(n) => n,
            None => {
                return malformed();
            },
        };
        match hdr.command {
            Command::Reset => {
                if !self.is_tombstoned(name.as_str()) {
                    return Dispatch::Reply {
                        command: Command::Reset,
                        outcome: Outcome::EpistemicConflict,
                        about: Some(name),
                    };
                }
                proof {
                    crate::runtime::lemma_service_name_is_id(name@);
                }
                match rt.service_cgroup_path(name.as_str()) {
                    Ok(path) => Dispatch::Reset { name, path },
                    Err(_) => malformed(),
                }
            },
            Command::Start => self.dispatch_start(name),
            Command::Stop => {
                if self.is_tombstoned(name.as_str()) {
                    return Dispatch::Reply {
                        command: Command::Stop,
                        outcome: Outcome::Tombstoned,
                        about: Some(name),
                    };
                }
                Dispatch::Stop { name }
            },
            _ => Dispatch::Status { name },
        }
    }

    fn dispatch_start(&mut self, name: String) -> (r: Dispatch)
        ensures
            match start_denial(old(self)@, old(self).start_block(name@), name@) {
                Some(o) => answers(r, Command::Start, o, Some(name@)),
                None => r matches Dispatch::Start { name: n } && n@ == name@,
            },
            final(self).same_services(old(self)),
            old(self).sound() ==> final(self).sound(),
            final(self)@ == if start_denial(old(self)@, None, name@) is None && old(
                self,
            ).start_block(name@) == Some(StartBlock::UpstreamFailed) {
                SupervisorView {
                    orch: old(self)@.orch.failing(old(self).affected(name@)),
                    ..old(self)@
                }
            } else {
                old(self)@
            },
    {
        if self.is_tombstoned(name.as_str()) {
            return Dispatch::Reply {
                command: Command::Start,
                outcome: Outcome::Tombstoned,
                about: Some(name),
            };
        }
        if self.orch.recovering.contains(name.as_str()) || self.orch.cascade_failed.contains(
            name.as_str(),
        ) {
            return Dispatch::Reply {
                command: Command::Start,
                outcome: Outcome::EpistemicConflict,
                about: Some(name),
            };
        }
        match self.orchestration_ipc_start_allowed(name.as_str()) {
            Err(_) => Dispatch::Reply {
                command: Command::Start,
                outcome: Outcome::EpistemicConflict,
                about: Some(name),
            },
            Ok(()) => Dispatch::Start { name },
        }
    }
}

fn malformed() -> (r: Dispatch)
    ensures
        answers(r, Command::Start, Outcome::WireParse, None),
{
    Dispatch::Reply { command: Command::Start, outcome: Outcome::WireParse, about: None }
}

// ---------------------------------------------------------------------------
// What came of a request
// ---------------------------------------------------------------------------

/// What came of giving a service its slot and spawning it.
#[derive(Debug)]
pub enum StartResult {
    /// There is no slot.
    Refused(StartCgroupError),
    /// The process could not be spawned.
    SpawnFailed,
    /// The process was spawned; its readiness is announced on `fd`.
    Spawned { fd: i32, pid: i32 },
    /// The service has a slot and no definition.
    NoSchema,
}

/// Whether one of `names` is in `set`.
pub open spec fn some_in(names: Seq<Seq<char>>, set: Set<Seq<char>>) -> bool {
    exists|i: int| 0 <= i < names.len() && set.contains(#[trigger] names[i])
}

impl SupervisorView {
    /// After `name` was spawned.
    pub open spec fn spawned(self, name: Seq<char>, fd: i32, pid: i32) -> SupervisorView {
        SupervisorView {
            dfs_proven_dead: self.dfs_proven_dead.remove(name),
            readiness: self.readiness.insert(fd, name),
            orch: OrchView {
                starting: self.orch.starting.insert(name),
                root_pids: self.orch.root_pids.insert(name, pid),
                ..self.orch
            },
            ..self
        }
    }

    /// After a reset of `name`: the tombstone is gone and, if `lifts`, the failure.
    pub open spec fn reset(self, name: Seq<char>, lifts: bool) -> SupervisorView {
        SupervisorView {
            tombstoned: self.tombstoned.remove(name),
            dfs_proven_dead: self.dfs_proven_dead.remove(name),
            orch: if lifts {
                OrchView {
                    cascade_failed: self.orch.cascade_failed.remove(name),
                    circuit_origin: self.orch.circuit_origin.remove(name),
                    ..self.orch
                }
            } else {
                self.orch
            },
            ..self
        }
    }

    /// After `name` was stopped: it does not run.
    pub open spec fn halted(self, name: Seq<char>) -> SupervisorView {
        SupervisorView {
            orch: OrchView {
                running: self.orch.running.remove(name),
                starting: self.orch.starting.remove(name),
                root_pids: self.orch.root_pids.remove(name),
                ..self.orch
            },
            ..self
        }
    }

    /// After the directories of `name` were seen to go.
    pub open spec fn proven_dead(self, name: Seq<char>) -> SupervisorView {
        SupervisorView {
            tombstoned: self.tombstoned.remove(name),
            dfs_proven_dead: self.dfs_proven_dead.insert(name),
            ..self
        }
    }

    /// After processes of `name` outlived a stop, or its directories a sweep.
    pub open spec fn entombed(self, name: Seq<char>) -> SupervisorView {
        SupervisorView { tombstoned: self.tombstoned.insert(name), ..self }
    }
}

impl Supervisor {
    /// Whether a service that `name` declares to depend on has failed.
    pub open spec fn upstream_failed(&self, name: Seq<char>) -> bool {
        self.schemas@.contains_key(name) && some_in(
            self.declared_dependencies(name),
            self@.orch.cascade_failed,
        )
    }

    fn has_failed_upstream(&self, name: &str) -> (r: bool)
        ensures
            r == self.upstream_failed(name@),
    {
        match self.schemas.get(name) {
            None => false,
            Some(schema) => {
                let ghost deps = crate::names::texts(schema.depends_on@);
                let mut i: usize = 0;
                while i < schema.depends_on.len()
                    invariant
                        i <= schema.depends_on.len(),
                        deps == crate::names::texts(schema.depends_on@),
                        self.schemas@.contains_key(name@),
                        deps == self.declared_dependencies(name@),
                        forall|j: int|
                            0 <= j < i ==> !self.orch.cascade_failed@.contains(#[trigger] deps[j]),
                    decreases schema.depends_on.len() - i,
                {
                    assert(deps[i as int] == schema.depends_on@[i as int]@);
                    if self.orch.cascade_failed.contains(schema.depends_on[i].as_str()) {
                        return true;
                    }
                    i += 1;
                }
                false
            },
        }
    }

    /// Takes in the sweep of a reset. A tombstone goes only with the directories, and with
    /// it the failure of the service, unless one that it depends on has failed.
    pub fn finish_reset(&mut self, name: &str, swept: &Result<(), IoFailure>) -> (r: Outcome)
        ensures
            final(self).same_services(old(self)),
            old(self).sound() ==> final(self).sound(),
            r == if swept is Ok {
                Outcome::Success
            } else {
                Outcome::EpistemicConflict
            },
            final(self)@ == if swept is Ok {
                old(self)@.reset(name@, !old(self).upstream_failed(name@))
            } else {
                old(self)@
            },
    {
        match swept {
            Ok(()) => {
                let lifts = !self.has_failed_upstream(name);
                self.tombstoned.remove(name);
                self.dfs_proven_dead.remove(name);
                if lifts {
                    proof {
                        if old(self).sound() {
                            lemma_lifting_stays_closed(
                                &self.dag,
                                self.schemas@,
                                self.orch.cascade_failed@,
                                name@,
                            );
                        }
                    }
                    self.orch.cascade_failed.remove(name);
                    self.orch.circuit_origin.remove(name);
                }
                Outcome::Success
            },
            Err(_) => Outcome::EpistemicConflict,
        }
    }

    /// Takes in that a service was spawned.
    pub fn on_spawned(&mut self, name: &str, fd: i32, pid: i32)
        ensures
            final(self).same_services(old(self)),
            old(self).sound() ==> final(self).sound(),
            final(self)@ == old(self)@.spawned(name@, fd, pid),
    {
        self.dfs_proven_dead.remove(name);
        self.readiness.insert(fd, name.to_owned());
        self.orch.starting.insert(name);
        self.orch.root_pids.insert(name, pid);
        proof {
            assert(self@.readiness =~= old(self)@.readiness.insert(fd, name@));
            assert(self@ =~= old(self)@.spawned(name@, fd, pid));
        }
    }

    /// Takes in that a service was spawned whose readiness nobody will hear of: it counts
    /// neither as starting nor as gone.
    pub fn on_spawned_unwatched(&mut self, name: &str, fd: i32)
        ensures
            final(self).same_services(old(self)),
            old(self).sound() ==> final(self).sound(),
            final(self)@ == (SupervisorView {
                dfs_proven_dead: old(self)@.dfs_proven_dead.remove(name@),
                readiness: old(self)@.readiness.insert(fd, name@),
                ..old(self)@
            }),
    {
        self.dfs_proven_dead.remove(name);
        self.readiness.insert(fd, name.to_owned());
        assert(self@.readiness =~= old(self)@.readiness.insert(fd, name@));
    }

    /// Whether the machine is taken down as a peer asked: only once the peer could be told.
    pub fn finish_broadcast(kind: TerminalBroadcastKind, reply_written: bool) -> (r: Option<
        TerminalBroadcastKind,
    >)
        ensures
            r == if reply_written {
                Some(kind)
            } else {
                None
            },
    {
        if reply_written {
            Some(kind)
        } else {
            None
        }
    }

    /// Takes in what came of a start.
    pub fn finish_start(&mut self, name: &str, result: &StartResult) -> (r: Outcome)
        ensures
            final(self).same_services(old(self)),
            old(self).sound() ==> final(self).sound(),
            r == match result {
                StartResult::Refused(StartCgroupError::AtCapacity { .. }) => Outcome::CgroupCapacity,
                StartResult::Refused(StartCgroupError::Mkdir(_)) => Outcome::EpistemicConflict,
                StartResult::SpawnFailed => Outcome::EpistemicConflict,
                StartResult::Spawned { .. } => Outcome::Success,
                StartResult::NoSchema => Outcome::Success,
            },
            final(self)@ == match result {
                StartResult::Spawned { fd, pid } => old(self)@.spawned(name@, *fd, *pid),
                StartResult::NoSchema => SupervisorView {
                    dfs_proven_dead: old(self)@.dfs_proven_dead.remove(name@),
                    ..old(self)@
                },
                _ => old(self)@,
            },
    {
        match result {
            StartResult::Refused(StartCgroupError::AtCapacity { .. }) => Outcome::CgroupCapacity,
            StartResult::Refused(StartCgroupError::Mkdir(_)) => Outcome::EpistemicConflict,
            StartResult::SpawnFailed => Outcome::EpistemicConflict,
            StartResult::Spawned { fd, pid } => {
                self.on_spawned(name, *fd, *pid);
                Outcome::Success
            },
            StartResult::NoSchema => {
                self.dfs_proven_dead.remove(name);
                Outcome::Success
            },
        }
    }

    fn halt(&mut self, name: &str)
        ensures
            final(self).same_services(old(self)),
            old(self).sound() ==> final(self).sound(),
            final(self)@ == old(self)@.halted(name@),
    {
        self.orch.running.remove(name);
        self.orch.starting.remove(name);
        self.orch.root_pids.remove(name);
    }

    /// Takes in what came of a stop.
    pub fn finish_stop(&mut self, name: &str, result: &Result<StopOutcome, IoFailure>) -> (r:
        Outcome)
        ensures
            final(self).same_services(old(self)),
            old(self).sound() ==> final(self).sound(),
            r == match result {
                Ok(StopOutcome::AlreadyGone) | Ok(StopOutcome::Dead) => Outcome::Success,
                Ok(StopOutcome::Tombstoned) => Outcome::Tombstoned,
                Err(_) => Outcome::EpistemicConflict,
            },
            final(self)@ == match result {
                Ok(StopOutcome::AlreadyGone) | Ok(StopOutcome::Dead) => old(self)@.proven_dead(
                    name@,
                ).halted(name@),
                Ok(StopOutcome::Tombstoned) => old(self)@.entombed(name@).halted(name@),
                Err(_) => old(self)@,
            },
    {
        match result {
            Ok(StopOutcome::AlreadyGone) | Ok(StopOutcome::Dead) => {
                self.tombstoned.remove(name);
                self.dfs_proven_dead.insert(name);
                self.halt(name);
                Outcome::Success
            },
            Ok(StopOutcome::Tombstoned) => {
                self.tombstoned.insert(name);
                self.halt(name);
                Outcome::Tombstoned
            },
            Err(_) => Outcome::EpistemicConflict,
        }
    }

    /// Whether a service that just got ready is to be stopped for a test: it is the one that
    /// was chosen for that, if one was, and has no tombstone.
    pub fn autotest_stop_wanted(&self, chosen: &Option<String>, name: &str) -> (r: bool)
        ensures
            r == ((chosen matches Some(c) && c@ == name@) && !self@.tombstoned.contains(name@)),
    {
        match chosen {
            Some(c) => same_text(c.as_str(), name) && !self.is_tombstoned(name),
            None => false,
        }
    }

    /// Takes in what came of a stop for a test. It leaves no tombstone.
    pub fn finish_autotest_stop(&mut self, name: &str, result: &Result<StopOutcome, IoFailure>)
        ensures
            final(self).same_services(old(self)),
            old(self).sound() ==> final(self).sound(),
            final(self)@ == match result {
                Ok(StopOutcome::AlreadyGone) | Ok(StopOutcome::Dead) => SupervisorView {
                    dfs_proven_dead: old(self)@.dfs_proven_dead.insert(name@),
                    ..old(self)@.halted(name@)
                },
                Ok(StopOutcome::Tombstoned) => old(self)@.halted(name@),
                Err(_) => old(self)@,
            },
    {
        match result {
            Ok(StopOutcome::AlreadyGone) | Ok(StopOutcome::Dead) => {
                self.halt(name);
                self.dfs_proven_dead.insert(name);
            },
            Ok(StopOutcome::Tombstoned) => {
                self.halt(name);
            },
            Err(_) => {},
        }
    }
}

// ---------------------------------------------------------------------------
// Status
// ---------------------------------------------------------------------------

/// What the cgroup tree says of a service.
#[derive(Debug)]
pub struct CgroupProbe {
    /// Whether the directory of the service is there.
    pub dir_exists: bool,
    /// What was read of `cgroup.events`. It counts only if the directory is there.
    pub events: Result<String, IoFailure>,
}

/// The status of a service, by what is known and by what the cgroup tree says.
pub open spec fn status_of(
    s: SupervisorView,
    name: Seq<char>,
    dir_exists: bool,
    populated: Result<Option<bool>, IoFailure>,
) -> ServiceStatus {
    if s.tombstoned.contains(name) {
        ServiceStatus::Tombstoned
    } else if s.orch.cascade_failed.contains(name) {
        if s.orch.circuit_origin.contains(name) {
            ServiceStatus::FailedCircuitOpen
        } else {
            ServiceStatus::FailedOrphaned
        }
    } else if s.orch.recovering.contains(name) {
        ServiceStatus::Recovering
    } else if !crate::runtime::is_service_id(name) {
        ServiceStatus::Offline
    } else if dir_exists {
        match populated {
            Ok(Some(true)) => ServiceStatus::Running,
            Ok(Some(false)) => ServiceStatus::Sweeping,
            _ => ServiceStatus::Offline,
        }
    } else if s.dfs_proven_dead.contains(name) {
        ServiceStatus::Dead
    } else {
        ServiceStatus::Offline
    }
}

/// Whether a status is read off the cgroup tree.
pub open spec fn is_probed(s: SupervisorView, name: Seq<char>) -> bool {
    !s.tombstoned.contains(name) && !s.orch.cascade_failed.contains(name)
        && !s.orch.recovering.contains(name) && crate::runtime::is_service_id(name)
}

/// What is known after a status was given: a directory that is there is no longer known to
/// be gone.
pub open spec fn after_status(s: SupervisorView, name: Seq<char>, dir_exists: bool) -> SupervisorView {
    if is_probed(s, name) && dir_exists {
        SupervisorView { dfs_proven_dead: s.dfs_proven_dead.remove(name), ..s }
    } else {
        s
    }
}

impl Supervisor {
    /// The status of a service without a tombstone.
    fn evaluate_status_abi(&mut self, name: &str, probe: CgroupProbe) -> (r: ServiceStatus)
        requires
            !old(self)@.tombstoned.contains(name@),
        ensures
            r == status_of(
                old(self)@,
                name@,
                probe.dir_exists,
                crate::runtime::populated_read(probe.events),
            ),
            final(self).same_services(old(self)),
            old(self).sound() ==> final(self).sound(),
            final(self)@ == after_status(old(self)@, name@, probe.dir_exists),
    {
        if self.orch.cascade_failed.contains(name) {
            if self.orch.circuit_origin.contains(name) {
                return ServiceStatus::FailedCircuitOpen;
            }
            return ServiceStatus::FailedOrphaned;
        }
        if self.orch.recovering.contains(name) {
            return ServiceStatus::Recovering;
        }
        match crate::runtime::validate_service_id(name) {
            Err(_) => {
                return ServiceStatus::Offline;
            },
            Ok(()) => {},
        }
        if probe.dir_exists {
            self.dfs_proven_dead.remove(name);
            match read_sysfs_cgroup_populated(probe.events) {
                Ok(Some(true)) => ServiceStatus::Running,
                Ok(Some(false)) => ServiceStatus::Sweeping,
                Ok(None) => ServiceStatus::Offline,
                Err(_) => ServiceStatus::Offline,
            }
        } else if self.dfs_proven_dead.contains(name) {
            ServiceStatus::Dead
        } else {
            ServiceStatus::Offline
        }
    }

    /// The status of a service.
    pub fn status_reply(&mut self, name: &str, probe: CgroupProbe) -> (r: ServiceStatus)
        ensures
            r == status_of(
                old(self)@,
                name@,
                probe.dir_exists,
                crate::runtime::populated_read(probe.events),
            ),
            final(self).same_services(old(self)),
            old(self).sound() ==> final(self).sound(),
            final(self)@ == after_status(old(self)@, name@, probe.dir_exists),
    {
        if self.is_tombstoned(name) {
            return ServiceStatus::Tombstoned;
        }
        self.evaluate_status_abi(name, probe)
    }

    /// Whether the status that was sent is still the status: one if so, else zero.
    pub fn status_sysfs_matches_ipc(
        &mut self,
        codes: &ReplyCodes,
        name: &str,
        probe: CgroupProbe,
        ipc_b0: u8,
        ipc_b1: u8,
    ) -> (r: u8)
        ensures
            r == if codes.status_spec(
                status_of(
                    old(self)@,
                    name@,
                    probe.dir_exists,
                    crate::runtime::populated_read(probe.events),
                ),
            ) == (ipc_b0, ipc_b1) {
                1u8
            } else {
                0u8
            },
            final(self).same_services(old(self)),
            old(self).sound() ==> final(self).sound(),
            final(self)@ == after_status(old(self)@, name@, probe.dir_exists),
    {
        let status = self.status_reply(name, probe);
        let (b0, b1) = codes.status_bytes(status);
        if b0 == ipc_b0 && b1 == ipc_b1 {
            1
        } else {
            0
        }
    }
}

/// What [`sysfs_populated_label`] says.
pub open spec fn populated_label(name: Seq<char>, read: Result<String, IoFailure>) -> Seq<char> {
    if !crate::runtime::is_service_id(name) {
        "na"@
    } else {
        match crate::runtime::populated_read(read) {
            Ok(Some(true)) => "1"@,
            Ok(Some(false)) => "0"@,
            Ok(None) => "none"@,
            Err(_) => "err"@,
        }
    }
}

/// A read of `cgroup.events` in a word.
pub fn sysfs_populated_label(name: &str, read: Result<String, IoFailure>) -> (r: &'static str)
    ensures
        r@ == populated_label(name@, read),
{
    match crate::runtime::validate_service_id(name) {
        Err(_) => {
            return "na";
        },
        Ok(()) => {},
    }
    match read_sysfs_cgroup_populated(read) {
        Ok(Some(true)) => "1",
        Ok(Some(false)) => "0",
        Ok(None) => "none",
        Err(_) => "err",
    }
}

/// What [`log_oracle_dual`] says.
pub open spec fn oracle_line(
    op: Seq<char>,
    name: Seq<char>,
    b0: u8,
    b1: u8,
    sysfs_pop: Seq<char>,
    sysfs_match: Option<u8>,
) -> Seq<char> {
    "SYSX_ORACLE_DUAL op="@ + op + " service="@ + name + " ipc=S:"@ + crate::text::hex_byte(b0)
        + ":R:"@ + crate::text::hex_byte(b1) + " sysfs_populated="@ + sysfs_pop + " sysfs_match="@ + (
    match sysfs_match {
        Some(m) => crate::text::decimal(m as nat),
        None => "na"@,
    }) + " (11)"@
}

/// The line that sets the reply to a request beside what the cgroup tree says.
pub fn log_oracle_dual(
    op: &str,
    name: &str,
    b0: u8,
    b1: u8,
    sysfs_pop: &str,
    sysfs_match: Option<u8>,
) -> (r: String)
    ensures
        r@ == oracle_line(op@, name@, b0, b1, sysfs_pop@, sysfs_match),
{
    let mut m = "SYSX_ORACLE_DUAL op=".to_owned();
    push_text(&mut m, op);
    push_text(&mut m, " service=");
    push_text(&mut m, name);
    push_text(&mut m, " ipc=S:");
    let h = hex_byte_string(b0);
    push_text(&mut m, h.as_str());
    push_text(&mut m, ":R:");
    let h = hex_byte_string(b1);
    push_text(&mut m, h.as_str());
    push_text(&mut m, " sysfs_populated=");
    push_text(&mut m, sysfs_pop);
    push_text(&mut m, " sysfs_match=");
    match sysfs_match {
        Some(n) => {
            let d = crate::text::decimal_string(n as u64);
            push_text(&mut m, d.as_str());
        },
        None => {
            push_text(&mut m, "na");
        },
    }
    push_text(&mut m, " (11)");
    m
}

impl Supervisor {
    /// The line that sets the reply to `command` beside what the cgroup tree says. `label` is
    /// a read of `cgroup.events` for the label; only a status is looked up again, with `probe`.
    pub fn oracle_report(
        &mut self,
        codes: &ReplyCodes,
        command: Command,
        name: &str,
        label: Result<String, IoFailure>,
        probe: CgroupProbe,
        ipc_b0: u8,
        ipc_b1: u8,
    ) -> (r: String)
        ensures
            r@ == oracle_line(
                command.word_text(),
                name@,
                ipc_b0,
                ipc_b1,
                populated_label(name@, label),
                if command is Status {
                    Some(
                        if codes.status_spec(
                            status_of(
                                old(self)@,
                                name@,
                                probe.dir_exists,
                                crate::runtime::populated_read(probe.events),
                            ),
                        ) == (ipc_b0, ipc_b1) {
                            1u8
                        } else {
                            0u8
                        },
                    )
                } else {
                    None
                },
            ),
            final(self).same_services(old(self)),
            old(self).sound() ==> final(self).sound(),
            final(self)@ == if command is Status {
                after_status(old(self)@, name@, probe.dir_exists)
            } else {
                old(self)@
            },
    {
        let populated = sysfs_populated_label(name, label);
        let matching = match command {
            Command::Status => Some(
                self.status_sysfs_matches_ipc(codes, name, probe, ipc_b0, ipc_b1),
            ),
            _ => None,
        };
        log_oracle_dual(command.word(), name, ipc_b0, ipc_b1, populated, matching)
    }
}

// ---------------------------------------------------------------------------
// Spawning what is ready
// ---------------------------------------------------------------------------

/// Why a service is not spawned.
#[derive(Debug, Clone, Copy, PartialEq, Eq, Structural)]
pub enum SpawnDenial {
    Tombstoned,
    CascadeFailed,
    AlreadyActive,
}

impl SpawnDenial {
    /// What [`SpawnDenial::message`] says.
    pub open spec fn text(&self) -> Seq<char> {
        match self {
            SpawnDenial::Tombstoned => "tombstoned"@,
            SpawnDenial::CascadeFailed => "cascade_failed"@,
            SpawnDenial::AlreadyActive => "already running or starting"@,
        }
    }

    /// The reason in words.
    pub fn message(&self) -> (r: &'static str)
        ensures
            r@ == self.text(),
    {
        match self {
            SpawnDenial::Tombstoned => "tombstoned",
            SpawnDenial::CascadeFailed => "cascade_failed",
            SpawnDenial::AlreadyActive => "already running or starting",
        }
    }
}

/// Why `name` is not spawned, if it is not.
pub open spec fn spawn_denial(s: SupervisorView, name: Seq<char>) -> Option<SpawnDenial> {
    if s.tombstoned.contains(name) {
        Some(SpawnDenial::Tombstoned)
    } else if s.orch.cascade_failed.contains(name) {
        Some(SpawnDenial::CascadeFailed)
    } else if s.orch.running.contains(name) || s.orch.starting.contains(name)
        || s.orch.recovering.contains(name) {
        Some(SpawnDenial::AlreadyActive)
    } else {
        None
    }
}

impl Supervisor {
    /// Whether `name` can be started now: it is idle and enabled, and everything that it
    /// depends on runs and has not failed.
    pub open spec fn is_ready(&self, name: Seq<char>) -> bool {
        let o = self@.orch;
        &&& !o.running.contains(name) && !o.starting.contains(name)
        &&& !o.recovering.contains(name) && !o.cascade_failed.contains(name)
        &&& self.schemas@.contains_key(name) && self.schemas@[name].enabled
        &&& forall|i: int|
            0 <= i < self.declared_dependencies(name).len() ==> o.running.contains(
                #[trigger] self.declared_dependencies(name)[i],
            ) && !o.cascade_failed.contains(self.declared_dependencies(name)[i])
    }

    fn ready(&self, name: &str) -> (r: bool)
        ensures
            r == self.is_ready(name@),
    {
        if self.orch.running.contains(name) || self.orch.starting.contains(name)
            || self.orch.recovering.contains(name) || self.orch.cascade_failed.contains(name) {
            return false;
        }
        match self.schemas.get(name) {
            None => false,
            Some(schema) => {
                proof {
                    lemma_no_block(
                        self.declared_dependencies(name@),
                        self@.orch.cascade_failed,
                        self@.orch.running,
                    );
                }
                schema.enabled && self.dependency_block(&schema.depends_on).is_none()
            },
        }
    }

    /// Whether `r` is the first place in the boot order, at `from` or behind it, of a service
    /// that can be started.
    pub open spec fn is_next_ready(&self, from: usize, r: Option<usize>) -> bool {
        let end = match r {
            Some(i) => i as int,
            None => self.dag.boot_order@.len() as int,
        };
        &&& forall|j: int|
            from <= j < end ==> !self.is_ready((#[trigger] self.dag.boot_order@[j])@)
        &&& r matches Some(i) ==> from <= i < self.dag.boot_order@.len() && self.is_ready(
            self.dag.boot_order@[i as int]@,
        )
    }

    /// The place in the boot order, at `from` or behind it, of the next service that can be
    /// started. Whoever starts services asks again behind each attempt.
    pub fn try_spawn_ready_services(&self, from: usize) -> (r: Option<usize>)
        ensures
            match r {
                Some(i) => from <= i < self.dag.boot_order@.len() && self.is_ready(
                    self.dag.boot_order@[i as int]@,
                ) && forall|j: int|
                    from <= j < i ==> !self.is_ready((#[trigger] self.dag.boot_order@[j])@),
                None => forall|j: int|
                    from <= j < self.dag.boot_order@.len() ==> !self.is_ready(
                        (#[trigger] self.dag.boot_order@[j])@,
                    ),
            },
            self.is_next_ready(from, r),
    {
        let mut i: usize = from;
        while i < self.dag.boot_order.len()
            invariant
                from <= i,
                forall|j: int|
                    from <= j < i && j < self.dag.boot_order@.len() ==> !self.is_ready(
                        (#[trigger] self.dag.boot_order@[j])@,
                    ),
            decreases self.dag.boot_order.len() - i,
        {
            if self.ready(self.dag.boot_order[i].as_str()) {
                return Some(i);
            }
            i += 1;
        }
        None
    }

    /// Whether a service is spawned. The one that spawns it then takes care of its slot.
    pub fn spawn_service_for_orchestration(&self, name: &str) -> (r: Result<(), SpawnDenial>)
        ensures
            r == match spawn_denial(self@, name@) {
                None => Ok::<(), SpawnDenial>(()),
                Some(d) => Err::<(), SpawnDenial>(d),
            },
    {
        if self.is_tombstoned(name) {
            return Err(SpawnDenial::Tombstoned);
        }
        if self.orch.cascade_failed.contains(name) {
            return Err(SpawnDenial::CascadeFailed);
        }
        if self.orch.running.contains(name) || self.orch.starting.contains(name)
            || self.orch.recovering.contains(name) {
            return Err(SpawnDenial::AlreadyActive);
        }
        Ok(())
    }
}

// ---------------------------------------------------------------------------
// Readiness and recovery
// ---------------------------------------------------------------------------

/// What a read from a readiness pipe gave.
#[derive(Debug, Clone, Copy, PartialEq, Eq, Structural)]
pub enum ReadinessRead {
    /// So many bytes.
    Bytes(usize),
    /// The other end is closed.
    Eof,
    WouldBlock,
    Failed,
}

/// What follows a read from a readiness pipe.
#[derive(Debug)]
pub enum ReadinessStep {
    /// Nothing.
    Ignore,
    /// The pipe is done with.
    Close { name: String },
    /// The pipe is done with, and the service has failed.
    Fail { name: String },
    /// The pipe is done with, and the service is started again after a while. An earlier
    /// timer is dropped.
    Schedule { name: String, ms: u64, dropped: Option<i32> },
    /// The service runs: others may be ready now.
    Ready { name: String },
}

/// The restart generation of `name`.
pub open spec fn generation(o: OrchView, name: Seq<char>) -> u32 {
    if o.recovery_generation.contains_key(name) {
        o.recovery_generation[name]
    } else {
        0
    }
}

/// The failures of `name` in its window, with one more at `now`.
pub open spec fn failures(
    o: OrchView,
    name: Seq<char>,
    policy: RecoveryPolicy,
    now: Moment,
) -> Seq<Moment> {
    let list = if o.restart_events.contains_key(name) {
        o.restart_events[name]
    } else {
        Seq::empty()
    };
    crate::recovery::recent(list.push(now), policy.window_sec as nat, now)
}

impl SupervisorView {
    /// After the readiness pipe `fd` of `name` was closed. The process may have ended with it,
    /// so it is on record no longer.
    pub open spec fn pipe_closed(self, fd: i32, name: Seq<char>) -> SupervisorView {
        SupervisorView {
            readiness: self.readiness.remove(fd),
            orch: OrchView {
                root_pids: self.orch.root_pids.remove(name),
                starting: self.orch.starting.remove(name),
                ..self.orch
            },
            ..self
        }
    }

    /// After one more failure of `name`.
    pub open spec fn failure_noted(
        self,
        name: Seq<char>,
        policy: RecoveryPolicy,
        now: Moment,
    ) -> SupervisorView {
        SupervisorView {
            orch: OrchView {
                restart_events: self.orch.restart_events.insert(
                    name,
                    failures(self.orch, name, policy, now),
                ),
                ..self.orch
            },
            ..self
        }
    }

    /// After `name` used up its restart budget, and failed with the services of `gone`.
    pub open spec fn circuit_opened(self, name: Seq<char>, gone: Set<Seq<char>>) -> SupervisorView {
        SupervisorView {
            orch: OrchView {
                circuit_origin: self.orch.circuit_origin.insert(name),
                ..self.orch
            }.failing(gone),
            ..self
        }
    }

    /// After a restart of `name` was scheduled.
    pub open spec fn restart_scheduled(self, name: Seq<char>) -> SupervisorView {
        let g = generation(self.orch, name);
        SupervisorView {
            orch: OrchView {
                recovery_generation: self.orch.recovery_generation.insert(
                    name,
                    if g < u32::MAX {
                        (g + 1) as u32
                    } else {
                        g
                    },
                ),
                recovering: self.orch.recovering.insert(name),
                ..self.orch
            },
            recovery_pending: self.recovery_pending.remove(name),
            ..self
        }
    }

    /// After `name` announced readiness.
    pub open spec fn ready(self, name: Seq<char>) -> SupervisorView {
        SupervisorView {
            orch: OrchView {
                starting: self.orch.starting.remove(name),
                running: self.orch.running.insert(name),
                recovery_generation: self.orch.recovery_generation.remove(name),
                restart_events: self.orch.restart_events.remove(name),
                ..self.orch
            },
            ..self
        }
    }
}

impl Supervisor {
    /// The recovery policy of `name`.
    pub open spec fn policy(&self, name: Seq<char>) -> Option<RecoveryPolicy> {
        if self.schemas@.contains_key(name) {
            self.schemas@[name].recovery
        } else {
            None
        }
    }

    /// Whether `step` and `after` are what follows the end of a readiness pipe. A service
    /// that was starting has failed: if its policy says so it is started again, as long as
    /// its budget lasts, and else it fails for good with all that depend on it.
    pub open spec fn is_pipe_end(
        &self,
        fd: i32,
        now: Moment,
        step: ReadinessStep,
        after: SupervisorView,
    ) -> bool {
        let n = self@.readiness[fd];
        let closed = self@.pipe_closed(fd, n);
        if !self@.orch.starting.contains(n) || self@.orch.running.contains(n) {
            &&& step matches ReadinessStep::Close { name } && name@ == n
            &&& after == closed
        } else if !crate::recovery::recovers(self.policy(n)) {
            &&& step matches ReadinessStep::Fail { name } && name@ == n
            &&& after == (SupervisorView {
                orch: closed.orch.failing(self.affected(n)),
                ..closed
            })
        } else {
            let policy = self.policy(n)->0;
            let noted = closed.failure_noted(n, policy, now);
            if failures(closed.orch, n, policy, now).len() >= policy.max_restarts {
                &&& step matches ReadinessStep::Fail { name } && name@ == n
                &&& after == noted.circuit_opened(n, self.affected(n))
            } else {
                &&& step matches ReadinessStep::Schedule { name, ms, dropped } && name@ == n && ms
                    == crate::recovery::backoff(
                    policy.backoff_ms as nat,
                    generation(closed.orch, n) as nat,
                ) && dropped == (if self@.recovery_pending.contains_key(n) {
                    Some(self@.recovery_pending[n])
                } else {
                    None
                })
                &&& after == noted.restart_scheduled(n)
            }
        }
    }

    /// Notes a failure of `name`, and tells whether its restart budget is used up.
    fn note_failure(&mut self, name: &str, window_sec: u64, max_restarts: u32, now: Moment) -> (r:
        bool)
        ensures
            final(self).same_services(old(self)),
            old(self).sound() ==> final(self).sound(),
            ({
                let list = if old(self)@.orch.restart_events.contains_key(name@) {
                    old(self)@.orch.restart_events[name@]
                } else {
                    Seq::empty()
                };
                let events = crate::recovery::recent(list.push(now), window_sec as nat, now);
                &&& final(self)@ == (SupervisorView {
                    orch: OrchView {
                        restart_events: old(self)@.orch.restart_events.insert(name@, events),
                        ..old(self)@.orch
                    },
                    ..old(self)@
                })
                &&& r == (events.len() >= max_restarts)
            }),
    {
        let mut events = match self.orch.restart_events.remove(name) {
            Some(v) => v,
            None => Vec::new(),
        };
        events.push(now);
        prune_restart_window(&mut events, window_sec, now);
        let trip = circuit_should_open(events.as_slice(), max_restarts);
        let ghost kept = events@;
        self.orch.restart_events.insert(name, events);
        proof {
            assert(self@.orch.restart_events =~= old(self)@.orch.restart_events.insert(
                name@,
                kept,
            ));
        }
        trip
    }

    /// Schedules a restart of `name`; gives its generation and the timer that it replaces.
    fn schedule_restart(&mut self, name: &str) -> (r: (u32, Option<i32>))
        ensures
            final(self).same_services(old(self)),
            old(self).sound() ==> final(self).sound(),
            final(self)@ == old(self)@.restart_scheduled(name@),
            r.0 == generation(old(self)@.orch, name@),
            r.1 == (if old(self)@.recovery_pending.contains_key(name@) {
                Some(old(self)@.recovery_pending[name@])
            } else {
                None
            }),
    {
        let exp: u32 = match self.orch.recovery_generation.get(name) {
            Some(g) => *g,
            None => 0,
        };
        self.orch.recovery_generation.insert(name, exp.saturating_add(1));
        self.orch.recovering.insert(name);
        let dropped = self.recovery_pending.remove(name);
        assert(self@ =~= old(self)@.restart_scheduled(name@));
        (exp, dropped)
    }

    /// Takes in a read from a readiness pipe.
    pub fn handle_readiness_fd(&mut self, fd: i32, read: ReadinessRead, now: Moment) -> (step:
        ReadinessStep)
        ensures
            final(self).same_services(old(self)),
            old(self).sound() ==> final(self).sound(),
            if !old(self)@.readiness.contains_key(fd) {
                step is Ignore && final(self)@ == old(self)@
            } else {
                let n = old(self)@.readiness[fd];
                match read {
                    ReadinessRead::Eof => old(self).is_pipe_end(fd, now, step, final(self)@),
                    ReadinessRead::Bytes(k) => if k == 0 {
                        old(self).is_pipe_end(fd, now, step, final(self)@)
                    } else if old(self)@.orch.running.contains(n) {
                        step is Ignore && final(self)@ == old(self)@
                    } else {
                        &&& step matches ReadinessStep::Ready { name } && name@ == n
                        &&& final(self)@ == old(self)@.ready(n)
                    },
                    _ => step is Ignore && final(self)@ == old(self)@,
                }
            },
    {
        let name: String = match self.readiness.get(&fd) {
            Some(n) => n.as_str().to_owned(),
            None => {
                return ReadinessStep::Ignore;
            },
        };
        assert(self@.readiness[fd] == name@);
        match read {
            ReadinessRead::WouldBlock => ReadinessStep::Ignore,
            ReadinessRead::Failed => ReadinessStep::Ignore,
            ReadinessRead::Eof => self.readiness_ended(fd, name, now),
            ReadinessRead::Bytes(k) => {
                if k == 0 {
                    return self.readiness_ended(fd, name, now);
                }
                if self.orch.running.contains(name.as_str()) {
                    return ReadinessStep::Ignore;
                }
                self.orch.starting.remove(name.as_str());
                self.orch.running.insert(name.as_str());
                self.orch.recovery_generation.remove(name.as_str());
                self.orch.restart_events.remove(name.as_str());
                proof {
                    assert(self@.orch.restart_events =~= old(self)@.orch.restart_events.remove(
                        name@,
                    ));
                    assert(self@ =~= old(self)@.ready(name@));
                }
                ReadinessStep::Ready { name }
            },
        }
    }

    fn readiness_ended(&mut self, fd: i32, name: String, now: Moment) -> (step: ReadinessStep)
        requires
            old(self)@.readiness.contains_key(fd),
            old(self)@.readiness[fd] == name@,
        ensures
            final(self).same_services(old(self)),
            old(self).sound() ==> final(self).sound(),
            old(self).is_pipe_end(fd, now, step, final(self)@),
    {
        let ghost before = *self;
        let ghost pipes = self.readiness@;
        self.readiness.remove(&fd);
        self.orch.root_pids.remove(name.as_str());
        let was_starting = self.orch.starting.remove(name.as_str());
        proof {
            assert(self.readiness@ =~= pipes.remove(fd));
            assert(self@.readiness =~= before@.readiness.remove(fd));
            assert(self@ =~= before@.pipe_closed(fd, name@));
        }
        if !was_starting || self.orch.running.contains(name.as_str()) {
            return ReadinessStep::Close { name };
        }
        let policy = match self.schemas.get(name.as_str()) {
            Some(schema) => schema.recovery.as_ref(),
            None => None,
        };
        if !recovery_applies(policy) {
            record_service_failed(name.as_str(), &self.dag, &mut self.orch);
            proof {
                if before.sound() {
                    lemma_failures_stay_closed(&before, self, name@);
                }
            }
            return ReadinessStep::Fail { name };
        }
        let (backoff_ms, max_restarts, window_sec) = match policy {
            Some(p) => (p.backoff_ms, p.max_restarts, p.window_sec),
            None => {
                return ReadinessStep::Fail { name };
            },
        };
        if self.note_failure(name.as_str(), window_sec, max_restarts, now) {
            self.orch.circuit_origin.insert(name.as_str());
            propagate_cascade_failure(name.as_str(), &self.dag, &mut self.orch);
            proof {
                if before.sound() {
                    lemma_failures_stay_closed(&before, self, name@);
                }
            }
            return ReadinessStep::Fail { name };
        }
        let (exp, dropped) = self.schedule_restart(name.as_str());
        let ms: u64 = backoff_exponential_ms(backoff_ms, exp);
        ReadinessStep::Schedule { name, ms, dropped }
    }
}

/// Whether `fd` is the timer of no service.
pub open spec fn has_no_timer(pending: Map<Seq<char>, i32>, fd: i32) -> bool {
    forall|n: Seq<char>| #[trigger] pending.contains_key(n) ==> pending[n] != fd
}

impl Supervisor {
    /// Takes in the timer that was set for a restart.
    pub fn recovery_armed(&mut self, name: &str, fd: i32)
        ensures
            final(self).same_services(old(self)),
            old(self).sound() ==> final(self).sound(),
            final(self)@ == (SupervisorView {
                recovery_pending: old(self)@.recovery_pending.insert(name@, fd),
                ..old(self)@
            }),
    {
        self.recovery_pending.insert(name, fd);
    }

    /// The service whose timer is `fd`.
    pub fn recovery_timer_lookup(&self, fd: i32) -> (r: Option<String>)
        ensures
            match r {
                Some(n) => self@.recovery_pending.contains_key(n@)
                    && self@.recovery_pending[n@] == fd,
                None => has_no_timer(self@.recovery_pending, fd),
            },
    {
        let names = self.recovery_pending.names();
        let ghost ns = crate::names::texts(names@);
        let mut i: usize = 0;
        while i < names.len()
            invariant
                i <= names.len(),
                ns == crate::names::texts(names@),
                ns.to_set() == self.recovery_pending@.dom(),
                forall|j: int| 0 <= j < i ==> self.recovery_pending@[#[trigger] ns[j]] != fd,
            decreases names.len() - i,
        {
            assert(ns[i as int] == names[i as int]@);
            assert(ns.to_set().contains(ns[i as int]));
            match self.recovery_pending.get(names[i].as_str()) {
                Some(f) => {
                    if *f == fd {
                        return Some(names[i].as_str().to_owned());
                    }
                },
                None => {},
            }
            i += 1;
        }
        assert forall|n: Seq<char>| #[trigger]
            self@.recovery_pending.contains_key(n) implies self@.recovery_pending[n] != fd by {
            assert(ns.to_set().contains(n));
            assert(ns[ns.index_of(n)] == n);
        }
        None
    }

    /// Takes in that a timer fired: the service is no longer recovering, and is to be spawned
    /// again.
    pub fn handle_recovery_timer_fd(&mut self, fd: i32) -> (r: Result<String, SysXError>)
        ensures
            final(self).same_services(old(self)),
            old(self).sound() ==> final(self).sound(),
            match r {
                Ok(n) => old(self)@.recovery_pending.contains_key(n@)
                    && old(self)@.recovery_pending[n@] == fd && final(self)@ == (SupervisorView {
                    recovery_pending: old(self)@.recovery_pending.remove(n@),
                    orch: OrchView {
                        recovering: old(self)@.orch.recovering.remove(n@),
                        ..old(self)@.orch
                    },
                    ..old(self)@
                }),
                Err(e) => has_no_timer(old(self)@.recovery_pending, fd) && (e matches SysXError::Reactor(m) && m@
                    == "recovery timer fd not in pending map"@) && final(self)@ == old(self)@,
            },
    {
        match self.recovery_timer_lookup(fd) {
            None => Err(SysXError::Reactor("recovery timer fd not in pending map".to_owned())),
            Some(name) => {
                self.recovery_pending.remove(name.as_str());
                self.orch.recovering.remove(name.as_str());
                Ok(name)
            },
        }
    }
}

// ---------------------------------------------------------------------------
// News from the reaper
// ---------------------------------------------------------------------------

/// The names in `lines`: each line without white space at its ends, unless nothing is left.
pub open spec fn names_in(lines: Seq<Seq<char>>) -> Seq<Seq<char>>
    decreases lines.len(),
{
    if lines.len() == 0 {
        Seq::empty()
    } else {
        let before = names_in(lines.drop_last());
        let name = crate::text::trimmed(lines.last());
        if name.len() == 0 {
            before
        } else {
            before.push(name)
        }
    }
}

/// The services that the reaper speaks of: the bytes out of its pipe, read as text.
pub fn drain_reaper_wake_pipe(chunk: &[u8]) -> (r: Vec<String>)
    ensures
        crate::names::texts(r@) == names_in(
            crate::text::split_lines(crate::text::lossy_text(chunk@)),
        ),
        vstd::utf8::valid_utf8(chunk@) ==> crate::names::texts(r@) == names_in(
            crate::text::split_lines(vstd::utf8::decode_utf8(chunk@)),
        ),
{
    let text = utf8_lossy(chunk);
    wake_names(text.as_str())
}

/// The services that the reaper speaks of, one on a line.
pub fn wake_names(chunk: &str) -> (r: Vec<String>)
    ensures
        crate::names::texts(r@) == names_in(crate::text::split_lines(chunk@)),
{
    let lines = lines_of(&chars_of(chunk));
    let ghost ls = crate::text::split_lines(chunk@);
    let mut out: Vec<String> = Vec::new();
    let mut i: usize = 0;
    assert(ls.take(0) == Seq::<Seq<char>>::empty());
    assert(crate::names::texts(out@) =~= names_in(ls.take(0)));
    while i < lines.len()
        invariant
            i <= lines.len(),
            crate::text::views(lines@) == ls,
            crate::names::texts(out@) == names_in(ls.take(i as int)),
        decreases lines.len() - i,
    {
        assert(ls.take(i + 1).drop_last() == ls.take(i as int));
        assert(ls[i as int] == lines[i as int]@);
        let name = trim(&lines[i]);
        if name.len() > 0 {
            let ghost before = out@;
            out.push(string_of(&name));
            assert(crate::names::texts(out@) =~= crate::names::texts(before).push(name@));
        }
        i += 1;
    }
    assert(ls.take(ls.len() as int) == ls);
    out
}

impl Supervisor {
    /// The directory that is swept for the reaper. What is no service name is left alone.
    pub fn reaper_target(rt: &RuntimeContext, name: &str) -> (r: Option<String>)
        ensures
            match r {
                Some(p) => crate::schema::is_service_name(name@) && p@ == rt.service_path(name@),
                None => !crate::schema::is_service_name(name@),
            },
    {
        proof {
            if crate::schema::is_service_name(name@) {
                crate::runtime::lemma_service_name_is_id(name@);
            }
        }
        match validate_ipc_service_name(name) {
            Err(_) => None,
            Ok(()) => match rt.service_cgroup_path(name) {
                Ok(p) => Some(p),
                Err(_) => None,
            },
        }
    }

    /// Takes in a sweep for the reaper. A directory that is in use leaves a tombstone.
    pub fn apply_reaper_dfs(&mut self, name: &str, swept: &Result<(), IoFailure>)
        ensures
            final(self).same_services(old(self)),
            old(self).sound() ==> final(self).sound(),
            final(self)@ == match swept {
                Ok(()) => old(self)@.proven_dead(name@),
                Err(e) => if e.kind == IoKind::Busy {
                    old(self)@.entombed(name@)
                } else {
                    old(self)@
                },
            },
    {
        match swept {
            Ok(()) => {
                self.dfs_proven_dead.insert(name);
                self.tombstoned.remove(name);
            },
            Err(e) => {
                if is_rmdir_ebusy(e) {
                    self.tombstoned.insert(name);
                }
            },
        }
    }
}

// ---------------------------------------------------------------------------
// Events
// ---------------------------------------------------------------------------

/// Whose event it is.
#[derive(Debug, Clone, Copy, PartialEq, Eq, Structural)]
pub enum EventSource {
    Listener,
    PowerSignal,
    Reaper,
    RecoveryTimer,
    Readiness,
    Client,
}

impl Supervisor {
    /// Tells whose event it is that came on `fd`. Whatever is not known otherwise is a control
    /// connection.
    pub fn event_source(
        &self,
        fd: i32,
        listen_fd: i32,
        signal_fd: Option<i32>,
        wake_fd: i32,
    ) -> (r: EventSource)
        ensures
            r == if fd == listen_fd {
                EventSource::Listener
            } else if signal_fd == Some(fd) {
                EventSource::PowerSignal
            } else if fd == wake_fd {
                EventSource::Reaper
            } else if exists|n: Seq<char>| #[trigger]
                self@.recovery_pending.contains_key(n) && self@.recovery_pending[n] == fd {
                EventSource::RecoveryTimer
            } else if self@.readiness.contains_key(fd) {
                EventSource::Readiness
            } else {
                EventSource::Client
            },
    {
        if fd == listen_fd {
            return EventSource::Listener;
        }
        match signal_fd {
            Some(s) => {
                if s == fd {
                    return EventSource::PowerSignal;
                }
            },
            None => {},
        }
        if fd == wake_fd {
            return EventSource::Reaper;
        }
        if self.recovery_timer_lookup(fd).is_some() {
            return EventSource::RecoveryTimer;
        }
        if self.readiness.contains_key(&fd) {
            return EventSource::Readiness;
        }
        EventSource::Client
    }
}

// ---------------------------------------------------------------------------
// Laws
// ---------------------------------------------------------------------------

/// Law: a service is reported dead only if its directory is gone and was seen to go; while
/// the directory is there without processes, the service is being swept.
pub proof fn lemma_dead_needs_proof(
    s: SupervisorView,
    name: Seq<char>,
    dir_exists: bool,
    populated: Result<Option<bool>, IoFailure>,
)
    ensures
        status_of(s, name, dir_exists, populated) is Dead ==> !dir_exists
            && s.dfs_proven_dead.contains(name),
        status_of(s, name, dir_exists, populated) is Sweeping ==> dir_exists && populated == Ok::<
            Option<bool>,
            IoFailure,
        >(Some(false)),
        status_of(s, name, dir_exists, populated) is Running ==> dir_exists && populated == Ok::<
            Option<bool>,
            IoFailure,
        >(Some(true)),
        is_probed(s, name) && dir_exists && populated == Ok::<Option<bool>, IoFailure>(Some(false))
            ==> status_of(s, name, dir_exists, populated) is Sweeping,
{
}

/// Law: a service that has failed is reported as failed, whatever the cgroup tree says, unless
/// it has a tombstone.
pub proof fn lemma_failed_is_reported(
    s: SupervisorView,
    name: Seq<char>,
    dir_exists: bool,
    populated: Result<Option<bool>, IoFailure>,
)
    requires
        s.orch.cascade_failed.contains(name),
    ensures
        ({
            let st = status_of(s, name, dir_exists, populated);
            &&& st is Tombstoned || st is FailedOrphaned || st is FailedCircuitOpen
            &&& st is FailedCircuitOpen ==> s.orch.circuit_origin.contains(name)
        }),
{
}

/// Law: a service that has failed is neither started nor spawned until that is lifted: not by
/// a request, not in the boot order and not by a timer.
pub proof fn lemma_failed_stay_down(
    s: &Supervisor,
    rt: &RuntimeContext,
    hdr: &Header,
    payload: Seq<u8>,
    name: Seq<char>,
    r: Dispatch,
)
    requires
        s@.orch.cascade_failed.contains(name),
        hdr.command == Command::Start,
        requested_name(hdr.payload_length, payload) == Some(name),
        s.is_dispatch(rt, hdr, payload, r),
    ensures
        !(r is Start),
        !s.is_ready(name),
        spawn_denial(s@, name) is Some,
{
}

/// Law: asking for the status twice gives the same answer, as long as the cgroup tree says
/// the same.
pub proof fn lemma_status_is_stable(
    s: SupervisorView,
    name: Seq<char>,
    dir_exists: bool,
    populated: Result<Option<bool>, IoFailure>,
)
    ensures
        status_of(after_status(s, name, dir_exists), name, dir_exists, populated) == status_of(
            s,
            name,
            dir_exists,
            populated,
        ),
{
}

/// Law: a service with a tombstone is neither started nor spawned. Only a reset is let
/// through to it.
pub proof fn lemma_tombstone_denies(
    s: &Supervisor,
    rt: &RuntimeContext,
    hdr: &Header,
    payload: Seq<u8>,
    name: Seq<char>,
    r: Dispatch,
)
    requires
        s@.tombstoned.contains(name),
        requested_name(hdr.payload_length, payload) == Some(name),
        s.is_dispatch(rt, hdr, payload, r),
    ensures
        hdr.command == Command::Start ==> answers(
            r,
            Command::Start,
            Outcome::Tombstoned,
            Some(name),
        ),
        hdr.command == Command::Stop ==> answers(
            r,
            Command::Stop,
            Outcome::Tombstoned,
            Some(name),
        ),
        hdr.command == Command::Reset ==> r is Reset,
        s.start_fails(hdr, payload) is None,
        spawn_denial(s@, name) == Some(SpawnDenial::Tombstoned),
{
}

/// Law: a service is not started while a service that it depends on has failed or does not
/// run: not by a request, and not in the boot order.
pub proof fn lemma_dependencies_gate_start(
    s: &Supervisor,
    rt: &RuntimeContext,
    hdr: &Header,
    payload: Seq<u8>,
    name: Seq<char>,
    i: int,
    r: Dispatch,
)
    requires
        s.schemas@.contains_key(name),
        0 <= i < s.declared_dependencies(name).len(),
        s@.orch.cascade_failed.contains(s.declared_dependencies(name)[i])
            || !s@.orch.running.contains(s.declared_dependencies(name)[i]),
        hdr.command == Command::Start,
        requested_name(hdr.payload_length, payload) == Some(name),
        s.is_dispatch(rt, hdr, payload, r),
    ensures
        !(r is Start),
        !s.is_ready(name),
{
    lemma_no_block(
        s.declared_dependencies(name),
        s@.orch.cascade_failed,
        s@.orch.running,
    );
}

/// Law: a start that is let through finds the service known, idle as far as failures go, and
/// with all its dependencies running.
pub proof fn lemma_start_means_allowed(
    s: &Supervisor,
    rt: &RuntimeContext,
    hdr: &Header,
    payload: Seq<u8>,
    r: Dispatch,
)
    requires
        s.is_dispatch(rt, hdr, payload, r),
        r is Start,
    ensures
        r matches Dispatch::Start { name } && crate::schema::is_service_name(name@)
            && s.schemas@.contains_key(name@) && !s@.tombstoned.contains(name@)
            && !s@.orch.recovering.contains(name@) && !s@.orch.cascade_failed.contains(name@)
            && forall|i: int|
            0 <= i < s.declared_dependencies(name@).len() ==> s@.orch.running.contains(
                #[trigger] s.declared_dependencies(name@)[i],
            ),
{
    let name = r->Start_name@;
    lemma_no_block(
        s.declared_dependencies(name),
        s@.orch.cascade_failed,
        s@.orch.running,
    );
}

/// Law: a reset that swept the directories lifts the tombstone and the failure of a service,
/// unless one that it depends on has failed. If no restart is scheduled, the service can be
/// started again, and is offline until something is heard of it.
pub proof fn lemma_reset_clears(
    before: Supervisor,
    name: Seq<char>,
    dir_exists: bool,
    populated: Result<Option<bool>, IoFailure>,
)
    requires
        !before.upstream_failed(name),
    ensures
        ({
            let after = before@.reset(name, !before.upstream_failed(name));
            &&& !after.tombstoned.contains(name)
            &&& !after.orch.cascade_failed.contains(name)
            &&& !(status_of(after, name, dir_exists, populated) is FailedOrphaned)
            &&& !(status_of(after, name, dir_exists, populated) is FailedCircuitOpen)
            &&& !before@.orch.recovering.contains(name) ==> start_denial(after, None, name) is None
            &&& !before@.orch.recovering.contains(name) ==> status_of(after, name, false, populated)
                is Offline
        }),
{
}

/// Law: a service stays failed over a reset as long as one that it depends on has failed.
pub proof fn lemma_reset_keeps_orphan(before: Supervisor, name: Seq<char>)
    requires
        before.upstream_failed(name),
    ensures
        ({
            let after = before@.reset(name, !before.upstream_failed(name));
            &&& !after.tombstoned.contains(name)
            &&& after.orch == before@.orch
        }),
{
}

/// A failed service can be taken out of a closed set of failed ones if none that it depends
/// on is in there.
proof fn lemma_lifting_stays_closed(
    dag: &DagRuntime,
    schemas: Map<Seq<char>, ServiceSchema>,
    failed: Set<Seq<char>>,
    name: Seq<char>,
)
    requires
        dag.wf(),
        crate::dag::edges_declared(crate::dag::graph_of(dag.graph@), schemas),
        forall|n: Seq<char>, d: Seq<char>|
            failed.contains(n) && #[trigger] dag.dependents_of(n).contains(d) ==> failed.contains(
                d,
            ),
        schemas.contains_key(name) ==> !some_in(
            crate::names::texts(schemas[name].depends_on@),
            failed,
        ),
    ensures
        forall|n: Seq<char>, d: Seq<char>|
            failed.remove(name).contains(n) && #[trigger] dag.dependents_of(n).contains(d)
                ==> failed.remove(name).contains(d),
{
    let g = crate::dag::graph_of(dag.graph@);
    assert forall|n: Seq<char>, d: Seq<char>|
        failed.remove(name).contains(n) && #[trigger] dag.dependents_of(n).contains(
            d,
        ) implies failed.remove(name).contains(d) by {
        if d == name {
            crate::dag::lemma_reverse_edges(g, crate::dag::graph_of(dag.dependents@), name, n);
            assert(crate::dag::list_at(g, name).contains(n));
            let deps = crate::names::texts(schemas[name].depends_on@);
            assert(deps[deps.index_of(n)] == n);
        }
    }
}

/// Law: a stop that found or left nothing is followed by the status dead; one that timed out
/// by the status tombstoned.
pub proof fn lemma_stop_is_reported(
    s: SupervisorView,
    name: Seq<char>,
    dir_exists: bool,
    populated: Result<Option<bool>, IoFailure>,
)
    ensures
        is_probed(s, name) ==> status_of(
            s.proven_dead(name).halted(name),
            name,
            false,
            populated,
        ) is Dead,
        status_of(s.entombed(name).halted(name), name, dir_exists, populated) is Tombstoned,
{
}

/// Law: failures stay closed under dependents through all that a request, a readiness pipe or
/// a timer can do. Whatever changes the failed services makes a service fail with all that
/// depend on it.
pub proof fn lemma_failures_stay_closed(
    before: &Supervisor,
    after: &Supervisor,
    name: Seq<char>,
)
    requires
        before.orch.failure_closed(&before.dag),
        after.same_services(before),
        after@.orch.cascade_failed == before@.orch.cascade_failed
            || after@.orch.cascade_failed == before@.orch.cascade_failed.union(
            before.affected(name),
        ),
    ensures
        after.orch.failure_closed(&after.dag),
{
    if after@.orch.cascade_failed != before@.orch.cascade_failed {
        crate::orchestration::lemma_union_stays_closed(
            before.orch.cascade_failed@,
            &before.dag,
            name,
        );
        assert forall|n: Seq<char>, d: Seq<char>|
            after.orch.cascade_failed@.contains(n) && #[trigger] after.dag.dependents_of(
                n,
            ).contains(d) implies after.orch.cascade_failed@.contains(d) by {
            assert(before.dag.dependents_of(n).contains(d));
        }
    }
}

/// Law: whatever ends a readiness pipe changes the failed services in no other way than by
/// letting one fail with all that depend on it.
pub proof fn lemma_pipe_end_fails_closed(
    s: &Supervisor,
    fd: i32,
    now: Moment,
    step: ReadinessStep,
    after: SupervisorView,
)
    requires
        s.is_pipe_end(fd, now, step, after),
    ensures
        after.orch.cascade_failed == s@.orch.cascade_failed || after.orch.cascade_failed
            == s@.orch.cascade_failed.union(s.affected(s@.readiness[fd])),
        step is Fail ==> after.orch.cascade_failed == s@.orch.cascade_failed.union(
            s.affected(s@.readiness[fd]),
        ),
        !(step is Fail) ==> after.orch.cascade_failed == s@.orch.cascade_failed,
{
}

/// Law: a service is started again at most as often as its budget allows. A restart is
/// scheduled only while fewer failures than that lie in the window.
pub proof fn lemma_restart_within_budget(
    s: &Supervisor,
    fd: i32,
    now: Moment,
    step: ReadinessStep,
    after: SupervisorView,
)
    requires
        s.is_pipe_end(fd, now, step, after),
        step is Schedule,
    ensures
        ({
            let n = s@.readiness[fd];
            let policy = s.policy(n)->0;
            &&& crate::recovery::recovers(s.policy(n))
            &&& after.orch.restart_events.contains_key(n)
            &&& after.orch.restart_events[n].len() < policy.max_restarts
            &&& after.orch.recovering.contains(n)
            &&& !after.orch.starting.contains(n)
        }),
{
}

} // verus!
