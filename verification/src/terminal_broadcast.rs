//! The way down: the last signals, the grace period, the kill and the restart.
use vstd::prelude::*;

use crate::cgroup_ops::{service_entry, DirEntry};
use crate::orchestration::OrchestratorState;
use crate::runtime::{join_path, IoFailure, RuntimeContext};
use crate::text::{chars_of, lines_of, parse_i32, trim};

verus! {

/// How the machine ends up.
#[derive(Debug, Clone, Copy, PartialEq, Eq, Structural)]
pub enum TerminalBroadcastKind {
    Poweroff,
    Reboot,
}

/// The directory of all services.
pub fn sysx_slice_root(rt: &RuntimeContext) -> (r: String)
    ensures
        r@ == rt.slice_path(),
{
    join_path(rt.cgroup_root.as_str(), rt.service_slice.as_str())
}

/// Time that the services get between the signal and the kill.
pub const GRACE_MS: u64 = 5000;

/// Whether the machine itself is to be stopped: only by the first process, and not where
/// that was switched off.
pub fn should_try_reboot(skip_reboot: bool, pid: i32) -> (r: bool)
    ensures
        r == (!skip_reboot && pid == 1),
{
    !skip_reboot && pid == 1
}

/// The process ids among `lines`: each line that is a number, white space aside.
pub open spec fn pids_in(lines: Seq<Seq<char>>) -> Seq<i32>
    decreases lines.len(),
{
    if lines.len() == 0 {
        Seq::empty()
    } else {
        let before = pids_in(lines.drop_last());
        match crate::text::i32_value(crate::text::trimmed(lines.last())) {
            Some(pid) => before.push(pid),
            None => before,
        }
    }
}

/// What a read of `cgroup.procs` lists. A failed read lists nothing.
pub open spec fn pids_read(read: Result<String, IoFailure>) -> Seq<i32> {
    match read {
        Ok(s) => pids_in(crate::text::split_lines(s@)),
        Err(_) => Seq::empty(),
    }
}

/// Evaluates a read of `cgroup.procs`.
pub fn read_cgroup_pids(read: &Result<String, IoFailure>) -> (r: Vec<i32>)
    ensures
        r@ == pids_read(*read),
{
    let mut out: Vec<i32> = Vec::new();
    match read {
        Err(_) => {},
        Ok(s) => {
            let lines = lines_of(&chars_of(s.as_str()));
            let ghost ls = crate::text::split_lines(s@);
            let mut i: usize = 0;
            assert(ls.take(0) == Seq::<Seq<char>>::empty());
            while i < lines.len()
                invariant
                    i <= lines.len(),
                    crate::text::views(lines@) == ls,
                    out@ == pids_in(ls.take(i as int)),
                decreases lines.len() - i,
            {
                assert(ls.take(i + 1).drop_last() == ls.take(i as int));
                assert(ls[i as int] == lines[i as int]@);
                match parse_i32(&trim(&lines[i])) {
                    Some(pid) => {
                        out.push(pid);
                    },
                    None => {},
                }
                i += 1;
            }
            assert(ls.take(ls.len() as int) == ls);
        },
    }
    out
}

/// The smallest of `pids`.
pub open spec fn least(pids: Seq<i32>) -> i32
    recommends
        pids.len() > 0,
    decreases pids.len(),
{
    if pids.len() <= 1 {
        pids[0]
    } else if pids.last() < least(pids.drop_last()) {
        pids.last()
    } else {
        least(pids.drop_last())
    }
}

/// The process that speaks for a service without a record: the one with the smallest id.
pub fn root_pid(pids: &Vec<i32>) -> (r: Option<i32>)
    ensures
        r == if pids@.len() > 0 {
            Some(least(pids@))
        } else {
            None
        },
{
    if pids.len() == 0 {
        return None;
    }
    let mut p: i32 = pids[0];
    let mut i: usize = 1;
    assert(pids@.take(1)[0] == pids@[0]);
    while i < pids.len()
        invariant
            1 <= i <= pids.len(),
            p == least(pids@.take(i as int)),
        decreases pids.len() - i,
    {
        assert(pids@.take(i + 1).drop_last() == pids@.take(i as int));
        assert(pids@.take(i + 1).last() == pids@[i as int]);
        if pids[i] < p {
            p = pids[i];
        }
        i += 1;
    }
    assert(pids@.take(pids@.len() as int) == pids@);
    Some(p)
}

/// What is known of one entry in the directory of services when the end comes.
#[derive(Debug)]
pub struct ServiceProbe {
    pub entry: DirEntry,
    /// What `cgroup.events` says of the service.
    pub populated: Result<Option<bool>, IoFailure>,
    /// The read of `cgroup.procs`.
    pub procs: Result<String, IoFailure>,
}

impl ServiceProbe {
    /// Whether the entry is a service with live processes.
    pub open spec fn is_live(&self) -> bool {
        self.entry.is_service() && self.populated == Ok::<Option<bool>, IoFailure>(Some(true))
    }

    /// The process that gets the signal for the entry, if it is a live service: the one that
    /// is on record for the service, or else the one in `cgroup.procs` with the smallest id.
    pub open spec fn target(&self, root_pids: Map<Seq<char>, i32>) -> Option<i32> {
        if !self.is_live() {
            None
        } else if root_pids.contains_key(self.entry.name->0@) {
            Some(root_pids[self.entry.name->0@])
        } else if pids_read(self.procs).len() > 0 {
            Some(least(pids_read(self.procs)))
        } else {
            None
        }
    }

    fn signal_target(&self, orch: &OrchestratorState) -> (r: Option<i32>)
        ensures
            r == self.target(orch@.root_pids),
    {
        match service_entry(&self.entry) {
            Some(name) => match &self.populated {
                Ok(Some(true)) => match orch.root_pids.get(name.as_str()) {
                    Some(pid) => Some(*pid),
                    None => root_pid(&read_cgroup_pids(&self.procs)),
                },
                _ => None,
            },
            None => None,
        }
    }
}

/// The processes that get the signal, in the order of the services.
pub open spec fn targets_of(
    probes: Seq<ServiceProbe>,
    root_pids: Map<Seq<char>, i32>,
) -> Seq<i32>
    decreases probes.len(),
{
    if probes.len() == 0 {
        Seq::empty()
    } else {
        let before = targets_of(probes.drop_last(), root_pids);
        match probes.last().target(root_pids) {
            Some(pid) => before.push(pid),
            None => before,
        }
    }
}

/// Picks the processes that get the signal.
pub fn sigterm_targets(probes: &Vec<ServiceProbe>, orch: &OrchestratorState) -> (r: Vec<i32>)
    ensures
        r@ == targets_of(probes@, orch@.root_pids),
{
    let mut out: Vec<i32> = Vec::new();
    let mut i: usize = 0;
    assert(probes@.take(0) == Seq::<ServiceProbe>::empty());
    while i < probes.len()
        invariant
            i <= probes.len(),
            out@ == targets_of(probes@.take(i as int), orch@.root_pids),
        decreases probes.len() - i,
    {
        let p = &probes[i];
        assert(probes@.take(i + 1).drop_last() == probes@.take(i as int));
        assert(probes@.take(i + 1).last() == p);
        match p.signal_target(orch) {
            Some(pid) => {
                out.push(pid);
            },
            None => {},
        }
        i += 1;
    }
    assert(probes@.take(probes@.len() as int) == probes@);
    out
}

/// One thing to do on the way down.
#[derive(Debug)]
pub enum BroadcastStep {
    /// Ask this process to end.
    Sigterm { pid: i32 },
    /// Wait.
    Grace { ms: u64 },
    /// Write to this file. If a write fails, the writes behind it are left out.
    Write { path: String, contents: String },
    /// Flush the file systems.
    Sync,
    /// Stop or restart the machine.
    Restart { kind: TerminalBroadcastKind },
}

/// The steps in order: the signals, the grace period, the freeze, the kill and the thaw of
/// all services, the flush and, if it is wanted, the restart.
pub open spec fn is_plan(
    rt: &RuntimeContext,
    kind: TerminalBroadcastKind,
    targets: Seq<i32>,
    try_reboot: bool,
    steps: Seq<BroadcastStep>,
) -> bool {
    let n = targets.len() as int;
    let freeze = crate::runtime::joined(rt.slice_path(), "cgroup.freeze"@);
    let kill = crate::runtime::joined(rt.slice_path(), "cgroup.kill"@);
    &&& steps.len() == n + 5 + if try_reboot {
        1int
    } else {
        0int
    }
    &&& forall|i: int|
        0 <= i < n ==> #[trigger] steps[i] == (BroadcastStep::Sigterm { pid: targets[i] })
    &&& steps[n] == BroadcastStep::Grace { ms: GRACE_MS }
    &&& steps[n + 1] matches BroadcastStep::Write { path, contents } && path@ == freeze && contents@
        == "1"@
    &&& steps[n + 2] matches BroadcastStep::Write { path, contents } && path@ == kill && contents@
        == "1"@
    &&& steps[n + 3] matches BroadcastStep::Write { path, contents } && path@ == freeze && contents@
        == "0"@
    &&& steps[n + 4] == BroadcastStep::Sync
    &&& try_reboot ==> steps[n + 5] == (BroadcastStep::Restart { kind })
}

/// Lays out the way down.
pub fn run_terminal_broadcast(
    rt: &RuntimeContext,
    kind: TerminalBroadcastKind,
    targets: &Vec<i32>,
    try_reboot: bool,
) -> (steps: Vec<BroadcastStep>)
    ensures
        is_plan(rt, kind, targets@, try_reboot, steps@),
{
    let slice = sysx_slice_root(rt);
    let mut steps: Vec<BroadcastStep> = Vec::new();
    let mut i: usize = 0;
    while i < targets.len()
        invariant
            i <= targets.len(),
            steps@.len() == i,
            forall|j: int|
                0 <= j < i ==> #[trigger] steps@[j] == (BroadcastStep::Sigterm { pid: targets@[j] }),
        decreases targets.len() - i,
    {
        steps.push(BroadcastStep::Sigterm { pid: targets[i] });
        i += 1;
    }
    steps.push(BroadcastStep::Grace { ms: GRACE_MS });
    steps.push(
        BroadcastStep::Write {
            path: join_path(slice.as_str(), "cgroup.freeze"),
            contents: "1".to_owned(),
        },
    );
    steps.push(
        BroadcastStep::Write {
            path: join_path(slice.as_str(), "cgroup.kill"),
            contents: "1".to_owned(),
        },
    );
    steps.push(
        BroadcastStep::Write {
            path: join_path(slice.as_str(), "cgroup.freeze"),
            contents: "0".to_owned(),
        },
    );
    steps.push(BroadcastStep::Sync);
    if try_reboot {
        steps.push(BroadcastStep::Restart { kind });
    }
    steps
}

impl BroadcastStep {
    /// Whether the step is carried out. Once a write has failed, the writes behind it are
    /// left out, and nothing else is.
    pub fn is_performed(&self, writes_failed: bool) -> (r: bool)
        ensures
            r == !(writes_failed && self is Write),
    {
        match self {
            BroadcastStep::Write { .. } => !writes_failed,
            _ => true,
        }
    }
}

/// Whether pending power signals start the way down: at least one was read.
pub fn sigpwr_broadcast(signals_read: usize) -> (r: Option<TerminalBroadcastKind>)
    ensures
        r == if signals_read > 0 {
            Some(TerminalBroadcastKind::Poweroff)
        } else {
            None
        },
{
    if signals_read == 0 {
        None
    } else {
        Some(TerminalBroadcastKind::Poweroff)
    }
}

/// Law: every live service gets the signal, through the process on record or, without a
/// record, through the first of its processes; only a live service without either is left out.
pub proof fn lemma_live_services_signalled(
    probes: Seq<ServiceProbe>,
    root_pids: Map<Seq<char>, i32>,
    i: int,
)
    requires
        0 <= i < probes.len(),
        probes[i].is_live(),
        root_pids.contains_key(probes[i].entry.name->0@) || pids_read(probes[i].procs).len() > 0,
    ensures
        probes[i].target(root_pids) is Some,
        targets_of(probes, root_pids).contains(probes[i].target(root_pids)->0),
    decreases probes.len(),
{
    let before = targets_of(probes.drop_last(), root_pids);
    let all = targets_of(probes, root_pids);
    let pid = probes[i].target(root_pids)->0;
    if i == probes.len() - 1 {
        assert(all[before.len() as int] == pid);
    } else {
        lemma_live_services_signalled(probes.drop_last(), root_pids, i);
        assert(all[before.index_of(pid)] == pid);
    }
}

/// Law: of the processes that `cgroup.procs` lists the one with the smallest id is picked.
pub proof fn lemma_least(pids: Seq<i32>)
    requires
        pids.len() > 0,
    ensures
        pids.contains(least(pids)),
        forall|i: int| 0 <= i < pids.len() ==> least(pids) <= #[trigger] pids[i],
    decreases pids.len(),
{
    if pids.len() > 1 {
        let before = pids.drop_last();
        lemma_least(before);
        assert(pids[before.index_of(least(before))] == least(before));
        assert forall|i: int| 0 <= i < pids.len() implies least(pids) <= #[trigger] pids[i] by {
            if i < before.len() {
                assert(before[i] == pids[i]);
            }
        }
    }
}

/// Law: nothing gets the signal but what is the target of a live service.
pub proof fn lemma_only_live_signalled(
    probes: Seq<ServiceProbe>,
    root_pids: Map<Seq<char>, i32>,
    pid: i32,
)
    requires
        targets_of(probes, root_pids).contains(pid),
    ensures
        exists|i: int|
            0 <= i < probes.len() && (#[trigger] probes[i]).target(root_pids) == Some(pid),
    decreases probes.len(),
{
    let before = targets_of(probes.drop_last(), root_pids);
    let k = targets_of(probes, root_pids).index_of(pid);
    if k < before.len() {
        assert(before[k] == pid);
        lemma_only_live_signalled(probes.drop_last(), root_pids, pid);
        let i = choose|i: int|
            0 <= i < probes.drop_last().len() && (#[trigger] probes.drop_last()[i]).target(
                root_pids,
            ) == Some(pid);
        assert(probes[i].target(root_pids) == Some(pid));
    } else {
        assert(probes[probes.len() - 1].target(root_pids) == Some(pid));
    }
}

/// Law: on the way down every signal comes before the grace period, nothing is killed before
/// the grace period is over, and the machine stops last, after a flush.
pub proof fn lemma_plan_order(
    rt: &RuntimeContext,
    kind: TerminalBroadcastKind,
    targets: Seq<i32>,
    try_reboot: bool,
    steps: Seq<BroadcastStep>,
    i: int,
    j: int,
)
    requires
        is_plan(rt, kind, targets, try_reboot, steps),
        0 <= i < steps.len(),
        0 <= j < steps.len(),
    ensures
        steps[i] is Sigterm && steps[j] is Grace ==> i < j,
        steps[i] is Grace && steps[j] is Write ==> i < j,
        steps[i] is Write && steps[j] is Sync ==> i < j,
        steps[i] is Restart ==> i == steps.len() - 1 && i > 0 && steps[i - 1] is Sync,
        steps[i] is Restart ==> try_reboot,
{
    let n = targets.len() as int;
    assert(i < n ==> steps[i] is Sigterm);
    assert(j < n ==> steps[j] is Sigterm);
}

} // verus!
