//! Which services run, and which have failed with what they depend on.
use vstd::prelude::*;

use crate::dag::{DagRuntime, Graph};
use crate::names::{NameMap, NameSet};
use crate::recovery::Moment;

verus! {

/// What is known of the services at run time.
#[derive(Debug)]
pub struct OrchestratorState {
    /// Services that have announced readiness.
    pub running: NameSet,
    /// Services that were spawned and have not announced readiness.
    pub starting: NameSet,
    /// Services that failed for good, with all that depend on them.
    pub cascade_failed: NameSet,
    /// The process that was spawned for each service.
    pub root_pids: NameMap<i32>,
    /// Services that wait for their backoff to elapse.
    pub recovering: NameSet,
    /// Services that used up their restart budget.
    pub circuit_origin: NameSet,
    /// When each service failed, within the window of its policy.
    pub restart_events: NameMap<Vec<Moment>>,
    /// How many restarts were scheduled since each service was last ready.
    pub recovery_generation: NameMap<u32>,
}

/// What is known of the services at run time.
#[verifier::ext_equal]
pub struct OrchView {
    pub running: Set<Seq<char>>,
    pub starting: Set<Seq<char>>,
    pub cascade_failed: Set<Seq<char>>,
    pub root_pids: Map<Seq<char>, i32>,
    pub recovering: Set<Seq<char>>,
    pub circuit_origin: Set<Seq<char>>,
    pub restart_events: Map<Seq<char>, Seq<Moment>>,
    pub recovery_generation: Map<Seq<char>, u32>,
}

impl View for OrchestratorState {
    type V = OrchView;

    open spec fn view(&self) -> OrchView {
        OrchView {
            running: self.running@,
            starting: self.starting@,
            cascade_failed: self.cascade_failed@,
            root_pids: self.root_pids@,
            recovering: self.recovering@,
            circuit_origin: self.circuit_origin@,
            restart_events: self.restart_events@.map_values(|v: Vec<Moment>| v@),
            recovery_generation: self.recovery_generation@,
        }
    }
}

impl OrchView {
    /// The same with all the services of `gone` failed: they are neither running, starting
    /// nor recovering any more, and nothing else of them is kept but that they have failed.
    pub open spec fn failing(self, gone: Set<Seq<char>>) -> OrchView {
        OrchView {
            cascade_failed: self.cascade_failed.union(gone),
            running: self.running.difference(gone),
            starting: self.starting.difference(gone),
            root_pids: self.root_pids.remove_keys(gone),
            recovering: self.recovering.difference(gone),
            circuit_origin: self.circuit_origin,
            restart_events: self.restart_events.remove_keys(gone),
            recovery_generation: self.recovery_generation.remove_keys(gone),
        }
    }
}

impl Default for OrchestratorState {
    fn default() -> (r: OrchestratorState)
        ensures
            r.is_fresh(),
    {
        OrchestratorState {
            running: NameSet::new(),
            starting: NameSet::new(),
            cascade_failed: NameSet::new(),
            root_pids: NameMap::new(),
            recovering: NameSet::new(),
            circuit_origin: NameSet::new(),
            restart_events: NameMap::new(),
            recovery_generation: NameMap::new(),
        }
    }
}

impl OrchestratorState {
    /// Whether nothing has happened yet.
    pub open spec fn is_fresh(&self) -> bool {
        &&& self.running@ == Set::<Seq<char>>::empty()
        &&& self.starting@ == Set::<Seq<char>>::empty()
        &&& self.cascade_failed@ == Set::<Seq<char>>::empty()
        &&& self.root_pids@ == Map::<Seq<char>, i32>::empty()
        &&& self.recovering@ == Set::<Seq<char>>::empty()
        &&& self.circuit_origin@ == Set::<Seq<char>>::empty()
        &&& self.restart_events@ == Map::<Seq<char>, Vec<Moment>>::empty()
        &&& self.recovery_generation@ == Map::<Seq<char>, u32>::empty()
    }

    pub fn new() -> (r: OrchestratorState)
        ensures
            r.is_fresh(),
    {
        OrchestratorState::default()
    }

    /// Whether every service that depends on a failed one has failed too.
    pub open spec fn failure_closed(&self, dag: &DagRuntime) -> bool {
        forall|n: Seq<char>, d: Seq<char>|
            self.cascade_failed@.contains(n) && #[trigger] dag.dependents_of(n).contains(d)
                ==> self.cascade_failed@.contains(d)
    }

    /// Whether no service is both failed and alive.
    pub open spec fn failed_are_idle(&self) -> bool {
        &&& self.cascade_failed@.disjoint(self.running@)
        &&& self.cascade_failed@.disjoint(self.starting@)
        &&& self.cascade_failed@.disjoint(self.recovering@)
    }
}

/// Whether `to` is reached from `from` over at most `k` edges of `edges`.
pub open spec fn reaches_within(edges: Graph, from: Seq<char>, to: Seq<char>, k: nat) -> bool
    decreases k,
{
    from == to || (k > 0 && exists|i: int|
        0 <= i < crate::dag::list_at(edges, from).len() && reaches_within(
            edges,
            #[trigger] crate::dag::list_at(edges, from)[i],
            to,
            (k - 1) as nat,
        ))
}

/// `name` and all the services that depend on it, directly or not.
pub open spec fn downstream(edges: Graph, name: Seq<char>) -> Set<Seq<char>> {
    Set::new(|n: Seq<char>| exists|k: nat| reaches_within(edges, name, n, k))
}

proof fn lemma_reaches_extends(edges: Graph, a: Seq<char>, b: Seq<char>, c: Seq<char>, k: nat)
    requires
        reaches_within(edges, a, b, k),
        crate::dag::list_at(edges, b).contains(c),
    ensures
        reaches_within(edges, a, c, k + 1),
    decreases k,
{
    if a == b {
        let i = crate::dag::list_at(edges, a).index_of(c);
        assert(crate::dag::list_at(edges, a)[i] == c);
        assert(reaches_within(edges, crate::dag::list_at(edges, a)[i], c, k));
    } else {
        let i = choose|i: int|
            0 <= i < crate::dag::list_at(edges, a).len() && reaches_within(
                edges,
                #[trigger] crate::dag::list_at(edges, a)[i],
                b,
                (k - 1) as nat,
            );
        lemma_reaches_extends(edges, crate::dag::list_at(edges, a)[i], b, c, (k - 1) as nat);
    }
}

/// Law: what is downstream of a service holds the service and, with every service, those that
/// depend on it.
pub proof fn lemma_downstream_closed(edges: Graph, name: Seq<char>)
    ensures
        downstream(edges, name).contains(name),
        forall|n: Seq<char>, d: Seq<char>|
            downstream(edges, name).contains(n) && #[trigger] crate::dag::list_at(
                edges,
                n,
            ).contains(d) ==> downstream(edges, name).contains(d),
{
    assert(reaches_within(edges, name, name, 0));
    assert forall|n: Seq<char>, d: Seq<char>|
        downstream(edges, name).contains(n) && #[trigger] crate::dag::list_at(edges, n).contains(
            d,
        ) implies downstream(edges, name).contains(d) by {
        let k = choose|k: nat| reaches_within(edges, name, n, k);
        lemma_reaches_extends(edges, name, n, d, k);
        assert(reaches_within(edges, name, d, k + 1));
    }
}

/// A set that holds `a` and is closed under the edges holds all that `a` reaches.
proof fn lemma_closed_holds(edges: Graph, set: Set<Seq<char>>, a: Seq<char>, b: Seq<char>, k: nat)
    requires
        set.contains(a),
        reaches_within(edges, a, b, k),
        forall|n: Seq<char>, d: Seq<char>|
            set.contains(n) && #[trigger] crate::dag::list_at(edges, n).contains(d) ==> set.contains(
                d,
            ),
    ensures
        set.contains(b),
    decreases k,
{
    if a != b {
        let i = choose|i: int|
            0 <= i < crate::dag::list_at(edges, a).len() && reaches_within(
                edges,
                #[trigger] crate::dag::list_at(edges, a)[i],
                b,
                (k - 1) as nat,
            );
        let c = crate::dag::list_at(edges, a)[i];
        assert(crate::dag::list_at(edges, a).contains(c));
        lemma_closed_holds(edges, set, c, b, (k - 1) as nat);
    }
}

/// All that the lists of `keys` hold.
spec fn targets(edges: Graph, keys: Seq<Seq<char>>) -> Set<Seq<char>>
    decreases keys.len(),
{
    if keys.len() == 0 {
        Set::empty()
    } else {
        targets(edges, keys.drop_last()).union(crate::dag::list_at(edges, keys.last()).to_set())
    }
}

proof fn lemma_targets(edges: Graph, keys: Seq<Seq<char>>)
    ensures
        targets(edges, keys).finite(),
        forall|n: Seq<char>, d: Seq<char>|
            keys.contains(n) && #[trigger] crate::dag::list_at(edges, n).contains(d) ==> targets(
                edges,
                keys,
            ).contains(d),
    decreases keys.len(),
{
    if keys.len() > 0 {
        let rest = keys.drop_last();
        lemma_targets(edges, rest);
        vstd::seq_lib::seq_to_set_is_finite(crate::dag::list_at(edges, keys.last()));
        assert forall|n: Seq<char>, d: Seq<char>|
            keys.contains(n) && #[trigger] crate::dag::list_at(edges, n).contains(d) implies targets(
            edges,
            keys,
        ).contains(d) by {
            if n == keys.last() {
                assert(crate::dag::list_at(edges, n).to_set().contains(d));
            } else {
                let i = keys.index_of(n);
                assert(rest[i] == n);
                assert(rest.contains(n));
            }
        }
    }
}

/// Marks `name`, and every service that depends on it directly or not, as failed.
pub fn propagate_cascade_failure(name: &str, dag: &DagRuntime, orch: &mut OrchestratorState)
    ensures
        final(orch)@ == old(orch)@.failing(downstream(crate::dag::graph_of(dag.dependents@), name@)),
{
    let ghost edges = crate::dag::graph_of(dag.dependents@);
    let ghost before = *orch;
    let keys = dag.dependents.names();
    let ghost all = targets(edges, crate::names::texts(keys@)).insert(name@);
    let mut queue: Vec<String> = Vec::new();
    queue.push(name.to_owned());
    let mut head: usize = 0;
    let mut seen = NameSet::new();
    proof {
        lemma_targets(edges, crate::names::texts(keys@));
        assert(reaches_within(edges, name@, name@, 0));
        assert(queue[0]@ == name@);
        assert forall|n: Seq<char>, d: Seq<char>| #[trigger]
            crate::dag::list_at(edges, n).contains(d) implies all.contains(d) by {
            assert(crate::names::texts(keys@).to_set().contains(n));
        }
        assert(orch@ =~= before@.failing(seen@));
    }
    while head < queue.len()
        invariant
            head <= queue.len(),
            edges == crate::dag::graph_of(dag.dependents@),
            all.finite(),
            forall|n: Seq<char>, d: Seq<char>| #[trigger]
                crate::dag::list_at(edges, n).contains(d) ==> all.contains(d),
            seen@.subset_of(all),
            forall|p: int| 0 <= p < queue.len() ==> all.contains(#[trigger] queue[p]@),
            forall|p: int|
                0 <= p < queue.len() ==> downstream(edges, name@).contains(#[trigger] queue[p]@),
            seen@.subset_of(downstream(edges, name@)),
            seen@.contains(name@) || waits(queue@, head as int, name@),
            forall|n: Seq<char>, d: Seq<char>|
                seen@.contains(n) && #[trigger] crate::dag::list_at(edges, n).contains(d)
                    ==> seen@.contains(d) || waits(queue@, head as int, d),
            orch@ == before@.failing(seen@),
        decreases all.difference(seen@).len(), queue.len() - head,
    {
        let n: String = queue[head].as_str().to_owned();
        let ghost nv = queue[head as int]@;
        let ghost seen_before = seen@;
        let ghost queue_before = queue@;
        let ghost h = head as int;
        let ghost prev = orch@;
        head += 1;
        let fresh = seen.insert(n.as_str());
        assert forall|x: Seq<char>| waits(queue_before, h, x) implies x == nv || waits(
            queue@,
            head as int,
            x,
        ) by {
            let p = choose|p: int|
                h <= p < queue_before.len() && (#[trigger] queue_before[p])@ == x;
            if p > h {
                assert(queue@[p]@ == x);
            }
        }
        if fresh {
            orch.cascade_failed.insert(n.as_str());
            orch.starting.remove(n.as_str());
            orch.running.remove(n.as_str());
            orch.root_pids.remove(n.as_str());
            orch.recovering.remove(n.as_str());
            orch.restart_events.remove(n.as_str());
            orch.recovery_generation.remove(n.as_str());
            proof {
                assert(orch@.restart_events =~= prev.restart_events.remove(nv));
                assert(orch@.cascade_failed =~= before@.failing(seen@).cascade_failed);
                assert(orch@.running =~= before@.failing(seen@).running);
                assert(orch@.starting =~= before@.failing(seen@).starting);
                assert(orch@.root_pids =~= before@.failing(seen@).root_pids);
                assert(orch@.recovering =~= before@.failing(seen@).recovering);
                assert(orch@.restart_events =~= before@.failing(seen@).restart_events);
                assert(orch@.recovery_generation =~= before@.failing(seen@).recovery_generation);
                assert(orch@ =~= before@.failing(seen@));
                assert(all.difference(seen@) =~= all.difference(seen_before).remove(nv));
                assert(all.difference(seen_before).contains(nv));
            }
            match dag.dependents.get(n.as_str()) {
                None => {
                    assert(crate::dag::list_at(edges, nv).len() == 0);
                },
                Some(children) => {
                    let ghost cs = crate::names::texts(children@);
                    assert(crate::dag::list_at(edges, nv) == cs);
                    push_all(&mut queue, children);
                    proof {
                        assert forall|x: Seq<char>| waits(
                            queue_before,
                            head as int,
                            x,
                        ) implies waits(queue@, head as int, x) by {
                            let p = choose|p: int|
                                head <= p < queue_before.len() && (#[trigger] queue_before[p])@ == x;
                            assert(queue@[p]@ == x);
                        }
                        assert forall|x: Seq<char>| cs.contains(x) implies waits(
                            queue@,
                            head as int,
                            x,
                        ) by {
                            let p = cs.index_of(x);
                            assert(queue@[queue_before.len() + p]@ == children@[p]@);
                        }
                        let k = choose|k: nat| reaches_within(edges, name@, nv, k);
                        assert forall|p: int| 0 <= p < queue.len() implies all.contains(
                            #[trigger] queue[p]@,
                        ) && downstream(edges, name@).contains(queue[p]@) by {
                            if p >= queue_before.len() {
                                let c = cs[p - queue_before.len()];
                                assert(queue@[queue_before.len() + (p - queue_before.len())]@
                                    == children@[p - queue_before.len()]@);
                                assert(crate::dag::list_at(edges, nv).contains(c));
                                lemma_reaches_extends(edges, name@, nv, c, k);
                            } else {
                                assert(queue[p] == queue_before[p]);
                            }
                        }
                    }
                },
            }
        } else {
            assert(seen@ =~= seen_before);
        }
    }
    proof {
        assert forall|n: Seq<char>| downstream(edges, name@).contains(n) implies seen@.contains(
            n,
        ) by {
            let k = choose|k: nat| reaches_within(edges, name@, n, k);
            lemma_closed_holds(edges, seen@, name@, n, k);
        }
        assert(seen@ =~= downstream(edges, name@));
    }
}

/// Whether `x` is still ahead in `queue`.
spec fn waits(queue: Seq<String>, head: int, x: Seq<char>) -> bool {
    exists|p: int| head <= p < queue.len() && (#[trigger] queue[p])@ == x
}

/// Appends copies of `items`.
fn push_all(queue: &mut Vec<String>, items: &Vec<String>)
    ensures
        final(queue)@.len() == old(queue)@.len() + items@.len(),
        forall|p: int| 0 <= p < old(queue)@.len() ==> #[trigger] final(queue)@[p] == old(queue)@[p],
        forall|p: int|
            0 <= p < items@.len() ==> (#[trigger] final(queue)@[old(queue)@.len() + p])@
                == items@[p]@,
{
    let ghost before = queue@;
    let mut i: usize = 0;
    while i < items.len()
        invariant
            i <= items.len(),
            queue@.len() == before.len() + i,
            forall|p: int| 0 <= p < before.len() ==> #[trigger] queue@[p] == before[p],
            forall|p: int| 0 <= p < i ==> (#[trigger] queue@[before.len() + p])@ == items@[p]@,
        decreases items.len() - i,
    {
        queue.push(items[i].as_str().to_owned());
        i += 1;
    }
}

/// Records that one service failed: it fails with all that depend on it.
pub fn record_service_failed(name: &str, dag: &DagRuntime, orch: &mut OrchestratorState)
    ensures
        final(orch)@ == old(orch)@.failing(downstream(crate::dag::graph_of(dag.dependents@), name@)),
{
    propagate_cascade_failure(name, dag, orch)
}

// ---------------------------------------------------------------------------
// Laws
// ---------------------------------------------------------------------------

/// A set that is closed under dependents stays so when a service joins it with all that
/// depend on it.
pub proof fn lemma_union_stays_closed(failed: Set<Seq<char>>, dag: &DagRuntime, name: Seq<char>)
    requires
        forall|n: Seq<char>, d: Seq<char>|
            failed.contains(n) && #[trigger] dag.dependents_of(n).contains(d) ==> failed.contains(
                d,
            ),
    ensures
        forall|n: Seq<char>, d: Seq<char>|
            failed.union(downstream(crate::dag::graph_of(dag.dependents@), name)).contains(n)
                && #[trigger] dag.dependents_of(n).contains(d) ==> failed.union(
                downstream(crate::dag::graph_of(dag.dependents@), name),
            ).contains(d),
{
    let edges = crate::dag::graph_of(dag.dependents@);
    assert forall|n: Seq<char>, d: Seq<char>|
        failed.union(downstream(edges, name)).contains(n) && #[trigger] dag.dependents_of(
            n,
        ).contains(d) implies failed.union(downstream(edges, name)).contains(d) by {
        if downstream(edges, name).contains(n) {
            let k = choose|k: nat| reaches_within(edges, name, n, k);
            lemma_reaches_extends(edges, name, n, d, k);
        }
    }
}

/// Law: failures stay closed under dependents. If every service that depends on a failed one
/// has failed before a failure is propagated, the same holds afterwards.
pub proof fn lemma_failure_stays_closed(
    before: &OrchestratorState,
    after: &OrchestratorState,
    dag: &DagRuntime,
    name: Seq<char>,
)
    requires
        before.failure_closed(dag),
        after@ == before@.failing(downstream(crate::dag::graph_of(dag.dependents@), name)),
    ensures
        after.failure_closed(dag),
{
    lemma_union_stays_closed(before.cascade_failed@, dag, name);
    assert(after.cascade_failed@ == after@.cascade_failed);
}

/// Law: a service fails with any service it depends on. None waits forever for a dependency
/// that will not come up.
pub proof fn lemma_dependents_fail(
    before: &OrchestratorState,
    after: &OrchestratorState,
    dag: &DagRuntime,
    name: Seq<char>,
    dependent: Seq<char>,
)
    requires
        dag.wf(),
        dag.dependencies_of(dependent).contains(name),
        after@ == before@.failing(downstream(crate::dag::graph_of(dag.dependents@), name)),
    ensures
        after.cascade_failed@.contains(name),
        after.cascade_failed@.contains(dependent),
        !after.running@.contains(dependent),
        !after.starting@.contains(dependent),
        !after.recovering@.contains(dependent),
        !after.root_pids@.contains_key(dependent),
{
    let edges = crate::dag::graph_of(dag.dependents@);
    crate::dag::lemma_reverse_edges(crate::dag::graph_of(dag.graph@), edges, dependent, name);
    assert(reaches_within(edges, name, name, 0));
    lemma_reaches_extends(edges, name, name, dependent, 0);
}

/// Law: propagating a failure leaves no service both failed and alive.
pub proof fn lemma_failed_stay_idle(
    before: &OrchestratorState,
    after: &OrchestratorState,
    gone: Set<Seq<char>>,
)
    requires
        before.failed_are_idle(),
        after@ == before@.failing(gone),
    ensures
        after.failed_are_idle(),
{
    assert forall|n: Seq<char>| after.cascade_failed@.contains(n) implies !after.running@.contains(n)
        && !after.starting@.contains(n) && !after.recovering@.contains(n) by {
        if !gone.contains(n) {
            assert(before.cascade_failed@.contains(n));
        }
    }
}

/// Law: propagating the same failure twice changes nothing more.
pub proof fn lemma_failing_again_changes_nothing(state: OrchView, gone: Set<Seq<char>>)
    ensures
        state.failing(gone).failing(gone) == state.failing(gone),
{
    assert(state.failing(gone).failing(gone) =~= state.failing(gone));
}

/// Whether `path` leads from `name` over services each of which depends on the one before it.
pub open spec fn is_dependent_chain(
    dag: &DagRuntime,
    name: Seq<char>,
    path: Seq<Seq<char>>,
) -> bool {
    &&& path.len() > 0
    &&& path[0] == name
    &&& forall|i: int|
        0 <= i < path.len() - 1 ==> dag.dependents_of(#[trigger] path[i]).contains(path[i + 1])
}

/// Whether `m` is `name`, or depends on it, directly or not.
pub open spec fn hangs_on(dag: &DagRuntime, name: Seq<char>, m: Seq<char>) -> bool {
    exists|path: Seq<Seq<char>>| #[trigger] is_dependent_chain(dag, name, path) && path.last() == m
}

/// Whether from `before` to `after` exactly `name` and the services that hang on it have failed:
/// they neither run, start nor recover any more, and nothing of any other service has changed.
pub open spec fn fails_with_dependents(
    dag: &DagRuntime,
    before: OrchView,
    after: OrchView,
    name: Seq<char>,
) -> bool {
    forall|m: Seq<char>| #![trigger hangs_on(dag, name, m)]
        #![trigger after.cascade_failed.contains(m)]
        #![trigger after.running.contains(m)]
        {
            let hit = hangs_on(dag, name, m);
            &&& after.cascade_failed.contains(m) == (before.cascade_failed.contains(m) || hit)
            &&& after.running.contains(m) == (before.running.contains(m) && !hit)
            &&& after.starting.contains(m) == (before.starting.contains(m) && !hit)
            &&& after.recovering.contains(m) == (before.recovering.contains(m) && !hit)
            &&& after.root_pids.contains_key(m) == (before.root_pids.contains_key(m) && !hit)
            &&& after.root_pids.contains_key(m) ==> after.root_pids[m] == before.root_pids[m]
            &&& after.restart_events.contains_key(m) == (before.restart_events.contains_key(m)
                && !hit)
            &&& after.restart_events.contains_key(m) ==> after.restart_events[m]
                == before.restart_events[m]
            &&& after.recovery_generation.contains_key(m)
                == (before.recovery_generation.contains_key(m) && !hit)
            &&& after.recovery_generation.contains_key(m) ==> after.recovery_generation[m]
                == before.recovery_generation[m]
        }
}

/// Law: a failure takes exactly the services with it that hang on the one that failed.
pub proof fn lemma_cascade_is_exact(name: &str, dag: &DagRuntime, orch: &mut OrchestratorState)
    requires
        call_ensures(propagate_cascade_failure, (name, dag, orch), ()),
    ensures
        fails_with_dependents(dag, old(orch)@, final(orch)@, name@),
        final(orch)@.circuit_origin == old(orch)@.circuit_origin,
{
    lemma_failing_is_cascade(dag, old(orch)@, name@);
}

/// Law: a service that is recorded as failed takes exactly the services with it that hang on it.
pub proof fn lemma_recorded_failure_is_exact(
    name: &str,
    dag: &DagRuntime,
    orch: &mut OrchestratorState,
)
    requires
        call_ensures(record_service_failed, (name, dag, orch), ()),
    ensures
        fails_with_dependents(dag, old(orch)@, final(orch)@, name@),
        final(orch)@.circuit_origin == old(orch)@.circuit_origin,
{
    lemma_failing_is_cascade(dag, old(orch)@, name@);
}

/// Law: letting a service fail with all that is downstream of it is a failure with exactly the
/// services that hang on it.
pub proof fn lemma_failing_is_cascade(dag: &DagRuntime, before: OrchView, name: Seq<char>)
    ensures
        fails_with_dependents(
            dag,
            before,
            before.failing(downstream(crate::dag::graph_of(dag.dependents@), name)),
            name,
        ),
{
    let edges = crate::dag::graph_of(dag.dependents@);
    assert forall|m: Seq<char>| #[trigger]
        hangs_on(dag, name, m) == downstream(edges, name).contains(m) by {
        lemma_hangs_on_is_downstream(dag, name, m);
    }
}

/// What is forgotten of a service before it fails makes no difference.
pub proof fn lemma_cascade_forgets(
    dag: &DagRuntime,
    mid: OrchView,
    before: OrchView,
    after: OrchView,
    name: Seq<char>,
)
    requires
        fails_with_dependents(dag, mid, after, name),
        mid.cascade_failed == before.cascade_failed,
        mid.running == before.running,
        mid.recovering == before.recovering,
        forall|m: Seq<char>| #[trigger] mid.starting.contains(m) ==> before.starting.contains(m),
        forall|m: Seq<char>| #[trigger]
            before.starting.contains(m) && m != name ==> mid.starting.contains(m),
        mid.root_pids == before.root_pids || mid.root_pids == before.root_pids.remove(name),
        mid.restart_events == before.restart_events || exists|v: Seq<Moment>|
            mid.restart_events == #[trigger] before.restart_events.insert(name, v),
        mid.recovery_generation == before.recovery_generation,
    ensures
        fails_with_dependents(dag, before, after, name),
{
    assert(is_dependent_chain(dag, name, seq![name]));
    assert(seq![name].last() == name);
    assert(hangs_on(dag, name, name));
    assert forall|m: Seq<char>| #![trigger hangs_on(dag, name, m)]
        #![trigger after.cascade_failed.contains(m)]
        #![trigger after.running.contains(m)]
        {
            let hit = hangs_on(dag, name, m);
            &&& after.cascade_failed.contains(m) == (before.cascade_failed.contains(m) || hit)
            &&& after.running.contains(m) == (before.running.contains(m) && !hit)
            &&& after.starting.contains(m) == (before.starting.contains(m) && !hit)
            &&& after.recovering.contains(m) == (before.recovering.contains(m) && !hit)
            &&& after.root_pids.contains_key(m) == (before.root_pids.contains_key(m) && !hit)
            &&& after.root_pids.contains_key(m) ==> after.root_pids[m] == before.root_pids[m]
            &&& after.restart_events.contains_key(m) == (before.restart_events.contains_key(m)
                && !hit)
            &&& after.restart_events.contains_key(m) ==> after.restart_events[m]
                == before.restart_events[m]
            &&& after.recovery_generation.contains_key(m)
                == (before.recovery_generation.contains_key(m) && !hit)
            &&& after.recovery_generation.contains_key(m) ==> after.recovery_generation[m]
                == before.recovery_generation[m]
        } by {
        assert(after.cascade_failed.contains(m) == (mid.cascade_failed.contains(m) || hangs_on(
            dag,
            name,
            m,
        )));
        if m != name {
            assert(mid.starting.contains(m) == before.starting.contains(m));
        }
    }
}

proof fn lemma_hangs_on_is_downstream(dag: &DagRuntime, name: Seq<char>, m: Seq<char>)
    ensures
        hangs_on(dag, name, m) == downstream(crate::dag::graph_of(dag.dependents@), name).contains(
            m,
        ),
{
    let edges = crate::dag::graph_of(dag.dependents@);
    if hangs_on(dag, name, m) {
        let path = choose|path: Seq<Seq<char>>| #[trigger]
            is_dependent_chain(dag, name, path) && path.last() == m;
        lemma_chain_reaches(dag, name, path);
    }
    if downstream(edges, name).contains(m) {
        let k = choose|k: nat| reaches_within(edges, name, m, k);
        let path = lemma_reach_has_chain(dag, name, m, k);
        assert(is_dependent_chain(dag, name, path) && path.last() == m);
    }
}

proof fn lemma_chain_reaches(dag: &DagRuntime, name: Seq<char>, path: Seq<Seq<char>>)
    requires
        is_dependent_chain(dag, name, path),
    ensures
        downstream(crate::dag::graph_of(dag.dependents@), name).contains(path.last()),
    decreases path.len(),
{
    let edges = crate::dag::graph_of(dag.dependents@);
    lemma_downstream_closed(edges, name);
    if path.len() > 1 {
        let front = path.drop_last();
        assert forall|i: int| 0 <= i < front.len() - 1 implies dag.dependents_of(
            #[trigger] front[i],
        ).contains(front[i + 1]) by {
            assert(dag.dependents_of(path[i]).contains(path[i + 1]));
        }
        lemma_chain_reaches(dag, name, front);
        let i = path.len() - 2;
        assert(dag.dependents_of(path[i]).contains(path[i + 1]));
        assert(crate::dag::list_at(edges, front.last()).contains(path.last()));
    }
}

proof fn lemma_reach_has_chain(dag: &DagRuntime, from: Seq<char>, to: Seq<char>, k: nat) -> (path:
    Seq<Seq<char>>)
    requires
        reaches_within(crate::dag::graph_of(dag.dependents@), from, to, k),
    ensures
        is_dependent_chain(dag, from, path),
        path.last() == to,
    decreases k,
{
    let edges = crate::dag::graph_of(dag.dependents@);
    if from == to {
        seq![from]
    } else {
        let next = crate::dag::list_at(edges, from);
        let i = choose|i: int|
            0 <= i < next.len() && reaches_within(edges, #[trigger] next[i], to, (k - 1) as nat);
        let rest = lemma_reach_has_chain(dag, next[i], to, (k - 1) as nat);
        let path = seq![from] + rest;
        assert(next.contains(next[i]));
        assert forall|j: int| 0 <= j < path.len() - 1 implies dag.dependents_of(
            #[trigger] path[j],
        ).contains(path[j + 1]) by {
            if j > 0 {
                assert(path[j] == rest[j - 1]);
                assert(path[j + 1] == rest[j]);
                assert(dag.dependents_of(rest[j - 1]).contains(rest[j]));
            }
        }
        path
    }
}

} // verus!
