//! What the way down promises, said over processes, files and milliseconds.
use vstd::prelude::*;

use crate::orchestration::OrchestratorState;
use crate::runtime::{join_path, IoFailure, RuntimeContext};
use crate::spawn_laws::is_service_dir;
use crate::terminal_broadcast::{
    pids_in, read_cgroup_pids, root_pid, run_terminal_broadcast, should_try_reboot,
    sigpwr_broadcast, sigterm_targets, sysx_slice_root, targets_of, BroadcastStep, ServiceProbe,
    TerminalBroadcastKind,
};
use crate::text::{parse_i32, split_lines, trim};

verus! {

// ---------------------------------------------------------------------------
// Processes
// ---------------------------------------------------------------------------

/// Law: `cgroup.procs` lists a process for each line that is a number, white space aside, in
/// their order; a read that failed lists none.
pub proof fn lemma_listed_processes(
    whole: Result<String, IoFailure>,
    front: Result<String, IoFailure>,
    back: Result<String, IoFailure>,
    r: Vec<i32>,
    rf: Vec<i32>,
    rb: Vec<i32>,
    line: &Vec<char>,
    trimmed: Vec<char>,
    pid: Option<i32>,
)
    requires
        call_ensures(read_cgroup_pids, (&whole,), r),
        call_ensures(read_cgroup_pids, (&front,), rf),
        call_ensures(read_cgroup_pids, (&back,), rb),
        call_ensures(trim, (line,), trimmed),
        call_ensures(parse_i32, (&trimmed,), pid),
    ensures
        whole is Err ==> r@.len() == 0,
        whole is Ok && front is Ok && back is Ok && whole->Ok_0@ == front->Ok_0@.push('\n')
            + back->Ok_0@ ==> r@ == rf@ + rb@,
        whole is Ok && whole->Ok_0@ == line@ && !line@.contains('\n') ==> r@ == (match pid {
            Some(p) => seq![p],
            None => seq![],
        }),
{
    if whole is Ok && front is Ok && back is Ok && whole->Ok_0@ == front->Ok_0@.push('\n')
        + back->Ok_0@ {
        crate::text_laws::lemma_lines_append(front->Ok_0@, back->Ok_0@);
        lemma_pids_append(split_lines(front->Ok_0@), split_lines(back->Ok_0@));
    }
    if whole is Ok && whole->Ok_0@ == line@ && !line@.contains('\n') {
        crate::text_laws::lemma_one_line(line@);
        let ls = seq![line@];
        assert(ls.drop_last() =~= Seq::<Seq<char>>::empty());
        assert(pids_in(ls.drop_last()) =~= Seq::<i32>::empty());
        assert(ls.last() == line@);
        assert(r@ =~= (match pid {
            Some(p) => seq![p],
            None => seq![],
        }));
    }
}

proof fn lemma_pids_append(a: Seq<Seq<char>>, b: Seq<Seq<char>>)
    ensures
        pids_in(a + b) == pids_in(a) + pids_in(b),
    decreases b.len(),
{
    if b.len() == 0 {
        assert(a + b =~= a);
        assert(pids_in(a + b) =~= pids_in(a) + pids_in(b));
    } else {
        lemma_pids_append(a, b.drop_last());
        assert((a + b).drop_last() =~= a + b.drop_last());
        assert((a + b).last() == b.last());
        assert(pids_in(a + b) =~= pids_in(a) + pids_in(b));
    }
}

/// Law: of some processes the one with the smallest id speaks for them; of none, none does.
pub proof fn lemma_root_process(pids: &Vec<i32>, r: Option<i32>, i: int)
    requires
        call_ensures(root_pid, (pids,), r),
    ensures
        r is Some <==> pids@.len() > 0,
        r is Some ==> pids@.contains(r->0),
        0 <= i < pids@.len() ==> r->0 <= pids@[i],
{
    if pids@.len() > 0 {
        crate::terminal_broadcast::lemma_least(pids@);
    }
}

/// Law: of one entry in the directory of services. A process gets the signal exactly if the
/// entry is the directory of a service, the kernel says that it is populated, and there is a
/// process: the one on record, and only without a record the smallest one listed.
pub proof fn lemma_signal_of_one(
    probes: &Vec<ServiceProbe>,
    orch: &OrchestratorState,
    listed: Vec<i32>,
    smallest: Option<i32>,
    r: Vec<i32>,
)
    requires
        probes@.len() == 1,
        call_ensures(read_cgroup_pids, (&probes@[0].procs,), listed),
        call_ensures(root_pid, (&listed,), smallest),
        call_ensures(sigterm_targets, (probes, orch), r),
    ensures
        ({
            let p = probes@[0];
            let live = is_service_dir(p.entry) && p.populated == Ok::<Option<bool>, IoFailure>(
                Some(true),
            );
            let recorded = orch.root_pids@.contains_key(p.entry.name->0@);
            &&& !live ==> r@.len() == 0
            &&& live && recorded ==> r@ == seq![orch.root_pids@[p.entry.name->0@]]
            &&& live && !recorded && smallest is Some ==> r@ == seq![smallest->0]
            &&& live && !recorded && smallest is None ==> r@.len() == 0
        }),
{
    let p = probes@[0];
    if p.entry.name is Some {
        crate::runtime_laws::lemma_plain_id(p.entry.name->0@);
    }
    assert(probes@.drop_last() =~= Seq::<ServiceProbe>::empty());
    assert(targets_of(probes@.drop_last(), orch@.root_pids) =~= Seq::<i32>::empty());
    assert(probes@.last() == p);
}

/// Law: the services get their signals one after the other.
pub proof fn lemma_signals_add_up(
    whole: &Vec<ServiceProbe>,
    front: &Vec<ServiceProbe>,
    back: &Vec<ServiceProbe>,
    orch: &OrchestratorState,
    r: Vec<i32>,
    rf: Vec<i32>,
    rb: Vec<i32>,
)
    requires
        whole@ == front@ + back@,
        call_ensures(sigterm_targets, (whole, orch), r),
        call_ensures(sigterm_targets, (front, orch), rf),
        call_ensures(sigterm_targets, (back, orch), rb),
    ensures
        r@ == rf@ + rb@,
{
    lemma_targets_append(front@, back@, orch@.root_pids);
}

proof fn lemma_targets_append(
    a: Seq<ServiceProbe>,
    b: Seq<ServiceProbe>,
    root_pids: Map<Seq<char>, i32>,
)
    ensures
        targets_of(a + b, root_pids) == targets_of(a, root_pids) + targets_of(b, root_pids),
    decreases b.len(),
{
    if b.len() == 0 {
        assert(a + b =~= a);
        assert(targets_of(a + b, root_pids) =~= targets_of(a, root_pids) + targets_of(b, root_pids));
    } else {
        lemma_targets_append(a, b.drop_last(), root_pids);
        assert((a + b).drop_last() =~= a + b.drop_last());
        assert((a + b).last() == b.last());
        assert(targets_of(a + b, root_pids) =~= targets_of(a, root_pids) + targets_of(b, root_pids));
    }
}

// ---------------------------------------------------------------------------
// The way down
// ---------------------------------------------------------------------------

/// Law: on the way down every target gets the signal, five seconds pass, all services are
/// frozen, killed and thawed, and the file systems are flushed, in this order and with nothing
/// else; then the machine goes down, in the way that was asked for, exactly if that was wanted.
pub proof fn lemma_way_down(
    rt: &RuntimeContext,
    kind: TerminalBroadcastKind,
    targets: &Vec<i32>,
    try_reboot: bool,
    slice: String,
    dir: &str,
    freeze: String,
    kill: String,
    steps: Vec<BroadcastStep>,
    i: int,
)
    requires
        call_ensures(sysx_slice_root, (rt,), slice),
        dir@ == slice@,
        call_ensures(join_path, (dir, "cgroup.freeze"), freeze),
        call_ensures(join_path, (dir, "cgroup.kill"), kill),
        call_ensures(run_terminal_broadcast, (rt, kind, targets, try_reboot), steps),
    ensures
        ({
            let n = targets@.len() as int;
            &&& 0 <= i < n ==> steps@[i] == (BroadcastStep::Sigterm { pid: targets@[i] })
            &&& steps@[n] == (BroadcastStep::Grace { ms: 5000 })
            &&& steps@[n + 1] is Write && steps@[n + 1]->path@ == freeze@ && steps@[n
                + 1]->contents@ == seq!['1']
            &&& steps@[n + 2] is Write && steps@[n + 2]->path@ == kill@ && steps@[n + 2]->contents@
                == seq!['1']
            &&& steps@[n + 3] is Write && steps@[n + 3]->path@ == freeze@ && steps@[n
                + 3]->contents@ == seq!['0']
            &&& steps@[n + 4] is Sync
            &&& try_reboot ==> steps@.len() == n + 6 && steps@[n + 5] == (BroadcastStep::Restart {
                kind,
            })
            &&& !try_reboot ==> steps@.len() == n + 5
        }),
{
    reveal_strlit("1");
    reveal_strlit("0");
    assert("1"@ =~= seq!['1']);
    assert("0"@ =~= seq!['0']);
}

/// Law: the directory of all services is the slice under the root.
pub proof fn lemma_slice_root(
    rt: &RuntimeContext,
    root: &str,
    name: &str,
    joined: String,
    r: String,
)
    requires
        root@ == rt.cgroup_root@,
        name@ == rt.service_slice@,
        call_ensures(join_path, (root, name), joined),
        call_ensures(sysx_slice_root, (rt,), r),
    ensures
        r@ == joined@,
{
}

/// Law: a failed write leaves out writes, and nothing else: the flush and the end of the
/// machine come all the same.
pub proof fn lemma_failed_write_skips_writes(step: BroadcastStep, failed: bool, r: bool)
    requires
        call_ensures(BroadcastStep::is_performed, (&step, failed), r),
    ensures
        !failed ==> r,
        failed ==> (r <==> step !is Write),
{
}

/// Law: only the first process stops the machine, and only where that was not switched off; a
/// power signal that was read powers it off.
pub proof fn lemma_who_stops_the_machine(
    skip: bool,
    pid: i32,
    stops: bool,
    signals: usize,
    kind: Option<TerminalBroadcastKind>,
)
    requires
        call_ensures(should_try_reboot, (skip, pid), stops),
        call_ensures(sigpwr_broadcast, (signals,), kind),
    ensures
        stops <==> pid == 1 && !skip,
        kind is Some <==> signals != 0,
        kind is Some ==> kind == Some(TerminalBroadcastKind::Poweroff),
{
}

} // verus!
