//! Removing a tree of directories, the innermost first.
use vstd::prelude::*;

use crate::runtime::IoFailure;

verus! {

/// What the walk asks for.
#[derive(Debug)]
pub enum SweepStep {
    /// List the directories in this one.
    Visit { path: String },
    /// Remove this directory.
    Remove { path: String },
    Finished(Result<(), IoFailure>),
}

/// A directory that is being emptied.
#[derive(Debug)]
pub struct SweepFrame {
    pub path: String,
    /// The directories in it that are still there.
    pub pending: Vec<String>,
    /// Why the listing broke off behind the last of them.
    pub failure: Option<IoFailure>,
}

/// What a visit found.
#[derive(Debug)]
pub enum SweepVisit {
    NotADirectory,
    /// The directories found, and why the listing broke off, if it did.
    Directory { children: Vec<String>, failure: Option<IoFailure> },
}

/// A walk through a tree of directories.
#[derive(Debug)]
pub struct SweepWalk {
    pub step: SweepStep,
    /// The directories on the way down to the current one.
    pub stack: Vec<SweepFrame>,
}

// ---------------------------------------------------------------------------
// Model
// ---------------------------------------------------------------------------

/// What the walk asks for.
pub enum StepView {
    Visit(Seq<char>),
    Remove(Seq<char>),
    Finished(Result<(), IoFailure>),
}

/// A directory that is being emptied.
pub struct FrameView {
    pub path: Seq<char>,
    pub pending: Seq<Seq<char>>,
    pub failure: Option<IoFailure>,
}

/// A walk.
pub struct WalkView {
    pub step: StepView,
    pub stack: Seq<FrameView>,
}

impl View for SweepStep {
    type V = StepView;

    open spec fn view(&self) -> StepView {
        match self {
            SweepStep::Visit { path } => StepView::Visit(path@),
            SweepStep::Remove { path } => StepView::Remove(path@),
            SweepStep::Finished(r) => StepView::Finished(*r),
        }
    }
}

impl View for SweepFrame {
    type V = FrameView;

    open spec fn view(&self) -> FrameView {
        FrameView {
            path: self.path@,
            pending: crate::names::texts(self.pending@),
            failure: self.failure,
        }
    }
}

/// The frames of a stack.
pub open spec fn frames(stack: Seq<SweepFrame>) -> Seq<FrameView> {
    Seq::new(stack.len(), |i: int| stack[i]@)
}

impl View for SweepWalk {
    type V = WalkView;

    open spec fn view(&self) -> WalkView {
        WalkView { step: self.step@, stack: frames(self.stack@) }
    }
}

/// Where a walk goes on: into the next directory that is pending, else to the removal of
/// the one whose directories are all gone, unless its listing broke off.
pub open spec fn resumed(stack: Seq<FrameView>) -> WalkView {
    if stack.len() == 0 {
        WalkView { step: StepView::Finished(Ok(())), stack }
    } else {
        let top = stack.last();
        if top.pending.len() > 0 {
            WalkView {
                step: StepView::Visit(top.pending[0]),
                stack: stack.drop_last().push(
                    FrameView { path: top.path, pending: top.pending.skip(1), failure: top.failure },
                ),
            }
        } else {
            match top.failure {
                Some(e) => WalkView { step: StepView::Finished(Err(e)), stack: stack.drop_last() },
                None => WalkView { step: StepView::Remove(top.path), stack: stack.drop_last() },
            }
        }
    }
}

/// The walk after a visit.
pub open spec fn after_visit(w: WalkView, found: Option<(Seq<Seq<char>>, Option<IoFailure>)>) -> WalkView {
    match w.step {
        StepView::Visit(path) => match found {
            None => resumed(w.stack),
            Some(f) => resumed(w.stack.push(FrameView { path, pending: f.0, failure: f.1 })),
        },
        _ => w,
    }
}

/// The walk after a removal.
pub open spec fn after_removal(w: WalkView, r: Result<(), IoFailure>) -> WalkView {
    match w.step {
        StepView::Remove(_) => match r {
            Ok(()) => resumed(w.stack),
            Err(e) => WalkView { step: StepView::Finished(Err(e)), stack: w.stack },
        },
        _ => w,
    }
}

// ---------------------------------------------------------------------------
// The walk
// ---------------------------------------------------------------------------

fn resume(stack: Vec<SweepFrame>) -> (r: SweepWalk)
    ensures
        r@ == resumed(frames(stack@)),
{
    let ghost all = frames(stack@);
    let mut stack = stack;
    match stack.pop() {
        None => {
            let r = SweepWalk { step: SweepStep::Finished(Ok(())), stack };
            assert(r@.stack =~= all);
            r
        },
        Some(top) => {
            assert(all.last() == top@);
            assert(frames(stack@) =~= all.drop_last());
            let mut top = top;
            if top.pending.len() > 0 {
                let ghost before = crate::names::texts(top.pending@);
                let path = top.pending.remove(0);
                assert(path@ == before[0]);
                assert(crate::names::texts(top.pending@) =~= before.skip(1));
                let ghost pushed = top@;
                stack.push(top);
                let r = SweepWalk { step: SweepStep::Visit { path }, stack };
                assert(r@.stack =~= all.drop_last().push(pushed));
                r
            } else {
                match top.failure {
                    Some(e) => SweepWalk { step: SweepStep::Finished(Err(e)), stack },
                    None => SweepWalk { step: SweepStep::Remove { path: top.path }, stack },
                }
            }
        },
    }
}

/// A walk that removes `path` and all directories in it.
pub fn dfs_post_order_rmdir(path: &str) -> (r: SweepWalk)
    ensures
        r@ == (WalkView { step: StepView::Visit(path@), stack: Seq::empty() }),
{
    let r = SweepWalk { step: SweepStep::Visit { path: path.to_owned() }, stack: Vec::new() };
    assert(r@.stack =~= Seq::<FrameView>::empty());
    r
}

impl SweepWalk {
    /// Goes on after a visit. Unless a visit was asked for, nothing changes.
    pub fn visited(self, found: SweepVisit) -> (r: SweepWalk)
        ensures
            r@ == after_visit(
                self@,
                match found {
                    SweepVisit::NotADirectory => None,
                    SweepVisit::Directory { children, failure } => Some(
                        (crate::names::texts(children@), failure),
                    ),
                },
            ),
    {
        let SweepWalk { step, stack } = self;
        match step {
            SweepStep::Visit { path } => match found {
                SweepVisit::NotADirectory => resume(stack),
                SweepVisit::Directory { children, failure } => {
                    let ghost below = frames(stack@);
                    let mut stack = stack;
                    let frame = SweepFrame { path, pending: children, failure };
                    let ghost pushed = frame@;
                    stack.push(frame);
                    assert(frames(stack@) =~= below.push(pushed));
                    resume(stack)
                },
            },
            other => SweepWalk { step: other, stack },
        }
    }

    /// Goes on after a removal. Unless a removal was asked for, nothing changes.
    pub fn removed(self, r: Result<(), IoFailure>) -> (next: SweepWalk)
        ensures
            next@ == after_removal(self@, r),
    {
        let SweepWalk { step, stack } = self;
        match step {
            SweepStep::Remove { path } => match r {
                Ok(()) => resume(stack),
                Err(e) => SweepWalk { step: SweepStep::Finished(Err(e)), stack },
            },
            other => SweepWalk { step: other, stack },
        }
    }
}

// ---------------------------------------------------------------------------
// Law: a tree goes in post-order
// ---------------------------------------------------------------------------

/// A tree of directories.
pub struct DirTree {
    pub path: Seq<char>,
    pub kids: Seq<DirTree>,
}

/// The directories of `t`, each behind all that are in it.
pub open spec fn post_order(t: DirTree) -> Seq<Seq<char>>
    decreases t,
{
    post_order_all(t.kids).push(t.path)
}

/// The directories of `ts`, tree by tree.
pub open spec fn post_order_all(ts: Seq<DirTree>) -> Seq<Seq<char>>
    decreases ts,
{
    if ts.len() == 0 {
        Seq::empty()
    } else {
        post_order(ts[0]) + post_order_all(ts.subrange(1, ts.len() as int))
    }
}

/// The number of visits and removals that `t` takes.
pub open spec fn sweep_cost(t: DirTree) -> nat
    decreases t,
{
    2 + sweep_cost_all(t.kids)
}

/// The number of visits and removals that `ts` take.
pub open spec fn sweep_cost_all(ts: Seq<DirTree>) -> nat
    decreases ts,
{
    if ts.len() == 0 {
        0
    } else {
        sweep_cost(ts[0]) + sweep_cost_all(ts.subrange(1, ts.len() as int))
    }
}

/// The paths of `ts`.
pub open spec fn roots(ts: Seq<DirTree>) -> Seq<Seq<char>> {
    Seq::new(ts.len(), |i: int| ts[i].path)
}

/// Whether `disk`, which lists the directories in each directory, holds `t`.
pub open spec fn holds(disk: Map<Seq<char>, Seq<Seq<char>>>, t: DirTree) -> bool
    decreases t,
{
    disk.contains_key(t.path) && disk[t.path] == roots(t.kids) && holds_all(disk, t.kids)
}

/// Whether `disk` holds all of `ts`.
pub open spec fn holds_all(disk: Map<Seq<char>, Seq<Seq<char>>>, ts: Seq<DirTree>) -> bool
    decreases ts,
{
    ts.len() > 0 ==> holds(disk, ts[0]) && holds_all(disk, ts.subrange(1, ts.len() as int))
}

/// What a walk removes on `disk` within `fuel` steps, where every removal succeeds.
pub open spec fn removals(
    w: WalkView,
    disk: Map<Seq<char>, Seq<Seq<char>>>,
    fuel: nat,
) -> Seq<Seq<char>>
    decreases fuel,
{
    if fuel == 0 {
        Seq::empty()
    } else {
        match w.step {
            StepView::Visit(path) => removals(
                after_visit(w, Some((disk[path], None))),
                disk,
                (fuel - 1) as nat,
            ),
            StepView::Remove(path) => seq![path] + removals(
                after_removal(w, Ok(())),
                disk,
                (fuel - 1) as nat,
            ),
            StepView::Finished(_) => Seq::empty(),
        }
    }
}

/// How a walk ends on `disk` within `fuel` steps, where every removal succeeds.
pub open spec fn ends_well(
    w: WalkView,
    disk: Map<Seq<char>, Seq<Seq<char>>>,
    fuel: nat,
) -> bool
    decreases fuel,
{
    match w.step {
        StepView::Finished(r) => r is Ok,
        StepView::Visit(path) => fuel > 0 && ends_well(
            after_visit(w, Some((disk[path], None))),
            disk,
            (fuel - 1) as nat,
        ),
        StepView::Remove(path) => fuel > 0 && ends_well(
            after_removal(w, Ok(())),
            disk,
            (fuel - 1) as nat,
        ),
    }
}

/// What is still to be removed, from the top of the stack down. Each tree stands for a
/// directory with what is still in it.
spec fn rest(stack: Seq<DirTree>) -> Seq<Seq<char>>
    decreases stack.len(),
{
    if stack.len() == 0 {
        Seq::empty()
    } else {
        post_order(stack.last()) + rest(stack.drop_last())
    }
}

spec fn rest_cost(stack: Seq<DirTree>) -> nat
    decreases stack.len(),
{
    if stack.len() == 0 {
        0
    } else {
        1 + sweep_cost_all(stack.last().kids) + rest_cost(stack.drop_last())
    }
}

/// Whether the frames stand for the trees.
spec fn mirrors(
    disk: Map<Seq<char>, Seq<Seq<char>>>,
    frames: Seq<FrameView>,
    stack: Seq<DirTree>,
) -> bool {
    frames.len() == stack.len() && forall|i: int|
        0 <= i < stack.len() ==> (#[trigger] stack[i]).path == frames[i].path && frames[i].pending
            == roots(stack[i].kids) && frames[i].failure is None && holds_all(disk, stack[i].kids)
}

proof fn lemma_resumed(
    disk: Map<Seq<char>, Seq<Seq<char>>>,
    frames: Seq<FrameView>,
    stack: Seq<DirTree>,
    fuel: nat,
)
    requires
        mirrors(disk, frames, stack),
        fuel >= rest_cost(stack),
    ensures
        removals(resumed(frames), disk, fuel) == rest(stack),
        ends_well(resumed(frames), disk, fuel),
    decreases fuel,
{
    let w = resumed(frames);
    if stack.len() == 0 {
        assert(w.step is Finished);
    } else {
        let top = stack.last();
        let below = stack.drop_last();
        let below_frames = frames.drop_last();
        assert(stack[stack.len() - 1] == top);
        assert(mirrors(disk, below_frames, below)) by {
            assert forall|i: int| 0 <= i < below.len() implies (#[trigger] below[i]).path
                == below_frames[i].path && below_frames[i].pending == roots(below[i].kids)
                && below_frames[i].failure is None && holds_all(disk, below[i].kids) by {
                assert(below[i] == stack[i]);
            }
        }
        if top.kids.len() == 0 {
            assert(frames.last().pending.len() == 0);
            assert(w.step == StepView::Remove(top.path));
            assert(w.stack == below_frames);
            assert(after_removal(w, Ok(())) == resumed(below_frames));
            lemma_resumed(disk, below_frames, below, (fuel - 1) as nat);
            assert(post_order(top) =~= seq![top.path]);
        } else {
            let kid = top.kids[0];
            let later = top.kids.subrange(1, top.kids.len() as int);
            let left = DirTree { path: top.path, kids: later };
            assert(w.step == StepView::Visit(kid.path));
            assert(roots(top.kids).skip(1) =~= roots(later));
            let left_frame = FrameView { path: top.path, pending: roots(later), failure: None };
            assert(w.stack == below_frames.push(left_frame));
            let kid_frame = FrameView { path: kid.path, pending: roots(kid.kids), failure: None };
            let next_frames = w.stack.push(kid_frame);
            let next_stack = below.push(left).push(kid);
            assert(holds(disk, kid));
            assert(after_visit(w, Some((disk[kid.path], None))) == resumed(next_frames));
            assert(mirrors(disk, next_frames, next_stack)) by {
                assert forall|i: int| 0 <= i < next_stack.len() implies (
                #[trigger] next_stack[i]).path == next_frames[i].path && next_frames[i].pending
                    == roots(next_stack[i].kids) && next_frames[i].failure is None && holds_all(
                    disk,
                    next_stack[i].kids,
                ) by {
                    if i < below.len() {
                        assert(next_stack[i] == below[i]);
                    }
                }
            }
            assert(next_stack.drop_last() =~= below.push(left));
            assert(below.push(left).drop_last() =~= below);
            assert(rest_cost(next_stack) == 1 + sweep_cost_all(kid.kids) + rest_cost(
                below.push(left),
            ));
            assert(rest_cost(below.push(left)) == 1 + sweep_cost_all(later) + rest_cost(below));
            assert(sweep_cost(kid) == 2 + sweep_cost_all(kid.kids));
            assert(sweep_cost_all(top.kids) == sweep_cost(kid) + sweep_cost_all(later));
            lemma_resumed(disk, next_frames, next_stack, (fuel - 1) as nat);
            assert(rest(next_stack) == post_order(kid) + rest(below.push(left)));
            assert(rest(below.push(left)) == post_order(left) + rest(below));
            assert(post_order(kid) + (post_order(left) + rest(below)) =~= post_order(top) + rest(
                below,
            ));
        }
    }
}

/// Law: where the directories form a tree, and none refuses to go, the walk removes exactly
/// the directories of the tree, each behind all that are in it, and ends well.
pub proof fn lemma_sweep_in_post_order(
    disk: Map<Seq<char>, Seq<Seq<char>>>,
    t: DirTree,
    fuel: nat,
)
    requires
        holds(disk, t),
        fuel >= sweep_cost(t),
    ensures
        removals(WalkView { step: StepView::Visit(t.path), stack: Seq::empty() }, disk, fuel)
            == post_order(t),
        ends_well(WalkView { step: StepView::Visit(t.path), stack: Seq::empty() }, disk, fuel),
{
    let w = WalkView { step: StepView::Visit(t.path), stack: Seq::empty() };
    let frame = FrameView { path: t.path, pending: roots(t.kids), failure: None };
    let fs = Seq::<FrameView>::empty().push(frame);
    let stack = Seq::<DirTree>::empty().push(t);
    assert(after_visit(w, Some((disk[t.path], None))) == resumed(fs));
    assert(mirrors(disk, fs, stack));
    assert(stack.drop_last() =~= Seq::<DirTree>::empty());
    assert(rest_cost(Seq::<DirTree>::empty()) == 0);
    assert(rest_cost(stack) == 1 + sweep_cost_all(t.kids));
    lemma_resumed(disk, fs, stack, (fuel - 1) as nat);
    assert(rest(stack) == post_order(t) + rest(Seq::empty()));
    assert(rest(stack) =~= post_order(t));
}

/// Law: a directory that does not go ends the walk with its failure, and nothing more is
/// removed.
pub proof fn lemma_sweep_stops_at_failure(
    w: WalkView,
    e: IoFailure,
    disk: Map<Seq<char>, Seq<Seq<char>>>,
    fuel: nat,
)
    requires
        w.step is Remove,
    ensures
        after_removal(w, Err(e)).step == StepView::Finished(Err::<(), IoFailure>(e)),
        removals(after_removal(w, Err(e)), disk, fuel) == Seq::<Seq<char>>::empty(),
{
}

} // verus!
