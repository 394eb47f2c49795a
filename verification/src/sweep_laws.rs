//! What the walk through a tree of directories promises, step by step.
use vstd::prelude::*;

use crate::names::texts;
use crate::runtime::IoFailure;
use crate::sweep::{dfs_post_order_rmdir, SweepFrame, SweepStep, SweepVisit, SweepWalk};

verus! {

/// Whether the two directories are left in the same state.
pub open spec fn same_frame(a: SweepFrame, b: SweepFrame) -> bool {
    a.path@ == b.path@ && texts(a.pending@) == texts(b.pending@) && a.failure == b.failure
}

/// Whether the directories on the way down are the same, and in the same state.
pub open spec fn same_way(a: Seq<SweepFrame>, b: Seq<SweepFrame>) -> bool {
    a.len() == b.len() && forall|i: int| 0 <= i < a.len() ==> same_frame(#[trigger] a[i], b[i])
}

proof fn lemma_same_way(a: Seq<SweepFrame>, b: Seq<SweepFrame>)
    requires
        crate::sweep::frames(a) == crate::sweep::frames(b),
    ensures
        same_way(a, b),
{
    assert(crate::sweep::frames(a).len() == a.len());
    assert(crate::sweep::frames(b).len() == b.len());
    assert forall|i: int| 0 <= i < a.len() implies same_frame(#[trigger] a[i], b[i]) by {
        assert(crate::sweep::frames(a)[i] == a[i]@);
        assert(crate::sweep::frames(b)[i] == b[i]@);
    }
}

/// Law: a walk begins with a visit of the directory that it is to remove.
pub proof fn lemma_walk_begins(path: &str, w: SweepWalk)
    requires
        call_ensures(dfs_post_order_rmdir, (path,), w),
    ensures
        w.step is Visit && w.step->Visit_path@ == path@,
        w.stack@.len() == 0,
{
    assert(crate::sweep::frames(w.stack@).len() == w.stack@.len());
}

/// Law: a directory with directories in it is not removed before they are gone: the first of
/// them is visited next, and the rest stay on the list, with what broke the listing off.
pub proof fn lemma_inner_first(
    w: SweepWalk,
    children: Vec<String>,
    failure: Option<IoFailure>,
    r: SweepWalk,
)
    requires
        w.step is Visit,
        children@.len() > 0,
        call_ensures(
            SweepWalk::visited,
            (w, SweepVisit::Directory { children, failure }),
            r,
        ),
    ensures
        r.step is Visit && r.step->Visit_path@ == children@[0]@,
        r.stack@.len() == w.stack@.len() + 1,
        r.stack@.last().path@ == w.step->Visit_path@,
        texts(r.stack@.last().pending@) == texts(children@).skip(1),
        r.stack@.last().failure == failure,
        same_way(r.stack@.drop_last(), w.stack@),
{
    let before = crate::sweep::frames(w.stack@);
    let after = crate::sweep::frames(r.stack@);
    assert(after.len() == r.stack@.len());
    assert(before.len() == w.stack@.len());
    assert(after[after.len() - 1] == r.stack@[r.stack@.len() - 1]@);
    assert(texts(children@)[0] == children@[0]@);
    assert(after.drop_last() =~= before);
    assert(crate::sweep::frames(r.stack@.drop_last()) =~= after.drop_last());
    lemma_same_way(r.stack@.drop_last(), w.stack@);
}

/// Law: a directory with nothing in it is removed, unless its listing broke off: then the walk
/// ends with that failure, and the directory stays.
pub proof fn lemma_empty_directory(
    w: SweepWalk,
    children: Vec<String>,
    failure: Option<IoFailure>,
    r: SweepWalk,
)
    requires
        w.step is Visit,
        children@.len() == 0,
        call_ensures(
            SweepWalk::visited,
            (w, SweepVisit::Directory { children, failure }),
            r,
        ),
    ensures
        failure is None ==> r.step is Remove && r.step->Remove_path@ == w.step->Visit_path@
            && same_way(r.stack@, w.stack@),
        failure matches Some(e) ==> r.step == SweepStep::Finished(Err(e)),
{
    if failure is None {
        assert(crate::sweep::frames(r.stack@) =~= crate::sweep::frames(w.stack@));
        lemma_same_way(r.stack@, w.stack@);
    }
}

/// Law: behind a removal, and behind what is no directory, the walk goes on where it came from:
/// with the next directory on the list, and else with the one that held the list, which is
/// removed unless its listing broke off. Where it came from nowhere, it is done.
pub proof fn lemma_walk_goes_on(w: SweepWalk, r: SweepWalk)
    requires
        ({
            ||| w.step is Remove && call_ensures(
                SweepWalk::removed,
                (w, Ok::<(), IoFailure>(())),
                r,
            )
            ||| w.step is Visit && call_ensures(
                SweepWalk::visited,
                (w, SweepVisit::NotADirectory),
                r,
            )
        }),
    ensures
        w.stack@.len() == 0 ==> r.step == SweepStep::Finished(Ok(())),
        w.stack@.len() > 0 ==> ({
            let top = w.stack@.last();
            &&& top.pending@.len() > 0 ==> {
                &&& r.step is Visit && r.step->Visit_path@ == top.pending@[0]@
                &&& r.stack@.len() == w.stack@.len()
                &&& r.stack@.last().path@ == top.path@
                &&& texts(r.stack@.last().pending@) == texts(top.pending@).skip(1)
                &&& r.stack@.last().failure == top.failure
                &&& same_way(r.stack@.drop_last(), w.stack@.drop_last())
            }
            &&& top.pending@.len() == 0 && top.failure is None ==> r.step is Remove
                && r.step->Remove_path@ == top.path@ && same_way(r.stack@, w.stack@.drop_last())
            &&& top.pending@.len() == 0 && top.failure is Some ==> r.step == SweepStep::Finished(
                Err(top.failure->0),
            )
        }),
{
    let before = crate::sweep::frames(w.stack@);
    let after = crate::sweep::frames(r.stack@);
    assert(before.len() == w.stack@.len());
    assert(after.len() == r.stack@.len());
    assert(r@ == crate::sweep::resumed(before));
    if w.stack@.len() > 0 {
        let top = w.stack@.last();
        assert(before[before.len() - 1] == w.stack@[w.stack@.len() - 1]@);
        assert(before.last() == top@);
        assert(texts(top.pending@).len() == top.pending@.len());
        assert(crate::sweep::frames(w.stack@.drop_last()) =~= before.drop_last());
        if top.pending@.len() > 0 {
            assert(texts(top.pending@)[0] == top.pending@[0]@);
            assert(after[after.len() - 1] == r.stack@[r.stack@.len() - 1]@);
            assert(after.drop_last() =~= before.drop_last());
            assert(crate::sweep::frames(r.stack@.drop_last()) =~= after.drop_last());
            lemma_same_way(r.stack@.drop_last(), w.stack@.drop_last());
        } else if top.failure is None {
            assert(after =~= before.drop_last());
            lemma_same_way(r.stack@, w.stack@.drop_last());
        }
    }
}

/// Law: the first removal that fails ends the walk with its failure.
pub proof fn lemma_failed_removal_ends(w: SweepWalk, e: IoFailure, r: SweepWalk)
    requires
        w.step is Remove,
        call_ensures(SweepWalk::removed, (w, Err::<(), IoFailure>(e)), r),
    ensures
        r.step == SweepStep::Finished(Err(e)),
{
}

} // verus!
