use std::collections::HashMap;

use sysx::recovery::Moment;
use sysx::runtime::{IoFailure, IoKind, RuntimeContext};
use sysx::stop_ladder::{
    is_rmdir_ebusy, stop_service, tombstone_kmsg, StopAction, StopEvent, StopLadder, StopOutcome,
    StopStage, POLL_SLICE_NANOS, POPULATED_WAIT_NANOS,
};
use sysx::sweep::{dfs_post_order_rmdir, SweepStep, SweepVisit, SweepWalk};

fn rt() -> RuntimeContext {
    RuntimeContext { cgroup_root: "/cg".to_string(), service_slice: "sysx".to_string() }
}

fn failure(kind: IoKind) -> IoFailure {
    IoFailure { kind, message: "no".to_string() }
}

fn at(nanos: u64) -> Moment {
    Moment { nanos }
}

fn events(text: &str, now: u64) -> StopEvent {
    StopEvent::Events { read: Ok(text.to_string()), now: at(now) }
}

fn said(l: &StopLadder) -> String {
    match l.action() {
        StopAction::CheckDir { path } => format!("dir? {}", path),
        StopAction::Write { path, contents } => format!("{}={}", path, contents),
        StopAction::ReadMarker { path } => format!("marker {}", path),
        StopAction::Unmount { path } => format!("umount {}", path),
        StopAction::Arm { path } => format!("arm {}", path),
        StopAction::TakeTime => "time".to_string(),
        StopAction::ReadEvents { path } => format!("events {}", path),
        StopAction::Poll { nanos } => format!("poll {}", nanos),
        StopAction::Note { line } => line,
        StopAction::Sweep { path } => format!("sweep {}", path),
        StopAction::Finished => "finished".to_string(),
    }
}

fn outcome(l: StopLadder) -> Result<StopOutcome, IoKind> {
    match l.stage {
        StopStage::Finished(r) => r.map_err(|e| e.kind),
        _ => panic!("not finished"),
    }
}

/// Climbs to the point where the wait begins.
fn armed() -> StopLadder {
    let l = stop_service(&rt(), "web").unwrap();
    let l = l.next(StopEvent::Dir(true));
    let l = l.next(StopEvent::Wrote(Ok(())));
    let l = l.next(StopEvent::Marker(None));
    let l = l.next(StopEvent::Wrote(Ok(())));
    l.next(StopEvent::Wrote(Ok(())))
}

#[test]
fn already_gone_no_cgroup() {
    let l = stop_service(&rt(), "nosuch").unwrap();
    assert_eq!(said(&l), "dir? /cg/sysx/nosuch");
    let l = l.next(StopEvent::Dir(false));
    assert_eq!(outcome(l), Ok(StopOutcome::AlreadyGone));
}

#[test]
fn the_whole_ladder() {
    let l = stop_service(&rt(), "web").unwrap().next(StopEvent::Dir(true));
    assert_eq!(said(&l), "/cg/sysx/web/cgroup.freeze=1");
    let l = l.next(StopEvent::Wrote(Ok(())));
    assert_eq!(said(&l), "marker /cg/sysx/web/.sysx_proc_mount");
    let l = l.next(StopEvent::Marker(Some(" /run/web/proc\n".to_string())));
    assert_eq!(said(&l), "umount /run/web/proc");
    let l = l.next(StopEvent::Unmounted);
    assert_eq!(said(&l), "/cg/sysx/web/cgroup.kill=1");
    let l = l.next(StopEvent::Wrote(Ok(())));
    assert_eq!(said(&l), "/cg/sysx/web/cgroup.freeze=0");
    let l = l.next(StopEvent::Wrote(Ok(())));
    assert_eq!(said(&l), "arm /cg/sysx/web/cgroup.events");
    let l = l.next(StopEvent::Armed { now: at(10), pollable: true });
    assert_eq!(said(&l), "time");
    let l = l.next(StopEvent::Time(at(10)));
    assert_eq!(said(&l), "events /cg/sysx/web/cgroup.events");
    let l = l.next(events("populated 1\n", 20));
    assert_eq!(said(&l), "poll 50000000");
    let l = l.next(StopEvent::Polled).next(StopEvent::Time(at(30)));
    let l = l.next(events("populated 0\n", 40));
    assert_eq!(said(&l), "events /cg/sysx/web/cgroup.events");
    let l = l.next(events("populated 0\n", 50));
    assert_eq!(said(&l), "sweep /cg/sysx/web");
    let l = l.next(StopEvent::Swept(Ok(())));
    assert_eq!(said(&l), "finished");
    assert_eq!(outcome(l), Ok(StopOutcome::Dead));
}

#[test]
fn processes_that_stay_leave_a_tombstone() {
    let l = armed().next(StopEvent::Armed { now: at(0), pollable: true });
    let l = l.next(StopEvent::Time(at(POPULATED_WAIT_NANOS)));
    let l = l.next(events("populated 1\n", POPULATED_WAIT_NANOS));
    let line =
        "SYSX KERNEL_STATE_CORRUPTION: stop ladder step 5 timeout populated!=0 service=web";
    assert_eq!(said(&l), line);
    assert_eq!(tombstone_kmsg("web"), line);
    let l = l.next(StopEvent::Noted);
    assert_eq!(outcome(l), Ok(StopOutcome::Tombstoned));
    let l = armed().next(StopEvent::Armed { now: at(0), pollable: true });
    let l = l.next(StopEvent::Time(at(POPULATED_WAIT_NANOS)));
    let l = l.next(events("frozen 0\n", POPULATED_WAIT_NANOS)).next(StopEvent::Noted);
    assert_eq!(outcome(l), Ok(StopOutcome::Tombstoned));
}

#[test]
fn the_wait_is_polled_in_slices() {
    let l = armed().next(StopEvent::Armed { now: at(0), pollable: true });
    let l = l.next(StopEvent::Time(at(1)));
    let l = l.next(events("populated 1\n", POPULATED_WAIT_NANOS - 7));
    assert_eq!(said(&l), "poll 7");
    let l = l.next(StopEvent::Polled).next(StopEvent::Time(at(POPULATED_WAIT_NANOS - 1)));
    let l = l.next(events("populated 1\n", POPULATED_WAIT_NANOS));
    assert!(matches!(l.stage, StopStage::Confirm));
}

#[test]
fn the_wait_without_polling() {
    let l = armed().next(StopEvent::Armed { now: at(0), pollable: false });
    let l = l.next(events("populated 1\n", POPULATED_WAIT_NANOS - 7));
    assert_eq!(said(&l), format!("poll {}", POLL_SLICE_NANOS));
    let l = l.next(StopEvent::Polled);
    assert!(matches!(l.stage, StopStage::Look { pollable: false, .. }));
    let l = l.next(events("populated 1\n", POPULATED_WAIT_NANOS));
    assert!(matches!(l.stage, StopStage::Confirm));
}

#[test]
fn failures_end_the_ladder() {
    let broken = || StopEvent::Wrote(Err(failure(IoKind::Other)));
    let l = stop_service(&rt(), "web").unwrap().next(StopEvent::Dir(true));
    assert_eq!(outcome(l.next(broken())), Err(IoKind::Other));
    let kill = stop_service(&rt(), "web").unwrap();
    let kill = kill.next(StopEvent::Dir(true)).next(StopEvent::Wrote(Ok(())));
    let kill = kill.next(StopEvent::Marker(Some(" \n".to_string())));
    assert!(matches!(kill.stage, StopStage::Kill));
    assert_eq!(outcome(kill.next(broken())), Err(IoKind::Other));
    let look = armed().next(StopEvent::Armed { now: at(0), pollable: false });
    let ev = StopEvent::Events { read: Err(failure(IoKind::Busy)), now: at(1) };
    assert_eq!(outcome(look.next(ev)), Err(IoKind::Busy));
    let sweep = armed().next(StopEvent::Armed { now: at(0), pollable: false });
    let sweep = sweep.next(events("populated 0", 1)).next(events("populated 0", 1));
    let ended = sweep.next(StopEvent::Swept(Err(failure(IoKind::Busy))));
    assert_eq!(outcome(ended), Err(IoKind::Busy));
    assert!(stop_service(&rt(), "..").is_err());
}

#[test]
fn what_does_not_belong_changes_nothing() {
    let l = stop_service(&rt(), "web").unwrap().next(StopEvent::Noted);
    assert!(matches!(l.stage, StopStage::CheckDir));
    let l = l.next(StopEvent::Dir(false)).next(StopEvent::Dir(true));
    assert_eq!(outcome(l), Ok(StopOutcome::AlreadyGone));
}

#[test]
fn a_marker_with_a_zero_is_no_mount() {
    let l = stop_service(&rt(), "web").unwrap();
    let l = l.next(StopEvent::Dir(true)).next(StopEvent::Wrote(Ok(())));
    let l = l.next(StopEvent::Marker(Some("/a\0b".to_string())));
    assert!(matches!(l.stage, StopStage::Kill));
    assert!(is_rmdir_ebusy(&failure(IoKind::Busy)));
    assert!(!is_rmdir_ebusy(&failure(IoKind::NotFound)));
}

type Disk = HashMap<String, Vec<String>>;

fn disk(dirs: &[(&str, &[&str])]) -> Disk {
    dirs.iter()
        .map(|(d, kids)| (d.to_string(), kids.iter().map(|k| k.to_string()).collect()))
        .collect()
}

/// Runs a walk to its end.
fn swept(disk: &mut Disk, root: &str) -> (Vec<String>, Result<(), IoFailure>) {
    let mut removed = Vec::new();
    let mut walk = dfs_post_order_rmdir(root);
    loop {
        let SweepWalk { step, stack } = walk;
        walk = match step {
            SweepStep::Finished(r) => return (removed, r),
            SweepStep::Visit { path } => {
                let found = match disk.get(&path) {
                    Some(kids) => SweepVisit::Directory { children: kids.clone(), failure: None },
                    None => SweepVisit::NotADirectory,
                };
                SweepWalk { step: SweepStep::Visit { path }, stack }.visited(found)
            }
            SweepStep::Remove { path } => {
                disk.remove(&path);
                removed.push(path.clone());
                SweepWalk { step: SweepStep::Remove { path }, stack }.removed(Ok(()))
            }
        };
    }
}

#[test]
fn dfs_removes_nested_dirs() {
    let mut d = disk(&[("base", &["base/a"]), ("base/a", &["base/a/b"]), ("base/a/b", &[])]);
    let (removed, r) = swept(&mut d, "base");
    assert!(r.is_ok());
    assert!(!d.contains_key("base"));
    assert_eq!(removed, vec!["base/a/b", "base/a", "base"]);
}

#[test]
fn a_bushy_tree_goes_in_post_order() {
    let mut d = disk(&[
        ("r", &["r/x", "r/y"]),
        ("r/x", &["r/x/1", "r/x/2"]),
        ("r/x/1", &[]),
        ("r/x/2", &[]),
        ("r/y", &[]),
        ("other", &[]),
    ]);
    let (removed, r) = swept(&mut d, "r");
    assert!(r.is_ok());
    assert_eq!(removed, vec!["r/x/1", "r/x/2", "r/x", "r/y", "r"]);
    assert_eq!(d.len(), 1);
    let (removed, r) = swept(&mut d, "r");
    assert!(r.is_ok());
    assert!(removed.is_empty());
}

#[test]
fn a_sweep_stops_at_the_first_failure() {
    let w = dfs_post_order_rmdir("r");
    let w = w.visited(SweepVisit::Directory {
        children: vec!["r/a".to_string()],
        failure: Some(failure(IoKind::Other)),
    });
    let w = w.visited(SweepVisit::Directory { children: vec![], failure: None });
    assert!(matches!(&w.step, SweepStep::Remove { path } if path.as_str() == "r/a"));
    let w = w.removed(Ok(()));
    match w.step {
        SweepStep::Finished(Err(e)) => assert_eq!(e.kind, IoKind::Other),
        _ => panic!("went on"),
    }
    let w = dfs_post_order_rmdir("r");
    let w = w.visited(SweepVisit::Directory { children: vec![], failure: None });
    let w = w.removed(Err(failure(IoKind::Busy)));
    match w.step {
        SweepStep::Finished(Err(e)) => assert_eq!(e.kind, IoKind::Busy),
        _ => panic!("went on"),
    }
}

#[test]
fn a_sweep_ignores_what_it_did_not_ask_for() {
    let w = dfs_post_order_rmdir("r").removed(Ok(()));
    assert!(matches!(&w.step, SweepStep::Visit { path } if path.as_str() == "r"));
    let w = w.visited(SweepVisit::Directory { children: vec![], failure: None });
    let w = w.visited(SweepVisit::NotADirectory);
    assert!(matches!(&w.step, SweepStep::Remove { path } if path.as_str() == "r"));
}
