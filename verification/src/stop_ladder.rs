//! Stopping a service: freeze, unmount, kill, thaw, wait until it is empty, sweep.
use vstd::prelude::*;

use crate::recovery::Moment;
use crate::runtime::{
    join_path, read_sysfs_cgroup_populated, IoFailure, IoKind, RuntimeContext,
};
use crate::service_spawn::path_is_plain;
use crate::text::{chars_of, push_text, string_of, trim};

verus! {

/// A file in the directory of a service that names the mount to be detached.
pub const PROC_MOUNT_MARKER: &'static str = ".sysx_proc_mount";

/// Time that the processes of a service get to disappear, in nanoseconds.
pub const POPULATED_WAIT_NANOS: u64 = 5_000_000_000;

/// Longest time between two looks, in nanoseconds.
pub const POLL_SLICE_NANOS: u64 = 50_000_000;

/// How a stop ended.
#[derive(Debug, Clone, Copy, PartialEq, Eq, Structural)]
pub enum StopOutcome {
    /// There was nothing to stop.
    AlreadyGone,
    /// No process is left, and the directories are gone.
    Dead,
    /// Processes outlived the wait.
    Tombstoned,
}

/// The rungs of the ladder.
#[derive(Debug)]
pub enum StopStage {
    /// Is there a directory at all?
    CheckDir,
    Freeze,
    /// Is there a mount to detach?
    Marker,
    Unmount,
    Kill,
    Thaw,
    /// The wait begins.
    Arm,
    /// Is there time left?
    Watch { deadline: Moment },
    /// Are there processes left?
    Look { deadline: Moment, pollable: bool },
    /// Wait for a change, or for the time to pass.
    Poll { deadline: Moment, nanos: u64, pollable: bool },
    /// The wait is over: are there processes left?
    Confirm,
    /// There are: leave a note.
    Mourn,
    /// There are none: remove the directories.
    Sweep,
    Finished(Result<StopOutcome, IoFailure>),
}

/// What came of a rung.
#[derive(Debug)]
pub enum StopEvent {
    /// Whether the directory is there.
    Dir(bool),
    Wrote(Result<(), IoFailure>),
    /// The contents of the marker, if it is there and could be read.
    Marker(Option<String>),
    /// The mount was detached, or could not be.
    Unmounted,
    /// The time, and whether changes of `cgroup.events` can be waited for.
    Armed { now: Moment, pollable: bool },
    Time(Moment),
    /// What was read of `cgroup.events`, and the time after that.
    Events { read: Result<String, IoFailure>, now: Moment },
    /// The wait for a change has ended.
    Polled,
    /// The note was left, or could not be.
    Noted,
    Swept(Result<(), IoFailure>),
}

/// What a rung asks for.
#[derive(Debug)]
pub enum StopAction {
    CheckDir { path: String },
    Write { path: String, contents: String },
    ReadMarker { path: String },
    /// Detach this mount.
    Unmount { path: String },
    /// Take the time, and open `cgroup.events` to wait for changes.
    Arm { path: String },
    TakeTime,
    ReadEvents { path: String },
    Poll { nanos: u64 },
    /// Write this line to the kernel log.
    Note { line: String },
    /// Remove this directory and all in it.
    Sweep { path: String },
    Finished,
}

/// A stop in progress.
#[derive(Debug)]
pub struct StopLadder {
    pub name: String,
    /// The directory of the service.
    pub svc: String,
    /// The mount to detach.
    pub mount: String,
    pub stage: StopStage,
}

// ---------------------------------------------------------------------------
// Model
// ---------------------------------------------------------------------------

/// The mount that a marker names: its text without white space at the ends, if that is a
/// path.
pub open spec fn marked_mount(marker: Option<String>) -> Option<Seq<char>> {
    match marker {
        Some(text) => {
            let mp = crate::text::trimmed(text@);
            if mp.len() > 0 && !mp.contains('\0') {
                Some(mp)
            } else {
                None
            }
        },
        None => None,
    }
}

/// The end of a wait that begins at `now`.
pub open spec fn wait_deadline(now: Moment) -> Moment {
    Moment {
        nanos: if now.nanos + POPULATED_WAIT_NANOS <= u64::MAX {
            (now.nanos + POPULATED_WAIT_NANOS) as u64
        } else {
            u64::MAX
        },
    }
}

/// What follows a write: the next rung, or the failure.
pub open spec fn after_write(wrote: Result<(), IoFailure>, next: StopStage) -> StopStage {
    match wrote {
        Ok(()) => next,
        Err(e) => StopStage::Finished(Err(e)),
    }
}

/// What follows a look during the wait.
pub open spec fn after_look(
    read: Result<String, IoFailure>,
    now: Moment,
    deadline: Moment,
    pollable: bool,
) -> StopStage {
    match crate::runtime::populated_read(read) {
        Err(e) => StopStage::Finished(Err(e)),
        Ok(Some(false)) => StopStage::Confirm,
        _ => if now.nanos >= deadline.nanos {
            StopStage::Confirm
        } else {
            let left = (deadline.nanos - now.nanos) as u64;
            StopStage::Poll {
                deadline,
                nanos: if pollable && left < POLL_SLICE_NANOS {
                    left
                } else {
                    POLL_SLICE_NANOS
                },
                pollable,
            }
        },
    }
}

/// The rung after `stage`, given what came of it. What does not belong to a rung changes
/// nothing.
pub open spec fn after_stop(stage: StopStage, event: StopEvent) -> StopStage {
    match (stage, event) {
        (StopStage::CheckDir, StopEvent::Dir(present)) => if present {
            StopStage::Freeze
        } else {
            StopStage::Finished(Ok(StopOutcome::AlreadyGone))
        },
        (StopStage::Freeze, StopEvent::Wrote(w)) => after_write(w, StopStage::Marker),
        (StopStage::Marker, StopEvent::Marker(m)) => if marked_mount(m) is Some {
            StopStage::Unmount
        } else {
            StopStage::Kill
        },
        (StopStage::Unmount, StopEvent::Unmounted) => StopStage::Kill,
        (StopStage::Kill, StopEvent::Wrote(w)) => after_write(w, StopStage::Thaw),
        (StopStage::Thaw, StopEvent::Wrote(w)) => after_write(w, StopStage::Arm),
        (StopStage::Arm, StopEvent::Armed { now, pollable }) => if pollable {
            StopStage::Watch { deadline: wait_deadline(now) }
        } else {
            StopStage::Look { deadline: wait_deadline(now), pollable }
        },
        (StopStage::Watch { deadline }, StopEvent::Time(now)) => if now.nanos < deadline.nanos {
            StopStage::Look { deadline, pollable: true }
        } else {
            StopStage::Confirm
        },
        (StopStage::Look { deadline, pollable }, StopEvent::Events { read, now }) => after_look(
            read,
            now,
            deadline,
            pollable,
        ),
        (StopStage::Poll { deadline, nanos, pollable }, StopEvent::Polled) => if pollable {
            StopStage::Watch { deadline }
        } else {
            StopStage::Look { deadline, pollable }
        },
        (StopStage::Confirm, StopEvent::Events { read, now }) => match crate::runtime::populated_read(
            read,
        ) {
            Err(e) => StopStage::Finished(Err(e)),
            Ok(Some(false)) => StopStage::Sweep,
            _ => StopStage::Mourn,
        },
        (StopStage::Mourn, StopEvent::Noted) => StopStage::Finished(Ok(StopOutcome::Tombstoned)),
        (StopStage::Sweep, StopEvent::Swept(r)) => match r {
            Ok(()) => StopStage::Finished(Ok(StopOutcome::Dead)),
            Err(e) => StopStage::Finished(Err(e)),
        },
        (stage, _) => stage,
    }
}

/// The line for the kernel log.
pub open spec fn tombstone_line(name: Seq<char>) -> Seq<char> {
    "SYSX KERNEL_STATE_CORRUPTION: stop ladder step 5 timeout populated!=0 service="@ + name
}

/// Whether `a` is what `l` asks for.
pub open spec fn is_asked(l: &StopLadder, a: StopAction) -> bool {
    let freeze = crate::runtime::joined(l.svc@, "cgroup.freeze"@);
    let kill = crate::runtime::joined(l.svc@, "cgroup.kill"@);
    let events = crate::runtime::joined(l.svc@, "cgroup.events"@);
    match l.stage {
        StopStage::CheckDir => a matches StopAction::CheckDir { path } && path@ == l.svc@,
        StopStage::Freeze => a matches StopAction::Write { path, contents } && path@ == freeze
            && contents@ == "1"@,
        StopStage::Marker => a matches StopAction::ReadMarker { path } && path@
            == crate::runtime::joined(l.svc@, PROC_MOUNT_MARKER@),
        StopStage::Unmount => a matches StopAction::Unmount { path } && path@ == l.mount@,
        StopStage::Kill => a matches StopAction::Write { path, contents } && path@ == kill
            && contents@ == "1"@,
        StopStage::Thaw => a matches StopAction::Write { path, contents } && path@ == freeze
            && contents@ == "0"@,
        StopStage::Arm => a matches StopAction::Arm { path } && path@ == events,
        StopStage::Watch { .. } => a is TakeTime,
        StopStage::Look { .. } => a matches StopAction::ReadEvents { path } && path@ == events,
        StopStage::Poll { nanos, .. } => a == (StopAction::Poll { nanos }),
        StopStage::Confirm => a matches StopAction::ReadEvents { path } && path@ == events,
        StopStage::Mourn => a matches StopAction::Note { line } && line@ == tombstone_line(l.name@),
        StopStage::Sweep => a matches StopAction::Sweep { path } && path@ == l.svc@,
        StopStage::Finished(_) => a is Finished,
    }
}

// ---------------------------------------------------------------------------
// The ladder
// ---------------------------------------------------------------------------

/// Whether a removal failed because the directory is in use.
pub fn is_rmdir_ebusy(e: &IoFailure) -> (r: bool)
    ensures
        r == (e.kind == IoKind::Busy),
{
    e.kind == IoKind::Busy
}

/// The line for the kernel log.
pub fn tombstone_kmsg(name: &str) -> (r: String)
    ensures
        r@ == tombstone_line(name@),
{
    let mut line =
        "SYSX KERNEL_STATE_CORRUPTION: stop ladder step 5 timeout populated!=0 service=".to_owned();
    push_text(&mut line, name);
    line
}

/// The mount to detach, if the marker names one.
fn maybe_umount_proc_detach(marker: &Option<String>) -> (r: Option<String>)
    ensures
        match r {
            Some(mp) => marked_mount(*marker) == Some(mp@),
            None => marked_mount(*marker) is None,
        },
{
    match marker {
        None => None,
        Some(text) => {
            let mp = string_of(&trim(&chars_of(text.as_str())));
            if mp.as_str().is_empty() {
                return None;
            }
            if path_is_plain(mp.as_str()) {
                Some(mp)
            } else {
                None
            }
        },
    }
}

/// Decides how the wait goes on after a look.
fn wait_populated_zero(
    read: Result<String, IoFailure>,
    now: Moment,
    deadline: Moment,
    pollable: bool,
) -> (r: StopStage)
    ensures
        r == after_look(read, now, deadline, pollable),
{
    match read_sysfs_cgroup_populated(read) {
        Err(e) => StopStage::Finished(Err(e)),
        Ok(Some(false)) => StopStage::Confirm,
        Ok(Some(true)) | Ok(None) => {
            if now.nanos >= deadline.nanos {
                return StopStage::Confirm;
            }
            let left: u64 = deadline.nanos - now.nanos;
            let nanos: u64 = if pollable && left < POLL_SLICE_NANOS {
                left
            } else {
                POLL_SLICE_NANOS
            };
            StopStage::Poll { deadline, nanos, pollable }
        },
    }
}

/// Begins to stop a service.
pub fn stop_service(rt: &RuntimeContext, name: &str) -> (r: Result<StopLadder, IoFailure>)
    ensures
        match r {
            Ok(l) => crate::runtime::is_service_id(name@) && l.stage is CheckDir && l.name@
                == name@ && l.svc@ == rt.service_path(name@),
            Err(e) => !crate::runtime::is_service_id(name@)
                && crate::service_spawn::is_bad_id(name@, e),
        },
{
    match rt.service_cgroup_path(name) {
        Ok(svc) => Ok(
            StopLadder {
                name: name.to_owned(),
                svc,
                mount: String::new(),
                stage: StopStage::CheckDir,
            },
        ),
        Err(e) => Err(IoFailure { kind: IoKind::InvalidInput, message: e.message() }),
    }
}

impl StopLadder {
    /// What the current rung asks for.
    pub fn action(&self) -> (a: StopAction)
        ensures
            is_asked(self, a),
    {
        let svc = self.svc.as_str();
        match &self.stage {
            StopStage::CheckDir => StopAction::CheckDir { path: svc.to_owned() },
            StopStage::Freeze => StopAction::Write {
                path: join_path(svc, "cgroup.freeze"),
                contents: "1".to_owned(),
            },
            StopStage::Marker => StopAction::ReadMarker { path: join_path(svc, PROC_MOUNT_MARKER) },
            StopStage::Unmount => StopAction::Unmount { path: self.mount.as_str().to_owned() },
            StopStage::Kill => StopAction::Write {
                path: join_path(svc, "cgroup.kill"),
                contents: "1".to_owned(),
            },
            StopStage::Thaw => StopAction::Write {
                path: join_path(svc, "cgroup.freeze"),
                contents: "0".to_owned(),
            },
            StopStage::Arm => StopAction::Arm { path: join_path(svc, "cgroup.events") },
            StopStage::Watch { .. } => StopAction::TakeTime,
            StopStage::Look { .. } => StopAction::ReadEvents { path: join_path(svc, "cgroup.events") },
            StopStage::Poll { nanos, .. } => StopAction::Poll { nanos: *nanos },
            StopStage::Confirm => StopAction::ReadEvents { path: join_path(svc, "cgroup.events") },
            StopStage::Mourn => StopAction::Note { line: tombstone_kmsg(self.name.as_str()) },
            StopStage::Sweep => StopAction::Sweep { path: svc.to_owned() },
            StopStage::Finished(_) => StopAction::Finished,
        }
    }

    /// Climbs to the next rung.
    pub fn next(self, event: StopEvent) -> (r: StopLadder)
        ensures
            r.name == self.name,
            r.svc == self.svc,
            r.stage == after_stop(self.stage, event),
            r.mount@ == match (self.stage, event) {
                (StopStage::Marker, StopEvent::Marker(m)) => match marked_mount(m) {
                    Some(mp) => mp,
                    None => self.mount@,
                },
                _ => self.mount@,
            },
    {
        let StopLadder { name, svc, mount, stage } = self;
        let mut mount = mount;
        let stage = match (stage, event) {
            (StopStage::CheckDir, StopEvent::Dir(present)) => if present {
                StopStage::Freeze
            } else {
                StopStage::Finished(Ok(StopOutcome::AlreadyGone))
            },
            (StopStage::Freeze, StopEvent::Wrote(w)) => match w {
                Ok(()) => StopStage::Marker,
                Err(e) => StopStage::Finished(Err(e)),
            },
            (StopStage::Marker, StopEvent::Marker(m)) => match maybe_umount_proc_detach(&m) {
                Some(mp) => {
                    mount = mp;
                    StopStage::Unmount
                },
                None => StopStage::Kill,
            },
            (StopStage::Unmount, StopEvent::Unmounted) => StopStage::Kill,
            (StopStage::Kill, StopEvent::Wrote(w)) => match w {
                Ok(()) => StopStage::Thaw,
                Err(e) => StopStage::Finished(Err(e)),
            },
            (StopStage::Thaw, StopEvent::Wrote(w)) => match w {
                Ok(()) => StopStage::Arm,
                Err(e) => StopStage::Finished(Err(e)),
            },
            (StopStage::Arm, StopEvent::Armed { now, pollable }) => {
                let deadline = Moment { nanos: now.nanos.saturating_add(POPULATED_WAIT_NANOS) };
                if pollable {
                    StopStage::Watch { deadline }
                } else {
                    StopStage::Look { deadline, pollable }
                }
            },
            (StopStage::Watch { deadline }, StopEvent::Time(now)) => if now.nanos < deadline.nanos {
                StopStage::Look { deadline, pollable: true }
            } else {
                StopStage::Confirm
            },
            (StopStage::Look { deadline, pollable }, StopEvent::Events { read, now }) =>
                wait_populated_zero(read, now, deadline, pollable),
            (StopStage::Poll { deadline, nanos: _, pollable }, StopEvent::Polled) => if pollable {
                StopStage::Watch { deadline }
            } else {
                StopStage::Look { deadline, pollable }
            },
            (StopStage::Confirm, StopEvent::Events { read, now: _ }) =>
                match read_sysfs_cgroup_populated(read) {
                    Err(e) => StopStage::Finished(Err(e)),
                    Ok(Some(false)) => StopStage::Sweep,
                    Ok(Some(true)) | Ok(None) => StopStage::Mourn,
                },
            (StopStage::Mourn, StopEvent::Noted) => StopStage::Finished(
                Ok(StopOutcome::Tombstoned),
            ),
            (StopStage::Sweep, StopEvent::Swept(r)) => match r {
                Ok(()) => StopStage::Finished(Ok(StopOutcome::Dead)),
                Err(e) => StopStage::Finished(Err(e)),
            },
            (stage, _) => stage,
        };
        StopLadder { name, svc, mount, stage }
    }
}

// ---------------------------------------------------------------------------
// Laws
// ---------------------------------------------------------------------------

/// How far up a rung is. The wait is one rung.
pub open spec fn rung(stage: StopStage) -> nat {
    match stage {
        StopStage::CheckDir => 0,
        StopStage::Freeze => 1,
        StopStage::Marker => 2,
        StopStage::Unmount => 3,
        StopStage::Kill => 4,
        StopStage::Thaw => 5,
        StopStage::Arm => 6,
        StopStage::Watch { .. } | StopStage::Look { .. } | StopStage::Poll { .. } => 7,
        StopStage::Confirm => 8,
        StopStage::Mourn | StopStage::Sweep => 9,
        StopStage::Finished(_) => 10,
    }
}

/// Law: a stop only ever climbs. It freezes before it kills, kills before it thaws, thaws
/// before it waits, and waits before it sweeps; and it rests only where it waits.
pub proof fn lemma_stop_climbs(stage: StopStage, event: StopEvent)
    ensures
        rung(after_stop(stage, event)) >= rung(stage),
        after_stop(stage, event) == stage || rung(after_stop(stage, event)) > rung(stage) || rung(
            stage,
        ) == 7,
        rung(after_stop(stage, event)) > rung(stage) + 1 ==> after_stop(stage, event) is Finished
            || stage is Marker,
{
}

/// Law: a service counts as dead only after its directories were removed, and they are
/// removed only when the last read said that no process is left.
pub proof fn lemma_dead_means_empty_and_swept(stage: StopStage, event: StopEvent)
    requires
        !(stage is Finished),
    ensures
        after_stop(stage, event) == StopStage::Finished(
            Ok::<StopOutcome, IoFailure>(StopOutcome::Dead),
        ) ==> stage is Sweep && (event matches StopEvent::Swept(r) && r is Ok),
        after_stop(stage, event) is Sweep && !(stage is Sweep) ==> stage is Confirm && (
        event matches StopEvent::Events { read, now } && crate::runtime::populated_read(read) == Ok::<
            Option<bool>,
            IoFailure,
        >(Some(false))),
        after_stop(stage, event) == StopStage::Finished(
            Ok::<StopOutcome, IoFailure>(StopOutcome::AlreadyGone),
        ) ==> stage is CheckDir && event == StopEvent::Dir(false),
{
}

/// Law: once its time is up a wait ends at the next look.
pub proof fn lemma_wait_ends(
    deadline: Moment,
    pollable: bool,
    now: Moment,
    read: Result<String, IoFailure>,
)
    requires
        now.nanos >= deadline.nanos,
    ensures
        after_stop(StopStage::Watch { deadline }, StopEvent::Time(now)) is Confirm,
        rung(
            after_stop(
                StopStage::Look { deadline, pollable },
                (StopEvent::Events { read, now }),
            ),
        ) > 7,
{
}

/// Law: a wait that can be polled never sleeps past its end.
pub proof fn lemma_poll_within_wait(
    deadline: Moment,
    now: Moment,
    read: Result<String, IoFailure>,
)
    ensures
        after_stop(
            StopStage::Look { deadline, pollable: true },
            (StopEvent::Events { read, now }),
        ) matches StopStage::Poll { deadline: d, nanos, pollable } ==> d == deadline && nanos
            <= POLL_SLICE_NANOS && now.nanos + nanos <= deadline.nanos && nanos > 0,
{
}

/// The end of the wait that `stage` belongs to.
pub open spec fn deadline_of(stage: StopStage) -> Option<Moment> {
    match stage {
        StopStage::Watch { deadline } => Some(deadline),
        StopStage::Look { deadline, .. } => Some(deadline),
        StopStage::Poll { deadline, .. } => Some(deadline),
        _ => None,
    }
}

/// Law: the wait that begins at `now` ends five seconds later, whenever it begins.
pub proof fn lemma_wait_lasts_five_seconds(
    l: StopLadder,
    now: Moment,
    pollable: bool,
    r: StopLadder,
)
    requires
        call_ensures(StopLadder::next, (l, (StopEvent::Armed { now, pollable })), r),
        l.stage is Arm,
    ensures
        deadline_of(r.stage) matches Some(d) && (now.nanos + 5_000_000_000 <= u64::MAX ==> d.nanos
            == now.nanos + 5_000_000_000) && (now.nanos + 5_000_000_000 > u64::MAX ==> d.nanos
            == u64::MAX),
        pollable ==> r.stage is Watch,
        !pollable ==> r.stage == (StopStage::Look {
            deadline: deadline_of(r.stage)->0,
            pollable: false,
        }),
{
}

/// Law: a wait keeps its end. It goes on as long as that lies ahead and processes are left, and
/// is over at the first look that finds none, or at which its time has passed.
pub proof fn lemma_wait_keeps_its_end(l: StopLadder, event: StopEvent, r: StopLadder)
    requires
        call_ensures(StopLadder::next, (l, event), r),
        deadline_of(l.stage) is Some,
    ensures
        deadline_of(r.stage) is Some ==> deadline_of(r.stage) == deadline_of(l.stage),
        r.stage is Confirm || r.stage is Finished || deadline_of(r.stage) is Some,
        r.stage is Confirm ==> match event {
            StopEvent::Time(now) => now.nanos >= deadline_of(l.stage)->0.nanos,
            StopEvent::Events { read, now } => now.nanos >= deadline_of(l.stage)->0.nanos || (
            read matches Ok(t) && crate::runtime::populated_in(t@) == Some(false)),
            _ => false,
        },
        r.stage is Finished ==> l.stage is Look && (event matches StopEvent::Events { read, now }
            && (read matches Err(e) && e.kind != IoKind::NotFound && r.stage == StopStage::Finished(
            Err(e),
        ))),
        l.stage is Watch && (event matches StopEvent::Time(now) && now.nanos < deadline_of(
            l.stage,
        )->0.nanos) ==> r.stage is Look,
        l.stage is Look && (event matches StopEvent::Events { read, now } && now.nanos
            < deadline_of(l.stage)->0.nanos && (read matches Ok(t) && crate::runtime::populated_in(
            t@,
        ) != Some(false))) ==> r.stage is Poll,
        l.stage is Look && (event matches StopEvent::Events { read, now } && (read matches Ok(t)
            && crate::runtime::populated_in(t@) == Some(false))) ==> r.stage is Confirm,
        l.stage is Look && (event matches StopEvent::Events { read, now } && now.nanos
            < deadline_of(l.stage)->0.nanos && (read matches Err(e) && e.kind == IoKind::NotFound))
            ==> r.stage is Poll,
        l.stage is Look && (event matches StopEvent::Events { read, now } && now.nanos
            >= deadline_of(l.stage)->0.nanos && (read matches Err(e) ==> e.kind == IoKind::NotFound))
            ==> r.stage is Confirm,
        l.stage is Look && (event matches StopEvent::Events { read, now } && (read matches Err(e)
            && e.kind != IoKind::NotFound)) ==> r.stage is Finished,
        l.stage is Watch && (event matches StopEvent::Time(now) && now.nanos >= deadline_of(
            l.stage,
        )->0.nanos) ==> r.stage is Confirm,
        l.stage is Poll && event is Polled && l.stage->Poll_pollable ==> r.stage is Watch,
        l.stage is Poll && event is Polled && !l.stage->Poll_pollable ==> r.stage is Look
            && !r.stage->Look_pollable,
        l.stage is Watch && r.stage is Look ==> r.stage->Look_pollable,
{
}

/// Law: what does not belong to a rung changes nothing.
pub proof fn lemma_other_events_change_nothing(l: StopLadder, event: StopEvent, r: StopLadder)
    requires
        call_ensures(StopLadder::next, (l, event), r),
        ({
            ||| l.stage is CheckDir && !(event is Dir)
            ||| (l.stage is Freeze || l.stage is Kill || l.stage is Thaw) && !(event is Wrote)
            ||| l.stage is Marker && !(event is Marker)
            ||| l.stage is Unmount && !(event is Unmounted)
            ||| l.stage is Arm && !(event is Armed)
            ||| l.stage is Watch && !(event is Time)
            ||| (l.stage is Look || l.stage is Confirm) && !(event is Events)
            ||| l.stage is Poll && !(event is Polled)
            ||| l.stage is Mourn && !(event is Noted)
            ||| l.stage is Sweep && !(event is Swept)
            ||| l.stage is Finished
        }),
    ensures
        r.stage == l.stage,
        r.mount@ == l.mount@,
{
}

/// Whether `steps` is a stop in progress, rung after rung, under `events`.
pub open spec fn is_run(steps: Seq<StopLadder>, events: Seq<StopEvent>) -> bool {
    &&& steps.len() == events.len() + 1
    &&& forall|i: int|
        0 <= i < events.len() ==> call_ensures(
            StopLadder::next,
            (steps[i], #[trigger] events[i]),
            steps[i + 1],
        )
}

/// Law: over a whole wait, from its begin at `now` on, nothing ends it before five seconds have
/// passed but a look that finds no process left, or one that fails.
pub proof fn lemma_no_wait_is_cut_short(
    steps: Seq<StopLadder>,
    events: Seq<StopEvent>,
    now: Moment,
    pollable: bool,
    k: int,
)
    requires
        is_run(steps, events),
        events.len() > 0,
        steps[0].stage is Arm,
        events[0] == (StopEvent::Armed { now, pollable }),
        now.nanos + 5_000_000_000 <= u64::MAX,
        0 <= k < events.len(),
        forall|i: int| 1 <= i <= k ==> deadline_of((#[trigger] steps[i]).stage) is Some,
    ensures
        k > 0 ==> deadline_of(steps[k].stage) == Some(
            Moment { nanos: (now.nanos + 5_000_000_000) as u64 },
        ),
        k > 0 && steps[k + 1].stage is Confirm ==> match events[k] {
            StopEvent::Time(t) => t.nanos >= now.nanos + 5_000_000_000,
            StopEvent::Events { read, now: t } => t.nanos >= now.nanos + 5_000_000_000 || (
            read matches Ok(c) && crate::runtime::populated_in(c@) == Some(false)),
            _ => false,
        },
    decreases k,
{
    assert(call_ensures(StopLadder::next, (steps[0], events[0]), steps[1]));
    lemma_wait_lasts_five_seconds(steps[0], now, pollable, steps[1]);
    if k > 1 {
        lemma_no_wait_is_cut_short(steps, events, now, pollable, k - 1);
        assert(call_ensures(StopLadder::next, (steps[k - 1], events[k - 1]), steps[k]));
        lemma_wait_keeps_its_end(steps[k - 1], events[k - 1], steps[k]);
    }
    if k > 0 {
        assert(call_ensures(StopLadder::next, (steps[k], events[k]), steps[k + 1]));
        lemma_wait_keeps_its_end(steps[k], events[k], steps[k + 1]);
    }
}

/// Law: between two looks at most fifty milliseconds pass, and some time does. Where changes can
/// be waited for, the wait does not outlast its end.
pub proof fn lemma_looks_are_close(l: StopLadder, event: StopEvent, r: StopLadder)
    requires
        call_ensures(StopLadder::next, (l, event), r),
        l.stage is Look,
        event is Events,
        r.stage is Poll,
    ensures
        r.stage matches StopStage::Poll { deadline, nanos, pollable } && 0 < nanos <= 50_000_000 && (
        l.stage matches StopStage::Look { deadline: d, pollable: p } && d == deadline && p
            == pollable) && (pollable ==> event->Events_now.nanos + nanos <= deadline.nanos) && (
        !pollable || event->Events_now.nanos + 50_000_000 <= deadline.nanos ==> nanos
            == 50_000_000),
{
}

/// Law: each rung is followed by the next one as soon as it worked, and a write that failed ends
/// the stop with that failure.
pub proof fn lemma_rungs_follow_each_other(l: StopLadder, event: StopEvent, r: StopLadder)
    requires
        call_ensures(StopLadder::next, (l, event), r),
    ensures
        l.stage is CheckDir && event == StopEvent::Dir(true) ==> r.stage is Freeze,
        l.stage is CheckDir && event == StopEvent::Dir(false) ==> r.stage == StopStage::Finished(
            Ok::<StopOutcome, IoFailure>(StopOutcome::AlreadyGone),
        ),
        (event matches StopEvent::Wrote(w) && w is Ok) ==> {
            &&& l.stage is Freeze ==> r.stage is Marker
            &&& l.stage is Kill ==> r.stage is Thaw
            &&& l.stage is Thaw ==> r.stage is Arm
        },
        (l.stage is Freeze || l.stage is Kill || l.stage is Thaw) && (event matches StopEvent::Wrote(
            w,
        ) && w is Err) ==> r.stage == StopStage::Finished(
            Err::<StopOutcome, IoFailure>(event->Wrote_0->Err_0),
        ),
        l.stage is Marker && event is Marker ==> r.stage is Unmount || r.stage is Kill,
        l.stage is Unmount && event is Unmounted ==> r.stage is Kill,
        l.stage is Mourn && event is Noted ==> r.stage == StopStage::Finished(
            Ok::<StopOutcome, IoFailure>(StopOutcome::Tombstoned),
        ),
        l.stage is Sweep && (event matches StopEvent::Swept(w) && w is Ok) ==> r.stage
            == StopStage::Finished(Ok::<StopOutcome, IoFailure>(StopOutcome::Dead)),
        l.stage is Sweep && (event matches StopEvent::Swept(w) && w is Err) ==> r.stage
            == StopStage::Finished(Err::<StopOutcome, IoFailure>(event->Swept_0->Err_0)),
        l.stage is Finished ==> r.stage == l.stage,
        r.name@ == l.name@,
        r.svc@ == l.svc@,
        !(l.stage is Marker) ==> r.mount@ == l.mount@,
{
}

/// Law: when the wait is over, a service without processes is swept, one with processes, or of
/// which nothing is known, is mourned, and a look that fails ends the stop.
pub proof fn lemma_confirm_decides(
    l: StopLadder,
    read: Result<String, IoFailure>,
    now: Moment,
    r: StopLadder,
)
    requires
        call_ensures(StopLadder::next, (l, (StopEvent::Events { read, now })), r),
        l.stage is Confirm,
    ensures
        (r.stage is Sweep) == (read matches Ok(t) && crate::runtime::populated_in(t@) == Some(
            false,
        )),
        (r.stage is Mourn) == ((read matches Ok(t) && crate::runtime::populated_in(t@) != Some(
            false,
        )) || (read matches Err(e) && e.kind == IoKind::NotFound)),
        read matches Err(e) ==> (e.kind != IoKind::NotFound ==> r.stage == StopStage::Finished(
            Err::<StopOutcome, IoFailure>(e),
        )),
{
}

/// Law: a mount is detached exactly if the marker names a path: text that is not only white
/// space and holds no zero character. The path is that text without white space at its ends.
pub proof fn lemma_marked_mount_is_detached(l: StopLadder, marker: Option<String>, r: StopLadder)
    requires
        call_ensures(StopLadder::next, (l, StopEvent::Marker(marker)), r),
        l.stage is Marker,
    ensures
        marker is None ==> r.stage is Kill && r.mount@ == l.mount@,
        marker matches Some(t) ==> {
            let mp = crate::text::trimmed(t@);
            &&& mp.len() > 0 && !mp.contains('\0') ==> r.stage is Unmount && r.mount@ == mp
            &&& mp.len() == 0 || mp.contains('\0') ==> r.stage is Kill && r.mount@ == l.mount@
        },
{
}

/// Law: every rung asks for what it is there for: the freeze and the thaw write to
/// `cgroup.freeze`, the kill to `cgroup.kill`, the looks read `cgroup.events`, all in the
/// directory of the service, and the sweep removes that directory.
pub proof fn lemma_rungs_ask(l: &StopLadder, a: StopAction)
    requires
        call_ensures(StopLadder::action, (l,), a),
    ensures
        l.stage is CheckDir ==> (a matches StopAction::CheckDir { path } && path@ == l.svc@),
        l.stage is Freeze ==> (a matches StopAction::Write { path, contents } && path@
            == crate::runtime::joined(l.svc@, "cgroup.freeze"@) && contents@ == "1"@),
        l.stage is Marker ==> (a matches StopAction::ReadMarker { path } && path@
            == crate::runtime::joined(l.svc@, ".sysx_proc_mount"@)),
        l.stage is Unmount ==> (a matches StopAction::Unmount { path } && path@ == l.mount@),
        l.stage is Kill ==> (a matches StopAction::Write { path, contents } && path@
            == crate::runtime::joined(l.svc@, "cgroup.kill"@) && contents@ == "1"@),
        l.stage is Thaw ==> (a matches StopAction::Write { path, contents } && path@
            == crate::runtime::joined(l.svc@, "cgroup.freeze"@) && contents@ == "0"@),
        l.stage is Arm ==> (a matches StopAction::Arm { path } && path@ == crate::runtime::joined(
            l.svc@,
            "cgroup.events"@,
        )),
        l.stage is Watch ==> a is TakeTime,
        l.stage is Look || l.stage is Confirm ==> (a matches StopAction::ReadEvents { path }
            && path@ == crate::runtime::joined(l.svc@, "cgroup.events"@)),
        l.stage matches StopStage::Poll { deadline, nanos, pollable } ==> a == (StopAction::Poll {
            nanos,
        }),
        l.stage is Mourn ==> (a matches StopAction::Note { line } && line@
            == "SYSX KERNEL_STATE_CORRUPTION: stop ladder step 5 timeout populated!=0 service="@
            + l.name@),
        l.stage is Sweep ==> (a matches StopAction::Sweep { path } && path@ == l.svc@),
        l.stage is Finished ==> a is Finished,
{
}

/// Law: a stop begins at the first rung, in the directory of the service, for every name that
/// has one.
pub proof fn lemma_stop_begins(rt: &RuntimeContext, name: &str, r: Result<StopLadder, IoFailure>)
    requires
        call_ensures(stop_service, (rt, name), r),
    ensures
        (r is Ok) == crate::runtime::is_service_id(name@),
        r matches Ok(l) ==> l.stage is CheckDir && l.name@ == name@ && l.svc@ == rt.service_path(
            name@,
        ),
        r matches Err(e) ==> e.kind == IoKind::InvalidInput,
{
}

} // verus!
