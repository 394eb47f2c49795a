use std::collections::HashMap;

use bytes::Bytes;

use sysx::cgroup_ops::{DirEntry, StartCgroupError};
use sysx::dag::{forge_boot_order, DagRuntime};
use sysx::ipc::{decode_frame, Command, Header, Message};
use sysx::orchestration::{
    propagate_cascade_failure, record_service_failed, OrchestratorState,
};
use sysx::reactor::{
    drain_reaper_wake_pipe, log_oracle_dual, sysfs_populated_label, wake_names, CgroupProbe,
    Dispatch, EventSource, Outcome, ReadinessRead, ReadinessStep, ReplyCodes, ServiceStatus,
    SpawnDenial, StartBlock, StartResult, Supervisor, SysxCoreBin,
};
use sysx::recovery::Moment;
use sysx::runtime::{IoFailure, IoKind, RuntimeContext};
use sysx::schema::{RecoveryMode, RecoveryPolicy, ServiceBlock, ServiceSchema, ServiceType};
use sysx::schema_load::file_schemas;
use sysx::stop_ladder::StopOutcome;
use sysx::terminal_broadcast::{sigterm_targets, ServiceProbe, TerminalBroadcastKind};
use sysx::SysXError;

const CODES: ReplyCodes = ReplyCodes {
    outcome_wire_parse: 0x11,
    outcome_epistemic_conflict: 0x12,
    outcome_tombstoned: 0x13,
    reason_cgroup_capacity: 0x14,
    status_offline: 0x21,
    status_sweeping: 0x22,
    status_dead: 0x23,
    status_tombstoned: 0x24,
    status_recovering: 0x25,
    status_reason_circuit_open: 0x26,
};

fn schema(name: &str, depends_on: &[&str]) -> ServiceSchema {
    ServiceSchema {
        sysx_version: 1,
        enabled: true,
        service: ServiceBlock {
            name: name.to_string(),
            exec_path: "/bin/sh".to_string(),
            args: vec![],
            env: HashMap::new(),
            user: "0".to_string(),
        },
        service_type: ServiceType::Simple,
        timeout_sec: None,
        depends_on: depends_on.iter().map(|d| d.to_string()).collect(),
        recovery: None,
        pids: None,
        memory: None,
        cpu: None,
        namespaces: None,
        capabilities: None,
        rootfs: None,
        logging: None,
    }
}

fn supervisor(schemas: Vec<ServiceSchema>) -> Supervisor {
    let forged = forge_boot_order(&schemas).unwrap();
    let by_name = file_schemas(schemas);
    let dag = DagRuntime::from_forged(&forged, &by_name);
    Supervisor::new(by_name, dag)
}

/// `db` under `api` under `web`, and `log` on its own.
fn four() -> Supervisor {
    supervisor(vec![
        schema("web", &["api"]),
        schema("api", &["db"]),
        schema("db", &[]),
        schema("log", &[]),
    ])
}

fn rt() -> RuntimeContext {
    RuntimeContext { cgroup_root: "/cg".to_string(), service_slice: "sysx".to_string() }
}

fn failure(kind: IoKind) -> IoFailure {
    IoFailure { kind, message: "no".to_string() }
}

fn at(secs: u64) -> Moment {
    Moment { nanos: secs * 1_000_000_000 }
}

fn ask(s: &mut Supervisor, command: Command, payload: &[u8]) -> Dispatch {
    let frame = Message::new(command, Bytes::copy_from_slice(payload)).encode();
    let (hdr, pl) = decode_frame(&frame).unwrap();
    s.dispatch_ipc(&rt(), &hdr, pl)
}

fn reply(d: Dispatch) -> (Command, Outcome, Option<String>) {
    match d {
        Dispatch::Reply { command, outcome, about } => (command, outcome, about),
        _ => panic!("no reply"),
    }
}

fn told(command: Command, outcome: Outcome, name: &str) -> (Command, Outcome, Option<String>) {
    (command, outcome, Some(name.to_string()))
}

fn probe(dir_exists: bool, events: &str) -> CgroupProbe {
    CgroupProbe { dir_exists, events: Ok(events.to_string()) }
}

fn ready(s: &mut Supervisor, name: &str, fd: i32) {
    s.on_spawned(name, fd, 100 + fd);
    let step = s.handle_readiness_fd(fd, ReadinessRead::Bytes(1), at(0));
    assert!(matches!(step, ReadinessStep::Ready { .. }));
}

fn place(s: &Supervisor, name: &str) -> usize {
    s.dag.boot_order.iter().position(|n| n == name).unwrap()
}

#[test]
fn requests_that_make_no_sense() {
    let mut s = four();
    let parse = (Command::Start, Outcome::WireParse, None);
    for c in [Command::Start, Command::Stop, Command::Status, Command::Reset] {
        assert_eq!(reply(ask(&mut s, c, b"")), parse);
        assert_eq!(reply(ask(&mut s, c, b"\xff\xfe")), parse);
        assert_eq!(reply(ask(&mut s, c, b"No Name")), parse);
        assert_eq!(reply(ask(&mut s, c, "größe".as_bytes())), parse);
    }
    for c in [Command::Poweroff, Command::Reboot] {
        assert_eq!(reply(ask(&mut s, c, b"x")), parse);
    }
    let hdr = Header::new(Command::Stop, 0);
    assert_eq!(reply(s.dispatch_ipc(&rt(), &hdr, b"web")), parse);
}

#[test]
fn the_machine_goes_down_on_request() {
    let mut s = four();
    match ask(&mut s, Command::Poweroff, b"") {
        Dispatch::Broadcast { command, kind } => {
            assert_eq!(command, Command::Poweroff);
            assert_eq!(kind, TerminalBroadcastKind::Poweroff);
        }
        _ => panic!("no broadcast"),
    }
    match ask(&mut s, Command::Reboot, b"") {
        Dispatch::Broadcast { kind, .. } => assert_eq!(kind, TerminalBroadcastKind::Reboot),
        _ => panic!("no broadcast"),
    }
}

#[test]
fn starts_wait_for_what_they_depend_on() {
    let mut s = four();
    let conflict = |n| told(Command::Start, Outcome::EpistemicConflict, n);
    assert_eq!(reply(ask(&mut s, Command::Start, b"api")), conflict("api"));
    assert_eq!(s.orchestration_ipc_start_allowed("api"), Err(StartBlock::UpstreamNotRunning));
    assert!(matches!(ask(&mut s, Command::Start, b"db"), Dispatch::Start { .. }));
    ready(&mut s, "db", 5);
    assert!(matches!(ask(&mut s, Command::Start, b"api"), Dispatch::Start { .. }));
    assert_eq!(reply(ask(&mut s, Command::Start, b"web")), conflict("web"));
    assert_eq!(reply(ask(&mut s, Command::Start, b"nobody")), conflict("nobody"));
    assert_eq!(s.orchestration_ipc_start_allowed("nobody"), Err(StartBlock::UnknownService));
    assert_eq!(StartBlock::UnknownService.message(), "unknown service");
    assert_eq!(StartBlock::UpstreamFailed.message(), "upstream dependency failed");
    assert_eq!(StartBlock::UpstreamNotRunning.message(), "upstream not Running");
}

#[test]
fn a_failed_dependency_takes_a_start_down() {
    let mut s = supervisor(vec![schema("a", &[]), schema("b", &["a"]), schema("c", &["b"])]);
    s.orch.cascade_failed.insert("a");
    let got = reply(ask(&mut s, Command::Start, b"b"));
    assert_eq!(got, told(Command::Start, Outcome::EpistemicConflict, "b"));
    assert!(s.orch.cascade_failed.contains("b"));
    assert!(s.orch.cascade_failed.contains("c"));
    assert!(s.try_spawn_ready_services(0).is_none());
}

#[test]
fn starts_of_recovering_and_failed_services() {
    let mut s = four();
    s.orch.recovering.insert("db");
    let got = reply(ask(&mut s, Command::Start, b"db"));
    assert_eq!(got, told(Command::Start, Outcome::EpistemicConflict, "db"));
    let mut s = four();
    s.orch.cascade_failed.insert("db");
    let got = reply(ask(&mut s, Command::Start, b"db"));
    assert_eq!(got, told(Command::Start, Outcome::EpistemicConflict, "db"));
}

#[test]
fn what_came_of_a_start() {
    let mut s = four();
    s.dfs_proven_dead.insert("db");
    let full = StartResult::Refused(StartCgroupError::AtCapacity { used: 3, max: 3 });
    assert_eq!(s.finish_start("db", &full), Outcome::CgroupCapacity);
    let bad = StartResult::Refused(StartCgroupError::Mkdir(failure(IoKind::Other)));
    assert_eq!(s.finish_start("db", &bad), Outcome::EpistemicConflict);
    assert_eq!(s.finish_start("db", &StartResult::SpawnFailed), Outcome::EpistemicConflict);
    assert!(s.dfs_proven_dead.contains("db"));
    let ok = StartResult::Spawned { fd: 9, pid: 77 };
    assert_eq!(s.finish_start("db", &ok), Outcome::Success);
    assert!(!s.dfs_proven_dead.contains("db"));
    assert!(s.orch.starting.contains("db"));
    assert_eq!(s.orch.root_pids.get("db"), Some(&77));
    assert_eq!(s.readiness.get(&9).unwrap(), "db");
    s.dfs_proven_dead.insert("x");
    assert_eq!(s.finish_start("x", &StartResult::NoSchema), Outcome::Success);
    assert!(!s.dfs_proven_dead.contains("x"));
}

#[test]
fn stops_and_their_status() {
    let mut s = four();
    ready(&mut s, "db", 5);
    assert!(matches!(ask(&mut s, Command::Stop, b"db"), Dispatch::Stop { .. }));
    assert_eq!(
        s.finish_stop("db", &Err(failure(IoKind::Other))),
        Outcome::EpistemicConflict
    );
    assert!(s.orch.running.contains("db"));
    assert_eq!(s.finish_stop("db", &Ok(StopOutcome::Dead)), Outcome::Success);
    assert!(!s.orch.running.contains("db"));
    assert!(s.orch.root_pids.get("db").is_none());
    assert_eq!(s.status_reply("db", probe(false, "")), ServiceStatus::Dead);
    assert_eq!(s.finish_stop("log", &Ok(StopOutcome::AlreadyGone)), Outcome::Success);
    assert_eq!(s.status_reply("log", probe(false, "")), ServiceStatus::Dead);
    assert_eq!(s.finish_stop("log", &Ok(StopOutcome::Tombstoned)), Outcome::Tombstoned);
    assert_eq!(s.status_reply("log", probe(false, "")), ServiceStatus::Tombstoned);
    assert_eq!(
        reply(ask(&mut s, Command::Stop, b"log")),
        told(Command::Stop, Outcome::Tombstoned, "log")
    );
}

#[test]
fn a_tombstone_goes_with_a_reset() {
    let mut s = four();
    let conflict = told(Command::Reset, Outcome::EpistemicConflict, "db");
    assert_eq!(reply(ask(&mut s, Command::Reset, b"db")), conflict);
    s.finish_stop("db", &Ok(StopOutcome::Tombstoned));
    assert_eq!(
        reply(ask(&mut s, Command::Start, b"db")),
        told(Command::Start, Outcome::Tombstoned, "db")
    );
    assert_eq!(s.spawn_service_for_orchestration("db"), Err(SpawnDenial::Tombstoned));
    match ask(&mut s, Command::Reset, b"db") {
        Dispatch::Reset { name, path } => {
            assert_eq!(name, "db");
            assert_eq!(path, "/cg/sysx/db");
        }
        _ => panic!("no reset"),
    }
    assert_eq!(
        s.finish_reset("db", &Err(failure(IoKind::Busy))),
        Outcome::EpistemicConflict
    );
    assert!(s.is_tombstoned("db"));
    assert_eq!(s.finish_reset("db", &Ok(())), Outcome::Success);
    assert!(!s.is_tombstoned("db"));
    assert_eq!(s.status_reply("db", probe(false, "")), ServiceStatus::Offline);
    assert!(matches!(ask(&mut s, Command::Start, b"db"), Dispatch::Start { .. }));
}

#[test]
fn a_reset_lifts_a_failure() {
    let mut s = four();
    propagate_cascade_failure("db", &s.dag, &mut s.orch);
    s.orch.circuit_origin.insert("db");
    s.tombstoned.insert("db");
    s.tombstoned.insert("api");
    assert!(matches!(ask(&mut s, Command::Reset, b"api"), Dispatch::Reset { .. }));
    assert_eq!(s.finish_reset("api", &Ok(())), Outcome::Success);
    assert!(!s.is_tombstoned("api"));
    assert!(s.orch.cascade_failed.contains("api"));
    let status = s.status_reply("api", probe(false, ""));
    assert_eq!(CODES.status_bytes(status), (0x05, 0x01));
    assert!(matches!(ask(&mut s, Command::Reset, b"db"), Dispatch::Reset { .. }));
    assert_eq!(s.finish_reset("db", &Err(failure(IoKind::Busy))), Outcome::EpistemicConflict);
    assert!(s.orch.cascade_failed.contains("db"));
    assert_eq!(s.finish_reset("db", &Ok(())), Outcome::Success);
    assert!(!s.orch.cascade_failed.contains("db"));
    assert!(!s.orch.circuit_origin.contains("db"));
    assert_eq!(s.status_reply("db", probe(false, "")), ServiceStatus::Offline);
    assert!(matches!(ask(&mut s, Command::Start, b"db"), Dispatch::Start { .. }));
    s.tombstoned.insert("api");
    assert_eq!(s.finish_reset("api", &Ok(())), Outcome::Success);
    assert!(!s.orch.cascade_failed.contains("api"));
    assert!(s.orch.cascade_failed.contains("web"));
}

#[test]
fn the_machine_goes_down_once_the_peer_was_told() {
    let off = TerminalBroadcastKind::Poweroff;
    assert_eq!(Supervisor::finish_broadcast(off, true), Some(off));
    assert_eq!(Supervisor::finish_broadcast(off, false), None);
}

#[test]
fn a_spawn_that_cannot_be_watched() {
    let mut s = four();
    s.dfs_proven_dead.insert("db");
    s.on_spawned_unwatched("db", 20);
    assert!(!s.dfs_proven_dead.contains("db"));
    assert_eq!(s.event_source(20, 3, None, 5), EventSource::Readiness);
    assert!(!s.orch.starting.contains("db"));
    assert!(s.orch.root_pids.get("db").is_none());
}

#[test]
fn status_off_the_cgroup_tree() {
    let mut s = four();
    assert!(matches!(ask(&mut s, Command::Status, b"db"), Dispatch::Status { .. }));
    assert_eq!(s.status_reply("db", probe(true, "populated 1\n")), ServiceStatus::Running);
    assert_eq!(s.status_reply("db", probe(true, "populated 0\n")), ServiceStatus::Sweeping);
    assert_eq!(s.status_reply("db", probe(true, "")), ServiceStatus::Offline);
    let lost = CgroupProbe { dir_exists: true, events: Err(failure(IoKind::Other)) };
    assert_eq!(s.status_reply("db", lost), ServiceStatus::Offline);
    assert_eq!(s.status_reply("db", probe(false, "populated 1\n")), ServiceStatus::Offline);
    s.dfs_proven_dead.insert("db");
    assert_eq!(s.status_reply("db", probe(false, "")), ServiceStatus::Dead);
    assert_eq!(s.status_reply("db", probe(true, "populated 1\n")), ServiceStatus::Running);
    assert_eq!(s.status_reply("db", probe(false, "")), ServiceStatus::Offline);
    assert_eq!(s.status_reply("a/b", probe(true, "populated 1\n")), ServiceStatus::Offline);
}

#[test]
fn status_by_what_is_known() {
    let mut s = four();
    s.orch.recovering.insert("db");
    assert_eq!(s.status_reply("db", probe(true, "populated 1\n")), ServiceStatus::Recovering);
    s.orch.cascade_failed.insert("db");
    assert_eq!(s.status_reply("db", probe(true, "populated 1\n")), ServiceStatus::FailedOrphaned);
    s.orch.circuit_origin.insert("db");
    assert_eq!(
        s.status_reply("db", probe(true, "populated 1\n")),
        ServiceStatus::FailedCircuitOpen
    );
    s.tombstoned.insert("db");
    assert_eq!(s.status_reply("db", probe(true, "populated 1\n")), ServiceStatus::Tombstoned);
}

#[test]
fn replies_on_the_wire() {
    let check = |b: Bytes, c: Command, body: [u8; 2]| {
        let (h, pl) = decode_frame(&b).unwrap();
        assert_eq!(h.command, c);
        assert_eq!(pl, &body);
    };
    let o = |o| CODES.outcome_frame(Command::Stop, o);
    check(o(Outcome::Success), Command::Stop, [0, 0]);
    check(o(Outcome::Unauthorized), Command::Stop, [2, 0]);
    check(o(Outcome::WireParse), Command::Stop, [0x11, 0]);
    check(o(Outcome::EpistemicConflict), Command::Stop, [0x12, 0]);
    check(o(Outcome::CgroupCapacity), Command::Stop, [0x12, 0x14]);
    check(o(Outcome::Tombstoned), Command::Stop, [0x13, 0]);
    check(
        CODES.reply_pre_dispatch_error(Outcome::Unauthorized),
        Command::Start,
        [2, 0],
    );
    let st = |st| CODES.status_frame(st);
    check(st(ServiceStatus::Offline), Command::Status, [0x21, 0]);
    check(st(ServiceStatus::Running), Command::Status, [2, 0]);
    check(st(ServiceStatus::Sweeping), Command::Status, [0x22, 0]);
    check(st(ServiceStatus::Dead), Command::Status, [0x23, 0]);
    check(st(ServiceStatus::Tombstoned), Command::Status, [0x24, 0]);
    check(st(ServiceStatus::Recovering), Command::Status, [0x25, 0]);
    check(st(ServiceStatus::FailedOrphaned), Command::Status, [5, 1]);
    check(st(ServiceStatus::FailedCircuitOpen), Command::Status, [5, 0x26]);
}

#[test]
fn two_oracles_in_a_line() {
    let mut s = four();
    assert_eq!(s.status_sysfs_matches_ipc(&CODES, "db", probe(true, "populated 1"), 2, 0), 1);
    assert_eq!(s.status_sysfs_matches_ipc(&CODES, "db", probe(true, "populated 0"), 2, 0), 0);
    assert_eq!(sysfs_populated_label("db", Ok("populated 1".to_string())), "1");
    assert_eq!(sysfs_populated_label("db", Ok("populated 0".to_string())), "0");
    assert_eq!(sysfs_populated_label("db", Err(failure(IoKind::NotFound))), "none");
    assert_eq!(sysfs_populated_label("db", Err(failure(IoKind::Other))), "err");
    assert_eq!(sysfs_populated_label("..", Ok("populated 1".to_string())), "na");
    assert_eq!(
        log_oracle_dual("status", "db", 2, 0xab, "1", Some(1)),
        "SYSX_ORACLE_DUAL op=status service=db ipc=S:0x02:R:0xab sysfs_populated=1 sysfs_match=1 (11)"
    );
    assert_eq!(
        log_oracle_dual("stop", "db", 0, 0, "none", None),
        "SYSX_ORACLE_DUAL op=stop service=db ipc=S:0x00:R:0x00 sysfs_populated=none sysfs_match=na (11)"
    );
}

#[test]
fn a_report_looks_a_status_up_again() {
    let mut s = four();
    let mut report = |command, b0| {
        let label = Ok("populated 1".to_string());
        s.oracle_report(&CODES, command, "db", label, probe(true, "populated 0"), b0, 0)
    };
    assert_eq!(
        report(Command::Status, 0x22),
        "SYSX_ORACLE_DUAL op=status service=db ipc=S:0x22:R:0x00 sysfs_populated=1 sysfs_match=1 (11)"
    );
    assert_eq!(
        report(Command::Status, 0x02),
        "SYSX_ORACLE_DUAL op=status service=db ipc=S:0x02:R:0x00 sysfs_populated=1 sysfs_match=0 (11)"
    );
    assert_eq!(
        report(Command::Reset, 0x22),
        "SYSX_ORACLE_DUAL op=reset service=db ipc=S:0x22:R:0x00 sysfs_populated=1 sysfs_match=na (11)"
    );
}

/// A running service that closed its pipe has no process on record, and is signalled.
#[test]
fn a_closed_pipe_does_not_hide_a_service() {
    let mut s = four();
    ready(&mut s, "db", 5);
    let live = vec![ServiceProbe {
        entry: DirEntry { name: Some("db".to_string()), is_dir: true },
        populated: Ok(Some(true)),
        procs: Ok("77\n31\n".to_string()),
    }];
    assert_eq!(sigterm_targets(&live, &s.orch), vec![105]);
    assert!(matches!(
        s.handle_readiness_fd(5, ReadinessRead::Eof, at(0)),
        ReadinessStep::Close { .. }
    ));
    assert!(s.orch.running.contains("db"));
    assert_eq!(sigterm_targets(&live, &s.orch), vec![31]);
}

#[test]
fn services_boot_in_order() {
    let mut s = four();
    let mut spawned: Vec<String> = Vec::new();
    let mut fd = 10;
    loop {
        let mut from = 0;
        let mut round: Vec<(String, i32)> = Vec::new();
        while let Some(i) = s.try_spawn_ready_services(from) {
            let name = s.dag.boot_order[i].clone();
            assert!(s.spawn_service_for_orchestration(&name).is_ok());
            s.on_spawned(&name, fd, fd);
            round.push((name, fd));
            fd += 1;
            from = i + 1;
        }
        if round.is_empty() {
            break;
        }
        for (name, fd) in round {
            let step = s.handle_readiness_fd(fd, ReadinessRead::Bytes(4), at(1));
            assert!(matches!(step, ReadinessStep::Ready { .. }));
            spawned.push(name);
        }
    }
    assert_eq!(spawned.len(), 4);
    let pos = |n: &str| spawned.iter().position(|x| x == n).unwrap();
    assert!(pos("db") < pos("api"));
    assert!(pos("api") < pos("web"));
}

#[test]
fn who_is_not_spawned() {
    let mut s = four();
    assert!(s.spawn_service_for_orchestration("db").is_ok());
    s.on_spawned("db", 3, 4);
    assert_eq!(s.spawn_service_for_orchestration("db"), Err(SpawnDenial::AlreadyActive));
    assert_ne!(s.try_spawn_ready_services(0), Some(place(&s, "db")));
    s.orch.cascade_failed.insert("log");
    assert_eq!(s.spawn_service_for_orchestration("log"), Err(SpawnDenial::CascadeFailed));
    assert!(s.try_spawn_ready_services(0).is_none());
    assert_eq!(SpawnDenial::Tombstoned.message(), "tombstoned");
    assert_eq!(SpawnDenial::CascadeFailed.message(), "cascade_failed");
    assert_eq!(SpawnDenial::AlreadyActive.message(), "already running or starting");
    let mut off = schema("off", &[]);
    off.enabled = false;
    let mut s = four();
    s.schemas.insert("db", off);
    s.orch.running.insert("log");
    assert!(s.try_spawn_ready_services(0).is_none());
}

#[test]
fn readiness_is_announced_once() {
    let mut s = four();
    assert!(matches!(
        s.handle_readiness_fd(5, ReadinessRead::Bytes(1), at(0)),
        ReadinessStep::Ignore
    ));
    s.on_spawned("db", 5, 50);
    for r in [ReadinessRead::WouldBlock, ReadinessRead::Failed] {
        assert!(matches!(s.handle_readiness_fd(5, r, at(0)), ReadinessStep::Ignore));
    }
    match s.handle_readiness_fd(5, ReadinessRead::Bytes(3), at(0)) {
        ReadinessStep::Ready { name } => assert_eq!(name, "db"),
        _ => panic!("not ready"),
    }
    assert!(s.orch.running.contains("db"));
    assert!(!s.orch.starting.contains("db"));
    assert!(matches!(
        s.handle_readiness_fd(5, ReadinessRead::Bytes(3), at(0)),
        ReadinessStep::Ignore
    ));
    assert!(matches!(
        s.handle_readiness_fd(5, ReadinessRead::Eof, at(0)),
        ReadinessStep::Close { .. }
    ));
    assert!(s.readiness.is_empty());
    assert!(s.orch.running.contains("db"));
    assert!(s.orch.root_pids.get("db").is_none());
}

#[test]
fn failing_before_ready_cascades() {
    let mut s = four();
    s.on_spawned("db", 5, 50);
    match s.handle_readiness_fd(5, ReadinessRead::Bytes(0), at(0)) {
        ReadinessStep::Fail { name } => assert_eq!(name, "db"),
        _ => panic!("not failed"),
    }
    for n in ["db", "api", "web"] {
        assert!(s.orch.cascade_failed.contains(n));
        assert_eq!(s.status_reply(n, probe(false, "")), ServiceStatus::FailedOrphaned);
    }
    assert!(!s.orch.cascade_failed.contains("log"));
    assert!(!s.orch.starting.contains("db"));
}

fn recovering(mode: RecoveryMode, max_restarts: u32) -> Supervisor {
    let mut db = schema("db", &[]);
    db.recovery =
        Some(RecoveryPolicy { policy: mode, backoff_ms: 500, max_restarts, window_sec: 120 });
    supervisor(vec![db, schema("api", &["db"])])
}

fn crash(s: &mut Supervisor, fd: i32, secs: u64) -> ReadinessStep {
    s.on_spawned("db", fd, fd);
    s.handle_readiness_fd(fd, ReadinessRead::Eof, at(secs))
}

#[test]
fn restarts_back_off_until_the_circuit_opens() {
    let mut s = recovering(RecoveryMode::OnFailure, 3);
    for (i, expected) in [500u64, 1000].iter().enumerate() {
        let fd = 10 + i as i32;
        match crash(&mut s, fd, i as u64) {
            ReadinessStep::Schedule { name, ms, dropped } => {
                assert_eq!(name, "db");
                assert_eq!(ms, *expected);
                assert_eq!(dropped, None);
            }
            _ => panic!("not scheduled"),
        }
        assert!(s.orch.recovering.contains("db"));
        assert_eq!(s.status_reply("db", probe(false, "")), ServiceStatus::Recovering);
        s.recovery_armed("db", 90 + fd);
        assert_eq!(s.recovery_timer_lookup(90 + fd), Some("db".to_string()));
        assert_eq!(s.handle_recovery_timer_fd(90 + fd).unwrap(), "db");
        assert!(!s.orch.recovering.contains("db"));
        assert!(s.spawn_service_for_orchestration("db").is_ok());
    }
    assert!(matches!(crash(&mut s, 20, 5), ReadinessStep::Fail { .. }));
    assert_eq!(s.status_reply("db", probe(false, "")), ServiceStatus::FailedCircuitOpen);
    assert_eq!(s.status_reply("api", probe(false, "")), ServiceStatus::FailedOrphaned);
    assert!(s.orch.restart_events.get("db").is_none());
}

#[test]
fn old_failures_leave_the_window() {
    let mut s = recovering(RecoveryMode::Always, 2);
    assert!(matches!(crash(&mut s, 10, 0), ReadinessStep::Schedule { ms: 500, .. }));
    assert!(matches!(crash(&mut s, 11, 120), ReadinessStep::Schedule { ms: 1000, .. }));
    assert_eq!(s.orch.restart_events.get("db").unwrap(), &vec![at(120)]);
    s.on_spawned("db", 12, 12);
    s.handle_readiness_fd(12, ReadinessRead::Bytes(1), at(121));
    assert!(s.orch.restart_events.get("db").is_none());
    s.orch.running.remove("db");
    assert!(matches!(crash(&mut s, 13, 122), ReadinessStep::Schedule { ms: 500, .. }));
}

#[test]
fn an_earlier_timer_is_dropped() {
    let mut s = recovering(RecoveryMode::OnFailure, 9);
    s.recovery_armed("db", 70);
    match crash(&mut s, 10, 0) {
        ReadinessStep::Schedule { dropped, .. } => assert_eq!(dropped, Some(70)),
        _ => panic!("not scheduled"),
    }
    assert!(s.recovery_timer_lookup(70).is_none());
    match s.handle_recovery_timer_fd(70) {
        Err(SysXError::Reactor(m)) => assert_eq!(m, "recovery timer fd not in pending map"),
        _ => panic!("fired"),
    }
}

#[test]
fn policies_without_recovery_fail_at_once() {
    let mut s = recovering(RecoveryMode::Manual, 9);
    assert!(matches!(crash(&mut s, 10, 0), ReadinessStep::Fail { .. }));
    let mut s = recovering(RecoveryMode::OnFailure, 0);
    assert!(matches!(crash(&mut s, 10, 0), ReadinessStep::Fail { .. }));
}

#[test]
fn test_stops_leave_no_tombstone() {
    let mut s = four();
    ready(&mut s, "db", 5);
    let chosen = Some("db".to_string());
    assert!(s.autotest_stop_wanted(&chosen, "db"));
    assert!(!s.autotest_stop_wanted(&chosen, "api"));
    assert!(!s.autotest_stop_wanted(&None, "db"));
    s.finish_autotest_stop("db", &Err(failure(IoKind::Other)));
    assert!(s.orch.running.contains("db"));
    s.finish_autotest_stop("db", &Ok(StopOutcome::Tombstoned));
    assert!(!s.orch.running.contains("db"));
    assert!(!s.is_tombstoned("db"));
    s.finish_autotest_stop("db", &Ok(StopOutcome::Dead));
    assert!(s.dfs_proven_dead.contains("db"));
    s.tombstoned.insert("db");
    assert!(!s.autotest_stop_wanted(&chosen, "db"));
}

#[test]
fn news_from_the_reaper() {
    assert_eq!(wake_names(" db \n\napi\r\n"), vec!["db", "api"]);
    assert_eq!(drain_reaper_wake_pipe(b" db \n\napi\r\n"), vec!["db", "api"]);
    assert!(drain_reaper_wake_pipe(b"\n \n").is_empty());
    assert_eq!(drain_reaper_wake_pipe("\u{e9}\n".as_bytes()), vec!["\u{e9}"]);
    assert_eq!(drain_reaper_wake_pipe(b"d\xffb\nlog"), vec!["d\u{fffd}b", "log"]);
    assert_eq!(Supervisor::reaper_target(&rt(), "db"), Some("/cg/sysx/db".to_string()));
    assert_eq!(Supervisor::reaper_target(&rt(), "Not a name"), None);
    let mut s = four();
    s.apply_reaper_dfs("db", &Err(failure(IoKind::Other)));
    assert!(!s.is_tombstoned("db"));
    s.apply_reaper_dfs("db", &Err(failure(IoKind::Busy)));
    assert!(s.is_tombstoned("db"));
    s.apply_reaper_dfs("db", &Ok(()));
    assert!(!s.is_tombstoned("db"));
    assert_eq!(s.status_reply("db", probe(false, "")), ServiceStatus::Dead);
}

#[test]
fn events_are_told_apart() {
    let mut s = four();
    s.on_spawned("db", 20, 1);
    s.recovery_armed("api", 21);
    let of = |fd| s.event_source(fd, 3, Some(4), 5);
    assert_eq!(of(3), EventSource::Listener);
    assert_eq!(of(4), EventSource::PowerSignal);
    assert_eq!(of(5), EventSource::Reaper);
    assert_eq!(of(20), EventSource::Readiness);
    assert_eq!(of(21), EventSource::RecoveryTimer);
    assert_eq!(of(99), EventSource::Client);
    assert_eq!(s.event_source(4, 3, None, 5), EventSource::Client);
    let core = SysxCoreBin { admin_gid: 1, epoll_timeout_ms: 2, max_cgroups: 3 };
    assert_eq!(core, core.clone());
}

#[test]
fn failures_spread_to_all_that_depend() {
    let s = four();
    let mut o = OrchestratorState::new();
    o.running.insert("web");
    o.starting.insert("api");
    o.running.insert("log");
    o.root_pids.insert("web", 8);
    o.recovering.insert("db");
    o.circuit_origin.insert("db");
    o.restart_events.insert("db", vec![at(1)]);
    o.recovery_generation.insert("db", 2);
    propagate_cascade_failure("db", &s.dag, &mut o);
    let mut failed = o.cascade_failed.names().clone();
    failed.sort();
    assert_eq!(failed, vec!["api", "db", "web"]);
    assert_eq!(o.running.names(), &vec!["log".to_string()]);
    assert_eq!(o.starting.len(), 0);
    assert_eq!(o.root_pids.len(), 0);
    assert_eq!(o.recovering.len(), 0);
    assert!(o.circuit_origin.contains("db"));
    assert!(o.restart_events.get("db").is_none());
    assert!(o.recovery_generation.get("db").is_none());
}

#[test]
fn a_leaf_fails_alone() {
    let s = four();
    let mut o = OrchestratorState::default();
    record_service_failed("web", &s.dag, &mut o);
    assert_eq!(o.cascade_failed.names(), &vec!["web".to_string()]);
    record_service_failed("stranger", &s.dag, &mut o);
    assert!(o.cascade_failed.contains("stranger"));
    assert_eq!(o.cascade_failed.len(), 2);
}
