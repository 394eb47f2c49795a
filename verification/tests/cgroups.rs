use std::collections::HashMap;

use sysx::cgroup_ops::{
    count_supervised_service_dirs, ensure_start_cgroup, finish_start_cgroup, DirEntry, StartCgroup,
    StartCgroupError,
};
use sysx::orchestration::OrchestratorState;
use sysx::reaper::{reaper_version, Reaper};
use sysx::runtime::{IoFailure, IoKind, RuntimeContext};
use sysx::schema::{
    Capabilities, CpuLimit, Logging, MemoryLimit, Namespaces, PidsLimit, RootFs, ServiceBlock,
    ServiceSchema, ServiceType,
};
use sysx::service_spawn::{apply_cgroup_limits, parse_uid, path_is_plain, spawn_simple_service};
use sysx::terminal_broadcast::{
    read_cgroup_pids, root_pid, run_terminal_broadcast, should_try_reboot, sigpwr_broadcast,
    sigterm_targets, sysx_slice_root, BroadcastStep, ServiceProbe, TerminalBroadcastKind,
};

fn rt(root: &str) -> RuntimeContext {
    RuntimeContext { cgroup_root: root.to_string(), service_slice: "sysx".to_string() }
}

fn failure(kind: IoKind) -> IoFailure {
    IoFailure { kind, message: "no".to_string() }
}

fn dir(name: &str) -> DirEntry {
    DirEntry { name: Some(name.to_string()), is_dir: true }
}

fn schema(name: &str) -> ServiceSchema {
    ServiceSchema {
        sysx_version: 1,
        enabled: true,
        service: ServiceBlock {
            name: name.to_string(),
            exec_path: "/opt/jobs/runner".to_string(),
            args: vec!["-v".to_string()],
            env: HashMap::new(),
            user: "1000".to_string(),
        },
        service_type: ServiceType::Simple,
        timeout_sec: None,
        depends_on: vec![],
        recovery: None,
        pids: None,
        memory: None,
        cpu: None,
        namespaces: None,
        capabilities: None,
        rootfs: None,
        logging: None,
    }
}

#[test]
fn count_only_valid_service_dirs() {
    let entries = vec![
        dir("svc_a"),
        dir("svc_b"),
        dir("a..b"),
        DirEntry { name: Some("cgroup.procs".to_string()), is_dir: false },
        DirEntry { name: None, is_dir: true },
    ];
    assert_eq!(count_supervised_service_dirs(Some(Ok(entries))).unwrap(), 2);
    assert_eq!(count_supervised_service_dirs(None).unwrap(), 0);
    assert!(count_supervised_service_dirs(Some(Err(failure(IoKind::Other)))).is_err());
}

#[test]
fn start_respects_max() {
    let ctx = rt("/tmp/cg");
    assert!(matches!(
        ensure_start_cgroup(&ctx, "b", 1, false, Some(Ok(vec![dir("a")]))),
        StartCgroup::Refused(StartCgroupError::AtCapacity { used: 1, max: 1 })
    ));
    assert!(matches!(
        ensure_start_cgroup(&ctx, "a", 1, true, Some(Ok(vec![dir("a")]))),
        StartCgroup::Present
    ));
}

#[test]
fn a_free_slot_is_made() {
    match ensure_start_cgroup(&rt("/tmp/cg"), "b", 2, false, Some(Ok(vec![dir("a")]))) {
        StartCgroup::Create { path } => assert_eq!(path, "/tmp/cg/sysx/b"),
        _ => panic!("no slot"),
    }
    assert!(finish_start_cgroup(Ok(())).is_ok());
    assert!(finish_start_cgroup(Err(failure(IoKind::AlreadyExists))).is_ok());
    assert!(matches!(
        finish_start_cgroup(Err(failure(IoKind::NotFound))),
        Err(StartCgroupError::Mkdir(_))
    ));
}

#[test]
fn slots_for_nobody() {
    match ensure_start_cgroup(&rt("/tmp/cg"), "a/b", 9, false, None) {
        StartCgroup::Refused(StartCgroupError::Mkdir(e)) => {
            assert_eq!(e.kind, IoKind::InvalidInput);
            assert_eq!(e.message, "service id");
        }
        _ => panic!("slot"),
    }
    match ensure_start_cgroup(&rt("/cg"), "a", 9, false, Some(Err(failure(IoKind::Other)))) {
        StartCgroup::Refused(StartCgroupError::Mkdir(e)) => assert_eq!(e.kind, IoKind::Other),
        _ => panic!("slot"),
    }
    assert!(matches!(
        ensure_start_cgroup(&rt("/cg"), "a", 0, false, None),
        StartCgroup::Refused(StartCgroupError::AtCapacity { used: 0, max: 0 })
    ));
}

#[test]
fn read_cgroup_pids_parses_lines() {
    let p = read_cgroup_pids(&Ok("12\n34\n".to_string()));
    assert_eq!(p, vec![12, 34]);
}

#[test]
fn pids_at_the_edge() {
    let p = read_cgroup_pids(&Ok(" 7 \r\nx\n\n-3\n2147483648\n+1".to_string()));
    assert_eq!(p, vec![7, -3, 1]);
    assert!(read_cgroup_pids(&Err(failure(IoKind::NotFound))).is_empty());
    assert!(read_cgroup_pids(&Err(failure(IoKind::Other))).is_empty());
    assert_eq!(root_pid(&vec![30, 12, 44]), Some(12));
    assert_eq!(root_pid(&vec![7]), Some(7));
    assert_eq!(root_pid(&vec![]), None);
}

#[test]
fn only_the_first_process_restarts_the_machine() {
    assert!(should_try_reboot(false, 1));
    assert!(!should_try_reboot(true, 1));
    assert!(!should_try_reboot(false, 2));
    assert_eq!(sigpwr_broadcast(0), None);
    assert_eq!(sigpwr_broadcast(2), Some(TerminalBroadcastKind::Poweroff));
}

#[test]
fn live_services_get_the_signal() {
    let probe = |name: &str, populated, procs: &str| ServiceProbe {
        entry: dir(name),
        populated,
        procs: Ok(procs.to_string()),
    };
    let mut file = probe("g", Ok(Some(true)), "1\n");
    file.entry.is_dir = false;
    let mut unread = probe("h", Ok(Some(true)), "");
    unread.procs = Err(failure(IoKind::Other));
    let probes = vec![
        probe("a", Ok(Some(true)), "9\n44\n"),
        probe("b", Ok(Some(false)), "1\n"),
        probe("c", Ok(None), "1\n"),
        probe("d", Err(failure(IoKind::Other)), "1\n"),
        probe("e", Ok(Some(true)), ""),
        probe("..", Ok(Some(true)), "1\n"),
        probe("f", Ok(Some(true)), "30\n12\n"),
        file,
        unread,
    ];
    let mut orch = OrchestratorState::new();
    assert_eq!(sigterm_targets(&probes, &orch), vec![9, 12]);
    for (name, pid) in [("a", 44), ("b", 1), ("c", 1), ("d", 1), ("..", 1), ("g", 1)] {
        orch.root_pids.insert(name, pid);
    }
    assert_eq!(sigterm_targets(&probes, &orch), vec![44, 12]);
    orch.root_pids.insert("e", 5);
    orch.root_pids.insert("h", 6);
    assert_eq!(sigterm_targets(&probes, &orch), vec![44, 5, 12, 6]);
}

#[test]
fn a_failed_write_leaves_out_the_writes_behind_it() {
    let steps =
        run_terminal_broadcast(&rt("/cg"), TerminalBroadcastKind::Reboot, &vec![4], true);
    let after = |failed| steps.iter().filter(|s| s.is_performed(failed)).count();
    assert_eq!(after(false), 7);
    assert_eq!(after(true), 4);
    for step in &steps {
        assert_eq!(step.is_performed(true), !matches!(step, BroadcastStep::Write { .. }));
    }
}

#[test]
fn the_way_down_in_order() {
    let ctx = rt("/cg");
    assert_eq!(sysx_slice_root(&ctx), "/cg/sysx");
    let steps = run_terminal_broadcast(&ctx, TerminalBroadcastKind::Reboot, &vec![4, 5], true);
    let said: Vec<String> = steps
        .iter()
        .map(|s| match s {
            BroadcastStep::Sigterm { pid } => format!("term {}", pid),
            BroadcastStep::Grace { ms } => format!("grace {}", ms),
            BroadcastStep::Write { path, contents } => format!("{}={}", path, contents),
            BroadcastStep::Sync => "sync".to_string(),
            BroadcastStep::Restart { kind } => format!("{:?}", kind),
        })
        .collect();
    assert_eq!(
        said,
        vec![
            "term 4",
            "term 5",
            "grace 5000",
            "/cg/sysx/cgroup.freeze=1",
            "/cg/sysx/cgroup.kill=1",
            "/cg/sysx/cgroup.freeze=0",
            "sync",
            "Reboot",
        ]
    );
    let steps = run_terminal_broadcast(&ctx, TerminalBroadcastKind::Poweroff, &vec![], false);
    assert_eq!(steps.len(), 5);
    assert!(matches!(steps[4], BroadcastStep::Sync));
}

#[test]
fn limits_as_declared() {
    let mut s = schema("worker");
    s.cpu = Some(CpuLimit { weight: 200 });
    s.memory = Some(MemoryLimit { max_mb: 512, swap_mb: 0 });
    s.pids = Some(PidsLimit { max: 256 });
    let writes = apply_cgroup_limits(&rt("/cg"), &s).unwrap();
    let said: Vec<(&str, &str)> =
        writes.iter().map(|w| (w.path.as_str(), w.contents.as_str())).collect();
    assert_eq!(
        said,
        vec![
            ("/cg/sysx/worker/pids.max", "256\n"),
            ("/cg/sysx/worker/memory.max", "536870912\n"),
            ("/cg/sysx/worker/memory.swap.max", "0\n"),
            ("/cg/sysx/worker/cpu.weight", "200\n"),
        ]
    );
    assert!(apply_cgroup_limits(&rt("/cg"), &schema("a")).unwrap().is_empty());
    let e = apply_cgroup_limits(&rt("/cg"), &schema("a/b")).unwrap_err();
    assert_eq!(e.kind, IoKind::InvalidInput);
    assert_eq!(e.message, "invalid service id \"a/b\": empty, contains '/', or '..'");
}

#[test]
fn limits_do_not_overflow() {
    let mut s = schema("big");
    s.memory = Some(MemoryLimit { max_mb: u32::MAX, swap_mb: 1 });
    let writes = apply_cgroup_limits(&rt("/cg"), &s).unwrap();
    assert_eq!(writes[0].contents, "4503599626321920\n");
    assert_eq!(writes[1].contents, "1048576\n");
}

#[test]
fn a_spawn_is_laid_out() {
    let mut s = schema("worker");
    s.service.env.insert("PORT".to_string(), "80".to_string());
    s.service.env.insert("EMPTY".to_string(), String::new());
    let plan = spawn_simple_service(&rt("/cg"), &s, true).unwrap();
    assert_eq!(plan.env, s.service.env);
    assert_eq!(plan.uid, 1000);
    assert_eq!(plan.procs_path, "/cg/sysx/worker/cgroup.procs");
    assert_eq!(plan.exec_path, "/opt/jobs/runner");
    assert_eq!(plan.args, vec!["-v"]);
    assert_eq!(plan.stdout_path, "/dev/null");
    assert_eq!(plan.stderr_path, "/dev/null");
    s.logging = Some(Logging {
        stdout: "/o".to_string(),
        stderr: "/e".to_string(),
        log_rotate_signal: None,
    });
    s.namespaces =
        Some(Namespaces { mount: true, network: false, pid: true, uts: false, user: true });
    s.capabilities = Some(Capabilities { keep: vec!["CAP_CHOWN".to_string(), "7".to_string()] });
    let tmpfs = HashMap::from([("/tmp".to_string(), "size=64M".to_string())]);
    s.rootfs = Some(RootFs { read_only: true, tmpfs: Some(tmpfs.clone()) });
    assert!(plan.namespaces.is_none() && plan.capabilities.is_none() && plan.rootfs.is_none());
    let plan = spawn_simple_service(&rt("/cg"), &s, true).unwrap();
    let n = plan.namespaces.unwrap();
    assert_eq!((n.mount, n.network, n.pid, n.uts, n.user), (true, false, true, false, true));
    assert_eq!(plan.capabilities.unwrap().keep, vec!["CAP_CHOWN", "7"]);
    let f = plan.rootfs.unwrap();
    assert!(f.read_only);
    assert_eq!(f.tmpfs.unwrap(), tmpfs);
    assert_eq!(plan.stdout_path, "/o");
    assert_eq!(plan.stderr_path, "/e");
}

#[test]
fn users_are_numbers() {
    let uids = vec![
        ("0", Some(0)),
        ("1000", Some(1000)),
        ("4294967295", Some(u32::MAX)),
        ("4294967296", None),
        ("root", None),
        ("", None),
        ("-1", None),
        ("10 ", None),
    ];
    for (user, uid) in uids {
        assert_eq!(parse_uid(user), uid, "{}", user);
        let mut s = schema("worker");
        s.service.user = user.to_string();
        match spawn_simple_service(&rt("/cg"), &s, true) {
            Ok(plan) => assert_eq!(Some(plan.uid), uid),
            Err(e) => {
                assert_eq!(uid, None);
                assert_eq!(e.kind, IoKind::InvalidInput);
                assert_eq!(e.message, format!("user is not a numeric uid: {:?}", user));
            }
        }
    }
}

#[test]
fn spawns_that_are_refused() {
    let mut s = schema("worker");
    s.service.user = "nobody".to_string();
    let e = spawn_simple_service(&rt("/cg"), &s, false).unwrap_err();
    assert_eq!((e.kind, e.message.as_str()), (IoKind::NotFound, "exec missing: /opt/jobs/runner"));
    let e = spawn_simple_service(&rt("/c\0g"), &s, true).unwrap_err();
    assert_eq!((e.kind, e.message.as_str()), (IoKind::InvalidInput, "path contains NUL"));
    let e = spawn_simple_service(&rt("/cg"), &schema(""), true).unwrap_err();
    assert_eq!(e.kind, IoKind::InvalidInput);
    s.logging = Some(Logging {
        stdout: "/o".to_string(),
        stderr: "/e\0".to_string(),
        log_rotate_signal: None,
    });
    let e = spawn_simple_service(&rt("/cg"), &s, true).unwrap_err();
    assert_eq!((e.kind, e.message.as_str()), (IoKind::InvalidInput, "path contains NUL"));
    s.enabled = false;
    let e = spawn_simple_service(&rt("/cg"), &s, true).unwrap_err();
    assert_eq!((e.kind, e.message.as_str()), (IoKind::InvalidInput, "spawn skipped: disabled"));
    assert!(path_is_plain("/a"));
    assert!(!path_is_plain("/\0"));
}

#[test]
fn the_reaper_hooks_do_nothing() {
    let mut r = Reaper::new();
    assert!(r.init().is_ok());
    assert!(r.register_cgroup("/cg/x".to_string(), "x".to_string()).is_ok());
    let ready = r.wait_for_sweep_ready(5000).unwrap();
    assert!(ready.is_empty());
    assert!(r.perform_sweep(&ready).is_ok());
    assert_eq!(reaper_version(), "0.1.0");
}
