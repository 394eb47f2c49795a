use sysx::runtime::{
    join_path, parse_cgroup_events_populated, parse_memory_events_oom_kill,
    read_sysfs_cgroup_populated, read_sysfs_memory_oom_kill_nonzero, validate_ipc_service_name,
    validate_service_id, IoFailure, IoKind, RuntimeContext, RuntimeError, VERSION,
};

fn failure(kind: IoKind) -> IoFailure {
    IoFailure { kind, message: "no".to_string() }
}

#[test]
fn validate_service_id_rejects_bad() {
    assert!(validate_service_id("").is_err());
    assert!(validate_service_id("a/b").is_err());
    assert!(validate_service_id("..").is_err());
    assert!(validate_service_id("ok").is_ok());
}

#[test]
fn service_cgroup_path_joins() {
    let ctx = RuntimeContext {
        cgroup_root: "/sys/fs/cgroup".to_string(),
        service_slice: "sysx".to_string(),
    };
    let p = ctx.service_cgroup_path("web").unwrap();
    assert!(p.ends_with("sysx/web"));
}

#[test]
fn parse_cgroup_events_populated_kernel_shape() {
    let s = "populated 1\nfrozen 0\n";
    assert_eq!(parse_cgroup_events_populated(s), Some(true));
    let s2 = "frozen 0\npopulated 0\n";
    assert_eq!(parse_cgroup_events_populated(s2), Some(false));
}

#[test]
fn parse_memory_events_oom_kill_shape() {
    let s = "low 0\nhigh 0\nmax 0\noom 1\noom_kill 1\n";
    assert_eq!(parse_memory_events_oom_kill(s), Some(true));
    assert_eq!(parse_memory_events_oom_kill("oom_kill 0\n"), Some(false));
}

#[test]
fn service_ids_at_the_edge() {
    assert!(validate_service_id("a.b").is_ok());
    assert!(validate_service_id(".").is_ok());
    assert!(validate_service_id("a..b").is_err());
    assert!(validate_service_id("/").is_err());
    assert!(validate_service_id("Größe").is_ok());
}

#[test]
fn service_names_are_narrower_than_ids() {
    assert!(validate_ipc_service_name("edge_logger-2").is_ok());
    assert!(validate_ipc_service_name("Web").is_err());
    assert!(validate_ipc_service_name("a.b").is_err());
    assert!(validate_ipc_service_name("").is_err());
    assert!(validate_ipc_service_name(&"a".repeat(32)).is_ok());
    assert!(validate_ipc_service_name(&"a".repeat(33)).is_err());
}

#[test]
fn invalid_id_in_words() {
    match validate_service_id("a/\"b") {
        Err(e) => {
            assert_eq!(
                e.message(),
                "invalid service id \"a/\\\"b\": empty, contains '/', or '..'"
            );
            let RuntimeError::InvalidServiceId(id) = e;
            assert_eq!(id, "a/\"b");
        }
        Ok(()) => panic!("accepted"),
    }
}

#[test]
fn paths_join_as_paths_do() {
    assert_eq!(join_path("/a", "b"), "/a/b");
    assert_eq!(join_path("/a/", "b"), "/a/b");
    assert_eq!(join_path("/a", "/b"), "/b");
    assert_eq!(join_path("", "b"), "b");
    assert_eq!(join_path("a", ""), "a/");
    let pairs = vec![("/a", "b"), ("/a/", "b"), ("/a", "/b"), ("", "b"), ("a", ""), ("", "")];
    for (a, b) in pairs {
        let std = std::path::PathBuf::from(a).join(b);
        assert_eq!(join_path(a, b), std.to_str().unwrap());
    }
}

#[test]
fn defaults_and_environment() {
    let d = RuntimeContext::default();
    assert_eq!(d.service_cgroup_path("web").unwrap(), "/sys/fs/cgroup/sysx/web");
    assert_eq!(d.cgroup_events_path("web").unwrap(), "/sys/fs/cgroup/sysx/web/cgroup.events");
    assert_eq!(d.memory_events_path("web").unwrap(), "/sys/fs/cgroup/sysx/web/memory.events");
    assert!(d.cgroup_events_path("a/b").is_err());
    assert!(d.memory_events_path("").is_err());
    let e = RuntimeContext::from_env(Some("/cg".to_string()), None);
    assert_eq!(e.service_cgroup_path("x").unwrap(), "/cg/sysx/x");
    let f = RuntimeContext::from_env(None, Some("band".to_string()));
    assert_eq!(f.service_cgroup_path("x").unwrap(), "/sys/fs/cgroup/band/x");
    assert_eq!(VERSION, "0.1.0");
}

#[test]
fn populated_at_the_edge() {
    assert_eq!(parse_cgroup_events_populated(""), None);
    assert_eq!(parse_cgroup_events_populated("populated"), None);
    assert_eq!(parse_cgroup_events_populated("populated 2\npopulated 1\n"), None);
    assert_eq!(parse_cgroup_events_populated("  populated\t1 x\r\n"), Some(true));
    assert_eq!(parse_cgroup_events_populated("unpopulated 1\n"), None);
    assert_eq!(parse_cgroup_events_populated("populated 1"), Some(true));
}

#[test]
fn oom_kill_at_the_edge() {
    assert_eq!(parse_memory_events_oom_kill("oom_kill"), None);
    assert_eq!(parse_memory_events_oom_kill("oom_kill x"), None);
    assert_eq!(parse_memory_events_oom_kill("oom_kill +5"), Some(true));
    assert_eq!(parse_memory_events_oom_kill("oom_kill -1"), None);
    assert_eq!(parse_memory_events_oom_kill("oom_kill 18446744073709551615"), Some(true));
    assert_eq!(parse_memory_events_oom_kill("oom_kill 18446744073709551616"), None);
    assert_eq!(parse_memory_events_oom_kill("oom 1"), None);
}

#[test]
fn reads_of_missing_files_say_nothing() {
    assert_eq!(
        read_sysfs_cgroup_populated(Err(failure(IoKind::NotFound))).unwrap(),
        None
    );
    assert_eq!(
        read_sysfs_cgroup_populated(Ok("populated 0\n".to_string())).unwrap(),
        Some(false)
    );
    let e = read_sysfs_cgroup_populated(Err(failure(IoKind::Other))).unwrap_err();
    assert_eq!(e.kind, IoKind::Other);
    assert!(!read_sysfs_memory_oom_kill_nonzero(Err(failure(IoKind::NotFound))).unwrap());
    assert!(read_sysfs_memory_oom_kill_nonzero(Ok("oom_kill 3\n".to_string())).unwrap());
    assert!(!read_sysfs_memory_oom_kill_nonzero(Ok("nothing".to_string())).unwrap());
    assert!(read_sysfs_memory_oom_kill_nonzero(Err(failure(IoKind::Busy))).is_err());
}
