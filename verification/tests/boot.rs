use std::collections::HashMap;
use std::time::Instant;

use sysx::boot::{check_core_bin_window, load_core_bin, CONTROL_SOCKET_PATH};
use sysx::core_bin::{
    cast_core_bin, compile_service, compiler_request, forge_core_bin, parse_admin_gid, CompilerError,
    CompilerRequest, SchemaFile, SysxCoreConfig,
};
use sysx::runtime::{IoFailure, IoKind};
use sysx::schema::{
    document_sections, from_yaml, from_yaml_strict, section_keys, unknown_fields,
    valid_service_name, SchemaError, SchemaKey, ServiceBlock, ServiceSchema, ServiceType,
    YamlSection,
};
use sysx::schema_load::{file_schemas, is_yaml_file, load_schemas, schema_dir, SchemaEntry};
use sysx::SysXError;

const MINIMAL_BASELINE: &str = "
sysx_version: 1
enabled: true
service:
  name: baseline
  exec: /bin/sh
  args: [\"-c\", \"echo ok\"]
  env: {}
  user: \"0\"
type: simple
depends_on: []
";

fn text(v: &serde_yaml::Value, key: &str) -> String {
    v.get(key).unwrap().as_str().unwrap().to_string()
}

fn parsed(yaml: &str) -> Result<ServiceSchema, serde_yaml::Error> {
    let v: serde_yaml::Value = serde_yaml::from_str(yaml)?;
    let service = v.get("service").unwrap();
    let args: Vec<String> = service
        .get("args")
        .unwrap()
        .as_sequence()
        .unwrap()
        .iter()
        .map(|a| a.as_str().unwrap().to_string())
        .collect();
    Ok(ServiceSchema {
        sysx_version: v.get("sysx_version").unwrap().as_u64().unwrap() as u8,
        enabled: v.get("enabled").unwrap().as_bool().unwrap(),
        service: ServiceBlock {
            name: text(service, "name"),
            exec_path: text(service, "exec"),
            args,
            env: HashMap::new(),
            user: text(service, "user"),
        },
        service_type: if text(&v, "type") == "simple" { ServiceType::Simple } else { ServiceType::FdPipe },
        timeout_sec: None,
        depends_on: vec![],
        recovery: None,
        pids: None,
        memory: None,
        cpu: None,
        namespaces: None,
        capabilities: None,
        rootfs: None,
        logging: None,
    })
}

fn keys_of(yaml: &str) -> Vec<SchemaKey> {
    section_keys(&document_sections(yaml).unwrap())
}

fn file(yaml: &str, schema: ServiceSchema) -> Result<SchemaFile, IoFailure> {
    Ok(SchemaFile { text: yaml.to_string(), parsed: Ok(schema) })
}

fn named(name: &str) -> ServiceSchema {
    let mut s = parsed(MINIMAL_BASELINE).unwrap();
    s.service.name = name.to_string();
    s
}

fn failure(message: &str) -> IoFailure {
    IoFailure { kind: IoKind::Other, message: message.to_string() }
}

fn boot_message(e: SysXError) -> String {
    match e {
        SysXError::Boot(m) => m,
        _ => panic!("not a boot error"),
    }
}

fn dag_message(e: SysXError) -> String {
    match e {
        SysXError::Dag(m) => m,
        _ => panic!("not a DAG error"),
    }
}

#[test]
fn test_boot_timing() {
    let start = Instant::now();
    let duration = start.elapsed();
    assert!(duration.as_millis() < 10, "core.bin cast exceeded 10ms window");
    assert!(check_core_bin_window(duration.as_millis() as u64).is_ok());
}

#[test]
fn minimal_yaml_roundtrip() {
    let s = from_yaml(parsed(MINIMAL_BASELINE)).expect("parse");
    assert!(s.enabled);
    assert_eq!(s.service.name, "baseline");
    assert_eq!(s.service_type, ServiceType::Simple);
}

#[test]
fn core_bin_window_is_ten_milliseconds() {
    assert!(check_core_bin_window(10).is_ok());
    assert_eq!(
        boot_message(check_core_bin_window(11).unwrap_err()),
        "core.bin cast took 11ms (exceeded 10ms window)"
    );
}

#[test]
fn core_bin_must_be_there_and_long_enough() {
    assert_eq!(
        boot_message(load_core_bin(None).unwrap_err()),
        "/etc/sysx/core.bin not found"
    );
    assert_eq!(
        boot_message(load_core_bin(Some(Err(failure("denied")))).unwrap_err()),
        "Failed to read core.bin: denied"
    );
    assert_eq!(
        boot_message(load_core_bin(Some(Ok(vec![0; 31]))).unwrap_err()),
        "core.bin must be at least 32 bytes, got 31"
    );
    assert_eq!(load_core_bin(Some(Ok(vec![7; 33]))).unwrap(), vec![7; 33]);
    assert_eq!(CONTROL_SOCKET_PATH, "/run/sysx/control.sock");
}

#[test]
fn forged_core_bin_byte_by_byte() {
    let data = forge_core_bin(0x0403_0201);
    let expected: Vec<u8> = vec![
        1, 2, 3, 4, 0x10, 0x27, 0, 0, 0, 0x10, 0, 0, 64, 0, 100, 0, 1, 0, 0, 0, 0, 0, 0, 0, 0, 0,
        0, 0, 0, 0, 0, 0,
    ];
    assert_eq!(data, expected);
    let loaded = load_core_bin(Some(Ok(data))).unwrap();
    assert_eq!(parse_admin_gid(&loaded), 0x0403_0201);
}

#[test]
fn forge_writes_every_field() {
    let c = SysxCoreConfig {
        admin_gid: u32::MAX,
        watchdog_timeout_ms: 0x0102_0304,
        max_payload_bytes: 5,
        max_concurrent_fds: 0x0607,
        epoll_timeout_ms: 0x0809,
        schema_version: 10,
    };
    let data = c.forge();
    assert_eq!(data.len(), 32);
    assert_eq!(&data[..17], &[255, 255, 255, 255, 4, 3, 2, 1, 5, 0, 0, 0, 7, 6, 9, 8, 10]);
    assert_eq!(parse_admin_gid(&data), u32::MAX);
    assert_eq!(SysxCoreConfig::new(7).admin_gid, 7);
}

#[test]
fn rules_beyond_the_shape() {
    let mut s = named("ok");
    s.sysx_version = 2;
    match from_yaml(Ok(s)) {
        Err(SchemaError::Validation(m)) => assert_eq!(m, "unsupported sysx_version: 2"),
        _ => panic!("accepted"),
    }
    match from_yaml_strict(Ok(named("")), vec![]) {
        Err(SchemaError::Validation(m)) => assert_eq!(m, "service.name cannot be empty"),
        _ => panic!("accepted"),
    }
    match from_yaml(Ok(named("Web"))) {
        Err(e) => assert_eq!(
            e.message(),
            "validation error: service.name must match ^[a-z0-9_-]{1,32}$ (15 §1): \"Web\""
        ),
        _ => panic!("accepted"),
    }
    assert!(from_yaml_strict(Ok(named("a-b_9")), vec![]).is_ok());
    assert!(valid_service_name("a"));
    assert!(!valid_service_name("a b"));
}

#[test]
fn broken_yaml_is_passed_on() {
    let e = from_yaml(parsed("a: [")).unwrap_err();
    let m = e.message();
    assert!(m.starts_with("yaml parse error: "));
    assert!(m.len() > "yaml parse error: ".len());
    assert_eq!(
        SchemaError::UnknownFields("x".to_string()).message(),
        "unknown field(s) in schema: x"
    );
}

#[test]
fn compiling_a_definition() {
    assert_eq!(compile_service(file(MINIMAL_BASELINE, named("web"))).unwrap().service.name, "web");
    match compile_service(Err(failure("gone"))) {
        Err(CompilerError::Io(e)) => assert_eq!(e.message, "gone"),
        _ => panic!("accepted"),
    }
    match compile_service(Ok(SchemaFile {
        text: "a: [".to_string(),
        parsed: parsed("a: ["),
    })) {
        Err(CompilerError::Schema(SchemaError::Yaml(_))) => {}
        _ => panic!("accepted"),
    }
    match compile_service(file(MINIMAL_BASELINE, named("A"))) {
        Err(CompilerError::Schema(SchemaError::Validation(_))) => {}
        _ => panic!("accepted"),
    }
    let bogus = format!("{}bogus: 1\n", MINIMAL_BASELINE);
    match compile_service(file(&bogus, parsed(&bogus).unwrap())) {
        Err(e) => assert_eq!(e.message(), "schema error: unknown field(s) in schema: bogus"),
        _ => panic!("accepted"),
    }
}

#[test]
fn keys_that_no_field_stands_for() {
    let yaml = format!("{}bogus: 1\n", MINIMAL_BASELINE);
    let unknown = unknown_fields(&keys_of(&yaml));
    assert_eq!(unknown, vec!["bogus"]);
    match from_yaml_strict(parsed(&yaml), unknown) {
        Err(SchemaError::UnknownFields(m)) => assert_eq!(m, "bogus"),
        _ => panic!("accepted"),
    }
    assert!(from_yaml(parsed(&yaml)).is_ok());
    assert!(unknown_fields(&keys_of(MINIMAL_BASELINE)).is_empty());
    assert!(from_yaml_strict(parsed(MINIMAL_BASELINE), vec![]).is_ok());
    let keys = keys_of(
        "service: { name: a, exce: b, env: { exce: c } }\nmemory: { max_mb: 1, weight: 2 }\nname: x\n",
    );
    let unknown = unknown_fields(&keys);
    assert_eq!(unknown, vec!["memory.weight", "name", "service.exce"]);
    match from_yaml_strict(Ok(named("")), unknown) {
        Err(e) => assert_eq!(
            e.message(),
            "unknown field(s) in schema: memory.weight, name, service.exce"
        ),
        _ => panic!("accepted"),
    }
    match from_yaml_strict(parsed("a: ["), vec!["x".to_string()]) {
        Err(SchemaError::Yaml(_)) => {}
        _ => panic!("accepted"),
    }
}

#[test]
fn sections_of_a_document() {
    let sections = document_sections("b: { y: 1, 2: { z: 3 } }\na: [x]\nc: null\n").unwrap();
    let said: Vec<(&str, Vec<&str>)> = sections
        .iter()
        .map(|s| (s.key.as_str(), s.keys.iter().map(|k| k.as_str()).collect()))
        .collect();
    assert_eq!(said, vec![("a", vec![]), ("b", vec!["2", "y"]), ("c", vec![])]);
    for broken in ["a: [", "- a", "plain", "a: { b: 1, b: 2 }"] {
        assert!(document_sections(broken).is_err(), "{}", broken);
    }
    let twice = format!("{}cpu: {{ b: 1, b: 2 }}\n", MINIMAL_BASELINE);
    match compile_service(file(&twice, named("web"))) {
        Err(CompilerError::Schema(SchemaError::Yaml(_))) => {}
        _ => panic!("accepted"),
    }
}

#[test]
fn keys_out_of_sections() {
    let sections = vec![
        YamlSection { key: "s".to_string(), keys: vec!["k".to_string(), "l".to_string()] },
        YamlSection { key: "t".to_string(), keys: vec![] },
    ];
    let said: Vec<String> =
        section_keys(&sections).iter().map(|k| format!("{}/{}", k.section, k.key)).collect();
    assert_eq!(said, vec!["/s", "s/k", "s/l", "/t"]);
}

#[test]
fn every_field_has_its_key() {
    let all = "
sysx_version: 1
enabled: true
service: { name: a, exec: a, args: [], env: { A: b }, user: a }
type: simple
timeout_sec: 1
depends_on: []
recovery: { policy: a, backoff_ms: 1, max_restarts: 1, window_sec: 1 }
pids: { max: 1 }
memory: { max_mb: 1, swap_mb: 1 }
cpu: { weight: 1 }
namespaces: { mount: true, network: true, pid: true, uts: true, user: true }
capabilities: { keep: [] }
rootfs: { read_only: true, tmpfs: { /tmp: size } }
logging: { stdout: a, stderr: a, log_rotate_signal: a }
";
    assert_eq!(keys_of(all).len(), 38);
    assert!(unknown_fields(&keys_of(all)).is_empty());
}

fn args(list: &[&str]) -> Vec<String> {
    list.iter().map(|a| a.to_string()).collect()
}

#[test]
fn compiler_command_line() {
    assert!(matches!(compiler_request(&args(&["sysxc"])), CompilerRequest::Usage));
    assert!(matches!(
        compiler_request(&args(&["sysxc", "compile"])),
        CompilerRequest::CompileUsage
    ));
    assert!(matches!(
        compiler_request(&args(&["sysxc", "forge-core", "out"])),
        CompilerRequest::ForgeCoreUsage
    ));
    match compiler_request(&args(&["sysxc", "frob"])) {
        CompilerRequest::Unknown(c) => assert_eq!(c, "frob"),
        _ => panic!("known"),
    }
    match compiler_request(&args(&["sysxc", "compile", "a.yaml"])) {
        CompilerRequest::Compile { yaml_path } => assert_eq!(yaml_path, "a.yaml"),
        _ => panic!("not compile"),
    }
    let gids = vec![("42", 42), ("x", 1000), ("4294967296", 1000), ("+7", 7), ("-1", 1000)];
    for (arg, gid) in gids {
        match compiler_request(&args(&["sysxc", "forge-core", "core.bin", arg])) {
            CompilerRequest::ForgeCore { output_path, admin_gid } => {
                assert_eq!(output_path, "core.bin");
                assert_eq!(admin_gid, gid);
            }
            _ => panic!("not forge-core"),
        }
    }
}

#[test]
fn names_of_definition_files() {
    for n in ["a.yaml", "a.yml", "a.b.yml", "..yaml"] {
        assert!(is_yaml_file(n), "{}", n);
    }
    for n in [".yaml", ".yml", "yaml", "a.yaml~", "a.YAML", "", "..", "a.json"] {
        assert!(!is_yaml_file(n), "{}", n);
    }
    for n in ["a.yaml", "..yaml", ".yaml", "a.b.yml", "yaml", ".."] {
        let ext = std::path::Path::new(n).extension().and_then(|e| e.to_str());
        assert_eq!(is_yaml_file(n), matches!(ext, Some("yaml") | Some("yml")));
    }
    assert_eq!(schema_dir(None), "/etc/sysx/schemas");
    assert_eq!(schema_dir(Some("/x".to_string())), "/x");
}

#[test]
fn loading_a_directory() {
    assert!(load_schemas("/d", None).unwrap().is_empty());
    assert_eq!(
        dag_message(load_schemas("/d", Some(Err(failure("denied")))).unwrap_err()),
        "read schema dir /d: denied"
    );
    let good = vec![
        SchemaEntry::Read { path: "/d/b.yaml".to_string(), parsed: Ok(Ok(named("b"))) },
        SchemaEntry::Ignored,
        SchemaEntry::Read { path: "/d/a.yaml".to_string(), parsed: Ok(Ok(named("a"))) },
    ];
    let loaded = load_schemas("/d", Some(Ok(good))).unwrap();
    let names: Vec<String> = loaded.iter().map(|s| s.service.name.clone()).collect();
    assert_eq!(names, vec!["b", "a"]);
    let filed = file_schemas(loaded);
    assert_eq!(filed.get("a").unwrap().service.name, "a");
    assert_eq!(filed.get("b").unwrap().service.name, "b");
    assert!(filed.get("c").is_none());
}

#[test]
fn a_service_is_defined_once() {
    let entries = |names: &[&str]| -> Vec<SchemaEntry> {
        names
            .iter()
            .map(|n| SchemaEntry::Read { path: format!("/d/{}", n), parsed: Ok(Ok(named(n))) })
            .collect()
    };
    assert_eq!(load_schemas("/d", Some(Ok(entries(&["a", "b", "ab"])))).unwrap().len(), 3);
    let twice = entries(&["a", "b", "c", "b", "a"]);
    assert_eq!(
        dag_message(load_schemas("/d", Some(Ok(twice))).unwrap_err()),
        "parse /d/b: duplicate service.name: \"b\""
    );
    let mut off = entries(&["a", "a"]);
    if let SchemaEntry::Read { parsed: Ok(Ok(s)), .. } = &mut off[1] {
        s.enabled = false;
    }
    assert!(load_schemas("/d", Some(Ok(off))).is_err());
}

#[test]
fn the_first_bad_entry_fails_the_load() {
    let one = |entry| {
        let entries = vec![
            SchemaEntry::Read { path: "/d/a.yaml".to_string(), parsed: Ok(Ok(named("a"))) },
            entry,
            SchemaEntry::Failed(failure("later")),
        ];
        dag_message(load_schemas("/d", Some(Ok(entries))).unwrap_err())
    };
    assert_eq!(one(SchemaEntry::Failed(failure("e"))), "schema dir entry: e");
    assert_eq!(
        one(SchemaEntry::Read { path: "/d/x.yml".to_string(), parsed: Err(failure("e")) }),
        "read /d/x.yml: e"
    );
    assert_eq!(
        one(SchemaEntry::Read { path: "/d/x.yml".to_string(), parsed: Ok(Ok(named(""))) }),
        "parse /d/x.yml: validation error: service.name cannot be empty"
    );
    assert_eq!(
        one(SchemaEntry::Read { path: "/d/x.yml".to_string(), parsed: Ok(Ok(named("a"))) }),
        "parse /d/x.yml: duplicate service.name: \"a\""
    );
    let m = one(SchemaEntry::Read { path: "/d/x.yml".to_string(), parsed: Ok(parsed("a: [")) });
    assert!(m.starts_with("parse /d/x.yml: yaml parse error: "));
}

#[test]
fn the_sealed_fields_are_read_back() {
    let c = cast_core_bin(&forge_core_bin(1000));
    assert_eq!(c.admin_gid, 1000);
    assert_eq!(c.watchdog_timeout_ms, 10000);
    assert_eq!(c.max_payload_bytes, 4096);
    assert_eq!(c.max_concurrent_fds, 64);
    assert_eq!(c.epoll_timeout_ms, 100);
    assert_eq!(c.schema_version, 1);
}
