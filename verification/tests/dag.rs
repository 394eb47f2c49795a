use std::collections::HashMap;

use sysx::dag::{
    build_dependency_graph, build_dependents, forge_boot_order, kahn_sort_with_leftover, validate,
    DagRuntime, ForgedDag, MAX_DAG_DEPTH,
};
use sysx::names::NameMap;
use sysx::schema::{ServiceBlock, ServiceSchema, ServiceType};
use sysx::SysXError;

fn mk(name: &str, enabled: bool, depends_on: Vec<String>) -> ServiceSchema {
    ServiceSchema {
        sysx_version: 1,
        enabled,
        service: ServiceBlock {
            name: name.to_string(),
            exec_path: "/bin/sh".to_string(),
            args: vec![],
            env: HashMap::new(),
            user: "0".to_string(),
        },
        service_type: ServiceType::Simple,
        timeout_sec: None,
        depends_on,
        recovery: None,
        pids: None,
        memory: None,
        cpu: None,
        namespaces: None,
        capabilities: None,
        rootfs: None,
        logging: None,
    }
}

fn on(deps: &[&str]) -> Vec<String> {
    deps.iter().map(|d| d.to_string()).collect()
}

fn dag_message(e: SysXError) -> String {
    match e {
        SysXError::Dag(m) => m,
        _ => panic!("not a DAG error"),
    }
}

#[test]
fn topo_chain_order() {
    let schemas = vec![mk("a", true, vec!["b".to_string()]), mk("b", true, vec![])];
    let forged = forge_boot_order(&schemas).unwrap();
    assert_eq!(forged.boot_order, vec!["b", "a"]);
    assert!(forged.dropped_cyclic.is_empty());
}

#[test]
fn cycle_severed_not_fatal() {
    let schemas = vec![
        mk("a", true, vec!["b".to_string()]),
        mk("b", true, vec!["a".to_string()]),
    ];
    let forged = forge_boot_order(&schemas).unwrap();
    assert!(forged.boot_order.is_empty());
    assert_eq!(forged.dropped_cyclic.len(), 2);
}

#[test]
fn depth_17_fails() {
    let mut schemas = Vec::new();
    for i in 0..=17 {
        let deps = if i == 0 { vec![] } else { vec![format!("s{}", i - 1)] };
        schemas.push(mk(&format!("s{}", i), true, deps));
    }
    assert!(forge_boot_order(&schemas).is_err());
}

#[test]
fn depth_16_ok() {
    let mut schemas = Vec::new();
    for i in 0..=16 {
        let deps = if i == 0 { vec![] } else { vec![format!("s{}", i - 1)] };
        schemas.push(mk(&format!("s{}", i), true, deps));
    }
    assert!(forge_boot_order(&schemas).is_ok());
}

#[test]
fn too_deep_chain_is_named_with_its_depth() {
    let mut schemas = Vec::new();
    for i in 0..=17 {
        let deps = if i == 0 { vec![] } else { vec![format!("s{}", i - 1)] };
        schemas.push(mk(&format!("s{}", i), true, deps));
    }
    let m = dag_message(forge_boot_order(&schemas).unwrap_err());
    assert_eq!(m, "DAG max depth 17 exceeds limit 16 (16 §2)");
    assert_eq!(MAX_DAG_DEPTH, 16);
}

#[test]
fn missing_dependency_is_an_error() {
    let schemas = vec![mk("a", true, on(&["b", "c"])), mk("b", true, vec![])];
    let m = dag_message(forge_boot_order(&schemas).unwrap_err());
    assert_eq!(m, "service \"a\" depends_on \"c\" which is missing or not enabled");
}

#[test]
fn disabled_dependency_counts_as_missing() {
    let schemas = vec![mk("a", true, on(&["b"])), mk("b", false, vec![])];
    let m = dag_message(forge_boot_order(&schemas).unwrap_err());
    assert_eq!(m, "service \"a\" depends_on \"b\" which is missing or not enabled");
}

#[test]
fn disabled_services_stay_out() {
    let schemas = vec![mk("a", true, vec![]), mk("b", false, on(&["nowhere"]))];
    let forged = forge_boot_order(&schemas).unwrap();
    assert_eq!(forged.boot_order, vec!["a"]);
    assert!(forge_boot_order(&[]).unwrap().boot_order.is_empty());
}

#[test]
fn what_hangs_on_a_cycle_is_severed_with_it() {
    let schemas = vec![
        mk("a", true, on(&["b"])),
        mk("b", true, on(&["a"])),
        mk("tail", true, on(&["a"])),
        mk("free", true, vec![]),
        mk("user", true, on(&["free"])),
        mk("itself", true, on(&["itself"])),
    ];
    let forged = forge_boot_order(&schemas).unwrap();
    assert_eq!(forged.boot_order, vec!["free", "user"]);
    let mut dropped = forged.dropped_cyclic.clone();
    dropped.sort();
    assert_eq!(dropped, vec!["a", "b", "itself", "tail"]);
}

#[test]
fn repeated_dependencies_are_counted_off() {
    let schemas = vec![mk("a", true, on(&["b", "b"])), mk("b", true, vec![])];
    let g = build_dependency_graph(&schemas);
    let rev = build_dependents(&g);
    assert_eq!(rev.get("b").unwrap(), &vec!["a".to_string(), "a".to_string()]);
    assert!(rev.get("a").is_none());
    let (order, leftover) = kahn_sort_with_leftover(&g);
    assert_eq!(order, vec!["b", "a"]);
    assert!(leftover.is_empty());
}

#[test]
fn validate_is_strict_about_cycles() {
    assert!(validate(&[mk("a", true, vec![])]).is_ok());
    let m = dag_message(validate(&[mk("a", true, on(&["a"]))]).unwrap_err());
    assert_eq!(m, "validate() called but graph contained cycles — use forge_boot_order()");
    assert!(validate(&[mk("a", true, on(&["b"]))]).is_err());
}

#[test]
fn runtime_graph_keeps_the_edges_of_what_boots() {
    let schemas = vec![
        mk("api", true, on(&["registry"])),
        mk("registry", true, vec![]),
        mk("loop", true, on(&["loop"])),
    ];
    let forged = forge_boot_order(&schemas).unwrap();
    let mut by_name: NameMap<ServiceSchema> = NameMap::new();
    for s in schemas {
        let name = s.service.name.clone();
        by_name.insert(&name, s);
    }
    let dag = DagRuntime::from_forged(&forged, &by_name);
    assert_eq!(dag.boot_order, vec!["registry", "api"]);
    assert_eq!(dag.graph.get("api").unwrap(), &vec!["registry".to_string()]);
    assert_eq!(dag.dependents.get("registry").unwrap(), &vec!["api".to_string()]);
    assert!(dag.graph.get("loop").is_none());
}

#[test]
fn runtime_graph_leaves_out_what_does_not_boot() {
    let forged = ForgedDag { boot_order: on(&["a", "ghost"]), dropped_cyclic: vec![] };
    let mut by_name: NameMap<ServiceSchema> = NameMap::new();
    by_name.insert("a", mk("a", true, on(&["b", "ghost"])));
    let dag = DagRuntime::from_forged(&forged, &by_name);
    assert_eq!(dag.graph.get("a").unwrap(), &vec!["ghost".to_string()]);
    assert!(!dag.graph.contains_key("ghost"));
    assert_eq!(dag.graph.len(), 1);
}
