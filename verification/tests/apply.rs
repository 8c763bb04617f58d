use orka::apply::{
    diff_last, diff_live, diff_summary, ensure_metadata, find_api_resource, json_node_budget_exceeded,
    parse_uid, parse_yaml_for_target, read_limits, strip_noisy, target_of_value, ApplyError, DiffSummary, Edit,
    EditNext, TargetError, YamlLimits,
};
use orka::codec::read_json;
use orka::json::Json;
use orka::kubehub::DiscoveredResource;

fn json(text: &str) -> Json {
    read_json(text.as_bytes()).expect("json")
}

fn contains_key(v: &Json, key: &str) -> bool {
    v.as_object().unwrap().iter().any(|m| m.0 == key)
}

#[test]
fn strip_noisy_prunes_common_fields() {
    let v = json(
        r#"{
            "apiVersion": "v1",
            "kind": "ConfigMap",
            "metadata": {
                "name": "x",
                "namespace": "ns",
                "managedFields": [ {"foo": "bar"} ],
                "resourceVersion": "123",
                "generation": 5,
                "creationTimestamp": "2020-01-01T00:00:00Z"
            },
            "status": { "obs": true },
            "data": { "k": "v" }
        }"#,
    );
    let pruned = strip_noisy(v);
    let meta = pruned.get("metadata").unwrap();
    assert!(!contains_key(meta, "managedFields"));
    assert!(!contains_key(meta, "resourceVersion"));
    assert!(!contains_key(meta, "generation"));
    assert!(!contains_key(meta, "creationTimestamp"));
    assert!(!contains_key(&pruned, "status"));
    assert!(contains_key(meta, "name"));
    assert!(contains_key(meta, "namespace"));
    assert!(contains_key(&pruned, "data"));
}

#[test]
fn diff_summary_counts_adds_updates_removes() {
    let base = json(r#"{ "a": 1, "b": { "x": 1 }, "c": [1, 2, 3] }"#);
    let target = json(r#"{ "a": 2, "b": { "x": 1, "y": 2 }, "c": [1, 9], "d": true }"#);
    let s = diff_summary(&target, &base);
    assert_eq!(s.adds, 2);
    assert_eq!(s.updates, 2);
    assert_eq!(s.removes, 1);
}

#[test]
fn parse_yaml_errors_are_friendly() {
    let limits = YamlLimits::default();
    let y1 = "kind: Foo\nmetadata:\n  name: x\n";
    let e1 = parse_yaml_for_target(y1, None, &limits).err().unwrap().text();
    assert!(e1.contains("missing apiVersion"), "e1={}", e1);

    let y2 = "apiVersion: v1\nmetadata:\n  name: x\n";
    let e2 = parse_yaml_for_target(y2, None, &limits).err().unwrap().text();
    assert!(e2.contains("missing kind"), "e2={}", e2);

    let y3 = "apiVersion: v1\nkind: ConfigMap\nmetadata: {}\n";
    let e3 = parse_yaml_for_target(y3, None, &limits).err().unwrap().text();
    assert!(e3.contains("missing metadata.name"), "e3={}", e3);
}

#[test]
fn a_manifest_names_its_target() {
    let y = "apiVersion: apps/v1\nkind: Deployment\nmetadata:\n  name: web\n  namespace: prod\nspec:\n  replicas: 3\n";
    let t = parse_yaml_for_target(y, None, &YamlLimits::default()).ok().unwrap();
    assert_eq!(t.group, "apps");
    assert_eq!(t.version, "v1");
    assert_eq!(t.kind, "Deployment");
    assert_eq!(t.name, "web");
    assert_eq!(t.namespace.as_deref(), Some("prod"));
    assert_eq!(t.json.int_of2("spec", "replicas"), Some(3));
    let o = parse_yaml_for_target(y, Some("dev"), &YamlLimits::default()).ok().unwrap();
    assert_eq!(o.namespace.as_deref(), Some("prod"));
    let bare = "apiVersion: apps/v1\nkind: Deployment\nmetadata:\n  name: web\n";
    let b = parse_yaml_for_target(bare, Some("dev"), &YamlLimits::default()).ok().unwrap();
    assert_eq!(b.namespace.as_deref(), Some("dev"));
}

#[test]
fn a_manifest_has_limits() {
    let y = "apiVersion: v1\nkind: ConfigMap\nmetadata:\n  name: x\n";
    let few_bytes = parse_yaml_for_target(y, None, &YamlLimits { bytes: 10, nodes: 100 });
    assert!(matches!(few_bytes, Err(TargetError::TooLarge(_))));
    let few_nodes = parse_yaml_for_target(y, None, &YamlLimits { bytes: 1000, nodes: 2 });
    assert!(matches!(few_nodes, Err(TargetError::TooComplex(2))));
    let broken = parse_yaml_for_target("a: [1, 2", None, &YamlLimits::default());
    assert!(matches!(broken, Err(TargetError::Parse(_))));
}

#[test]
fn limits_come_from_settings() {
    let env = vec![("ORKA_MAX_YAML_BYTES".to_string(), "77".to_string())];
    let l = read_limits(&env);
    assert_eq!((l.bytes, l.nodes), (77, 100_000));
    let l = read_limits(&vec![("ORKA_MAX_YAML_BYTES".to_string(), "x".to_string())]);
    assert_eq!(l, YamlLimits { bytes: 1_000_000, nodes: 100_000 });
}

#[test]
fn nodes_are_counted() {
    let v = json(r#"{"a": [1, 2], "b": {"c": null}}"#);
    assert!(json_node_budget_exceeded(&v, 6));
    assert!(!json_node_budget_exceeded(&v, 7));
}

#[test]
fn a_value_does_not_differ_from_itself() {
    let text = r#"{"a": [1, {"b": null}], "c": -0.0, "d": "x"}"#;
    assert_eq!(diff_summary(&json(text), &json(text)), DiffSummary::default());
}

#[test]
fn stripping_again_changes_nothing() {
    let once = strip_noisy(json(r#"{"metadata": {"name": "x", "uid": "u"}, "status": 1, "spec": {"status": 2}}"#));
    let twice = strip_noisy(once.copy());
    assert!(twice.same(&once));
    assert!(twice.get2("spec", "status").is_some());
}

#[test]
fn metadata_is_completed() {
    let v = ensure_metadata(json(r#"{"kind": "ConfigMap"}"#), "x", Some("ns"));
    assert_eq!(v.str_of2("metadata", "name"), Some("x"));
    assert_eq!(v.str_of2("metadata", "namespace"), Some("ns"));
}

#[test]
fn a_live_object_is_compared_without_noise() {
    let t = target_of_value(
        json(r#"{"apiVersion": "v1", "kind": "ConfigMap", "metadata": {"name": "x"}, "data": {"k": "1"}}"#),
        None,
        1000,
    )
    .ok()
    .unwrap();
    let live = json(
        r#"{"apiVersion": "v1", "kind": "ConfigMap", "metadata": {"name": "x", "resourceVersion": "9"},
            "data": {"k": "2"}, "status": {}}"#,
    );
    let (s, _) = diff_live(&t, &Some(live));
    assert_eq!(s, DiffSummary { adds: 0, updates: 1, removes: 0 });
    let last = diff_last(&t, "apiVersion: v1\nkind: ConfigMap\nmetadata:\n  name: x\ndata:\n  k: \"1\"\n").unwrap();
    assert_eq!(last, DiffSummary::default());
    assert!(diff_last(&t, "a: [").is_none());
    assert!(!t.is_secret());
}

#[test]
fn uids_are_read() {
    let u = parse_uid("01234567-89ab-cdef-0123-456789abcdef").unwrap();
    assert_eq!(u, [0x01, 0x23, 0x45, 0x67, 0x89, 0xab, 0xcd, 0xef, 0x01, 0x23, 0x45, 0x67, 0x89, 0xab, 0xcd, 0xef]);
    assert_eq!(parse_uid("0123456789abcdef0123456789ABCDEF"), Some(u));
    assert_eq!(parse_uid("not-a-uid"), None);
}

fn resource(group: &str, version: &str, kind: &str, namespaced: bool) -> DiscoveredResource {
    DiscoveredResource {
        group: group.to_string(),
        version: version.to_string(),
        kind: kind.to_string(),
        namespaced,
    }
}

#[test]
fn a_target_is_found_among_the_kinds() {
    let y = "apiVersion: v1\nkind: ConfigMap\nmetadata:\n  name: x\n";
    let t = parse_yaml_for_target(y, None, &YamlLimits::default()).ok().unwrap();
    let kinds = vec![resource("apps", "v1", "Deployment", true), resource("", "v1", "ConfigMap", true)];
    assert_eq!(find_api_resource(&kinds, &t), Some(1));
    assert_eq!(find_api_resource(&vec![], &t), None);
    assert!(matches!(t.locate(&kinds), Err(ApplyError::NamespaceRequired)));
    assert!(matches!(t.locate(&vec![]), Err(ApplyError::NotFound { .. })));
}

#[test]
fn an_object_that_changed_is_not_applied() {
    let y = "apiVersion: v1\nkind: ConfigMap\nmetadata:\n  name: x\n  namespace: prod\n";
    let live = r#"{"metadata": {"name": "x", "namespace": "prod", "resourceVersion": "r1"}}"#;
    let mut edit = Edit::begin(y, None, true, &vec![]).ok().unwrap();
    assert_eq!(edit.take_live(Some(json(live))), EditNext::ReadAgain);
    assert_eq!(edit.seen_rv.as_deref(), Some("r1"));
    let e = edit.check_fresh(Some("r2")).err().unwrap().text();
    assert_eq!(e, "live object changed (rv r1 -> r2) during apply; re-run diff/dry-run and try again");
    assert!(edit.check_fresh(Some("r1")).is_ok());
    assert!(edit.check_fresh(Some("")).is_ok());
    assert!(edit.check_fresh(None).is_ok());

    let off = vec![("ORKA_DISABLE_APPLY_PREFLIGHT".to_string(), "1".to_string())];
    let mut unguarded = Edit::begin(y, None, true, &off).ok().unwrap();
    assert_eq!(unguarded.take_live(Some(json(live))), EditNext::Apply);
    let mut tried = Edit::begin(y, None, false, &vec![]).ok().unwrap();
    assert_eq!(tried.take_live(Some(json(live))), EditNext::DryRun);
    let mut fresh = Edit::begin(y, None, true, &vec![]).ok().unwrap();
    assert_eq!(fresh.take_live(None), EditNext::Apply);
}
