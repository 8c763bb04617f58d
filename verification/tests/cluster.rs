use orka::api::{
    env_flag, forward_event, history_kind, history_uid, is_builtin_key, may_ask_schema, raw_scope, read_stats,
    snapshot_of, use_lite_list, InProcApi, MockApi, OrkaError, PortForwardEvent,
};
use orka::cli::{discover_line, json_key, ls_header, ls_row, ls_rows, WatchPrinter};
use orka::codec::read_json;
use orka::json::Json;
use orka::kubehub::{
    cache_files, delta_from, expired, find_kind, is_fresh, lite_events, lite_from_dynamic, order_resources,
    resources_from_disk, scope_for, strip_managed_fields, to_uid, DiscoveredResource, DiskEntry, LiteShape, Meta,
    ObjectError, Paging, WatchEvent, Watcher,
};
use orka::ops::ForwardEvent;
use orka::small::{AnnotationVec, LabelVec, ProjectedVec};
use orka::types::{Delta, DeltaKind, LiteEvent, LiteObj, ResourceKind};

const UID: &str = "01234567-89ab-cdef-0123-456789abcdef";

fn json(text: &str) -> Json {
    read_json(text.as_bytes()).expect("json")
}

fn env(pairs: &[(&str, &str)]) -> Vec<(String, String)> {
    pairs.iter().map(|p| (p.0.to_string(), p.1.to_string())).collect()
}

fn meta(uid: Option<&str>) -> Meta {
    Meta {
        uid: uid.map(|u| u.to_string()),
        name: Some("web-0".to_string()),
        namespace: Some("prod".to_string()),
        created: Some(100),
        labels: vec![("app".to_string(), "web".to_string())],
        annotations: vec![("a".to_string(), "1".to_string())],
    }
}

fn lite(name: &str, ns: Option<&str>) -> LiteObj {
    LiteObj {
        uid: [1; 16],
        namespace: ns.map(|n| n.to_string()),
        name: name.to_string(),
        creation_ts: 100,
        projected: ProjectedVec::new(),
        labels: LabelVec::new(),
        annotations: AnnotationVec::new(),
    }
}

fn resource(group: &str, version: &str, kind: &str) -> DiscoveredResource {
    DiscoveredResource {
        group: group.to_string(),
        version: version.to_string(),
        kind: kind.to_string(),
        namespaced: true,
    }
}

#[test]
fn resources_have_keys_and_an_order() {
    assert_eq!(resource("", "v1", "Pod").gvk_key(), "v1/Pod");
    assert_eq!(resource("apps", "v1", "Deployment").gvk_key(), "apps/v1/Deployment");
    let v = order_resources(vec![resource("b", "v1", "X"), resource("a", "v2", "Y"), resource("a", "v1", "Z")]);
    let keys: Vec<String> = v.iter().map(|r| r.gvk_key()).collect();
    assert_eq!(keys, vec!["a/v1/Z", "a/v2/Y", "b/v1/X"]);
    assert_eq!(find_kind(&v, "a", "v2", "Y"), Some(1));
    assert_eq!(find_kind(&v, "a", "v2", "Z"), None);
}

#[test]
fn resources_are_read_from_disk() {
    let e = DiskEntry {
        group: "apps".to_string(),
        version: "v1".to_string(),
        kind: "Deployment".to_string(),
        plural: "deployments".to_string(),
        namespaced: true,
    };
    assert_eq!(e.api_version(), "apps/v1");
    assert_eq!(e.key(), "apps/v1/Deployment");
    let v = resources_from_disk(&vec![e]);
    assert_eq!(v[0].gvk_key(), "apps/v1/Deployment");
}

#[test]
fn caches_grow_old() {
    assert!(is_fresh(100, 90, 10));
    assert!(!is_fresh(101, 90, 10));
    let (a, b) = cache_files(&env(&[("HOME", "/home/u")]));
    assert!(a.starts_with("/home/u/") && b.starts_with("/home/u/") && a != b);
}

#[test]
fn scopes() {
    assert_eq!(scope_for(true, Some("ns")), Some("ns"));
    assert_eq!(scope_for(true, None), None);
    assert_eq!(scope_for(false, Some("ns")), None);
}

#[test]
fn identities_of_objects() {
    assert_eq!(to_uid(&None), Err(ObjectError::NoUid));
    assert_eq!(to_uid(&Some("x".to_string())), Err(ObjectError::BadUid));
    assert_eq!(to_uid(&Some(UID.to_string())).unwrap()[0], 0x01);
    assert_eq!(ObjectError::NoUid.text(), "object missing metadata.uid");
}

#[test]
fn objects_take_their_shape() {
    let o = lite_from_dynamic(&meta(Some(UID)), true).unwrap();
    assert_eq!(o.name, "web-0");
    assert_eq!(o.namespace.as_deref(), Some("prod"));
    assert_eq!(o.creation_ts, 100);
    assert_eq!(o.labels.len(), 1);
    assert_eq!(o.labels.get(0), ("app", "web"));
    assert_eq!(o.annotations.get(0), ("a", "1"));
    let plain = lite_from_dynamic(&meta(Some(UID)), false).unwrap();
    assert_eq!(plain.labels.len() + plain.annotations.len(), 0);
    assert!(lite_from_dynamic(&meta(None), true).is_err());
    let shape = LiteShape::new("", "v1", "Pod", &vec![]);
    let pod = shape.shape(&meta(Some(UID)), &json(r#"{"spec": {"nodeName": "n1"}, "status": {"phase": "Running"}}"#)).unwrap();
    let shown: Vec<String> = (0..pod.projected.len()).map(|i| pod.projected.get(i).1.to_string()).collect();
    assert!(shown.contains(&"Running".to_string()), "{:?}", shown);
    assert!(shown.contains(&"n1".to_string()), "{:?}", shown);
    let off = LiteShape::new("", "v1", "Pod", &env(&[("ORKA_LITE_PROJECT", "0")]));
    assert!(off.projector.is_none());
}

#[test]
fn managed_fields_are_taken_away() {
    let v = strip_managed_fields(json(r#"{"metadata": {"managedFields": [1], "name": "x"}}"#));
    assert!(v.get2("metadata", "managedFields").is_none());
    assert_eq!(v.str_of2("metadata", "name"), Some("x"));
    let d = delta_from(&Some(UID.to_string()), json("{}"), DeltaKind::Deleted).ok().unwrap();
    assert_eq!(d.kind, DeltaKind::Deleted);
    assert!(matches!(delta_from(&None, json("{}"), DeltaKind::Applied), Err(ObjectError::NoUid)));
}

#[test]
fn lists_are_read_page_by_page() {
    let mut p = Paging::start(&vec![]);
    assert_eq!(p.request(), (Some(500), None));
    p.take_page(Some("t".to_string()));
    assert!(!p.done);
    assert_eq!(p.request(), (Some(500), Some("t")));
    p.take_page(None);
    assert!(p.done);
    assert_eq!(Paging::start(&env(&[("ORKA_SNAPSHOT_PAGE_LIMIT", "0")])).request(), (None, None));
}

#[test]
fn a_watch_waits_longer_and_longer() {
    let mut w = Watcher::new(&vec![]);
    let waits: Vec<u64> = (0..7).map(|_| w.ended()).collect();
    assert_eq!(waits, vec![1, 2, 4, 8, 16, 30, 30]);
    w.relisted();
    assert_eq!(w.ended(), 1);
    assert_eq!(w.relist_after(30, 4), 304);
    assert_eq!(w.relist_after(30, 5), 295);
    assert_eq!(w.relist_after(0, 5), 300);
    assert!(expired("410 Gone"));
    assert!(expired("token EXPIRED"));
    assert!(!expired("refused"));
}

#[test]
fn events_of_a_watch() {
    let shape = LiteShape::new("", "v1", "Pod", &vec![]);
    let v = lite_events(&shape, WatchEvent::Applied(meta(Some(UID)), json("{}"))).ok().unwrap();
    assert!(matches!(&v[..], [LiteEvent::Applied(_)]));
    let v = lite_events(&shape, WatchEvent::Deleted(meta(Some(UID)), json("{}"))).ok().unwrap();
    assert!(matches!(&v[..], [LiteEvent::Deleted(_)]));
    assert!(lite_events(&shape, WatchEvent::Applied(meta(None), json("{}"))).is_err());
}

#[test]
fn settings_of_the_interface() {
    assert!(env_flag(&env(&[("X", "1")]), "X", false));
    assert!(!env_flag(&env(&[("X", "0")]), "X", true));
    assert!(env_flag(&vec![], "X", true));
    assert!(use_lite_list(&vec![], ""));
    assert!(use_lite_list(&vec![], "apps"));
    assert!(is_builtin_key("v1/Pod"));
    assert!(!is_builtin_key("cert-manager.io/v1/Certificate"));
    assert!(may_ask_schema(&vec![], false));
    let s = read_stats(&env(&[("ORKA_RELIST_SECS", "60")]), 1, 2, 3);
    assert_eq!(s.relist_secs, 60);
    assert_eq!(s.traffic_watch_bytes, Some(2));
}

#[test]
fn the_interface_answers() {
    assert_eq!(InProcApi::new(), InProcApi);
    let k = ResourceKind {
        group: "apps".to_string(),
        version: "v1".to_string(),
        kind: "Deployment".to_string(),
        namespaced: true,
    };
    assert_eq!(InProcApi::gvk_key(&k), "apps/v1/Deployment");
    assert_eq!(ResourceKind::from(resource("apps", "v1", "Deployment")), k);
    assert!(InProcApi::map_err("boom").text().contains("boom"));
    assert!(matches!(raw_scope(true, Some("ns")), Ok(Some(_))));
    assert!(matches!(raw_scope(false, Some("ns")), Ok(None)));
    assert!(raw_scope(true, None).is_err());
    assert!(history_kind("x").is_err());
    assert!(history_uid(None).is_err());
    assert!(matches!(history_uid(Some(UID)), Ok(_)));
    assert!(matches!(forward_event(ForwardEvent::Closed), PortForwardEvent::Closed));
    let s = snapshot_of(vec![lite("a", None)], true);
    assert_eq!(s.data.items.len(), 1);
}

#[test]
fn the_mock_answers() {
    let m = MockApi::new();
    assert!(m.discover().is_empty());
    assert!(matches!(m.get_raw(), Err(OrkaError::NotFound(e)) if e == "no raw"));
    assert!(m.take_snapshot().is_err() && m.dry_run().is_err() && m.diff().is_err() && m.apply().is_err());
    let full = MockApi { raw_obj: Some(vec![7]), ..MockApi::default() };
    assert!(matches!(full.get_raw(), Ok(b) if b == &vec![7u8]));
    assert!(m.schema("v1/Pod").is_none());
    assert!(m.search().0.is_empty());
}

#[test]
fn lines_of_the_command_line() {
    assert_eq!(discover_line(&resource("apps", "v1", "Deployment")), "apps/v1 \u{2022} Deployment \u{2022} namespaced");
    assert_eq!(ls_header(), "NAMESPACE   NAME                 AGE");
    assert_eq!(ls_row(&lite("web", Some("prod")), 160), "prod        web                  1m");
    assert_eq!(ls_row(&lite("web", None), 130), "-           web                  30s");
    let rows = ls_rows(&vec![lite("a", Some("x")), lite("b", Some("y"))], Some("y"), 160);
    assert_eq!(rows.len(), 1);
    assert!(rows[0].contains(" b "));
    assert_eq!(json_key(&json(r#"{"metadata": {"name": "a", "namespace": "n"}}"#)), "n/a");
}

#[test]
fn changes_are_printed_once() {
    let d = |kind: DeltaKind, rv: &str| Delta {
        uid: [3; 16],
        kind,
        raw: json(&format!(r#"{{"metadata": {{"name": "a", "namespace": "n", "resourceVersion": "{}"}}}}"#, rv)),
    };
    let mut w = WatchPrinter::new();
    assert_eq!(w.take(&d(DeltaKind::Applied, "1"), None).as_deref(), Some("+ n/a"));
    assert_eq!(w.take(&d(DeltaKind::Applied, "1"), None), None);
    assert_eq!(w.take(&d(DeltaKind::Applied, "2"), None).as_deref(), Some("~ n/a"));
    assert_eq!(w.take(&d(DeltaKind::Applied, "3"), Some("other")), None);
    assert_eq!(w.take(&d(DeltaKind::Deleted, "3"), Some("n")).as_deref(), Some("- n/a"));
    assert_eq!(w.take(&d(DeltaKind::Applied, "3"), None).as_deref(), Some("+ n/a"));
}
