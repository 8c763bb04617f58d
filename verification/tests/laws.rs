use orka::apply::{diff_summary, strip_noisy};
use orka::codec::read_json;
use orka::columns::{builtin_columns_for, builtin_projector_for, ColumnKind, Projector};
use orka::gui::actions::EditAction;
use orka::gui::details::details_reply;
use orka::gui::logs::{parse_line_to_job, parse_line_to_job_hl, rgb, LogStyler};
use orka::gui::model::{App, UiUpdate};
use orka::gui::term::AnsiTerm;
use orka::json::Json;
use orka::kubehub::{same_event, LiteFeed, WatchAction, WatchNews, Watcher};
use orka::ops::{LinePump, LogOptions, PumpEvent};
use orka::persist::{maybe_compress, maybe_decompress, LastApplied, LogStore, Store};
use orka::refs::references_end;
use orka::schema::{read_definition, validate_yaml};
use orka::small::{AnnotationVec, LabelVec, ProjectedVec};
use orka::text::trim;
use orka::types::{LiteEvent, LiteObj};
use std::collections::VecDeque;

fn json(text: &str) -> Json {
    read_json(text.as_bytes()).expect("json")
}

fn row(id: u8, name: &str) -> LiteObj {
    let mut projected = ProjectedVec::new();
    projected.push(100, format!("P{}", id));
    let mut labels = LabelVec::new();
    labels.push("app".to_string(), name.to_string());
    LiteObj {
        uid: [id; 16],
        namespace: Some("prod".to_string()),
        name: name.to_string(),
        creation_ts: 5,
        projected,
        labels,
        annotations: AnnotationVec::new(),
    }
}

#[test]
fn swapping_the_sides_swaps_what_differs() {
    let a = json(r#"{"a": 1, "b": {"x": 1}, "c": [1, 2, 3], "e": 0.0}"#);
    let b = json(r#"{"a": 2, "b": {"x": 1, "y": 2}, "c": [1, 9], "d": true, "e": -0.0}"#);
    let there = diff_summary(&a, &b);
    let back = diff_summary(&b, &a);
    assert_eq!((there.adds, there.updates, there.removes), (1, 2, 2));
    assert_eq!((back.adds, back.updates, back.removes), (2, 2, 1));
}

#[test]
fn nothing_differs_only_between_equal_values() {
    let a = json(r#"{"a": [1, {"b": null}], "c": 0.0}"#);
    let b = json(r#"{"a": [1, {"b": null}], "c": -0.0}"#);
    let s = diff_summary(&a, &b);
    assert_eq!((s.adds, s.updates, s.removes), (0, 0, 0));
    assert!(a.same(&b));
    let c = strip_noisy(json(r#"{"a": [1, {"b": 1}], "c": 0.0}"#));
    let s = diff_summary(&a, &c);
    assert_eq!((s.adds, s.updates, s.removes), (0, 1, 0));
    assert!(!a.same(&c));
}

#[test]
fn a_run_of_records_is_read_newest_first() {
    let mut s = LogStore::open(Vec::new()).unwrap();
    for i in 0..6i64 {
        let uid = if i % 3 == 0 { [1; 16] } else { [2; 16] };
        s.put_last(LastApplied { uid, rv: format!("r{}", i), ts: i, yaml_zstd: vec![i as u8] });
    }
    let again = LogStore::open(s.bytes.clone()).unwrap();
    for store in [&s, &again] {
        let rows = store.get_last([2; 16], None).unwrap();
        let names: Vec<&str> = rows.iter().map(|r| r.rv.as_str()).collect();
        assert_eq!(names, vec!["r5", "r4", "r2"]);
        assert!(rows.iter().all(|r| r.uid == [2; 16]));
        let rows = store.get_last([1; 16], Some(9)).unwrap();
        let names: Vec<&str> = rows.iter().map(|r| r.rv.as_str()).collect();
        assert_eq!(names, vec!["r3", "r0"]);
        assert!(store.get_last([1; 16], Some(0)).unwrap().is_empty());
    }
}

#[test]
fn manifests_read_back() {
    for text in ["", "a: b\n", "größe: 1\n"] {
        assert_eq!(maybe_decompress(&maybe_compress(text, &vec![])), text);
    }
    assert_eq!(maybe_decompress("größe: 1\n".as_bytes()), "größe: 1\n");
}

#[test]
fn fields_have_columns_of_their_own() {
    let raw = json(
        r#"{"spec": {"type": "ClusterIP", "clusterIP": "10.0.0.1", "externalIPs": ["1.2.3.4"],
            "ports": [{"port": 80, "protocol": "TCP"}]}}"#,
    );
    let p = builtin_projector_for("", "v1", "Service").unwrap();
    let out = p.project(&raw);
    let ids: Vec<u32> = (0..out.len()).map(|i| out.get(i).0).collect();
    assert_eq!(ids, vec![13_001, 13_002, 13_003, 13_004]);
    let cols = builtin_columns_for("", "v1", "Service", true);
    for id in ids {
        assert_eq!(cols.iter().filter(|c| c.kind == ColumnKind::Projected(id)).count(), 1);
    }
}

#[test]
fn a_frame_keeps_the_index_in_step() {
    let mut a = App::new(&vec![], vec![], None, "xterm");
    let styler = LogStyler::new().expect("styler");
    let mut q: VecDeque<UiUpdate> = VecDeque::new();
    q.push_back(UiUpdate::Snapshot(vec![row(1, "a"), row(2, "b"), row(3, "c")]));
    q.push_back(UiUpdate::Event(LiteEvent::Applied(row(2, "b2"))));
    q.push_back(UiUpdate::Event(LiteEvent::Deleted(row(9, "z"))));
    q.push_back(UiUpdate::Event(LiteEvent::Deleted(row(1, "a"))));
    q.push_back(UiUpdate::Event(LiteEvent::Applied(row(4, "d"))));
    q.push_back(UiUpdate::Snapshot(vec![row(3, "other"), row(5, "e")]));
    a.process_updates(&mut q, &styler, rgb(1, 2, 3), 10);
    assert!(q.is_empty());
    let names: Vec<&str> = a.results.rows.iter().map(|r| r.name.as_str()).collect();
    assert_eq!(names, vec!["c", "b2", "d", "e"]);
    for id in 2..6u8 {
        assert_eq!(a.results.find(&[id; 16]).map(|r| r.uid), Some([id; 16]));
    }
    assert!(!a.results.knows(&[1; 16]));
    for i in 0..300u64 {
        q.push_back(UiUpdate::Event(LiteEvent::Applied(row((i % 7) as u8, "x"))));
    }
    a.process_updates(&mut q, &styler, rgb(1, 2, 3), 11);
    assert_eq!(q.len(), 300 - 256);
}

#[test]
fn secrets_with_other_values_look_the_same() {
    let a = details_reply(br#"{"kind": "Secret", "data": {"p": "aGk=", "q": "aG8="}, "type": "Opaque"}"#, 1000);
    let b = details_reply(br#"{"kind": "Secret", "data": {"p": "eHh4eHg=", "q": ""}, "type": "Opaque"}"#, 1000);
    assert_eq!(a.text, b.text);
    assert!(a.text.contains("[REDACTED]"));
}

#[test]
fn runs_joined_are_the_line_without_escapes() {
    let styler = LogStyler::new().expect("styler");
    let line = "2024-01-02T03:04:05Z \u{1b}[31mERROR\u{1b}[0m größe 42 \u{1b}x \u{1b}[unfinished";
    let bare = "2024-01-02T03:04:05Z ERROR größe 42 \u{1b}x \u{1b}[unfinished";
    let grep = regex::Regex::new("r|4").unwrap();
    for colorize in [false, true] {
        let plain: String = parse_line_to_job(&styler, line, rgb(9, 9, 9), colorize).iter().map(|s| s.text.clone()).collect();
        assert_eq!(plain, bare);
        let marked: String = parse_line_to_job_hl(&styler, line, rgb(9, 9, 9), colorize, Some(&grep))
            .iter()
            .map(|s| s.text.clone())
            .collect();
        assert_eq!(marked, bare);
    }
}

fn pumped(chunks: &[&[u8]], end: PumpEvent) -> Vec<String> {
    let mut pump = LinePump::new();
    let mut out = Vec::new();
    for c in chunks {
        out.extend(pump.step(PumpEvent::Chunk(c.to_vec())).lines.into_iter().map(|l| l.line));
    }
    out.extend(pump.step(end).lines.into_iter().map(|l| l.line));
    out
}

#[test]
fn lines_do_not_depend_on_the_cuts() {
    let all: &[u8] = b"one\n\ntwo\xff\nthr\xc3\xa9e\nlast";
    let expected = vec!["one", "", "thr\u{e9}e", "last"];
    assert_eq!(pumped(&[all], PumpEvent::Ended), expected);
    for cut in 0..all.len() {
        assert_eq!(pumped(&[&all[..cut], &all[cut..]], PumpEvent::Failed), expected);
    }
    let bytes: Vec<&[u8]> = all.chunks(1).collect();
    assert_eq!(pumped(&bytes, PumpEvent::Ended), expected);
    assert!(pumped(&[b""], PumpEvent::Ended).is_empty());
}

#[test]
fn logs_are_followed_by_default() {
    let o = LogOptions::default();
    assert!(o.follow);
    assert_eq!((o.tail_lines, o.since_seconds), (None, None));
}

#[test]
fn a_terminal_may_be_very_wide() {
    let mut t = AnsiTerm::new(60_000, 1);
    t.move_to(59_999, 1);
    t.csi_dispatch(&vec![30_000], 'C');
    assert_eq!(t.cur_x, 59_999);
    t.csi_dispatch(&vec![30_000], 'D');
    assert_eq!(t.cur_x, 29_999);
    t.put_char('\t');
    assert_eq!(t.cur_x, 30_000);
    t.csi_dispatch(&vec![32_767], 'C');
    assert_eq!(t.cur_x, 59_999);
    t.csi_dispatch(&vec![], 'B');
    assert_eq!(t.cur_y, 0);
}

#[test]
fn the_same_change_is_handed_on_once() {
    let mut feed = LiteFeed::new();
    let mut out = Vec::new();
    let told = vec![
        LiteEvent::Applied(row(1, "a")),
        LiteEvent::Applied(row(1, "a")),
        LiteEvent::Deleted(row(1, "a")),
        LiteEvent::Applied(row(1, "a")),
        LiteEvent::Applied(row(1, "b")),
        LiteEvent::Applied(row(2, "b")),
        LiteEvent::Applied(row(2, "b")),
    ];
    for e in told {
        if let Some(e) = feed.step(e) {
            out.push(e);
        }
    }
    let expected = [
        LiteEvent::Applied(row(1, "a")),
        LiteEvent::Deleted(row(1, "a")),
        LiteEvent::Applied(row(1, "a")),
        LiteEvent::Applied(row(1, "b")),
        LiteEvent::Applied(row(2, "b")),
    ];
    assert_eq!(out.len(), expected.len());
    assert!(out.iter().zip(expected.iter()).all(|(x, y)| same_event(x, y)));
}

#[test]
fn a_watch_goes_on_until_nobody_listens() {
    let mut w = Watcher::new(&vec![]);
    assert_eq!(w.watch_step(WatchNews::Sent, true), WatchAction::GoOn);
    assert_eq!(w.watch_step(WatchNews::Ended, true), WatchAction::Reopen(1));
    assert_eq!(w.watch_step(WatchNews::Failed("refused".to_string()), true), WatchAction::Reopen(2));
    assert_eq!(w.watch_step(WatchNews::Failed("410 Gone".to_string()), true), WatchAction::ListAndReopen(4));
    assert_eq!(w.watch_step(WatchNews::Failed("410 Gone".to_string()), false), WatchAction::Reopen(8));
    assert_eq!(w.watch_step(WatchNews::Due, true), WatchAction::Reopen(0));
    assert_eq!(w.watch_step(WatchNews::Ended, true), WatchAction::Reopen(1));
    assert_eq!(w.watch_step(WatchNews::Closed, true), WatchAction::Stop);
}

#[test]
fn kinds_of_every_cluster_need_no_definition() {
    let crd = json(r#"{"spec": {"group": "g.io", "names": {"kind": "Foo"}, "versions": []}}"#);
    let crds = vec![crd];
    assert_eq!(read_definition(&crds, "apps/v1/Deployment"), Ok(None));
    assert_eq!(read_definition(&crds, "v1/Pod"), Ok(None));
    assert_eq!(read_definition(&crds, "certificates.k8s.io/v1/CertificateSigningRequest"), Ok(None));
    assert_eq!(read_definition(&crds, "g.io/v2/Foo"), Ok(Some((0, "v2".to_string()))));
    assert_eq!(read_definition(&crds, "g.io/v2/Bar"), Err("CRD not found for g.io/v2/Bar".to_string()));
    assert_eq!(read_definition(&crds, "x"), Err("invalid gvk key: x".to_string()));
}

#[test]
fn schemas_with_references_are_checked() {
    let schema = json(
        r##"{"type": "object",
            "properties": {"n": {"$ref": "#/definitions/a~1b"}, "$ref": {"type": "string"},
                           "tree": {"$ref": "#/definitions/tree"}},
            "definitions": {"a/b": {"allOf": [{"$ref": "#/extra/1"}]},
                            "tree": {"type": "object", "properties": {"sub": {"$ref": "#/definitions/tree"}}}},
            "extra": [true, {"type": "integer"}]}"##,
    );
    assert!(references_end(&schema, 2));
    assert!(!references_end(&schema, 1));
    assert!(validate_yaml(Some(&schema), "n: 3\n$ref: x\ntree:\n  sub:\n    sub: {}\n").unwrap().is_empty());
    let issues = validate_yaml(Some(&schema), "n: x\n").unwrap();
    assert_eq!(issues.len(), 1);
    assert_eq!(issues[0].path, "/n");
    let issues = validate_yaml(Some(&schema), "tree:\n  sub:\n    sub: 1\n").unwrap();
    assert_eq!(issues[0].path, "/tree/sub/sub");
}

#[test]
fn schemas_that_refer_to_themselves_are_known() {
    assert!(!references_end(&json(r##"{"$ref": "#"}"##), 100));
    let circle = r##"{"definitions": {"a": {"not": {"$ref": "#/definitions/b"}}, "b": {"anyOf": [{"$ref": "#/definitions/a"}]}}}"##;
    assert!(!references_end(&json(circle), 100));
    assert!(references_end(&json(r#"{"$ref": "http://example.com/x"}"#), 100));
    assert!(!references_end(&json(r#"{"$ref": "other.json"}"#), 100));
    assert!(!references_end(&json(r##"{"$id": "x", "items": {"$ref": "#/a"}}"##), 100));
    assert!(references_end(&json(r##"{"items": {"$ref": "#"}}"##), 1));
    assert!(references_end(&json(r#"{"$id": "x", "properties": {"$ref": {}}}"#), 0));
}

#[test]
fn lists_of_different_elements_are_asked_for() {
    let schema = json(r#"{"type": "object", "properties": {"v": {"type": "array", "uniqueItems": true}}}"#);
    assert!(validate_yaml(Some(&schema), "v: [1, 2]\n").unwrap().is_empty());
    let issues = validate_yaml(Some(&schema), "v: [1, 1]\n").unwrap();
    assert_eq!(issues.len(), 1);
    assert_eq!(issues[0].path, "/v");
}

#[test]
fn a_kind_on_the_map_opens_and_closes() {
    let mut a = App::new(&vec![], vec![], None, "xterm");
    a.click_kind("prod", "Pods");
    a.click_kind("prod", "Services");
    a.click_kind("prod", "Pods");
    assert_eq!(a.graph.atlas_expanded_kinds, vec![("prod".to_string(), "Services".to_string())]);
    a.click_kind("prod", "Services");
    assert!(a.graph.atlas_expanded_kinds.is_empty());
}

#[test]
fn failed_edits_say_what_failed() {
    assert_eq!(EditAction::DryRun.failed("x"), "dry-run error: x");
    assert_eq!(EditAction::Diff.failed("x"), "diff error: x");
    assert_eq!(EditAction::Apply.failed("x"), "apply error: x");
}

#[test]
fn white_space_is_trimmed() {
    assert_eq!(trim("\u{3000}\u{2009}\t a b \u{85}\u{a0}\u{2028}\n"), "a b");
    assert_eq!(trim("\u{200b}x\u{180e}"), "\u{200b}x\u{180e}");
    for n in 0..0x11_0000u32 {
        if let Some(c) = char::from_u32(n) {
            assert_eq!(orka::text::char_is_whitespace(c), c.is_whitespace(), "{:x}", n);
        }
    }
}
