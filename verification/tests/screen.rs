use orka::codec::read_json;
use orka::gui::describe::{describe_reply, event_line, events_to_fetch, render_describe};
use orka::gui::details::{
    caret_line, compile_grep, containers_of, decode_entry, details_reply, gutter, indent_levels, key_bytes, redact,
    TermKey,
};
use orka::gui::external::{applescript_escape, args_to_cmd, plan_launch, Launch, Platform};
use orka::gui::graph::{build_graph_model, build_graph_text, color_of_group, pod_selector, target_of_node};
use orka::gui::logs::{
    apply_sgr, color_code_for, parse_line, parse_line_to_job, parse_line_to_job_hl, parse_timestamp_utc, rgb,
    stream_prefix, visible_rows, LogStyler, ParsedLine, PrefixTheme,
};
use orka::gui::palette::{is_marked, parse_query};
use orka::gui::search::take_filter;
use orka::gui::term::{ansi_index_to_color, AnsiTerm};
use orka::gui::view::{matching_namespaces, map_place, mode_label};
use orka::gui::results::VirtualMode;
use orka::json::Json;
use orka::types::ResourceKind;
use std::collections::VecDeque;

fn json(text: &str) -> Json {
    read_json(text.as_bytes()).expect("json")
}

fn kind(name: &str) -> ResourceKind {
    ResourceKind { group: String::new(), version: "v1".to_string(), kind: name.to_string(), namespaced: true }
}

fn list(v: &[&str]) -> Vec<String> {
    v.iter().map(|s| s.to_string()).collect()
}

#[test]
fn arguments_are_escaped_for_a_shell() {
    assert_eq!(args_to_cmd("kubectl", &list(&["exec", "a b", "x"])), "kubectl exec 'a b' x");
    assert_eq!(applescript_escape("a\"b\\c"), "a\\\"b\\\\c");
}

#[test]
fn terminals_are_launched() {
    let plan = plan_launch(Platform::Unix, "xterm", &list(&["exec"]), "t");
    assert_eq!(plan.len(), 2);
    match &plan[0] {
        Launch::Run { program, args } => {
            assert_eq!(program, "xterm");
            assert_eq!(args, &list(&["-e", "kubectl", "exec"]));
        }
        Launch::Script(_) => panic!("a script"),
    }
}

#[test]
fn colours_of_a_line() {
    let styler = LogStyler::new().expect("styler");
    let base = rgb(1, 2, 3);
    let runs = parse_line_to_job(&styler, "a\u{1b}[31mb\u{1b}[0mc", base, false);
    let texts: Vec<&str> = runs.iter().map(|r| r.text.as_str()).collect();
    assert_eq!(texts, vec!["a", "b", "c"]);
    assert_eq!(runs[0].color, base);
    assert_ne!(runs[1].color, base);
    assert_eq!(runs[2].color, base);
    assert_eq!(apply_sgr("0", rgb(9, 9, 9), base), base);
    let plain = parse_line_to_job(&styler, "level=error", base, false);
    assert_eq!(plain.len(), 1);
    let marked = parse_line_to_job(&styler, "ERROR here", base, true);
    assert!(marked.len() > 1);
}

#[test]
fn matches_are_underlined() {
    let styler = LogStyler::new().expect("styler");
    let re = compile_grep("b+").0.expect("regex");
    let runs = parse_line_to_job_hl(&styler, "abbc", rgb(1, 2, 3), false, Some(&re));
    let seen: Vec<(&str, bool)> = runs.iter().map(|r| (r.text.as_str(), r.underline)).collect();
    assert_eq!(seen, vec![("a", false), ("bb", true), ("c", false)]);
    let bad = compile_grep("(");
    assert!(bad.0.is_none() && bad.1.is_some());
}

#[test]
fn lines_carry_their_time() {
    assert_eq!(parse_timestamp_utc("1970-01-01T00:01:00.5Z hello"), Some((60, 500_000_000)));
    assert_eq!(parse_timestamp_utc("hello"), None);
    assert_eq!(parse_timestamp_utc(""), None);
}

#[test]
fn lines_that_are_shown() {
    let styler = LogStyler::new().expect("styler");
    let mut ring: VecDeque<ParsedLine> = VecDeque::new();
    for t in ["1970-01-01T00:00:02Z b", "1970-01-01T00:00:01Z a", "x", "1970-01-01T00:00:03Z c"] {
        ring.push_back(parse_line(&styler, t.to_string(), rgb(0, 0, 0), false, None));
    }
    assert_eq!(visible_rows(&ring, None, true, true, 2), vec![2, 3]);
    assert_eq!(visible_rows(&ring, None, true, false, 100), vec![0, 1, 2, 3]);
    let re = compile_grep("a|c").0.expect("regex");
    assert_eq!(visible_rows(&ring, Some(&re), true, false, 100), vec![1, 3]);
    let sorted = visible_rows(&ring, None, false, true, 100);
    let at = |i: usize| sorted.iter().position(|x| *x == i).unwrap();
    assert!(at(1) < at(0) && at(0) < at(3));
}

#[test]
fn prefixes_of_streams() {
    assert_eq!(stream_prefix("web", PrefixTheme::NoColor), "[web] ");
    assert_eq!(color_code_for("web", PrefixTheme::Gray), Some(90));
    let c = color_code_for("", PrefixTheme::Basic).unwrap();
    assert_eq!(c, 31 + (2166136261u32 % 7) as i32);
}

#[test]
fn a_secret_is_hidden() {
    let v = json(r#"{"kind": "Secret", "data": {"p": "aGk="}, "type": "Opaque"}"#);
    let r = redact(v);
    assert_eq!(r.str_of2("data", "p"), Some("[REDACTED]"));
    assert_eq!(r.str_of("type"), Some("Opaque"));
    assert_eq!(decode_entry("aGk="), Some("hi".to_string()));
    assert_eq!(decode_entry("***"), Some(String::new()));
    assert_eq!(decode_entry("//8="), None);
    let d = details_reply(br#"{"kind": "Secret", "data": {"p": "aGk="}}"#, 1000);
    assert!(d.text.contains("[REDACTED]") && !d.text.contains("aGk="));
    let e = d.entries.unwrap();
    assert_eq!(e[0].shown(true), "hi");
}

#[test]
fn details_of_objects() {
    let d = details_reply(br#"{"kind": "Pod", "spec": {"containers": [{"name": "a"}, {"name": "b"}]}}"#, 1000);
    assert_eq!(d.containers, Some(list(&["a", "b"])));
    assert!(d.text.contains("kind: Pod\n"));
    let d = details_reply(b"0123456789", 5);
    assert!(d.text.starts_with("object too large to render (10 bytes > 5)"));
    assert_eq!(details_reply(b"plain \xff", 100).text, "plain \u{fffd}");
    assert!(containers_of(&json("{}")).is_empty());
}

#[test]
fn helpers_of_the_editor() {
    assert_eq!(gutter("a\nb"), " 1\n 2\n");
    assert_eq!(caret_line("a\nb\nc", 4), 2);
    assert_eq!(indent_levels("    x"), 2);
    assert_eq!(key_bytes(TermKey::Enter), b"\r".to_vec());
}

#[test]
fn descriptions() {
    let t = render_describe(&json(r#"{"kind": "Secret", "metadata": {"name": "s", "namespace": "n"}, "type": "Opaque", "data": {"p": "x"}}"#));
    assert!(t.contains("Opaque") && t.contains("Data keys:\n") && t.contains("p"));
    assert!(!t.contains("x\n"));
    let (_, queries) = describe_reply(br#"{"kind": "Pod", "metadata": {"name": "a", "uid": "u1"}}"#);
    assert_eq!(queries[0], ("events.k8s.io/v1/Event".to_string(), "regarding.uid=u1".to_string()));
    assert_eq!(events_to_fetch(&json("{}")).len(), 0);
    let line = event_line(&json(r#"{"type": "Normal", "reason": "Pulled", "note": "ok", "deprecatedCount": 3}"#));
    assert_eq!(line, format!("  Normal {:<24} ok (x3)", "Pulled"));
}

#[test]
fn relations_of_an_object() {
    let pod = json(
        r#"{"kind": "Pod", "metadata": {"name": "web-0", "namespace": "n"},
            "spec": {"serviceAccountName": "sa1", "volumes": [{"configMap": {"name": "cm1"}}]}}"#,
    );
    let text = build_graph_text(&vec![pod.copy()], &kind("Pod"), 0);
    assert!(text.contains("cm1") && text.contains("sa1"), "{}", text);
    let m = build_graph_model(&vec![pod], &kind("Pod"), &Some("n".to_string()), 0);
    assert!(m.nodes.iter().any(|n| n.id == "cm:cm1"));
    assert!(m.edges.iter().all(|e| m.nodes.iter().any(|n| n.id == e.to)));
    let (k, ns, name) = target_of_node("cm:cm1", "n").unwrap();
    assert_eq!((k.kind.as_str(), ns.as_str(), name.as_str()), ("ConfigMap", "n", "cm1"));
    assert!(target_of_node("x", "n").is_none());
    assert_eq!(color_of_group("Pods"), Some((86, 204, 149)));
    assert_eq!(pod_selector(&json(r#"{"spec": {"selector": {"app": "web"}}}"#)).as_deref(), Some("app=web"));
}

#[test]
fn queries() {
    let q = parse_query("ns:prod K:x k:Pod g:apps Web  Front");
    assert_eq!(q.ns.as_deref(), Some("prod"));
    assert_eq!(q.kind.as_deref(), Some("Pod"));
    assert_eq!(q.group.as_deref(), Some("apps"));
    assert_eq!(q.text, "k:x web front");
    let (f, rest) = take_filter(list(&["ns:a", "b", "ns:c"]), "ns:");
    assert_eq!(f.as_deref(), Some("c"));
    assert_eq!(rest, list(&["b"]));
    assert!(is_marked(&vec![1, 3], 3));
}

#[test]
fn a_terminal() {
    let mut t = AnsiTerm::new(4, 2);
    for c in "abcde".chars() {
        t.put_char(c);
    }
    let row = |t: &AnsiTerm, y: u16| -> String { t.line_runs(y, 4).iter().map(|r| r.text.clone()).collect() };
    assert_eq!(row(&t, 0), "abcd");
    assert_eq!(row(&t, 1).trim_end(), "e");
    t.newline();
    assert_eq!(row(&t, 0).trim_end(), "e");
    t.clear_screen();
    assert_eq!(row(&t, 0).trim_end(), "");
    t.move_to(0, 0);
    t.put_char('x');
    t.csi_dispatch(&vec![1, 1], 'H');
    t.put_char('y');
    assert_eq!(row(&t, 0).trim_end(), "y");
    assert!(ansi_index_to_color(1).is_some());
}

#[test]
fn namespaces_match_without_regard_to_case() {
    let all = list(&["Prod", "dev", "pre-PROD"]);
    assert_eq!(matching_namespaces(&all, "pRoD"), list(&["Prod", "pre-PROD"]));
    assert_eq!(matching_namespaces(&all, ""), all);
    assert_eq!(map_place(7), (2, 1));
    assert_eq!(mode_label(VirtualMode::On), "Virtual");
}
