use orka::apply::{diff_summary, strip_noisy, DiffSummary};
use orka::codec::read_json;
use orka::gui::details::details_reply;
use orka::gui::highlight::{runs_of, yaml_runs};
use orka::gui::logs::{rgb, Span};
use orka::gui::model::App;
use orka::gui::term::AnsiTerm;
use orka::json::{Json, Num};
use orka::patterns::{ask_all, is_tame, patterns_tame, Ask};
use orka::refs::references_end;
use orka::schema::{validate_value, validate_yaml, CheckError};

fn json(text: &str) -> Json {
    read_json(text.as_bytes()).expect("json")
}

fn spoken(runs: &[Span]) -> String {
    runs.iter().map(|r| r.text.as_str()).collect()
}

#[test]
fn patterns_that_are_matched() {
    assert!(is_tame("^[a-z0-9]([-a-z0-9]*[a-z0-9])?$"));
    assert!(is_tame(r"^\(?(\d{3})\)?[ -](\d{4})$"));
    assert!(is_tame("(?i)x{2,5}"));
    assert!(!is_tame("(?(a)b"));
    assert!(!is_tame("(?(1)"));
    assert!(!is_tame(r"(a)\1"));
    assert!(!is_tame(r"(?<n>a)\k<n>"));
    assert!(!is_tame("(?P<n>a)(?P=n)"));
    assert!(!is_tame("(a{2000}){2000}"));
    assert!(!is_tame("(?x) a { 3 }"));
    assert!(is_tame(r"\\d{3}"));
    assert!(is_tame(r"\p{L}\(?(a)"));
    assert!(!is_tame(r"\p\(?(1)"));
    assert!(!is_tame(r"\P\(?(1)"));
}

#[test]
fn schemas_with_wild_patterns_are_not_checked_against() {
    for schema in [
        r#"{"pattern": "(?(a)b"}"#,
        r#"{"properties": {"n": {"pattern": "(?(1)"}}}"#,
        r#"{"patternProperties": {"(?(a)b": {}}}"#,
        r#"{"items": [{"pattern": "(a)\\1"}]}"#,
    ] {
        let schema = json(schema);
        assert!(!patterns_tame(&schema, &json("{}")));
        assert!(matches!(validate_yaml(Some(&schema), "n: x\n"), Err(CheckError::Unchecked)));
    }
    let format = json(r#"{"properties": {"n": {"format": "regex"}}}"#);
    assert!(patterns_tame(&format, &json(r#"{"n": "a+"}"#)));
    assert!(!patterns_tame(&format, &json(r#"{"n": "(?(a)b"}"#)));
    assert!(validate_yaml(Some(&format), "n: a+\n").unwrap().is_empty());
    assert!(matches!(validate_yaml(Some(&format), "n: '(?(a)b'\n"), Err(CheckError::Unchecked)));
    assert_eq!(
        CheckError::Unchecked.text(),
        "CRD JSON Schema not checked: its references or patterns go too far"
    );
}

#[test]
fn schemas_with_patterns_are_checked_against() {
    let schema = json(r#"{"properties": {"n": {"pattern": "^[a-c]{2}$"}}, "patternProperties": {"^x": {"type": "integer"}}}"#);
    assert!(validate_yaml(Some(&schema), "n: ab\nx1: 3\n").unwrap().is_empty());
    let issues = validate_yaml(Some(&schema), "n: abc\n").unwrap();
    assert_eq!(issues.len(), 1);
    assert_eq!(issues[0].path, "/n");
    let issues = validate_value(&schema, &json(r#"{"x1": "no"}"#)).unwrap();
    assert_eq!(issues[0].path, "/x1");
    let text_elsewhere = json(r#"{"description": "(?(a)b", "type": "object"}"#);
    assert!(validate_yaml(Some(&text_elsewhere), "n: 1\n").is_ok());
}

#[test]
fn references_with_signs_and_identifiers_are_followed() {
    let schema = json(
        r##"{"$id": "http://example.com/root", "properties": {"n": {"$ref": "#/definitions/a%20b"}},
            "definitions": {"a b": {"type": "integer"}}}"##,
    );
    assert!(references_end(&schema, 2));
    assert!(validate_yaml(Some(&schema), "n: 3\n").unwrap().is_empty());
    assert_eq!(validate_yaml(Some(&schema), "n: x\n").unwrap()[0].path, "/n");
    let inner = json(r##"{"items": {"$id": "http://example.com/a", "$ref": "#/a"}}"##);
    assert!(!references_end(&inner, 64));
    assert!(matches!(validate_yaml(Some(&inner), "[1]"), Err(CheckError::Unchecked)));
    assert!(matches!(validate_yaml(Some(&json(r##"{"$ref": "#"}"##)), "n: 1\n"), Err(CheckError::Unchecked)));
}

#[test]
fn references_out_of_a_schema_lead_nowhere() {
    let schema = json(r#"{"properties": {"n": {"$ref": "http://example.invalid/x"}}}"#);
    assert!(references_end(&schema, 1));
    let issues = validate_yaml(Some(&schema), "n: 3\n").unwrap();
    assert_eq!(issues.len(), 1);
    assert!(validate_yaml(Some(&schema), "m: 3\n").unwrap().is_empty());
}

#[test]
fn errors_of_the_text_come_before_those_of_the_schema() {
    let schema = json(r#"{"pattern": "(?(a)b"}"#);
    let issues = validate_yaml(Some(&schema), "n: [").unwrap();
    assert!(issues[0].error.starts_with("YAML parse error: "));
    let issues = validate_yaml(None, "n: [").unwrap();
    assert_eq!(issues[0].error, "no CRD schema available for builtin kind");
}

#[test]
fn elements_that_differ() {
    let schema = json(r#"{"uniqueItems": true}"#);
    let many = "[0.5, 1.5, 2.5, 3.5, 4.5, 5.5, 6.5, 7.5, 8.5, 9.5, 10.5, 11.5, 12.5, 13.5, 14.5, 15.5, 16.5]";
    assert!(ask_all(Ask::Numbers, &json(many)));
    assert!(!ask_all(Ask::Numbers, &json("[1, {\"a\": -0.0}]")));
    assert!(validate_yaml(Some(&schema), many).unwrap().is_empty());
    assert_eq!(validate_yaml(Some(&schema), "[0.5, 1, 0.5]").unwrap().len(), 1);
}

#[test]
fn what_is_read_is_in_order() {
    let a = json(r#"{"b": 1, "a": {"d": 2, "c": 3}, "metadata": {"x": 1, "generation": 4}, "status": {}}"#);
    let b = json(r#"{"metadata": {"x": 1}, "a": {"c": 3, "d": 2}, "b": 1}"#);
    let none = DiffSummary { adds: 0, updates: 0, removes: 0 };
    assert_eq!(diff_summary(&strip_noisy(a.copy()), &strip_noisy(b.copy())), none);
    let ab = diff_summary(&a, &b);
    let ba = diff_summary(&b, &a);
    assert_eq!((ab.adds, ab.updates, ab.removes), (ba.removes, ba.updates, ba.adds));
    match &a {
        Json::Object(m) => assert_eq!(m[0].0, "a"),
        _ => panic!("no object"),
    }
}

#[test]
fn numbers_that_are_none_are_null() {
    let schema = json(r#"{"type": "null"}"#);
    assert!(validate_value(&schema, &Json::Number(Num::Float("{}".to_string()))).unwrap().is_empty());
    let number = json(r#"{"type": "number"}"#);
    assert!(validate_value(&number, &Json::Number(Num::Float("1.5".to_string()))).unwrap().is_empty());
}

#[test]
fn secrets_that_differ_in_values_look_alike() {
    let a = details_reply(br#"{"kind": "Secret", "data": {"p": "aGk=", "q": "eA=="}, "x": {"!a": 1}}"#, 1000);
    let b = details_reply(br#"{"kind": "Secret", "data": {"p": "eW8=", "q": "eQ=="}, "x": {"!a": 1}}"#, 1000);
    assert_eq!(a.text, b.text);
    assert_eq!(a.text, "data:\n  p: '[REDACTED]'\n  q: '[REDACTED]'\nkind: Secret\nx:\n  '!a': 1\n");
}

#[test]
fn terminals_without_a_place() {
    let t = AnsiTerm::new(0, 5);
    assert_eq!((t.cols, t.rows, t.grid.len()), (0, 5, 0));
    let mut t = AnsiTerm::new(0, 0);
    t.resize(3, 2);
    assert_eq!((t.cols, t.rows, t.grid.len()), (3, 2, 6));
    t.put_char('x');
    t.resize(0, 2);
    assert_eq!(t.grid.len(), 0);
}

#[test]
fn yaml_in_colours() {
    let text = "a: 1\n# note\n\n  b: \"x\"";
    for dark in [true, false] {
        let runs = yaml_runs(text, dark, rgb(1, 2, 3));
        assert_eq!(spoken(&runs), text);
        let note = runs.iter().find(|r| r.text.contains("note")).expect("note");
        let name = runs.iter().find(|r| r.text == "a").expect("name");
        assert_ne!(note.color, name.color);
        assert_ne!(name.color, rgb(1, 2, 3));
        assert!(runs.iter().filter(|r| r.text == "\n").all(|r| r.color == rgb(1, 2, 3)));
    }
    let dark = yaml_runs("a: 1", true, rgb(1, 2, 3));
    let light = yaml_runs("a: 1\n", false, rgb(1, 2, 3));
    assert_eq!(spoken(&light), "a: 1\n");
    assert_eq!(spoken(&dark), "a: 1");
    assert!(yaml_runs("", true, rgb(1, 2, 3)).is_empty());
}

#[test]
fn pieces_that_make_up_a_line() {
    let fg = rgb(9, 9, 9);
    let good = Some(vec![("a".to_string(), (1, 2, 3, 4)), ("b".to_string(), (5, 6, 7, 8))]);
    let bad = Some(vec![("a".to_string(), (1, 2, 3, 4))]);
    let runs = runs_of("ab\nab\nc\n", &vec![good, bad], fg);
    let shown: Vec<(&str, u8)> = runs.iter().map(|r| (r.text.as_str(), r.color.r)).collect();
    assert_eq!(shown, vec![("a", 1), ("b", 5), ("\n", 9), ("ab", 9), ("\n", 9), ("c", 9), ("\n", 9)]);
    assert_eq!(runs[1].color.a, 8);
}

#[test]
fn a_group_of_related_objects_opens_and_closes() {
    let mut a = App::new(&vec![], vec![], None, "xterm");
    a.click_group("Pods");
    a.click_group("Secret");
    assert_eq!(a.graph.details_expanded_kinds, vec!["Pods".to_string(), "Secret".to_string()]);
    a.click_group("Pods");
    assert_eq!(a.graph.details_expanded_kinds, vec!["Secret".to_string()]);
}
