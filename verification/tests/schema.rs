use orka::codec::read_json;
use orka::columns::{builtin_columns_for, builtin_projector_for, gvk_key, Projector};
use orka::json::Json;
use orka::schema::{
    crd_schema, derive_projected_from_openapi, find_definition, hint_for, normalize_json_path, read_custom_key,
    validate_yaml, CheckError, PathSpec, SchemaProjector,
};
use orka::small::ProjectedVec;

fn json(text: &str) -> Json {
    read_json(text.as_bytes()).expect("json")
}

fn contains(out: &ProjectedVec, id: u32, text: &str) -> bool {
    (0..out.len()).any(|i| out.get(i) == (id, text))
}

#[test]
fn normalize_json_path_accepts_simple_paths() {
    assert_eq!(normalize_json_path(".spec.foo"), Some("spec.foo".to_string()));
    assert_eq!(normalize_json_path("spec.dnsNames[0]"), Some("spec.dnsNames[0]".to_string()));
    assert_eq!(normalize_json_path("").is_none(), true);
    assert_eq!(normalize_json_path("spec.*").is_none(), true);
    assert_eq!(normalize_json_path("spec.foo[0][1]").is_some(), false);
}

#[test]
fn projector_extracts_scalars() {
    let json = json(
        r#"{
            "spec": {
                "dnsNames": ["a.example.com", "b.example.com"],
                "replicas": 3,
                "paused": false
            }
        }"#,
    );
    let specs = vec![
        PathSpec { id: 1, json_path: "spec.dnsNames[0]".to_string() },
        PathSpec { id: 2, json_path: "spec.replicas".to_string() },
        PathSpec { id: 3, json_path: "spec.paused".to_string() },
    ];
    let pj = SchemaProjector::new(specs);
    let out = pj.project(&json);
    assert!(contains(&out, 1, "a.example.com"));
    assert!(contains(&out, 2, "3"));
    assert!(contains(&out, 3, "false"));
}

#[test]
fn at_most_eight_fields_are_projected() {
    let specs: Vec<PathSpec> = (0..12).map(|i| PathSpec { id: i, json_path: "a".to_string() }).collect();
    let out = SchemaProjector::new(specs).project(&json(r#"{"a": "x"}"#));
    assert_eq!(out.len(), 8);
}

#[test]
fn a_normal_path_stays() {
    let p = normalize_json_path(".status.conditions[2]").unwrap();
    assert_eq!(normalize_json_path(&p), Some(p));
}

#[test]
fn keys_of_custom_kinds() {
    assert_eq!(
        read_custom_key("cert-manager.io/v1/Certificate"),
        Ok(Some(("cert-manager.io".to_string(), "v1".to_string(), "Certificate".to_string())))
    );
    assert_eq!(read_custom_key("v1/Pod"), Ok(None));
    assert!(read_custom_key("x").is_err());
}

#[test]
fn a_definition_gives_a_schema() {
    let crd = json(
        r#"{"spec": {"group": "g.io", "names": {"kind": "Foo"}, "versions": [
            {"name": "v1", "additionalPrinterColumns": [
                {"name": "Ready", "jsonPath": ".status.ready"},
                {"name": "Bad", "jsonPath": ".status.list[*]"}],
             "schema": {"openAPIV3Schema": {"properties": {"spec": {"properties": {
                "replicas": {"type": "integer"}}}}}}}]}}"#,
    );
    assert_eq!(find_definition(&vec![crd.copy()], "g.io", "Foo"), Some(0));
    assert_eq!(find_definition(&vec![crd.copy()], "g.io", "Bar"), None);
    let s = crd_schema(&crd, "v1");
    assert_eq!(s.served_version, "v1");
    assert_eq!(s.printer_cols[0].name, "Ready");
    let paths: Vec<&str> = s.projected_paths.iter().map(|p| p.json_path.as_str()).collect();
    assert!(paths.contains(&"status.ready"), "{:?}", paths);
    assert!(!paths.contains(&"status.list[*]"));
}

#[test]
fn fields_of_a_schema_are_suggested() {
    let s = json(r#"{"properties": {"spec": {"properties": {"replicas": {"type": "integer"}, "x": {"type": "array"}}}}}"#);
    assert_eq!(derive_projected_from_openapi(&s), Some(vec!["spec.replicas".to_string()]));
    assert_eq!(derive_projected_from_openapi(&json("{}")), None);
}

#[test]
fn manifests_are_checked() {
    let schema = json(r#"{"type": "object", "properties": {"n": {"type": "integer"}}}"#);
    assert!(validate_yaml(Some(&schema), "n: 3\n").unwrap().is_empty());
    let issues = validate_yaml(Some(&schema), "n: x\n").unwrap();
    assert_eq!(issues.len(), 1);
    assert_eq!(issues[0].path, "/n");
    let broken = validate_yaml(Some(&schema), "n: [");
    let issues = broken.unwrap();
    assert_eq!(issues.len(), 1);
    assert!(issues[0].error.starts_with("YAML parse error: "));
    assert_eq!(issues[0].hint.as_deref(), Some("check indentation and syntax"));
    let compile = validate_yaml(Some(&json(r#"{"type": 7}"#)), "n: 1\n");
    assert!(matches!(compile, Err(CheckError::Compile)));
    assert_eq!(CheckError::Convert.text(), "converting YAML to JSON");
    assert_eq!(hint_for("nothing to say"), None);
}

#[test]
fn built_in_kinds_have_columns() {
    let cols = builtin_columns_for("", "v1", "Pod", true);
    assert!(cols.len() > 3);
    assert_eq!(gvk_key("", "v1", "Pod"), "v1/Pod");
    assert_eq!(gvk_key("apps", "v1", "Deployment"), "apps/v1/Deployment");
    assert!(builtin_projector_for("", "v1", "Pod").is_some());
    assert!(builtin_projector_for("x", "v1", "Pod").is_none());
}
