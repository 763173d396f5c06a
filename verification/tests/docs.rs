use designkit::docs::{json_records, yaml_records, DocError};

fn rec(entries: &[(&str, Option<&str>)]) -> Vec<(String, Option<String>)> {
    entries.iter().map(|(k, v)| (k.to_string(), v.map(|s| s.to_string()))).collect()
}

#[test]
fn json_records_lenient_reads_texts_and_skips_non_objects() {
    let text = r#"[{"a": "x", "b": 1, "c": null}, {"a": true}, 5]"#;
    let got = json_records(text, true, false).unwrap();
    assert_eq!(
        got,
        vec![
            rec(&[("a", Some("x")), ("b", Some("1")), ("c", Some(""))]),
            rec(&[("a", Some("true"))]),
            rec(&[]),
        ]
    );
}

#[test]
fn json_records_strict_refuses_non_object_items() {
    let text = r#"[{"a": "x"}, 5]"#;
    assert_eq!(json_records(text, false, true), Err(DocError::ItemNotMap));
}

#[test]
fn json_records_strict_keeps_null_and_nested_texts() {
    let text = r#"[{"a": null, "b": [1, 2], "c": {"d": "e"}}]"#;
    let got = json_records(text, false, true).unwrap();
    assert_eq!(got, vec![rec(&[("a", Some("null")), ("b", Some("[1,2]")), ("c", Some("{\"d\":\"e\"}"))])]);
}

#[test]
fn json_records_errors() {
    assert_eq!(json_records("not json", true, false), Err(DocError::NotParsed));
    assert_eq!(json_records(r#"{"a": 1}"#, true, false), Err(DocError::NotList));
    assert_eq!(json_records("[]", false, true), Ok(vec![]));
}

#[test]
fn yaml_records_lenient_keeps_text_keys_only() {
    let text = "- a: x\n  b: 2\n  1: y\n- 3\n";
    let got = yaml_records(text, false).unwrap();
    assert_eq!(got, vec![rec(&[("a", Some("x")), ("b", Some("2")), ("1", None)]), rec(&[])]);
}

#[test]
fn yaml_records_strict_reads_scalar_keys_and_texts() {
    let text = "- a: ~\n  b: true\n  1: y\n";
    let got = yaml_records(text, true).unwrap();
    assert_eq!(got, vec![rec(&[("a", Some("")), ("b", Some("true")), ("1", Some("y"))])]);
}

#[test]
fn yaml_records_strict_refuses_bad_items() {
    assert_eq!(yaml_records("- a: 1\n- 2\n", true), Err(DocError::ItemNotMap));
    assert_eq!(yaml_records("- [1]: x\n", true), Err(DocError::ItemNotMap));
}

#[test]
fn yaml_records_errors() {
    assert_eq!(yaml_records("a: 1\n", false), Err(DocError::NotList));
    assert_eq!(yaml_records("- [1, 2\n", false), Err(DocError::NotParsed));
}
