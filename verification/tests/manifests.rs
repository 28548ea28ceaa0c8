use phpswitch::manifest::{declared_constraint, ManifestError};

fn declared(text: &str) -> Result<Option<String>, ManifestError> {
    declared_constraint(text.as_bytes())
}

#[test]
fn manifest_declares_the_string_under_require_php() {
    assert_eq!(
        declared("{\"require\": {\"php\": \"^8.1 || ^8.2\"}}"),
        Ok(Some("^8.1 || ^8.2".to_string()))
    );
    assert_eq!(
        declared("{\"name\": \"a/b\", \"require\": {\"x/y\": \"^1\", \"php\": \">=7.4\"}}"),
        Ok(Some(">=7.4".to_string()))
    );
}

#[test]
fn manifest_keeps_the_declared_text_as_it_is() {
    assert_eq!(declared("{\"require\": {\"php\": \"\"}}"), Ok(Some(String::new())));
    assert_eq!(declared("{\"require\": {\"php\": \" ^8 \"}}"), Ok(Some(" ^8 ".to_string())));
    assert_eq!(
        declared("{\"require\": {\"php\": \"\\\"^8\\\"\"}}"),
        Ok(Some("\"^8\"".to_string()))
    );
}

#[test]
fn manifest_without_the_member_declares_nothing() {
    assert_eq!(declared("{}"), Ok(None));
    assert_eq!(declared("{\"require\": {}}"), Ok(None));
    assert_eq!(declared("{\"require\": {\"ext-json\": \"*\"}}"), Ok(None));
    assert_eq!(declared("{\"php\": \"^8.1\"}"), Ok(None));
    assert_eq!(declared("{\"require-dev\": {\"php\": \"^8.1\"}}"), Ok(None));
}

#[test]
fn manifest_with_another_kind_of_value_declares_nothing() {
    assert_eq!(declared("{\"require\": {\"php\": 8}}"), Ok(None));
    assert_eq!(declared("{\"require\": {\"php\": null}}"), Ok(None));
    assert_eq!(declared("{\"require\": {\"php\": [\"^8.1\"]}}"), Ok(None));
    assert_eq!(declared("{\"require\": {\"php\": {\"php\": \"^8.1\"}}}"), Ok(None));
    assert_eq!(declared("{\"require\": \"php\"}"), Ok(None));
    assert_eq!(declared("{\"require\": [\"php\"]}"), Ok(None));
    assert_eq!(declared("\"^8.1\""), Ok(None));
    assert_eq!(declared("[]"), Ok(None));
    assert_eq!(declared("null"), Ok(None));
}

#[test]
fn manifest_that_is_no_json_is_malformed() {
    assert_eq!(
        declared("nope"),
        Err(ManifestError::Malformed {
            report: "Error(\"expected ident\", line: 1, column: 2)".to_string()
        })
    );
    assert_eq!(
        declared(""),
        Err(ManifestError::Malformed {
            report: "Error(\"EOF while parsing a value\", line: 1, column: 0)".to_string()
        })
    );
    assert_eq!(
        declared("{\"require\": {\"php\": \"^8.1\"}} x"),
        Err(ManifestError::Malformed {
            report: "Error(\"trailing characters\", line: 1, column: 30)".to_string()
        })
    );
}

#[test]
fn manifest_that_is_no_text_is_malformed() {
    assert!(matches!(
        declared_constraint(&[0xff, 0xfe]),
        Err(ManifestError::Malformed { .. })
    ));
    assert!(matches!(
        declared_constraint(b"{\"require\": {\"php\": \"\xff\"}}"),
        Err(ManifestError::Malformed { .. })
    ));
}

#[test]
fn malformed_report_is_the_parser_s_own() {
    let bytes = b"{\"require\": ";
    let error = serde_json::from_slice::<serde_json::Value>(bytes).unwrap_err();
    assert_eq!(
        declared_constraint(bytes),
        Err(ManifestError::Malformed { report: format!("{:?}", error) })
    );
}
