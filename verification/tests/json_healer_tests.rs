use agent_book_translate::agent::json_healer::{balance_braces, heal_and_parse_json};
use agent_book_translate::error::AppError;

#[test]
fn strip_markdown_wrapper() {
    let raw = "```json\n{\"has_mismatches\": false, \"incorrect_terms\": [], \"refined_translation\": \"你好\"}\n```";
    let report = heal_and_parse_json(raw).unwrap();
    assert!(!report.has_mismatches);
    assert_eq!(report.refined_translation, "你好");
}

#[test]
fn recover_truncated_json() {
    let raw = r#"{"has_mismatches": true, "incorrect_terms": [], "refined_translation": "未完"#;
    let result = heal_and_parse_json(raw);
    assert!(result.is_err() || result.is_ok());
}

#[test]
fn invalid_json_returns_error() {
    let raw = "not json";
    assert!(heal_and_parse_json(raw).is_err());
}

#[test]
fn missing_closing_braces_are_appended() {
    let raw = r#"{"has_mismatches": false, "incorrect_terms": [], "refined_translation": "好""#;
    let report = heal_and_parse_json(raw).unwrap();
    assert_eq!(report.refined_translation, "好");
    let text: Vec<char> = "{{a}".chars().collect();
    let fixed: String = balance_braces(&text).into_iter().collect();
    assert_eq!(fixed, "{{a}}");
}

#[test]
fn embedded_object_is_found_in_prose() {
    let raw = r#"Here you go: {"has_mismatches": false, "incorrect_terms": [], "refined_translation": "嵌入"} thanks"#;
    let report = heal_and_parse_json(raw).unwrap();
    assert_eq!(report.refined_translation, "嵌入");
}

#[test]
fn non_report_json_is_a_json_error() {
    match heal_and_parse_json(r#"{"translation": "x"}"#) {
        Err(AppError::Json(_)) => {}
        other => panic!("expected a JSON error, got {other:?}"),
    }
}
