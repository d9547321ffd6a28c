use agent_book_translate::agent::client::{
    backoff_for, extract_content, interpret_reply, parse_critique, parse_translation_content,
    retry_step, AttemptOutcome, RetryStep, TranslationResult, MAX_ATTEMPTS,
};
use agent_book_translate::error::AppError;
use agent_book_translate::pipeline::progress::TokenUsage;

fn reply(content: &str) -> String {
    let escaped = content.replace('\\', "\\\\").replace('"', "\\\"");
    format!(
        "{{\"id\":\"chatcmpl-test\",\"choices\":[{{\"index\":0,\"message\":{{\"role\":\"assistant\",\"content\":\"{escaped}\"}}}}],\"usage\":{{\"prompt_tokens\":10,\"completion_tokens\":5,\"total_tokens\":15}}}}"
    )
}

#[test]
fn nested_assistant_content_is_unwrapped() {
    let raw = r#"{"role": "assistant", "content": "The Project Gutenberg™ Full License"}"#;

    let translation = parse_translation_content(raw).unwrap();

    assert_eq!(translation, "The Project Gutenberg™ Full License");
}

#[test]
fn critique_report_returns_refined_translation() {
    let raw = r#"{"has_mismatches": false, "incorrect_terms": [], "refined_translation": "译文"}"#;

    let translation = parse_translation_content(raw).unwrap();

    assert_eq!(translation, "译文");
}

#[test]
fn message_field_is_used_as_translation_fallback() {
    let raw = r#"{"status":"success","message":"你好世界","ai_persona":"helpful assistant"}"#;

    let translation = parse_translation_content(raw).unwrap();

    assert_eq!(translation, "你好世界");
}

#[test]
fn malformed_translation_wrapper_is_unwrapped() {
    let raw = r#"{"translation": "他说："你好。""}"#;

    let translation = parse_translation_content(raw).unwrap();

    assert_eq!(translation, "他说：\"你好。\"");
}

#[test]
fn plain_text_reply_is_kept_trimmed() {
    assert_eq!(parse_translation_content("  你好  \n").unwrap(), "你好");
    assert_eq!(
        parse_translation_content("```json\n{\"translation\": \"包裹\"}\n```").unwrap(),
        "包裹"
    );
}

#[test]
fn json_without_translation_is_an_error() {
    let err = parse_translation_content(r#"{"status": 500}"#).unwrap_err();
    assert!(matches!(err, AppError::Translation(_)));
    let err = parse_translation_content("[1, 2]").unwrap_err();
    assert!(matches!(err, AppError::Translation(_)));
}

#[test]
fn chat_completion_content_is_extracted() {
    let body = reply(r#"{"translation": "你好"}"#);
    assert_eq!(extract_content(&body).as_deref(), Some(r#"{"translation": "你好"}"#));
    assert_eq!(extract_content("{\"choices\": []}"), None);
    assert_eq!(extract_content("not json"), None);
}

#[test]
fn reply_is_read_into_a_result() {
    let body = reply(r#"{"translation": "测试"}"#);
    let result = interpret_reply(&body, 2).unwrap();
    assert_eq!(result.translation, "测试");
    assert_eq!(
        result.usage,
        TokenUsage { prompt_tokens: 10, completion_tokens: 5, total_tokens: 15 }
    );
    assert_eq!(result.retries, 2);
}

#[test]
fn backoff_doubles_from_one_second() {
    assert_eq!(backoff_for(1), 1);
    assert_eq!(backoff_for(2), 2);
    assert_eq!(backoff_for(3), 4);
    assert_eq!(backoff_for(4), 8);
}

#[test]
fn test_retry_on_invalid_json_format_succeeds() {
    let bad = reply(r#"{"status": 500}"#);
    match retry_step(1, AttemptOutcome::Replied(bad)) {
        RetryStep::Wait(secs) => assert_eq!(secs, 1),
        other => panic!("expected a retry, got {other:?}"),
    }
    let good = reply(r#"{"translation": "成功重试译文"}"#);
    match retry_step(2, AttemptOutcome::Replied(good)) {
        RetryStep::Done(TranslationResult { translation, retries, .. }) => {
            assert_eq!(translation, "成功重试译文");
            assert_eq!(retries, 1);
        }
        other => panic!("expected success, got {other:?}"),
    }
}

#[test]
fn rate_limit_retries_then_gives_up() {
    match retry_step(1, AttemptOutcome::RateLimited) {
        RetryStep::Wait(secs) => assert_eq!(secs, 1),
        other => panic!("expected a retry, got {other:?}"),
    }
    match retry_step(MAX_ATTEMPTS, AttemptOutcome::RateLimited) {
        RetryStep::Fail(AppError::Translation(m)) => assert_eq!(m, "rate limited after retries"),
        other => panic!("expected failure, got {other:?}"),
    }
}

#[test]
fn last_failed_status_is_reported() {
    match retry_step(3, AttemptOutcome::Status("500 Internal Server Error".to_string())) {
        RetryStep::Wait(secs) => assert_eq!(secs, 4),
        other => panic!("expected a retry, got {other:?}"),
    }
    match retry_step(5, AttemptOutcome::Status("500 Internal Server Error".to_string())) {
        RetryStep::Fail(AppError::Translation(m)) => {
            assert_eq!(m, "request failed with status 500 Internal Server Error")
        }
        other => panic!("expected failure, got {other:?}"),
    }
    match retry_step(5, AttemptOutcome::Transport("connection refused".to_string())) {
        RetryStep::Fail(AppError::Http(m)) => assert_eq!(m, "connection refused"),
        other => panic!("expected failure, got {other:?}"),
    }
    match retry_step(5, AttemptOutcome::Replied(reply(r#"{"status": 1}"#))) {
        RetryStep::Fail(AppError::Translation(_)) => {}
        other => panic!("expected failure, got {other:?}"),
    }
}

#[test]
fn unreadable_body_fails_at_once() {
    match retry_step(1, AttemptOutcome::BodyUnreadable("body closed".to_string())) {
        RetryStep::Fail(AppError::Http(m)) => assert_eq!(m, "body closed"),
        other => panic!("expected failure, got {other:?}"),
    }
}

#[test]
fn critique_is_parsed_from_reply() {
    let report =
        parse_critique(r#"{"has_mismatches": true, "incorrect_terms": [{"term": "a", "expected": "b", "actual": "c"}], "refined_translation": "好"}"#)
            .unwrap();
    assert!(report.has_mismatches);
    assert_eq!(report.incorrect_terms.len(), 1);
    assert_eq!(report.incorrect_terms[0].expected, "b");
    assert_eq!(report.refined_translation, "好");
}

#[test]
fn errors_are_shown_with_their_area() {
    assert_eq!(
        AppError::Translation("rate limited after retries".to_string()).describe(),
        "translation error: rate limited after retries"
    );
    assert_eq!(AppError::Config("x".to_string()).message(), "x");
    assert_eq!(AppError::Database("locked".to_string()).describe(), "database error: locked");
}

#[test]
fn normal_translation_response_returns_text() {
    let body = reply(r#"{"translation": "你好，世界"}"#);
    let result = interpret_reply(&body, 0).unwrap();
    assert_eq!(result.translation, "你好，世界");
}

#[test]
fn refined_translation_wrapper_is_normalized() {
    let content =
        r#"{"has_mismatches": false, "incorrect_terms": [], "refined_translation": "译文内容"}"#;
    let result = interpret_reply(&reply(content), 0).unwrap();
    assert_eq!(result.translation, "译文内容");
}

#[test]
fn malformed_json_wrapper_is_recovered() {
    let content = r#"{"translation": "他说："先生好。""}"#;
    let result = interpret_reply(&reply(content), 0).unwrap().translation;
    assert!(
        !result.contains(r#"{"translation""#),
        "JSON wrapper must not appear in result, got: {result:?}"
    );
    assert!(result.contains("先生好"), "translated content must be present, got: {result:?}");
}

#[test]
fn token_usage_is_accumulated_from_response() {
    let result = interpret_reply(&reply(r#"{"translation": "测试"}"#), 0).unwrap();
    assert_eq!(result.usage.prompt_tokens, 10);
    assert_eq!(result.usage.completion_tokens, 5);
    assert_eq!(result.usage.total_tokens, 15);
}

#[test]
fn token_usage_accumulates_across_requests() {
    let mut total = TokenUsage::default();
    for _ in 0..3 {
        let result = interpret_reply(&reply(r#"{"translation": "一"}"#), 0).unwrap();
        total.prompt_tokens += result.usage.prompt_tokens;
        total.completion_tokens += result.usage.completion_tokens;
        total.total_tokens += result.usage.total_tokens;
    }
    assert_eq!(total.prompt_tokens, 30);
    assert_eq!(total.completion_tokens, 15);
    assert_eq!(total.total_tokens, 45);
}

#[test]
fn rate_limit_triggers_retry_and_succeeds() {
    match retry_step(1, AttemptOutcome::RateLimited) {
        RetryStep::Wait(secs) => assert_eq!(secs, 1),
        other => panic!("expected a retry, got {other:?}"),
    }
    match retry_step(2, AttemptOutcome::Replied(reply(r#"{"translation": "重试成功"}"#))) {
        RetryStep::Done(result) => {
            assert_eq!(result.translation, "重试成功");
            assert_eq!(result.retries, 1);
        }
        other => panic!("expected success, got {other:?}"),
    }
}
