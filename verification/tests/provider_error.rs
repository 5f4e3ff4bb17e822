use agy_byok::domain::error::{ErrorCategory, ProxyError};
use agy_byok::providers::error::{
    classify_response_error, is_context_length_identifier, is_context_length_message,
};

#[test]
fn classifies_openai_compatible_context_limit_identifiers() {
    for (status, body) in [
        (
            400,
            r#"{"error":{"code":"context_length_exceeded","type":"invalid_request_error","message":"Request rejected"}}"#,
        ),
        (
            413,
            r#"{"error":{"type":"too_many_tokens","message":"Request rejected"}}"#,
        ),
        (
            422,
            r#"{"error":{"status":"CONTEXT_WINDOW_EXCEEDED","message":"Request rejected"}}"#,
        ),
    ] {
        assert_eq!(
            classify_response_error(status, body),
            ErrorCategory::ContextLengthExceeded,
            "body: {body}"
        );
    }
}

#[test]
fn classifies_anthropic_prompt_token_overflow() {
    let body = r#"{
        "type":"error",
        "error":{
            "type":"invalid_request_error",
            "message":"prompt is too long: 213079 tokens > 200000 maximum"
        }
    }"#;

    assert_eq!(
        classify_response_error(400, body),
        ErrorCategory::ContextLengthExceeded
    );
}

#[test]
fn classifies_gemini_input_token_overflow() {
    let body = r#"{
        "error":{
            "code":400,
            "message":"The input token count (1049575) exceeds the maximum number of tokens allowed (1048576).",
            "status":"INVALID_ARGUMENT"
        }
    }"#;

    assert_eq!(
        classify_response_error(400, body),
        ErrorCategory::ContextLengthExceeded
    );
}

#[test]
fn ordinary_413_errors_remain_invalid_requests() {
    for body in [
        r#"{"error":{"type":"request_too_large","message":"Payload too large"}}"#,
        r#"{"type":"error","error":{"type":"request_too_large","message":"Request exceeds the maximum allowed number of bytes"}}"#,
        r#"{"error":{"code":413,"message":"Request payload size exceeds the 20 MB limit","status":"RESOURCE_EXHAUSTED"}}"#,
    ] {
        assert_eq!(
            classify_response_error(413, body),
            ErrorCategory::InvalidRequest,
            "body: {body}"
        );
    }
}

#[test]
fn output_token_parameter_errors_remain_invalid_requests() {
    for body in [
        r#"{"error":{"code":"max_tokens_exceeded","message":"max_tokens exceeds the maximum allowed value"}}"#,
        r#"{"error":{"code":"reasoning_tokens_exceeded","message":"reasoning token budget exceeds the output limit"}}"#,
    ] {
        assert_eq!(
            classify_response_error(400, body),
            ErrorCategory::InvalidRequest,
            "body: {body}"
        );
    }
}

#[test]
fn preserves_existing_special_status_categories() {
    let explicit_context_error = r#"{"error":{"code":"context_length_exceeded"}}"#;

    for (status, expected) in [
        (401, ErrorCategory::Authentication),
        (403, ErrorCategory::Authentication),
        (404, ErrorCategory::ModelNotFound),
        (429, ErrorCategory::RateLimit),
        (500, ErrorCategory::UpstreamServerError),
        (599, ErrorCategory::UpstreamServerError),
    ] {
        assert_eq!(
            classify_response_error(status, explicit_context_error),
            expected
        );
    }
}

#[test]
fn context_length_errors_are_not_retryable_for_fallback() {
    let error = ProxyError::new(ErrorCategory::ContextLengthExceeded, "too many tokens", 400);

    assert!(!error.is_retryable_for_fallback());
}

#[test]
fn non_json_bodies_are_invalid_requests() {
    assert_eq!(
        classify_response_error(400, "prompt is too long: 300000 tokens > 200000 maximum"),
        ErrorCategory::InvalidRequest
    );
}

#[test]
fn quota_identifiers_are_not_context_errors() {
    assert!(!is_context_length_identifier("rate_limit_exceeded"));
    assert!(is_context_length_identifier(" Context-Length Exceeded "));
    assert!(!is_context_length_message("Tokens per minute exceeded"));
    assert!(!is_context_length_message("max_tokens is too large"));
    assert!(is_context_length_message("This model's maximum context length is 8192 tokens"));
}

#[test]
fn retryable_categories_allow_fallback() {
    for (category, retryable) in [
        (ErrorCategory::Timeout, true),
        (ErrorCategory::ConnectionFailed, true),
        (ErrorCategory::RateLimit, true),
        (ErrorCategory::UpstreamServerError, true),
        (ErrorCategory::Authentication, false),
        (ErrorCategory::Internal, false),
    ] {
        assert_eq!(ProxyError::new(category, "x", 500).is_retryable_for_fallback(), retryable);
    }
}

#[test]
fn error_codes_and_description_are_stable() {
    assert_eq!(ErrorCategory::ContextLengthExceeded.as_str(), "context_length_exceeded");
    let error = ProxyError::new(ErrorCategory::Timeout, "slow", 504).with_upstream_body("body");
    assert_eq!(error.describe(), "ProxyError(Timeout, status=504): slow");
    assert_eq!(error.upstream_body.as_deref(), Some("body"));
}
