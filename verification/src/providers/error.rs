//! Classification of upstream error responses.

use crate::domain::error::ErrorCategory;
use crate::json::{json_parse_result, parse_json, Json, JsonValue};
use crate::text::{
    decimal, push_decimal, push_str, slice_range, string_from_chars,
    chars_of, contains, contains_any, contains_any_str, contains_str, dashes_to_underscores,
    lower, to_lower, trim, trim_chars, underscore_char,
};
use vstd::prelude::*;

verus! {

pub open spec fn context_terms() -> Seq<&'static str> {
    seq!["context_length", "context_window", "context_limit"]
}

pub open spec fn output_terms() -> Seq<&'static str> {
    seq!["output_token", "completion_token", "max_token", "thinking_token", "reasoning_token"]
}

pub open spec fn quota_terms() -> Seq<&'static str> {
    seq!["rate_limit", "quota", "per_minute", "per_second"]
}

pub open spec fn excess_terms() -> Seq<&'static str> {
    seq!["exceed", "too_long", "too_many", "too_large", "overflow"]
}

/// An error code, type or status naming an exceeded context or input-token limit.
pub open spec fn spec_is_context_length_identifier(identifier: Seq<char>) -> bool {
    let n = lower(trim(identifier)).map_values(|c: char| underscore_char(c));
    let context_limit = contains_any(n, context_terms());
    let output_limit = contains_any(n, output_terms());
    let token_limit = contains(n, "token"@) && !output_limit;
    let rate_or_quota = contains_any(n, quota_terms());
    let excess = contains_any(n, excess_terms());
    !rate_or_quota && excess && (context_limit || token_limit)
}

pub fn is_context_length_identifier(identifier: &str) -> (r: bool)
    ensures
        r == spec_is_context_length_identifier(identifier@),
{
    let c = chars_of(identifier);
    let t = trim_chars(c.as_slice());
    let l = to_lower(t.as_slice());
    let n = dashes_to_underscores(l.as_slice());
    let ns = n.as_slice();
    let ctx: [&str; 3] = ["context_length", "context_window", "context_limit"];
    let out: [&str; 5] = ["output_token", "completion_token", "max_token", "thinking_token", "reasoning_token"];
    let quota: [&str; 4] = ["rate_limit", "quota", "per_minute", "per_second"];
    let excess: [&str; 5] = ["exceed", "too_long", "too_many", "too_large", "overflow"];
    assert(ctx@ =~= context_terms());
    assert(out@ =~= output_terms());
    assert(quota@ =~= quota_terms());
    assert(excess@ =~= excess_terms());
    let context_limit = contains_any_str(ns, &ctx);
    let output_limit = contains_any_str(ns, &out);
    let token_limit = contains_str(ns, "token") && !output_limit;
    let rate_or_quota = contains_any_str(ns, &quota);
    let is_excess = contains_any_str(ns, &excess);
    !rate_or_quota && is_excess && (context_limit || token_limit)
}

pub open spec fn message_quota_terms() -> Seq<&'static str> {
    seq!["rate limit", "quota", "token per minute", "tokens per minute", "tokens per second"]
}

pub open spec fn message_context_terms() -> Seq<&'static str> {
    seq!["context length", "context window", "context limit", "context size", "maximum context", "max context"]
}

pub open spec fn message_input_terms() -> Seq<&'static str> {
    seq!["input", "prompt", "messages"]
}

pub open spec fn message_output_terms() -> Seq<&'static str> {
    seq!["max_tokens", "max output tokens", "output token", "completion token"]
}

pub open spec fn message_excess_terms() -> Seq<&'static str> {
    seq![
        "exceed",
        "too long",
        "too many",
        "too large",
        "maximum",
        "over the limit",
        "over limit",
        "greater than",
        "more than",
        "must be less than",
        "reached",
        "beyond",
        "at most",
        ">",
        "<=",
    ]
}

/// An error message saying that the input is larger than the model's context.
pub open spec fn spec_is_context_length_message(message: Seq<char>) -> bool {
    let m = lower(message);
    if contains_any(m, message_quota_terms()) {
        false
    } else {
        let context_limit = contains_any(m, message_context_terms());
        let token = contains(m, "token"@);
        let direct_input = contains_any(m, message_input_terms());
        let request_tokens = token && contains(m, "request"@);
        let token_limit = contains(m, "token limit"@) || contains(m, "too many tokens"@);
        let output_only = !context_limit && !direct_input && contains_any(m, message_output_terms());
        if output_only {
            false
        } else {
            contains_any(m, message_excess_terms()) && (context_limit || (token && direct_input)
                || request_tokens || token_limit)
        }
    }
}

pub fn is_context_length_message(message: &str) -> (r: bool)
    ensures
        r == spec_is_context_length_message(message@),
{
    let c = chars_of(message);
    let l = to_lower(c.as_slice());
    let m = l.as_slice();
    let quota: [&str; 5] = ["rate limit", "quota", "token per minute", "tokens per minute", "tokens per second"];
    assert(quota@ =~= message_quota_terms());
    if contains_any_str(m, &quota) {
        return false;
    }
    let ctx: [&str; 6] = ["context length", "context window", "context limit", "context size", "maximum context", "max context"];
    let input: [&str; 3] = ["input", "prompt", "messages"];
    let output: [&str; 4] = ["max_tokens", "max output tokens", "output token", "completion token"];
    let excess: [&str; 15] = [
        "exceed",
        "too long",
        "too many",
        "too large",
        "maximum",
        "over the limit",
        "over limit",
        "greater than",
        "more than",
        "must be less than",
        "reached",
        "beyond",
        "at most",
        ">",
        "<=",
    ];
    assert(ctx@ =~= message_context_terms());
    assert(input@ =~= message_input_terms());
    assert(output@ =~= message_output_terms());
    assert(excess@ =~= message_excess_terms());
    let context_limit = contains_any_str(m, &ctx);
    let token = contains_str(m, "token");
    let direct_input = contains_any_str(m, &input);
    let request_tokens = token && contains_str(m, "request");
    let token_limit = contains_str(m, "token limit") || contains_str(m, "too many tokens");
    let output_only = !context_limit && !direct_input && contains_any_str(m, &output);
    if output_only {
        return false;
    }
    contains_any_str(m, &excess) && (context_limit || (token && direct_input) || request_tokens
        || token_limit)
}

/// The error object of a payload: its `error` member, or the payload itself.
pub open spec fn error_object(payload: Json) -> Json {
    match payload.get("error"@) {
        Some(e) => e,
        None => payload,
    }
}

/// The message of an error: `error.message`, then `payload.message`, then the error itself as a string.
pub open spec fn spec_structured_message(error: Json, payload: Json) -> Option<Seq<char>> {
    match error.get("message"@) {
        Some(m) if m.as_str() is Some => m.as_str(),
        _ => match payload.get("message"@) {
            Some(m) if m.as_str() is Some => m.as_str(),
            _ => error.as_str(),
        },
    }
}

/// A `code`, `type` or `status` string member naming a context-length error.
pub open spec fn spec_has_context_length_identifier(value: Json) -> bool {
    ||| value.get("code"@) matches Some(v) && v.as_str() matches Some(s) && spec_is_context_length_identifier(s)
    ||| value.get("type"@) matches Some(v) && v.as_str() matches Some(s) && spec_is_context_length_identifier(s)
    ||| value.get("status"@) matches Some(v) && v.as_str() matches Some(s) && spec_is_context_length_identifier(s)
}

/// A parsed error body that reports an exceeded context length.
pub open spec fn spec_payload_has_context_length_error(payload: Json) -> bool {
    let error = error_object(payload);
    ||| spec_has_context_length_identifier(error)
    ||| spec_has_context_length_identifier(payload)
    ||| spec_structured_message(error, payload) matches Some(m) && spec_is_context_length_message(m)
}

pub open spec fn spec_has_context_length_error(body: Seq<char>) -> bool {
    match json_parse_result(body) {
        Ok(payload) => spec_payload_has_context_length_error(payload),
        Err(_) => false,
    }
}

/// The category of an upstream error response.
pub open spec fn spec_classify_response_error(status: u16, has_context_error: bool) -> ErrorCategory {
    if status == 401 || status == 403 {
        ErrorCategory::Authentication
    } else if status == 404 {
        ErrorCategory::ModelNotFound
    } else if status == 429 {
        ErrorCategory::RateLimit
    } else if 500 <= status <= 599 {
        ErrorCategory::UpstreamServerError
    } else if has_context_error {
        ErrorCategory::ContextLengthExceeded
    } else {
        ErrorCategory::InvalidRequest
    }
}

/// Law: 401 and 403 are authentication failures, 404 an unknown model,
/// 429 rate limiting, every 5xx status an upstream server error whatever
/// the body says; any other status is a context-length error exactly when
/// the body reports one, else an invalid request.
pub proof fn lemma_classification(status: u16, has_context_error: bool)
    ensures
        (status == 401 || status == 403) ==> spec_classify_response_error(status, has_context_error)
            == ErrorCategory::Authentication,
        status == 404 ==> spec_classify_response_error(status, has_context_error) == ErrorCategory::ModelNotFound,
        status == 429 ==> spec_classify_response_error(status, has_context_error) == ErrorCategory::RateLimit,
        500 <= status <= 599 ==> spec_classify_response_error(status, has_context_error)
            == ErrorCategory::UpstreamServerError,
        (spec_classify_response_error(status, has_context_error) == ErrorCategory::UpstreamServerError) <==> (500
            <= status <= 599),
        !(status == 401 || status == 403 || status == 404 || status == 429 || (500 <= status <= 599)) ==> (
        spec_classify_response_error(status, has_context_error) == if has_context_error {
            ErrorCategory::ContextLengthExceeded
        } else {
            ErrorCategory::InvalidRequest
        }),
{
}

fn identifier_member(value: &JsonValue, field: &str) -> (r: bool)
    ensures
        r == (value@.get(field@) matches Some(v) && v.as_str() matches Some(s) && spec_is_context_length_identifier(s)),
{
    match value.get(field) {
        Some(v) => match v.as_str() {
            Some(s) => is_context_length_identifier(s.as_str()),
            None => false,
        },
        None => false,
    }
}

pub fn has_context_length_identifier(value: &JsonValue) -> (r: bool)
    ensures
        r == spec_has_context_length_identifier(value@),
{
    identifier_member(value, "code") || identifier_member(value, "type") || identifier_member(value, "status")
}

pub fn structured_message<'a>(error: &'a JsonValue, payload: &'a JsonValue) -> (r: Option<&'a String>)
    ensures
        r matches Some(m) ==> spec_structured_message(error@, payload@) == Some(m@),
        r is None ==> spec_structured_message(error@, payload@) is None,
{
    if let Some(m) = error.get("message") {
        if let Some(s) = m.as_str() {
            return Some(s);
        }
    }
    if let Some(m) = payload.get("message") {
        if let Some(s) = m.as_str() {
            return Some(s);
        }
    }
    error.as_str()
}

pub fn payload_has_context_length_error(payload: &JsonValue) -> (r: bool)
    ensures
        r == spec_payload_has_context_length_error(payload@),
{
    let error = match payload.get("error") {
        Some(e) => e,
        None => payload,
    };
    if has_context_length_identifier(error) || has_context_length_identifier(payload) {
        return true;
    }
    match structured_message(error, payload) {
        Some(m) => is_context_length_message(m.as_str()),
        None => false,
    }
}

pub fn has_context_length_error(body: &str) -> (r: bool)
    ensures
        r == spec_has_context_length_error(body@),
{
    match parse_json(body) {
        Ok(payload) => payload_has_context_length_error(&payload),
        Err(_) => false,
    }
}

/// Classifies an upstream error response by status, and by body for other
/// client errors (context-length errors are told apart from invalid requests).
pub fn classify_response_error(status: u16, body: &str) -> (r: ErrorCategory)
    ensures
        r == spec_classify_response_error(status, spec_has_context_length_error(body@)),
        500 <= status <= 599 ==> r == ErrorCategory::UpstreamServerError,
        (status == 401 || status == 403) ==> r == ErrorCategory::Authentication,
        status == 404 ==> r == ErrorCategory::ModelNotFound,
        status == 429 ==> r == ErrorCategory::RateLimit,
{
    if status == 401 || status == 403 {
        ErrorCategory::Authentication
    } else if status == 404 {
        ErrorCategory::ModelNotFound
    } else if status == 429 {
        ErrorCategory::RateLimit
    } else if 500 <= status && status <= 599 {
        ErrorCategory::UpstreamServerError
    } else if has_context_length_error(body) {
        ErrorCategory::ContextLengthExceeded
    } else {
        ErrorCategory::InvalidRequest
    }
}

/// Classification by an already parsed body.
pub fn classify_response_payload(status: u16, payload: &JsonValue) -> (r: ErrorCategory)
    ensures
        r == spec_classify_response_error(status, spec_payload_has_context_length_error(payload@)),
        500 <= status <= 599 ==> r == ErrorCategory::UpstreamServerError,
        (status == 401 || status == 403) ==> r == ErrorCategory::Authentication,
        status == 404 ==> r == ErrorCategory::ModelNotFound,
        status == 429 ==> r == ErrorCategory::RateLimit,
{
    if status == 401 || status == 403 {
        ErrorCategory::Authentication
    } else if status == 404 {
        ErrorCategory::ModelNotFound
    } else if status == 429 {
        ErrorCategory::RateLimit
    } else if 500 <= status && status <= 599 {
        ErrorCategory::UpstreamServerError
    } else if payload_has_context_length_error(payload) {
        ErrorCategory::ContextLengthExceeded
    } else {
        ErrorCategory::InvalidRequest
    }
}

/// The upstream message of an error body: its structured message, trimmed,
/// where the body is JSON and the message is not blank.
pub open spec fn error_detail(body: Seq<char>) -> Option<Seq<char>> {
    match json_parse_result(body) {
        Ok(payload) => match spec_structured_message(error_object(payload), payload) {
            Some(m) => if trim(m).len() > 0 {
                Some(trim(m))
            } else {
                None
            },
            None => None,
        },
        Err(_) => None,
    }
}

/// A detail of at most 500 characters; longer ones are cut and marked `...`.
pub open spec fn shortened(detail: Seq<char>) -> Seq<char> {
    if detail.len() > 500 {
        detail.take(500) + "..."@
    } else {
        detail
    }
}

/// `<provider> upstream status <status>`, followed by `: <detail>` where the
/// body carries a message.
pub open spec fn spec_upstream_error_message(provider: Seq<char>, status: u16, body: Seq<char>) -> Seq<char> {
    let head = provider + " upstream status "@ + decimal(status as nat);
    match error_detail(body) {
        Some(d) => head + ": "@ + shortened(d),
        None => head,
    }
}

pub fn upstream_error_message(provider: &str, status: u16, body: &str) -> (r: String)
    ensures
        r@ == spec_upstream_error_message(provider@, status, body@),
{
    let mut out: Vec<char> = Vec::new();
    push_str(&mut out, provider);
    push_str(&mut out, " upstream status ");
    push_decimal(&mut out, status as u64);
    let detail: Option<Vec<char>> = match parse_json(body) {
        Ok(payload) => {
            let error = match payload.get("error") {
                Some(e) => e,
                None => &payload,
            };
            match structured_message(error, &payload) {
                Some(m) => {
                    let c = chars_of(m.as_str());
                    let t = trim_chars(c.as_slice());
                    if t.len() > 0 {
                        Some(t)
                    } else {
                        None
                    }
                },
                None => None,
            }
        },
        Err(_) => None,
    };
    match detail {
        Some(d) => {
            push_str(&mut out, ": ");
            if d.len() > 500 {
                let head = slice_range(d.as_slice(), 0, 500);
                crate::text::push_chars(&mut out, head.as_slice());
                push_str(&mut out, "...");
                proof {
                    assert(d@.subrange(0, 500) =~= d@.take(500));
                }
            } else {
                crate::text::push_chars(&mut out, d.as_slice());
            }
        },
        None => {},
    }
    string_from_chars(out.as_slice())
}

} // verus!
