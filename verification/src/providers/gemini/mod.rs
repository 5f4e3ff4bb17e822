//! The Gemini `generateContent` protocol.

pub mod request;
pub mod response;
pub mod stream;

use crate::domain::definition::UpstreamModel;
use crate::domain::error::{ErrorCategory, ProxyError};
use crate::domain::provider::Provider;
use crate::domain::request::{NeutralChatRequest, NeutralMessage};
use crate::domain::response::{usage_from_totals, FinishReason, NeutralChatResponse, UsageInfo};
use crate::domain::route::ResolvedRoute;
use crate::json::{json_parse_result, Json, JsonNum, JsonNumber, JsonValue};
use crate::text::{chars_eq_str, chars_of};
use vstd::prelude::*;

verus! {

pub struct GeminiAdapter;

impl GeminiAdapter {
    pub fn new() -> (r: Self) {
        GeminiAdapter
    }

    /// The upstream URL for one request (the request itself does not change it).
    pub fn build_generate_endpoint(
        &self,
        provider: &Provider,
        upstream_model: &UpstreamModel,
        stream: bool,
        _request: &NeutralChatRequest,
    ) -> (r: Result<String, ProxyError>)
        ensures
            ({
                let expanded = crate::url::replace_all(
                    provider.generate_endpoint@,
                    "{model}"@,
                    upstream_model.upstream_model_id@,
                );
                match request::gemini_endpoint(expanded, stream) {
                    Ok(s) => r matches Ok(t) && t@ == s,
                    Err(e) => r matches Err(err) && err.category == ErrorCategory::InvalidRequest
                        && err.status_code == 400 && err.message@ == "Invalid Gemini generate endpoint: "@ + e
                        && err.upstream_body is None,
                }
            }),
    {
        request::build_generate_endpoint(provider, upstream_model, stream)
    }

    /// The Gemini `contents` entry for a message.
    pub fn convert_message(&self, message: &NeutralMessage) -> (r: JsonValue)
        ensures
            r@ == request::gemini_content(message@),
    {
        request::convert_message(message)
    }

    /// The `generateContent` payload for `request` on `route`.
    pub fn build_request_payload(&self, route: &ResolvedRoute, request: &NeutralChatRequest) -> (r: Result<JsonValue, ProxyError>)
        ensures
            match request::gemini_payload(*route, *request) {
                Ok(e) => (r matches Ok(v) && v@ == Json::Object(e)),
                Err(m) => (r matches Err(err) && err.category == ErrorCategory::UnsupportedFeature
                    && err.status_code == 400 && err.message@ == m && err.upstream_body is None),
            },
    {
        request::build_request_payload(route, request)
    }

    /// The request headers for `provider`.
    pub fn build_headers(&self, provider: &Provider) -> (r: Vec<(String, String)>)
        ensures
            crate::domain::provider::pairs_view(r@) == request::gemini_headers(*provider),
    {
        request::build_headers(provider)
    }

    /// Parses a non-streaming `generateContent` response.
    pub fn parse_response(&self, status: u16, body: &str, upstream_model: &UpstreamModel) -> (r: Result<NeutralChatResponse, ProxyError>)
        ensures
            status >= 400 ==> (r matches Err(e) && response::upstream_failure(e, status, body@, "Gemini"@)),
            status < 400 ==> match json_parse_result(body@) {
                Err(m) => (r matches Err(e) && e.category == ErrorCategory::Internal && e.status_code
                    == 500 && e.message@ == "Failed to parse Gemini response: "@ + m),
                Ok(val) => (r matches Ok(resp) && response::gemini_response(resp, val, upstream_model.upstream_model_id@)),
            },
    {
        response::parse_response(status, body, upstream_model.upstream_model_id.as_str())
    }

    /// A fresh stream decoder for one upstream request.
    pub fn create_stream_decoder(&self, upstream_model: &UpstreamModel) -> (r: stream::GeminiStreamDecoder)
        ensures
            r@ == (stream::GeminiState {
                model: upstream_model.upstream_model_id@,
                started: false,
                ended: false,
                tool_calls: Set::empty(),
                signatures: Set::empty(),
                finished: Set::empty(),
                usage: None,
            }),
    {
        stream::GeminiStreamDecoder::new(upstream_model.upstream_model_id.clone())
    }
}

/// The neutral finish reason of a Gemini finish reason.
pub open spec fn spec_finish_reason(reason: Seq<char>) -> FinishReason {
    if reason == "STOP"@ {
        FinishReason::Stop
    } else if reason == "MAX_TOKENS"@ {
        FinishReason::MaxTokens
    } else if reason == "TOOL_CALL"@ {
        FinishReason::ToolCall
    } else if reason == "SAFETY"@ || reason == "BLOCKLIST"@ || reason == "PROHIBITED_CONTENT"@ || reason
        == "SPII"@ || reason == "IMAGE_SAFETY"@ || reason == "IMAGE_PROHIBITED_CONTENT"@ {
        FinishReason::ContentFilter
    } else {
        FinishReason::Other
    }
}

pub fn normalize_finish_reason(reason: &str) -> (r: FinishReason)
    ensures
        r == spec_finish_reason(reason@),
{
    let c = chars_of(reason);
    let s = c.as_slice();
    if chars_eq_str(s, "STOP") {
        FinishReason::Stop
    } else if chars_eq_str(s, "MAX_TOKENS") {
        FinishReason::MaxTokens
    } else if chars_eq_str(s, "TOOL_CALL") {
        FinishReason::ToolCall
    } else if chars_eq_str(s, "SAFETY") || chars_eq_str(s, "BLOCKLIST") || chars_eq_str(s, "PROHIBITED_CONTENT")
        || chars_eq_str(s, "SPII") || chars_eq_str(s, "IMAGE_SAFETY") || chars_eq_str(
        s,
        "IMAGE_PROHIBITED_CONTENT",
    ) {
        FinishReason::ContentFilter
    } else {
        FinishReason::Other
    }
}

/// A token count member that fits in `u32`.
pub open spec fn token_member(usage: Json, field: Seq<char>) -> Option<u32> {
    match usage.get(field) {
        Some(Json::Number(JsonNum::Unsigned(u))) => if u <= u32::MAX {
            Some(u as u32)
        } else {
            None
        },
        _ => None,
    }
}

pub open spec fn or_u32(a: Option<u32>, b: Option<u32>) -> Option<u32> {
    if a is Some {
        a
    } else {
        b
    }
}

pub open spec fn sat_add(a: u32, b: u32) -> u32 {
    if a + b > u32::MAX {
        u32::MAX
    } else {
        (a + b) as u32
    }
}

/// Usage from `usageMetadata`; counts it leaves out keep their value in
/// `current` (stream chunks report usage piecemeal). Thought tokens count
/// as completion tokens.
pub open spec fn spec_parse_usage(value: Json, current: Option<UsageInfo>) -> Option<UsageInfo> {
    if !value.is_object() {
        None
    } else {
        let cache = or_u32(
            token_member(value, "cachedContentTokenCount"@),
            match current {
                Some(u) => u.cache_read_tokens,
                None => None,
            },
        );
        let reasoning = or_u32(
            token_member(value, "thoughtsTokenCount"@),
            match current {
                Some(u) => u.reasoning_tokens,
                None => None,
            },
        );
        let prompt = match or_u32(
            token_member(value, "promptTokenCount"@),
            match current {
                Some(u) => Some(u.spec_prompt_tokens()),
                None => None,
            },
        ) {
            Some(p) => p,
            None => 0,
        };
        let candidates = match or_u32(
            token_member(value, "candidatesTokenCount"@),
            match current {
                Some(u) => Some(u.output_tokens),
                None => None,
            },
        ) {
            Some(c) => c,
            None => 0,
        };
        let completion = sat_add(
            candidates,
            match reasoning {
                Some(r) => r,
                None => 0,
            },
        );
        let total = or_u32(
            token_member(value, "totalTokenCount"@),
            match current {
                Some(u) => Some(u.total_tokens),
                None => None,
            },
        );
        Some(usage_from_totals(prompt, completion, total, cache, None, reasoning))
    }
}

pub fn token_of(usage: &JsonValue, field: &str) -> (r: Option<u32>)
    ensures
        r == token_member(usage@, field@),
{
    match usage.get(field) {
        Some(JsonValue::Number(JsonNumber::Unsigned(u))) => if *u <= u32::MAX as u64 {
            Some(*u as u32)
        } else {
            None
        },
        _ => None,
    }
}

pub fn first_u32(a: Option<u32>, b: Option<u32>) -> (r: Option<u32>)
    ensures
        r == or_u32(a, b),
{
    match a {
        Some(x) => Some(x),
        None => b,
    }
}

/// Usage of a Gemini response or stream chunk; see `spec_parse_usage`.
pub fn parse_usage(value: &JsonValue, current: Option<&UsageInfo>) -> (r: Option<UsageInfo>)
    ensures
        r == spec_parse_usage(
            value@,
            match current {
                Some(u) => Some(*u),
                None => None,
            },
        ),
{
    if !value.is_object() {
        return None;
    }
    let cache = first_u32(
        token_of(value, "cachedContentTokenCount"),
        match current {
            Some(u) => u.cache_read_tokens,
            None => None,
        },
    );
    let reasoning = first_u32(
        token_of(value, "thoughtsTokenCount"),
        match current {
            Some(u) => u.reasoning_tokens,
            None => None,
        },
    );
    let prompt = match first_u32(
        token_of(value, "promptTokenCount"),
        match current {
            Some(u) => Some(u.prompt_tokens()),
            None => None,
        },
    ) {
        Some(p) => p,
        None => 0,
    };
    let candidates = match first_u32(
        token_of(value, "candidatesTokenCount"),
        match current {
            Some(u) => Some(u.output_tokens),
            None => None,
        },
    ) {
        Some(c) => c,
        None => 0,
    };
    let completion = candidates.saturating_add(
        match reasoning {
            Some(r) => r,
            None => 0,
        },
    );
    let total = first_u32(
        token_of(value, "totalTokenCount"),
        match current {
            Some(u) => Some(u.total_tokens),
            None => None,
        },
    );
    Some(UsageInfo::from_aggregate_totals(prompt, completion, total, cache, None, reasoning))
}

} // verus!
