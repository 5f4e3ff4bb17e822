//! The OpenAI Responses protocol.

pub mod request;
pub mod response;
pub mod stream;

use crate::domain::definition::UpstreamModel;
use crate::domain::error::{ErrorCategory, ProxyError};
use crate::domain::provider::Provider;
use crate::domain::request::{NeutralChatRequest, NeutralMessage};
use crate::domain::response::{usage_from_totals, FinishReason, NeutralChatResponse, UsageInfo};
use crate::domain::route::ResolvedRoute;
use crate::json::{json_parse_result, Json, JsonValue};
use crate::providers::gemini::{token_member, token_of};
use crate::providers::openai::detail_member;
use crate::text::{chars_eq_str, chars_of};
use vstd::prelude::*;

verus! {

pub struct OpenAIResponsesAdapter;

impl OpenAIResponsesAdapter {
    pub fn new() -> (r: Self) {
        OpenAIResponsesAdapter
    }

    /// The input items for a neutral message.
    pub fn convert_message(&self, message: &NeutralMessage) -> (r: Result<Vec<JsonValue>, ProxyError>)
        ensures
            match request::responses_items(message@) {
                Ok(items) => (r matches Ok(v) && crate::json::items_view(v@) == items),
                Err(m) => (r matches Err(e) && e.category == ErrorCategory::UnsupportedFeature && e.status_code
                    == 400 && e.message@ == m && e.upstream_body is None),
            },
    {
        request::convert_message(message)
    }

    /// The request payload for `request` on `route`.
    pub fn build_request_payload(&self, route: &ResolvedRoute, request: &NeutralChatRequest) -> (r: Result<JsonValue, ProxyError>)
        ensures
            match request::responses_payload(*route, *request) {
                Ok(e) => (r matches Ok(v) && v@ == Json::Object(e)),
                Err(m) => (r matches Err(err) && err.category == ErrorCategory::UnsupportedFeature
                    && err.status_code == 400 && err.message@ == m && err.upstream_body is None),
            },
    {
        request::build_request_payload(route, request)
    }

    /// The request headers for `provider`.
    pub fn build_headers(&self, provider: &Provider) -> (r: Vec<(String, String)>)
        ensures
            crate::domain::provider::pairs_view(r@) == crate::providers::openai::request::openai_headers(*provider),
    {
        request::build_headers(provider)
    }

    /// Parses a non-streaming response.
    pub fn parse_response(&self, status: u16, body: &str, upstream_model: &UpstreamModel) -> (r: Result<NeutralChatResponse, ProxyError>)
        ensures
            status >= 400 ==> (r matches Err(e) && response::responses_failure(e, status, body@)),
            status < 400 ==> match json_parse_result(body@) {
                Err(m) => (r matches Err(e) && e.category == ErrorCategory::Internal && e.status_code
                    == 500 && e.message@ == "Failed to parse OpenAI Responses JSON response: "@ + m),
                Ok(val) => (r matches Ok(resp) && response::responses_response(resp, val, upstream_model.upstream_model_id@)),
            },
    {
        response::parse_response(status, body, upstream_model.upstream_model_id.as_str())
    }

    /// A fresh stream decoder for one upstream request.
    pub fn create_stream_decoder(&self, upstream_model: &UpstreamModel) -> (r: stream::OpenAIResponsesStreamDecoder)
        ensures
            r@ == (stream::ResponsesState {
                model: upstream_model.upstream_model_id@,
                started: false,
                ended: false,
                finished: false,
                calls: seq![],
            }),
    {
        stream::OpenAIResponsesStreamDecoder::new(upstream_model.upstream_model_id.clone())
    }
}

/// The neutral finish reason of a Responses status or incomplete reason.
pub open spec fn spec_finish_reason(raw: Seq<char>) -> FinishReason {
    if raw == "completed"@ || raw == "stop"@ {
        FinishReason::Stop
    } else if raw == "max_output_tokens"@ || raw == "length"@ || raw == "incomplete"@ {
        FinishReason::MaxTokens
    } else if raw == "tool_calls"@ || raw == "function_call"@ {
        FinishReason::ToolCall
    } else if raw == "content_filter"@ {
        FinishReason::ContentFilter
    } else {
        FinishReason::Other
    }
}

pub fn normalize_finish_reason(raw: &str) -> (r: FinishReason)
    ensures
        r == spec_finish_reason(raw@),
{
    let c = chars_of(raw);
    let s = c.as_slice();
    if chars_eq_str(s, "completed") || chars_eq_str(s, "stop") {
        FinishReason::Stop
    } else if chars_eq_str(s, "max_output_tokens") || chars_eq_str(s, "length") || chars_eq_str(s, "incomplete") {
        FinishReason::MaxTokens
    } else if chars_eq_str(s, "tool_calls") || chars_eq_str(s, "function_call") {
        FinishReason::ToolCall
    } else if chars_eq_str(s, "content_filter") {
        FinishReason::ContentFilter
    } else {
        FinishReason::Other
    }
}

/// Usage of a Responses response: cached input tokens and reasoning tokens
/// come from the details objects.
pub open spec fn spec_parse_usage(value: Json) -> Option<UsageInfo> {
    if !value.is_object() {
        None
    } else {
        let input = match token_member(value, "input_tokens"@) {
            Some(x) => x,
            None => 0,
        };
        let output = match token_member(value, "output_tokens"@) {
            Some(x) => x,
            None => 0,
        };
        Some(
            usage_from_totals(
                input,
                output,
                token_member(value, "total_tokens"@),
                detail_member(value, "input_tokens_details"@, "cached_tokens"@),
                None,
                detail_member(value, "output_tokens_details"@, "reasoning_tokens"@),
            ),
        )
    }
}

pub fn parse_usage(value: &JsonValue) -> (r: Option<UsageInfo>)
    ensures
        r == spec_parse_usage(value@),
{
    if !value.is_object() {
        return None;
    }
    let input = match token_of(value, "input_tokens") {
        Some(x) => x,
        None => 0,
    };
    let output = match token_of(value, "output_tokens") {
        Some(x) => x,
        None => 0,
    };
    Some(
        UsageInfo::from_aggregate_totals(
            input,
            output,
            token_of(value, "total_tokens"),
            crate::providers::openai::detail_of(value, "input_tokens_details", "cached_tokens"),
            None,
            crate::providers::openai::detail_of(value, "output_tokens_details", "reasoning_tokens"),
        ),
    )
}

} // verus!
