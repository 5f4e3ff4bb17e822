//! The Anthropic Messages protocol.

pub mod request;
pub mod response;
pub mod stream;

use crate::domain::definition::UpstreamModel;
use crate::domain::error::{ErrorCategory, ProxyError};
use crate::domain::provider::Provider;
use crate::domain::request::{NeutralChatRequest, NeutralMessage};
use crate::domain::response::{FinishReason, NeutralChatResponse};
use crate::domain::route::ResolvedRoute;
use crate::json::{json_parse_result, Json, JsonValue};
use crate::text::{chars_eq_str, chars_of};
use vstd::prelude::*;

verus! {

pub struct AnthropicAdapter;

impl AnthropicAdapter {
    pub fn new() -> (r: Self) {
        AnthropicAdapter
    }

    /// The Messages API message for a neutral message.
    pub fn convert_message(&self, message: &NeutralMessage) -> (r: JsonValue)
        ensures
            r@ == request::anthropic_message(message@),
    {
        request::convert_message(message)
    }

    /// The request payload for `request` on `route`.
    pub fn build_request_payload(&self, route: &ResolvedRoute, request: &NeutralChatRequest) -> (r: Result<JsonValue, ProxyError>)
        ensures
            match request::anthropic_payload(*route, *request) {
                Ok(e) => (r matches Ok(v) && v@ == Json::Object(e)),
                Err(failure) => (r matches Err(err) && err.category == failure.0 && err.status_code == 400
                    && err.message@ == failure.1 && err.upstream_body is None),
            },
    {
        request::build_request_payload(route, request)
    }

    /// The request headers for `provider`.
    pub fn build_headers(&self, provider: &Provider) -> (r: Vec<(String, String)>)
        ensures
            crate::domain::provider::pairs_view(r@) == request::anthropic_headers(*provider),
    {
        request::build_headers(provider)
    }

    /// Parses a non-streaming response.
    pub fn parse_response(&self, status: u16, body: &str, upstream_model: &UpstreamModel) -> (r: Result<NeutralChatResponse, ProxyError>)
        ensures
            status >= 400 ==> (r matches Err(e) && response::anthropic_failure(e, status, body@)),
            status < 400 ==> match json_parse_result(body@) {
                Err(m) => (r matches Err(e) && e.category == ErrorCategory::Internal && e.status_code
                    == 500 && e.message@ == "Failed to parse Anthropic response: "@ + m),
                Ok(val) => (r matches Ok(resp) && response::anthropic_response(resp, val, upstream_model.upstream_model_id@)),
            },
    {
        response::parse_response(status, body, upstream_model.upstream_model_id.as_str())
    }

    /// A fresh stream decoder for one upstream request.
    pub fn create_stream_decoder(&self, upstream_model: &UpstreamModel) -> (r: stream::AnthropicStreamDecoder)
        ensures
            r@ == (stream::AnthropicState {
                model: upstream_model.upstream_model_id@,
                started: false,
                finish_emitted: false,
                ended: false,
                usage: None,
                open: seq![],
                signatures: seq![],
            }),
            r@.wf(),
    {
        stream::AnthropicStreamDecoder::new(upstream_model.upstream_model_id.clone())
    }
}

/// The neutral finish reason of an Anthropic stop reason.
pub open spec fn spec_finish_reason(reason: Seq<char>) -> FinishReason {
    if reason == "end_turn"@ || reason == "stop_sequence"@ {
        FinishReason::Stop
    } else if reason == "max_tokens"@ {
        FinishReason::MaxTokens
    } else if reason == "tool_use"@ {
        FinishReason::ToolCall
    } else {
        FinishReason::Other
    }
}

/// Law: Anthropic's `end_turn` and `stop_sequence` are a normal stop,
/// `max_tokens` a hit output limit (not a normal stop), `tool_use` a tool
/// call, and nothing else is any of these.
pub proof fn lemma_anthropic_finish_reasons(reason: Seq<char>)
    ensures
        (spec_finish_reason(reason) == FinishReason::Stop) <==> (reason == "end_turn"@ || reason
            == "stop_sequence"@),
        (spec_finish_reason(reason) == FinishReason::MaxTokens) <==> reason == "max_tokens"@,
        (spec_finish_reason(reason) == FinishReason::ToolCall) <==> reason == "tool_use"@,
        spec_finish_reason(reason) != FinishReason::ContentFilter,
        (spec_finish_reason(reason) == FinishReason::Other) <==> !(reason == "end_turn"@ || reason
            == "stop_sequence"@ || reason == "max_tokens"@ || reason == "tool_use"@),
{
    reveal_strlit("end_turn");
    reveal_strlit("stop_sequence");
    reveal_strlit("max_tokens");
    reveal_strlit("tool_use");
    assert("end_turn"@.len() == 8 && "stop_sequence"@.len() == 13 && "max_tokens"@.len() == 10);
    assert("tool_use"@.len() == 8 && "end_turn"@[0] != "tool_use"@[0]);
}

pub fn normalize_finish_reason(reason: &str) -> (r: FinishReason)
    ensures
        r == spec_finish_reason(reason@),
        (r == FinishReason::Stop) <==> (reason@ == "end_turn"@ || reason@ == "stop_sequence"@),
        (r == FinishReason::MaxTokens) <==> reason@ == "max_tokens"@,
        (r == FinishReason::ToolCall) <==> reason@ == "tool_use"@,
{
    proof {
        lemma_anthropic_finish_reasons(reason@);
    }
    let c = chars_of(reason);
    let s = c.as_slice();
    if chars_eq_str(s, "end_turn") || chars_eq_str(s, "stop_sequence") {
        FinishReason::Stop
    } else if chars_eq_str(s, "max_tokens") {
        FinishReason::MaxTokens
    } else if chars_eq_str(s, "tool_use") {
        FinishReason::ToolCall
    } else {
        FinishReason::Other
    }
}

} // verus!
