//! The OpenAI Chat Completions protocol.

pub mod request;
pub mod response;
pub mod stream;

use crate::domain::definition::UpstreamModel;
use crate::domain::error::{ErrorCategory, ProxyError};
use crate::domain::provider::Provider;
use crate::domain::request::{NeutralChatRequest, NeutralMessage};
use crate::domain::response::{usage_from_totals, FinishReason, NeutralChatResponse, UsageInfo};
use crate::domain::route::ResolvedRoute;
use crate::json::{json_parse_result, Json, JsonNum, JsonNumber, JsonValue};
use crate::providers::gemini::response::upstream_failure;
use crate::providers::gemini::{token_member, token_of};
use crate::text::{chars_eq_str, chars_of, strip_suffix, trim_end_char};
use crate::url::{parse_route, replace_all, replace_str, set_url_path, url_route, url_with_path};
use vstd::prelude::*;

verus! {

pub struct OpenAIAdapter;

/// The images path beside a chat or responses path: the base before
/// `/chat/completions` or `/responses` (trailing slashes ignored), or `/v1`,
/// followed by `/images/generations`.
pub open spec fn images_path(path: Seq<char>) -> Seq<char> {
    let trimmed = trim_end_char(path, '/');
    let base = match strip_suffix(trimmed, "/chat/completions"@) {
        Some(b) => b,
        None => match strip_suffix(trimmed, "/responses"@) {
            Some(b) => b,
            None => "/v1"@,
        },
    };
    base + "/images/generations"@
}

/// The images endpoint on the same origin as `endpoint`, or the URL parse error.
pub open spec fn images_endpoint(endpoint: Seq<char>) -> Result<Seq<char>, Seq<char>> {
    match url_route(endpoint) {
        Err(e) => Err(e),
        Ok(u) => Ok(url_with_path(endpoint, images_path(u.path))),
    }
}

/// The images path for the path of a parsed generate endpoint.
pub fn images_generation_path(path: &str) -> (r: String)
    ensures
        r@ == images_path(path@),
{
    let pc = chars_of(path);
    let mut end: usize = pc.len();
    assert(pc@.subrange(0, pc@.len() as int) =~= pc@);
    while end > 0 && pc[end - 1] == '/'
        invariant
            end <= pc@.len(),
            trim_end_char(pc@.subrange(0, end as int), '/') == trim_end_char(pc@, '/'),
        decreases end,
    {
        assert(pc@.subrange(0, end as int).drop_last() =~= pc@.subrange(0, end - 1));
        end = end - 1;
    }
    let trimmed = crate::text::slice_range(pc.as_slice(), 0, end);
    assert(trimmed@ == trim_end_char(pc@, '/'));
    let mut base = match crate::text::strip_suffix_str(trimmed.as_slice(), "/chat/completions") {
        Some(b) => b,
        None => match crate::text::strip_suffix_str(trimmed.as_slice(), "/responses") {
            Some(b) => b,
            None => chars_of("/v1"),
        },
    };
    crate::text::push_str(&mut base, "/images/generations");
    crate::text::string_from_chars(base.as_slice())
}

/// The images endpoint on the same origin as a chat or responses endpoint,
/// e.g. `https://api.openai.com/v1/chat/completions` gives
/// `https://api.openai.com/v1/images/generations`.
pub fn images_generation_endpoint(generate_endpoint: &str) -> (r: Result<String, ProxyError>)
    ensures
        match images_endpoint(generate_endpoint@) {
            Ok(s) => r matches Ok(t) && t@ == s,
            Err(e) => r matches Err(err) && err.category == ErrorCategory::InvalidRequest
                && err.status_code == 400 && err.message@ == "Invalid OpenAI generate endpoint: "@ + e
                && err.upstream_body is None,
        },
{
    match parse_route(generate_endpoint) {
        Err(e) => {
            let message = crate::text::concat2("Invalid OpenAI generate endpoint: ", e.as_str());
            Err(ProxyError::new(ErrorCategory::InvalidRequest, message.as_str(), 400))
        },
        Ok(u) => {
            let path = images_generation_path(u.path.as_str());
            match set_url_path(generate_endpoint, path.as_str()) {
                Some(s) => Ok(s),
                None => Err(ProxyError::new(ErrorCategory::InvalidRequest, "Invalid OpenAI generate endpoint", 400)),
            }
        },
    }
}

/// The upstream URL: the images endpoint for an image-generation request,
/// else the generate endpoint with `{model}` replaced by the upstream model id.
pub open spec fn openai_endpoint(provider: Provider, model: UpstreamModel, request: NeutralChatRequest) -> Result<Seq<char>, Seq<char>> {
    if crate::providers::spec_is_image_generation(model, request) {
        images_endpoint(provider.generate_endpoint@)
    } else {
        Ok(replace_all(provider.generate_endpoint@, "{model}"@, model.upstream_model_id@))
    }
}

impl OpenAIAdapter {
    pub fn new() -> (r: Self) {
        OpenAIAdapter
    }

    /// The upstream URL for `request` (streaming does not change it).
    pub fn build_generate_endpoint(
        &self,
        provider: &Provider,
        upstream_model: &UpstreamModel,
        _stream: bool,
        request: &NeutralChatRequest,
    ) -> (r: Result<String, ProxyError>)
        ensures
            match openai_endpoint(*provider, *upstream_model, *request) {
                Ok(s) => r matches Ok(t) && t@ == s,
                Err(e) => r matches Err(err) && err.category == ErrorCategory::InvalidRequest
                    && err.status_code == 400 && err.message@ == "Invalid OpenAI generate endpoint: "@ + e
                    && err.upstream_body is None,
            },
    {
        if crate::providers::is_image_generation_request(upstream_model, request) {
            return images_generation_endpoint(provider.generate_endpoint.as_str());
        }
        proof {
            reveal_strlit("{model}");
        }
        Ok(replace_str(provider.generate_endpoint.as_str(), "{model}", upstream_model.upstream_model_id.as_str()))
    }

    /// The Chat Completions message for a neutral message.
    pub fn convert_message(&self, message: &NeutralMessage) -> (r: JsonValue)
        ensures
            r@ == request::openai_message(message@),
    {
        request::convert_message(message)
    }

    /// The request payload for `request` on `route`.
    pub fn build_request_payload(&self, route: &ResolvedRoute, request: &NeutralChatRequest) -> (r: Result<JsonValue, ProxyError>)
        ensures
            match request::openai_payload(*route, *request) {
                Ok(e) => (r matches Ok(v) && v@ == Json::Object(e)),
                Err(failure) => (r matches Err(err) && err.category == failure.0 && err.status_code == 400
                    && err.message@ == failure.1 && err.upstream_body is None),
            },
    {
        request::build_request_payload(route, request)
    }

    /// The request headers for `provider`.
    pub fn build_headers(&self, provider: &Provider) -> (r: Vec<(String, String)>)
        ensures
            crate::domain::provider::pairs_view(r@) == request::openai_headers(*provider),
    {
        request::build_headers(provider)
    }

    /// Parses a non-streaming response.
    pub fn parse_response(&self, status: u16, body: &str, upstream_model: &UpstreamModel) -> (r: Result<NeutralChatResponse, ProxyError>)
        ensures
            status >= 400 ==> (r matches Err(e) && upstream_failure(e, status, body@, "OpenAI"@)),
            status < 400 ==> match json_parse_result(body@) {
                Err(m) => (r matches Err(e) && e.category == ErrorCategory::Internal && e.status_code
                    == 500 && e.message@ == "Failed to parse OpenAI JSON response: "@ + m),
                Ok(val) => (r matches Ok(resp) && response::openai_response(resp, val, upstream_model.upstream_model_id@)),
            },
    {
        response::parse_response(status, body, upstream_model.upstream_model_id.as_str())
    }

    /// A fresh stream decoder for one upstream request.
    pub fn create_stream_decoder(&self, upstream_model: &UpstreamModel) -> (r: stream::OpenAIStreamDecoder)
        ensures
            r@ == (stream::OpenAIState {
                model: upstream_model.upstream_model_id@,
                started: false,
                ended: false,
                tools: seq![],
                finished: Set::empty(),
                usage: None,
            }),
    {
        stream::OpenAIStreamDecoder::new(upstream_model.upstream_model_id.clone())
    }
}

/// The neutral finish reason of an OpenAI finish reason.
pub open spec fn spec_finish_reason(reason: Seq<char>) -> FinishReason {
    if reason == "stop"@ {
        FinishReason::Stop
    } else if reason == "length"@ {
        FinishReason::MaxTokens
    } else if reason == "tool_calls"@ || reason == "function_call"@ {
        FinishReason::ToolCall
    } else if reason == "content_filter"@ {
        FinishReason::ContentFilter
    } else {
        FinishReason::Other
    }
}

/// Law: OpenAI's `stop` is a normal stop, `length` a hit output limit,
/// `tool_calls` and `function_call` a tool call, `content_filter` a filtered
/// answer, and nothing else is any of these.
pub proof fn lemma_openai_finish_reasons(reason: Seq<char>)
    ensures
        (spec_finish_reason(reason) == FinishReason::Stop) <==> reason == "stop"@,
        (spec_finish_reason(reason) == FinishReason::MaxTokens) <==> reason == "length"@,
        (spec_finish_reason(reason) == FinishReason::ToolCall) <==> (reason == "tool_calls"@ || reason
            == "function_call"@),
        (spec_finish_reason(reason) == FinishReason::ContentFilter) <==> reason == "content_filter"@,
        (spec_finish_reason(reason) == FinishReason::Other) <==> !(reason == "stop"@ || reason == "length"@
            || reason == "tool_calls"@ || reason == "function_call"@ || reason == "content_filter"@),
{
    reveal_strlit("stop");
    reveal_strlit("length");
    reveal_strlit("tool_calls");
    reveal_strlit("function_call");
    reveal_strlit("content_filter");
    assert("stop"@.len() == 4 && "length"@.len() == 6 && "tool_calls"@.len() == 10);
    assert("function_call"@.len() == 13 && "content_filter"@.len() == 14);
}

pub fn normalize_finish_reason(reason: &str) -> (r: FinishReason)
    ensures
        r == spec_finish_reason(reason@),
        (r == FinishReason::Stop) <==> reason@ == "stop"@,
        (r == FinishReason::MaxTokens) <==> reason@ == "length"@,
        (r == FinishReason::ToolCall) <==> (reason@ == "tool_calls"@ || reason@ == "function_call"@),
        (r == FinishReason::ContentFilter) <==> reason@ == "content_filter"@,
{
    proof {
        lemma_openai_finish_reasons(reason@);
    }
    let c = chars_of(reason);
    let s = c.as_slice();
    if chars_eq_str(s, "stop") {
        FinishReason::Stop
    } else if chars_eq_str(s, "length") {
        FinishReason::MaxTokens
    } else if chars_eq_str(s, "tool_calls") || chars_eq_str(s, "function_call") {
        FinishReason::ToolCall
    } else if chars_eq_str(s, "content_filter") {
        FinishReason::ContentFilter
    } else {
        FinishReason::Other
    }
}

/// The `index` member of a choice or tool call where it fits in `u32`,
/// else its position (truncated to `u32`).
pub open spec fn spec_index(v: Json, position: int) -> u32 {
    match token_member(v, "index"@) {
        Some(i) => i,
        None => position as u32,
    }
}

pub fn parse_index(v: &JsonValue, position: usize) -> (r: u32)
    ensures
        r == spec_index(v@, position as int),
{
    match token_of(v, "index") {
        Some(i) => i,
        None => position as u32,
    }
}

/// A count nested in a details object.
pub open spec fn detail_member(usage: Json, details: Seq<char>, field: Seq<char>) -> Option<u32> {
    match usage.get(details) {
        Some(d) => if d.is_object() {
            token_member(d, field)
        } else {
            None
        },
        None => None,
    }
}

/// Usage of an OpenAI response or stream chunk: none unless `usage` is an
/// object; cached prompt tokens and reasoning tokens come from the details.
pub open spec fn spec_parse_usage(value: Json) -> Option<UsageInfo> {
    if !value.is_object() {
        None
    } else {
        let prompt = match token_member(value, "prompt_tokens"@) {
            Some(p) => p,
            None => 0,
        };
        let completion = match token_member(value, "completion_tokens"@) {
            Some(c) => c,
            None => 0,
        };
        Some(
            usage_from_totals(
                prompt,
                completion,
                token_member(value, "total_tokens"@),
                detail_member(value, "prompt_tokens_details"@, "cached_tokens"@),
                None,
                detail_member(value, "completion_tokens_details"@, "reasoning_tokens"@),
            ),
        )
    }
}

pub fn detail_of(usage: &JsonValue, details: &str, field: &str) -> (r: Option<u32>)
    ensures
        r == detail_member(usage@, details@, field@),
{
    match usage.get(details) {
        Some(d) => if d.is_object() {
            token_of(d, field)
        } else {
            None
        },
        None => None,
    }
}

pub fn parse_usage(value: &JsonValue) -> (r: Option<UsageInfo>)
    ensures
        r == spec_parse_usage(value@),
{
    if !value.is_object() {
        return None;
    }
    let prompt = match token_of(value, "prompt_tokens") {
        Some(p) => p,
        None => 0,
    };
    let completion = match token_of(value, "completion_tokens") {
        Some(c) => c,
        None => 0,
    };
    Some(
        UsageInfo::from_aggregate_totals(
            prompt,
            completion,
            token_of(value, "total_tokens"),
            detail_of(value, "prompt_tokens_details", "cached_tokens"),
            None,
            detail_of(value, "completion_tokens_details", "reasoning_tokens"),
        ),
    )
}

} // verus!
