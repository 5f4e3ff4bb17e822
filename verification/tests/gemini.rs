use agy_byok::domain::definition::{ModelCapabilities, UpstreamModel};
use agy_byok::domain::error::ErrorCategory;
use agy_byok::domain::provider::{ParameterOverrides, Provider, ProviderProtocol};
use agy_byok::domain::reasoning::{ReasoningLevel, ReasoningMapping};
use agy_byok::domain::request::{MessageRole, NeutralChatRequest, NeutralContentBlock, NeutralMessage};
use agy_byok::domain::route::ResolvedRoute;
use agy_byok::domain::token_limits::ModelTokenLimits;
use agy_byok::domain::response::{FinishReason, NeutralStreamEvent, UsageInfo};
use agy_byok::json::{JsonNumber, JsonValue};
use agy_byok::providers::gemini::stream::GeminiStreamDecoder;
use agy_byok::providers::gemini::GeminiAdapter;

fn from_serde(v: serde_json::Value) -> JsonValue {
    match v {
        serde_json::Value::Null => JsonValue::Null,
        serde_json::Value::Bool(b) => JsonValue::Bool(b),
        serde_json::Value::Number(n) => match (n.as_u64(), n.as_i64()) {
            (Some(u), _) => JsonValue::Number(JsonNumber::Unsigned(u)),
            (None, Some(i)) => JsonValue::Number(JsonNumber::Negative(i)),
            (None, None) => JsonValue::Number(JsonNumber::Decimal(n.to_string())),
        },
        serde_json::Value::String(s) => JsonValue::Str(s),
        serde_json::Value::Array(items) => JsonValue::Array(items.into_iter().map(from_serde).collect()),
        serde_json::Value::Object(map) => JsonValue::Object(map.into_iter().map(|(k, v)| (k, from_serde(v))).collect()),
    }
}

fn parse_json(text: &str) -> Result<JsonValue, String> {
    serde_json::from_str::<serde_json::Value>(text).map(from_serde).map_err(|e| e.to_string())
}


fn to_serde(v: &JsonValue) -> serde_json::Value {
    match v {
        JsonValue::Null => serde_json::Value::Null,
        JsonValue::Bool(b) => serde_json::Value::Bool(*b),
        JsonValue::Number(JsonNumber::Unsigned(u)) => serde_json::Value::from(*u),
        JsonValue::Number(JsonNumber::Negative(i)) => serde_json::Value::from(*i),
        JsonValue::Number(JsonNumber::Decimal(d)) => serde_json::from_str(d).unwrap(),
        JsonValue::Str(s) => serde_json::Value::String(s.clone()),
        JsonValue::Array(items) => serde_json::Value::Array(items.iter().map(to_serde).collect()),
        JsonValue::Object(entries) => serde_json::Value::Object(
            entries.iter().map(|(k, v)| (k.clone(), to_serde(v))).collect(),
        ),
    }
}

fn serde(text: &str) -> serde_json::Value {
    serde_json::from_str(text).unwrap()
}

fn convert(message: &NeutralMessage) -> serde_json::Value {
    to_serde(&GeminiAdapter::new().convert_message(message))
}

fn same_events(actual: &[NeutralStreamEvent], expected: &[NeutralStreamEvent]) {
    assert_eq!(format!("{:?}", actual), format!("{:?}", expected));
}

fn response_start(id: Option<&str>) -> NeutralStreamEvent {
    NeutralStreamEvent::ResponseStart {
        response_id: id.map(|s| s.to_string()),
        model: "gemini-upstream".to_string(),
    }
}

#[test]
fn mod_tool_messages_are_encoded_as_user_turns() {
    let message = NeutralMessage {
        role: MessageRole::Tool,
        blocks: vec![NeutralContentBlock::ToolResult {
            tool_call_id: "call-lookup".to_string(),
            name: Some("lookup".to_string()),
            content: r#"{"result":"ok"}"#.to_string(),
        }],
    };

    let converted = convert(&message);

    assert_eq!(converted["role"], "user");
    assert_eq!(converted["parts"][0]["functionResponse"]["id"], "call-lookup");
    assert_eq!(converted["parts"][0]["functionResponse"]["name"], "lookup");
}

#[test]
fn gemini_tool_messages_are_encoded_as_user_turns() {
    let message = NeutralMessage {
        role: MessageRole::Tool,
        blocks: vec![NeutralContentBlock::ToolResult {
            tool_call_id: "lookup".to_string(),
            name: None,
            content: r#"{"result":"ok"}"#.to_string(),
        }],
    };

    let converted = convert(&message);

    assert_eq!(converted["role"], "user");
}

#[test]
fn assistant_tool_call_ids_are_encoded() {
    let message = NeutralMessage {
        role: MessageRole::Assistant,
        blocks: vec![NeutralContentBlock::ToolCall {
            id: "call-lookup".to_string(),
            name: "lookup".to_string(),
            arguments_json: r#"{"query":"rust"}"#.to_string(),
        }],
    };

    let converted = convert(&message);

    assert_eq!(converted["parts"][0]["functionCall"]["id"], "call-lookup");
    assert_eq!(converted["parts"][0]["functionCall"]["name"], "lookup");
}

#[test]
fn thinking_signatures_are_encoded() {
    let message = NeutralMessage {
        role: MessageRole::Assistant,
        blocks: vec![NeutralContentBlock::Thinking {
            text: "summary".to_string(),
            signature: Some("signed-thought".to_string()),
        }],
    };

    let converted = convert(&message);

    assert_eq!(converted["parts"][0]["text"], "summary");
    assert_eq!(converted["parts"][0]["thoughtSignature"], "signed-thought");
}

#[test]
fn tool_results_that_are_not_json_are_wrapped_and_bad_arguments_become_empty() {
    let message = NeutralMessage {
        role: MessageRole::Assistant,
        blocks: vec![
            NeutralContentBlock::ToolResult {
                tool_call_id: "call-1".to_string(),
                name: None,
                content: "plain text".to_string(),
            },
            NeutralContentBlock::ToolCall {
                id: "call-2".to_string(),
                name: "lookup".to_string(),
                arguments_json: "not json".to_string(),
            },
            NeutralContentBlock::InlineData {
                mime_type: "image/png".to_string(),
                data_base64: "AAAA".to_string(),
            },
        ],
    };

    let converted = convert(&message);

    assert_eq!(converted["role"], "model");
    assert_eq!(converted["parts"][0]["functionResponse"]["name"], "call-1");
    assert_eq!(converted["parts"][0]["functionResponse"]["response"]["result"], "plain text");
    assert_eq!(converted["parts"][1]["functionCall"]["args"], serde("{}"));
    assert_eq!(converted["parts"][2]["inlineData"]["mimeType"], "image/png");
    assert_eq!(converted["parts"][2]["inlineData"]["data"], "AAAA");
}

#[test]
fn decoder_emits_all_candidates_and_attaches_usage_to_response_end() {
    let mut decoder = GeminiStreamDecoder::new("gemini-upstream".to_string());

    let mut events = decoder
        .decode_data(
            r#"{
                "responseId":"response-1",
                "candidates":[
                    {
                        "index":4,
                        "content":{"parts":[
                            {"text":"answer"},
                            {"thought":true,"text":"reason"},
                            {"functionCall":{"name":"lookup","args":{"query":"rust"}}}
                        ]},
                        "finishReason":"TOOL_CALL"
                    },
                    {
                        "content":{"parts":[{"text":"alternative"}]},
                        "finishReason":"MAX_TOKENS"
                    }
                ],
                "usageMetadata":{
                    "promptTokenCount":3,
                    "candidatesTokenCount":5,
                    "totalTokenCount":8
                }
            }"#,
        )
        .unwrap();
    events.extend(decoder.decode_data("[DONE]").unwrap());

    same_events(
        &events,
        &[
            response_start(Some("response-1")),
            NeutralStreamEvent::TextDelta { choice_index: 4, text: "answer".to_string() },
            NeutralStreamEvent::ThinkingDelta { choice_index: 4, text: "reason".to_string() },
            NeutralStreamEvent::ToolCallStart {
                choice_index: 4,
                tool_call_index: 2,
                id: "call_4_2".to_string(),
                name: "lookup".to_string(),
            },
            NeutralStreamEvent::ToolCallArgumentsDelta {
                choice_index: 4,
                tool_call_index: 2,
                arguments_delta: r#"{"query":"rust"}"#.to_string(),
            },
            NeutralStreamEvent::ToolCallEnd { choice_index: 4, tool_call_index: 2 },
            NeutralStreamEvent::TextDelta { choice_index: 1, text: "alternative".to_string() },
            NeutralStreamEvent::Finish {
                choice_index: 4,
                reason: FinishReason::ToolCall,
                raw_finish_reason: Some("TOOL_CALL".to_string()),
            },
            NeutralStreamEvent::Finish {
                choice_index: 1,
                reason: FinishReason::MaxTokens,
                raw_finish_reason: Some("MAX_TOKENS".to_string()),
            },
            NeutralStreamEvent::ResponseEnd {
                usage: Some(UsageInfo {
                    input_tokens: 3,
                    output_tokens: 5,
                    cache_read_tokens: None,
                    cache_write_tokens: None,
                    reasoning_tokens: None,
                    total_tokens: 8,
                }),
            },
        ],
    );
}

#[test]
fn decoder_maps_blocked_prompt_to_content_filter_finish() {
    let mut decoder = GeminiStreamDecoder::new("gemini-upstream".to_string());
    let mut events = decoder
        .decode_data(
            r#"{
                "promptFeedback":{"blockReason":"SAFETY"},
                "usageMetadata":{"promptTokenCount":4,"totalTokenCount":4}
            }"#,
        )
        .unwrap();
    events.extend(decoder.finish());

    same_events(
        &events,
        &[
            response_start(None),
            NeutralStreamEvent::Finish {
                choice_index: 0,
                reason: FinishReason::ContentFilter,
                raw_finish_reason: Some("SAFETY".to_string()),
            },
            NeutralStreamEvent::ResponseEnd {
                usage: Some(UsageInfo {
                    input_tokens: 4,
                    output_tokens: 0,
                    cache_read_tokens: None,
                    cache_write_tokens: None,
                    reasoning_tokens: None,
                    total_tokens: 4,
                }),
            },
        ],
    );
}

fn dedup_case() {
    let mut decoder = GeminiStreamDecoder::new("gemini-upstream".to_string());
    let data = r#"{
        "candidates":[{
            "index":2,
            "content":{"parts":[{
                "functionCall":{"name":"lookup","args":{"query":"rust"}}
            }]},
            "finishReason":"STOP"
        }]
    }"#;

    let first_events = decoder.decode_data(data).unwrap();
    let repeated_events = decoder.decode_data(data).unwrap();

    assert_eq!(first_events.len(), 5);
    assert!(repeated_events.is_empty());
}

#[test]
fn mod_decoder_deduplicates_tool_parts_and_choice_finish() {
    dedup_case();
}

#[test]
fn gemini_decoder_deduplicates_tool_parts_and_choice_finish() {
    dedup_case();
}

fn ends_once_case() {
    let mut done_decoder = GeminiStreamDecoder::new("gemini-upstream".to_string());
    same_events(
        &done_decoder.decode_data("[DONE]").unwrap(),
        &[NeutralStreamEvent::ResponseEnd { usage: None }],
    );
    assert!(done_decoder.decode_data("{}").unwrap().is_empty());
    assert!(done_decoder.finish().is_empty());

    let mut eof_decoder = GeminiStreamDecoder::new("gemini-upstream".to_string());
    same_events(&eof_decoder.finish(), &[NeutralStreamEvent::ResponseEnd { usage: None }]);
    assert!(eof_decoder.finish().is_empty());
}

#[test]
fn mod_decoder_ends_once_for_done_or_eof() {
    ends_once_case();
}

#[test]
fn gemini_decoder_ends_once_for_done_or_eof() {
    ends_once_case();
}

fn invalid_json_case() {
    let mut decoder = GeminiStreamDecoder::new("gemini-upstream".to_string());
    same_events(&decoder.decode_data("{}").unwrap(), &[response_start(None)]);

    let error = decoder.decode_data("data: {}").unwrap_err();
    assert_eq!(error.category, ErrorCategory::StreamInterrupted);
    assert_eq!(error.status_code, 502);
}

#[test]
fn mod_decoder_starts_without_response_id_and_rejects_invalid_json() {
    invalid_json_case();
}

#[test]
fn gemini_decoder_starts_without_response_id_and_rejects_invalid_json() {
    invalid_json_case();
}

fn route(levels: Vec<(ReasoningLevel, ReasoningMapping)>, level: Option<ReasoningLevel>) -> ResolvedRoute {
    let mut capabilities = ModelCapabilities::default();
    capabilities.reasoning.levels = levels;
    ResolvedRoute {
        upstream_model: UpstreamModel {
            id: "gem".to_string(),
            provider_id: "google".to_string(),
            upstream_model_id: "gemini-2.5-pro".to_string(),
            display_name: "Gemini".to_string(),
            capabilities,
            token_limits: ModelTokenLimits::default(),
            compression_policy: None,
            parameter_overrides: ParameterOverrides::default(),
            enabled: true,
        },
        final_parameters: ParameterOverrides {
            temperature: None,
            max_tokens: Some(256),
            top_p: None,
            top_k: Some(40),
            extra_body: Some(vec![(
                "generationConfig".to_string(),
                parse_json(r#"{"thinkingConfig":{"thinkingLevel":"low"},"seed":7}"#).unwrap(),
            )]),
        },
        final_reasoning_level: level,
    }
}

fn request() -> NeutralChatRequest {
    NeutralChatRequest {
        virtual_model_id: "v".to_string(),
        messages: vec![NeutralMessage {
            role: MessageRole::User,
            blocks: vec![NeutralContentBlock::Text("hi".to_string())],
        }],
        system_instruction: Some("be brief".to_string()),
        tools: vec![],
        output_modalities: vec![],
        image_generation_config: None,
        reasoning_level: None,
        stream: false,
        generation_parameters: ParameterOverrides::default(),
        extra_body: vec![],
    }
}

#[test]
fn payload_carries_contents_system_and_reasoning_budget() {
    let r = route(vec![(ReasoningLevel::High, ReasoningMapping::BudgetTokens(2048))], Some(ReasoningLevel::High));
    let payload = to_serde(&GeminiAdapter::new().build_request_payload(&r, &request()).unwrap());

    assert_eq!(payload["contents"][0]["role"], "user");
    assert_eq!(payload["contents"][0]["parts"][0]["text"], "hi");
    assert_eq!(payload["systemInstruction"]["parts"][0]["text"], "be brief");
    assert!(payload.get("tools").is_none());
    // The extra body replaced the generated `generationConfig`; the budget
    // then replaced the level inside it.
    assert_eq!(
        payload["generationConfig"],
        serde(r#"{"thinkingConfig":{"thinkingBudget":2048},"seed":7}"#)
    );
}

#[test]
fn payload_rejects_missing_and_unsupported_reasoning_mappings() {
    let missing = route(vec![], Some(ReasoningLevel::XHigh));
    let err = GeminiAdapter::new().build_request_payload(&missing, &request()).unwrap_err();
    assert_eq!(err.category, ErrorCategory::UnsupportedFeature);
    assert_eq!(err.status_code, 400);
    assert_eq!(err.message, "No reasoning mapping configured for Gemini level XHigh");

    let effort = route(
        vec![(ReasoningLevel::Low, ReasoningMapping::Effort("low".to_string()))],
        Some(ReasoningLevel::Low),
    );
    let err = GeminiAdapter::new().build_request_payload(&effort, &request()).unwrap_err();
    assert_eq!(err.message, "Gemini does not support reasoning mapping Effort(\"low\")");

    let adaptive = route(vec![(ReasoningLevel::Auto, ReasoningMapping::Adaptive)], Some(ReasoningLevel::Auto));
    let err = GeminiAdapter::new().build_request_payload(&adaptive, &request()).unwrap_err();
    assert_eq!(err.message, "Gemini does not support reasoning mapping Adaptive");
}

#[test]
fn payload_without_reasoning_keeps_generation_parameters() {
    let mut r = route(vec![], None);
    r.final_parameters.extra_body = None;
    let payload = to_serde(&GeminiAdapter::new().build_request_payload(&r, &request()).unwrap());
    assert_eq!(payload["generationConfig"], serde(r#"{"maxOutputTokens":256,"topK":40}"#));
}

#[test]
fn headers_carry_key_and_provider_overrides() {
    let provider = Provider {
        id: "p".to_string(),
        name: "p".to_string(),
        protocol: ProviderProtocol::GeminiGenerateContent,
        models_endpoint: String::new(),
        generate_endpoint: String::new(),
        api_key: "secret-key".to_string(),
        headers: vec![("Content-Type".to_string(), "application/json; charset=utf-8".to_string())],
        default_parameters: ParameterOverrides::default(),
        connect_timeout_ms: 1,
        request_timeout_ms: 1,
        stream_idle_timeout_ms: 1,
        enabled: true,
    };
    let headers = GeminiAdapter::new().build_headers(&provider);
    assert_eq!(
        headers,
        vec![
            ("Content-Type".to_string(), "application/json; charset=utf-8".to_string()),
            ("x-goog-api-key".to_string(), "secret-key".to_string()),
        ]
    );
}

#[test]
fn parses_candidates_and_reports_upstream_failures() {
    let model = route(vec![], None).upstream_model;
    let body = r#"{"candidates":[{"content":{"parts":[{"text":"hello"},{"functionCall":{"name":"f","args":{}}}]},"finishReason":"STOP"}],"usageMetadata":{"promptTokenCount":2,"candidatesTokenCount":3,"totalTokenCount":5}}"#;
    let resp = GeminiAdapter::new().parse_response(200, body, &model).unwrap();
    assert_eq!(resp.id, "gemini-resp");
    assert_eq!(resp.model, "gemini-2.5-pro");
    assert_eq!(resp.choices.len(), 1);
    assert_eq!(resp.choices[0].finish_reason, Some(FinishReason::Stop));
    assert_eq!(
        format!("{:?}", resp.choices[0].blocks),
        format!(
            "{:?}",
            vec![
                NeutralContentBlock::Text("hello".to_string()),
                NeutralContentBlock::ToolCall {
                    id: "call_0_1".to_string(),
                    name: "f".to_string(),
                    arguments_json: "{}".to_string(),
                },
            ]
        )
    );
    assert_eq!(resp.usage.unwrap().total_tokens, 5);

    let err = GeminiAdapter::new().parse_response(200, "not json", &model).unwrap_err();
    assert_eq!(err.category, ErrorCategory::Internal);
    assert_eq!(err.status_code, 500);
    assert!(err.message.starts_with("Failed to parse Gemini response: "));

    let err = GeminiAdapter::new().parse_response(429, "slow down", &model).unwrap_err();
    assert_eq!(err.status_code, 429);
    assert_eq!(err.upstream_body.as_deref(), Some("slow down"));
}
