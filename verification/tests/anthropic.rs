use agy_byok::domain::definition::{ModelCapabilities, UpstreamModel};
use agy_byok::domain::error::ErrorCategory;
use agy_byok::domain::provider::ParameterOverrides;
use agy_byok::domain::reasoning::{ReasoningLevel, ReasoningMapping};
use agy_byok::domain::request::{MessageRole, NeutralChatRequest, NeutralContentBlock, NeutralMessage};
use agy_byok::domain::response::{FinishReason, NeutralStreamEvent, UsageInfo};
use agy_byok::domain::route::ResolvedRoute;
use agy_byok::domain::token_limits::{ModelTokenLimits, TokenLimitSource};
use agy_byok::json::{JsonNumber, JsonValue};
use agy_byok::providers::anthropic::stream::AnthropicStreamDecoder;
use agy_byok::providers::anthropic::AnthropicAdapter;

fn from_serde(v: serde_json::Value) -> JsonValue {
    match v {
        serde_json::Value::Null => JsonValue::Null,
        serde_json::Value::Bool(b) => JsonValue::Bool(b),
        serde_json::Value::Number(n) => match (n.as_u64(), n.as_i64()) {
            (Some(u), _) => JsonValue::Number(JsonNumber::Unsigned(u)),
            (None, Some(i)) => JsonValue::Number(JsonNumber::Negative(i)),
            (None, None) => JsonValue::Number(JsonNumber::Decimal(n.to_string())),
        },
        serde_json::Value::String(s) => JsonValue::Str(s),
        serde_json::Value::Array(items) => JsonValue::Array(items.into_iter().map(from_serde).collect()),
        serde_json::Value::Object(map) => JsonValue::Object(map.into_iter().map(|(k, v)| (k, from_serde(v))).collect()),
    }
}

fn parse_json(text: &str) -> Result<JsonValue, String> {
    serde_json::from_str::<serde_json::Value>(text).map(from_serde).map_err(|e| e.to_string())
}


fn to_serde(v: &JsonValue) -> serde_json::Value {
    match v {
        JsonValue::Null => serde_json::Value::Null,
        JsonValue::Bool(b) => serde_json::Value::Bool(*b),
        JsonValue::Number(JsonNumber::Unsigned(u)) => serde_json::Value::from(*u),
        JsonValue::Number(JsonNumber::Negative(i)) => serde_json::Value::from(*i),
        JsonValue::Number(JsonNumber::Decimal(d)) => serde_json::from_str(d).unwrap(),
        JsonValue::Str(s) => serde_json::Value::String(s.clone()),
        JsonValue::Array(items) => serde_json::Value::Array(items.iter().map(to_serde).collect()),
        JsonValue::Object(entries) => serde_json::Value::Object(
            entries.iter().map(|(k, v)| (k.clone(), to_serde(v))).collect(),
        ),
    }
}

fn serde(text: &str) -> serde_json::Value {
    serde_json::from_str(text).unwrap()
}

fn route(levels: Vec<(ReasoningLevel, ReasoningMapping)>, level: Option<ReasoningLevel>, max_tokens: Option<u32>, output_limit: Option<(u32, TokenLimitSource)>) -> ResolvedRoute {
    let mut capabilities = ModelCapabilities::default();
    capabilities.reasoning.levels = levels;
    let mut token_limits = ModelTokenLimits::default();
    if let Some((limit, source)) = output_limit {
        token_limits.output_token_limit = Some(limit);
        token_limits.output_token_limit_source = source;
    }
    ResolvedRoute {
        upstream_model: UpstreamModel {
            id: "sonnet-model".to_string(),
            provider_id: "anthropic".to_string(),
            upstream_model_id: "sonnet-upstream".to_string(),
            display_name: "Sonnet".to_string(),
            capabilities,
            token_limits,
            compression_policy: None,
            parameter_overrides: ParameterOverrides::default(),
            enabled: true,
        },
        final_parameters: ParameterOverrides {
            temperature: None,
            max_tokens,
            top_p: None,
            top_k: Some(3),
            extra_body: Some(vec![("output_config".to_string(), parse_json(r#"{"format":"text"}"#).unwrap())]),
        },
        final_reasoning_level: level,
    }
}

fn request() -> NeutralChatRequest {
    NeutralChatRequest {
        virtual_model_id: "v".to_string(),
        messages: vec![
            NeutralMessage {
                role: MessageRole::Tool,
                blocks: vec![NeutralContentBlock::ToolResult {
                    tool_call_id: "toolu_1".to_string(),
                    name: None,
                    content: "42".to_string(),
                }],
            },
            NeutralMessage {
                role: MessageRole::Assistant,
                blocks: vec![
                    NeutralContentBlock::Thinking { text: "hm".to_string(), signature: Some("sig".to_string()) },
                    NeutralContentBlock::ToolCall { id: "toolu_2".to_string(), name: "f".to_string(), arguments_json: "oops".to_string() },
                    NeutralContentBlock::InlineData { mime_type: "application/pdf".to_string(), data_base64: "JV".to_string() },
                ],
            },
        ],
        system_instruction: Some("sys".to_string()),
        tools: vec![],
        output_modalities: vec![],
        image_generation_config: None,
        reasoning_level: None,
        stream: true,
        generation_parameters: ParameterOverrides::default(),
        extra_body: vec![],
    }
}

#[test]
fn payload_encodes_messages_blocks_and_defaults() {
    let r = route(vec![], None, None, None);
    let payload = to_serde(&AnthropicAdapter::new().build_request_payload(&r, &request()).unwrap());
    assert_eq!(
        payload,
        serde(
            r#"{"model":"sonnet-upstream","max_tokens":4096,"stream":true,"system":"sys","top_k":3,
                "output_config":{"format":"text"},
                "messages":[
                  {"role":"user","content":[{"type":"tool_result","tool_use_id":"toolu_1","content":"42"}]},
                  {"role":"assistant","content":[
                    {"type":"thinking","thinking":"hm","signature":"sig"},
                    {"type":"tool_use","id":"toolu_2","name":"f","input":{}},
                    {"type":"document","source":{"type":"base64","media_type":"application/pdf","data":"JV"}}
                  ]}
                ]}"#
        )
    );
}

#[test]
fn budget_thinking_raises_generated_max_tokens_within_trusted_limits() {
    let levels = vec![(ReasoningLevel::High, ReasoningMapping::BudgetTokens(8000))];
    let r = route(levels.clone(), Some(ReasoningLevel::High), None, Some((10000, TokenLimitSource::Catalog)));
    let payload = to_serde(&AnthropicAdapter::new().build_request_payload(&r, &request()).unwrap());
    assert_eq!(payload["max_tokens"], 10000);
    assert_eq!(payload["thinking"], serde(r#"{"type":"enabled","budget_tokens":8000}"#));

    let r = route(levels.clone(), Some(ReasoningLevel::High), None, Some((10000, TokenLimitSource::Estimated)));
    let payload = to_serde(&AnthropicAdapter::new().build_request_payload(&r, &request()).unwrap());
    assert_eq!(payload["max_tokens"], 12096);

    let r = route(levels.clone(), Some(ReasoningLevel::High), Some(8000), None);
    let err = AnthropicAdapter::new().build_request_payload(&r, &request()).unwrap_err();
    assert_eq!(err.category, ErrorCategory::InvalidRequest);
    assert_eq!(err.message, "Anthropic max_tokens (8000) must be greater than thinking budget (8000)");

    let r = route(levels, Some(ReasoningLevel::High), None, Some((4000, TokenLimitSource::Configured)));
    let err = AnthropicAdapter::new().build_request_payload(&r, &request()).unwrap_err();
    assert_eq!(err.message, "Anthropic output token limit (4000) must be greater than thinking budget (8000)");
}

#[test]
fn effort_and_other_mappings_set_thinking_modes() {
    let r = route(vec![(ReasoningLevel::Low, ReasoningMapping::Effort("low".to_string()))], Some(ReasoningLevel::Low), None, None);
    let payload = to_serde(&AnthropicAdapter::new().build_request_payload(&r, &request()).unwrap());
    assert_eq!(payload["thinking"], serde(r#"{"type":"adaptive"}"#));
    assert_eq!(payload["output_config"], serde(r#"{"format":"text","effort":"low"}"#));

    let r = route(vec![(ReasoningLevel::Off, ReasoningMapping::Disabled)], Some(ReasoningLevel::Off), None, None);
    let payload = to_serde(&AnthropicAdapter::new().build_request_payload(&r, &request()).unwrap());
    assert_eq!(payload["thinking"], serde(r#"{"type":"disabled"}"#));

    let r = route(vec![(ReasoningLevel::Max, ReasoningMapping::NativeLevel("max".to_string()))], Some(ReasoningLevel::Max), None, None);
    let err = AnthropicAdapter::new().build_request_payload(&r, &request()).unwrap_err();
    assert_eq!(err.category, ErrorCategory::UnsupportedFeature);
    assert_eq!(err.message, "Anthropic does not support reasoning mapping NativeLevel(\"max\") for level Max");

    let r = route(vec![], Some(ReasoningLevel::Auto), None, None);
    let err = AnthropicAdapter::new().build_request_payload(&r, &request()).unwrap_err();
    assert_eq!(err.message, "No reasoning mapping configured for Anthropic reasoning level Auto");
}

#[test]
fn parses_messages_responses() {
    let model = route(vec![], None, None, None).upstream_model;
    let body = r#"{"id":"msg_1","stop_reason":"end_turn","content":[{"type":"text","text":"hi"},{"type":"thinking","thinking":"t","signature":"s"},{"type":"tool_use","id":"tu","name":"f","input":{"a":1}},{"type":"image"}],"usage":{"input_tokens":5,"output_tokens":2,"cache_read_input_tokens":3}}"#;
    let resp = AnthropicAdapter::new().parse_response(200, body, &model).unwrap();
    assert_eq!(resp.id, "msg_1");
    assert_eq!(resp.model, "sonnet-upstream");
    assert_eq!(resp.choices.len(), 1);
    assert_eq!(resp.choices[0].finish_reason, Some(FinishReason::Stop));
    assert_eq!(
        format!("{:?}", resp.choices[0].blocks),
        format!(
            "{:?}",
            vec![
                NeutralContentBlock::Text("hi".to_string()),
                NeutralContentBlock::Thinking { text: "t".to_string(), signature: Some("s".to_string()) },
                NeutralContentBlock::ToolCall { id: "tu".to_string(), name: "f".to_string(), arguments_json: r#"{"a":1}"#.to_string() },
            ]
        )
    );
    assert_eq!(
        resp.usage,
        Some(UsageInfo {
            input_tokens: 5,
            output_tokens: 2,
            cache_read_tokens: Some(3),
            cache_write_tokens: None,
            reasoning_tokens: None,
            total_tokens: 10,
        })
    );
    let err = AnthropicAdapter::new().parse_response(529, "overloaded", &model).unwrap_err();
    assert_eq!(err.message, "Anthropic upstream status 529");
    assert_eq!(err.status_code, 529);
}

fn same_events(actual: &[NeutralStreamEvent], expected: &[NeutralStreamEvent]) {
    assert_eq!(format!("{:?}", actual), format!("{:?}", expected));
}

#[test]
fn stream_decoder_follows_the_event_protocol() {
    let mut d = AnthropicStreamDecoder::new("fallback".to_string());
    let err = d.decode_data(r#"{"type":"content_block_start","index":0,"content_block":{"type":"text"}}"#).unwrap_err();
    assert_eq!(err.message, "Anthropic content_block_start received before message_start");
    assert_eq!(err.status_code, 502);

    let start = d.decode_data(r#"{"type":"message_start","message":{"id":"msg_1","usage":{"input_tokens":7}}}"#).unwrap();
    same_events(&start, &[NeutralStreamEvent::ResponseStart { response_id: Some("msg_1".to_string()), model: "fallback".to_string() }]);
    let err = d.decode_data(r#"{"type":"message_start","message":{}}"#).unwrap_err();
    assert_eq!(err.message, "Anthropic stream contains multiple message_start events");

    assert!(d.decode_data(r#"{"type":"content_block_start","index":1,"content_block":{"type":"thinking"}}"#).unwrap().is_empty());
    assert!(d.decode_data(r#"{"type":"content_block_delta","index":1,"delta":{"type":"signature_delta","signature":"ab"}}"#).unwrap().is_empty());
    assert!(d.decode_data(r#"{"type":"content_block_delta","index":1,"delta":{"type":"signature_delta","signature":"cd"}}"#).unwrap().is_empty());
    let err = d.decode_data(r#"{"type":"content_block_delta","index":1,"delta":{"type":"text_delta","text":"x"}}"#).unwrap_err();
    assert_eq!(err.message, "Anthropic text_delta does not match content block 1");
    same_events(
        &d.decode_data(r#"{"type":"content_block_stop","index":1}"#).unwrap(),
        &[NeutralStreamEvent::ThinkingSignature { choice_index: 0, signature: "abcd".to_string() }],
    );

    same_events(
        &d.decode_data(r#"{"type":"content_block_start","index":2,"content_block":{"type":"tool_use","id":"tu","name":"f","input":{"q":1}}}"#).unwrap(),
        &[
            NeutralStreamEvent::ToolCallStart { choice_index: 0, tool_call_index: 2, id: "tu".to_string(), name: "f".to_string() },
            NeutralStreamEvent::ToolCallArgumentsDelta { choice_index: 0, tool_call_index: 2, arguments_delta: r#"{"q":1}"#.to_string() },
        ],
    );
    let err = d.decode_data(r#"{"type":"content_block_start","index":2,"content_block":{"type":"text"}}"#).unwrap_err();
    assert_eq!(err.message, "Anthropic content block 2 was started more than once");
    same_events(
        &d.decode_data(r#"{"type":"content_block_delta","index":2,"delta":{"type":"input_json_delta","partial_json":"{}"}}"#).unwrap(),
        &[NeutralStreamEvent::ToolCallArgumentsDelta { choice_index: 0, tool_call_index: 2, arguments_delta: "{}".to_string() }],
    );

    same_events(
        &d.decode_data(r#"{"type":"message_delta","delta":{"stop_reason":"tool_use"},"usage":{"output_tokens":4}}"#).unwrap(),
        &[NeutralStreamEvent::Finish { choice_index: 0, reason: FinishReason::ToolCall, raw_finish_reason: Some("tool_use".to_string()) }],
    );
    assert!(d.decode_data(r#"{"type":"message_delta","delta":{"stop_reason":"end_turn"}}"#).unwrap().is_empty());

    let end = d.decode_data(r#"{"type":"message_stop"}"#).unwrap();
    same_events(
        &end,
        &[
            NeutralStreamEvent::ToolCallEnd { choice_index: 0, tool_call_index: 2 },
            NeutralStreamEvent::ResponseEnd {
                usage: Some(UsageInfo {
                    input_tokens: 7,
                    output_tokens: 4,
                    cache_read_tokens: None,
                    cache_write_tokens: None,
                    reasoning_tokens: None,
                    total_tokens: 11,
                }),
            },
        ],
    );
    assert!(d.decode_data(r#"{"type":"message_stop"}"#).unwrap().is_empty());
    let err = d.decode_data(r#"{"type":"content_block_stop","index":2}"#).unwrap_err();
    assert_eq!(err.message, "Anthropic content_block_stop received after response end");
    assert!(d.finish().is_empty());
}

#[test]
fn stream_decoder_rejects_malformed_events() {
    let mut d = AnthropicStreamDecoder::new("m".to_string());
    assert!(d.decode_data("nope").unwrap_err().message.starts_with("Failed to parse Anthropic stream event JSON: "));
    assert_eq!(d.decode_data("{}").unwrap_err().message, "Anthropic stream event is missing string field type");
    assert!(d.decode_data(r#"{"type":"ping"}"#).unwrap().is_empty());
    assert_eq!(
        d.decode_data(r#"{"type":"message_start","message":{"usage":{"input_tokens":-1}}}"#).unwrap_err().message,
        "Anthropic message_start usage.input_tokens must be a non-negative integer"
    );
    assert_eq!(
        d.decode_data(r#"{"type":"message_start","message":{"model":7}}"#).unwrap_err().message,
        "Anthropic message_start message.model must be a string"
    );
    d.decode_data(r#"{"type":"message_start","message":{"model":"real"}}"#).unwrap();
    assert_eq!(
        d.decode_data(r#"{"type":"content_block_stop","index":9}"#).unwrap_err().message,
        "Anthropic content_block_stop references unopened content block 9"
    );
    assert_eq!(
        d.decode_data(r#"{"type":"content_block_delta","delta":{"type":"text_delta","text":"x"}}"#).unwrap_err().message,
        "Anthropic content_block_delta is missing integer field index"
    );
    d.decode_data(r#"{"type":"content_block_start","index":0,"content_block":{"type":"tool_use","id":"a","name":"b"}}"#).unwrap();
    let end = d.finish();
    same_events(
        &end,
        &[NeutralStreamEvent::ToolCallEnd { choice_index: 0, tool_call_index: 0 }, NeutralStreamEvent::ResponseEnd { usage: None }],
    );
}
