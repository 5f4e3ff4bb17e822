use agy_byok::domain::definition::{ModelCapabilities, UpstreamModel};
use agy_byok::domain::error::ErrorCategory;
use agy_byok::domain::provider::ParameterOverrides;
use agy_byok::domain::reasoning::{ReasoningLevel, ReasoningMapping};
use agy_byok::domain::request::{MessageRole, NeutralChatRequest, NeutralContentBlock, NeutralMessage};
use agy_byok::domain::response::{FinishReason, NeutralStreamEvent, UsageInfo};
use agy_byok::domain::route::ResolvedRoute;
use agy_byok::domain::token_limits::ModelTokenLimits;
use agy_byok::json::{JsonNumber, JsonValue};
use agy_byok::providers::openai_responses::stream::OpenAIResponsesStreamDecoder;
use agy_byok::providers::openai_responses::OpenAIResponsesAdapter;

fn from_serde(v: serde_json::Value) -> JsonValue {
    match v {
        serde_json::Value::Null => JsonValue::Null,
        serde_json::Value::Bool(b) => JsonValue::Bool(b),
        serde_json::Value::Number(n) => match (n.as_u64(), n.as_i64()) {
            (Some(u), _) => JsonValue::Number(JsonNumber::Unsigned(u)),
            (None, Some(i)) => JsonValue::Number(JsonNumber::Negative(i)),
            (None, None) => JsonValue::Number(JsonNumber::Decimal(n.to_string())),
        },
        serde_json::Value::String(s) => JsonValue::Str(s),
        serde_json::Value::Array(items) => JsonValue::Array(items.into_iter().map(from_serde).collect()),
        serde_json::Value::Object(map) => JsonValue::Object(map.into_iter().map(|(k, v)| (k, from_serde(v))).collect()),
    }
}

fn parse_json(text: &str) -> Result<JsonValue, String> {
    serde_json::from_str::<serde_json::Value>(text).map(from_serde).map_err(|e| e.to_string())
}


fn to_serde(v: &JsonValue) -> serde_json::Value {
    match v {
        JsonValue::Null => serde_json::Value::Null,
        JsonValue::Bool(b) => serde_json::Value::Bool(*b),
        JsonValue::Number(JsonNumber::Unsigned(u)) => serde_json::Value::from(*u),
        JsonValue::Number(JsonNumber::Negative(i)) => serde_json::Value::from(*i),
        JsonValue::Number(JsonNumber::Decimal(d)) => serde_json::from_str(d).unwrap(),
        JsonValue::Str(s) => serde_json::Value::String(s.clone()),
        JsonValue::Array(items) => serde_json::Value::Array(items.iter().map(to_serde).collect()),
        JsonValue::Object(entries) => serde_json::Value::Object(
            entries.iter().map(|(k, v)| (k.clone(), to_serde(v))).collect(),
        ),
    }
}

fn serde(text: &str) -> serde_json::Value {
    serde_json::from_str(text).unwrap()
}

fn model() -> UpstreamModel {
    UpstreamModel {
        id: "upstream".to_string(),
        provider_id: "provider".to_string(),
        upstream_model_id: "gpt-5".to_string(),
        display_name: "GPT-5".to_string(),
        capabilities: ModelCapabilities::default(),
        token_limits: ModelTokenLimits::default(),
        compression_policy: None,
        parameter_overrides: ParameterOverrides::default(),
        enabled: true,
    }
}

#[test]
fn mod_parses_response_message_tool_call_reasoning_and_usage() {
    let adapter = OpenAIResponsesAdapter::new();
    let response = adapter
        .parse_response(
            200,
            r#"{
                "id":"resp_1",
                "model":"gpt-5",
                "status":"completed",
                "output":[
                  {"type":"reasoning","summary":[{"type":"summary_text","text":"Plan"}]},
                  {"type":"message","content":[{"type":"output_text","text":"Done"}]},
                  {"type":"function_call","call_id":"call_1","name":"lookup","arguments":"{\"q\":\"x\"}"}
                ],
                "usage":{
                  "input_tokens":12,
                  "output_tokens":8,
                  "total_tokens":20,
                  "input_tokens_details":{"cached_tokens":5},
                  "output_tokens_details":{"reasoning_tokens":3}
                }
            }"#,
            &model(),
        )
        .unwrap();
    assert_eq!(response.id, "resp_1");
    assert_eq!(
        response.usage,
        Some(UsageInfo {
            input_tokens: 7,
            output_tokens: 5,
            cache_read_tokens: Some(5),
            cache_write_tokens: None,
            reasoning_tokens: Some(3),
            total_tokens: 20,
        })
    );
    assert!(matches!(response.choices[0].finish_reason, Some(FinishReason::ToolCall)));
    assert!(response.choices[0].blocks.iter().any(|block| matches!(block, NeutralContentBlock::Thinking { .. })));
    assert!(response.choices[0]
        .blocks
        .iter()
        .any(|block| matches!(block, NeutralContentBlock::ToolCall { id, .. } if id == "call_1")));
}

#[test]
fn openai_responses_parses_response_message_tool_call_reasoning_and_usage() {
    let adapter = OpenAIResponsesAdapter::new();
    let response = adapter
        .parse_response(
            200,
            r#"{
                "id":"resp_1",
                "model":"gpt-5",
                "status":"completed",
                "output":[
                  {"type":"reasoning","summary":[{"type":"summary_text","text":"Plan"}]},
                  {"type":"message","content":[{"type":"output_text","text":"Done"}]},
                  {"type":"function_call","call_id":"call_1","name":"lookup","arguments":"{\"q\":\"x\"}"}
                ],
                "usage":{"input_tokens":2,"output_tokens":3,"total_tokens":5}
            }"#,
            &model(),
        )
        .unwrap();
    assert_eq!(response.id, "resp_1");
    assert_eq!(response.usage.unwrap().total_tokens, 5);
    assert!(matches!(response.choices[0].finish_reason, Some(FinishReason::ToolCall)));
    assert!(response.choices[0].blocks.iter().any(|block| matches!(block, NeutralContentBlock::Thinking { .. })));
    assert!(response.choices[0]
        .blocks
        .iter()
        .any(|block| matches!(block, NeutralContentBlock::ToolCall { id, .. } if id == "call_1")));
}

#[test]
fn mod_decodes_responses_text_and_completed_events() {
    let mut decoder = OpenAIResponsesStreamDecoder::new("gpt-5".to_string());
    let start = decoder
        .decode_data(r#"{"type":"response.created","response":{"id":"resp_1","model":"gpt-5"}}"#)
        .unwrap();
    assert!(matches!(start[0], NeutralStreamEvent::ResponseStart { .. }));
    let delta = decoder.decode_data(r#"{"type":"response.output_text.delta","delta":"Hello"}"#).unwrap();
    assert!(matches!(&delta[0], NeutralStreamEvent::TextDelta { text, .. } if text == "Hello"));
    let end = decoder
        .decode_data(r#"{"type":"response.completed","response":{"status":"completed","usage":{"input_tokens":11,"output_tokens":7,"total_tokens":18,"input_tokens_details":{"cached_tokens":4},"output_tokens_details":{"reasoning_tokens":3}}}}"#)
        .unwrap();
    assert!(end.iter().any(|event| matches!(event, NeutralStreamEvent::Finish { reason: FinishReason::Stop, .. })));
    let expected = NeutralStreamEvent::ResponseEnd {
        usage: Some(UsageInfo {
            input_tokens: 7,
            output_tokens: 4,
            cache_read_tokens: Some(4),
            cache_write_tokens: None,
            reasoning_tokens: Some(3),
            total_tokens: 18,
        }),
    };
    assert_eq!(format!("{:?}", end.last()), format!("{:?}", Some(&expected)));
}

#[test]
fn openai_responses_decodes_responses_text_and_completed_events() {
    let mut decoder = OpenAIResponsesStreamDecoder::new("gpt-5".to_string());
    let start = decoder
        .decode_data(r#"{"type":"response.created","response":{"id":"resp_1","model":"gpt-5"}}"#)
        .unwrap();
    assert!(matches!(start[0], NeutralStreamEvent::ResponseStart { .. }));
    let delta = decoder.decode_data(r#"{"type":"response.output_text.delta","delta":"Hello"}"#).unwrap();
    assert!(matches!(&delta[0], NeutralStreamEvent::TextDelta { text, .. } if text == "Hello"));
    let end = decoder
        .decode_data(r#"{"type":"response.completed","response":{"status":"completed","usage":{"input_tokens":1,"output_tokens":2,"total_tokens":3}}}"#)
        .unwrap();
    assert!(end.iter().any(|event| matches!(event, NeutralStreamEvent::Finish { reason: FinishReason::Stop, .. })));
    assert!(end.iter().any(|event| matches!(event, NeutralStreamEvent::ResponseEnd { .. })));
}

fn same_events(actual: &[NeutralStreamEvent], expected: &[NeutralStreamEvent]) {
    assert_eq!(format!("{:?}", actual), format!("{:?}", expected));
}

#[test]
fn stream_decoder_holds_arguments_until_the_call_is_identified() {
    let mut d = OpenAIResponsesStreamDecoder::new("gpt-5".to_string());
    let first = d.decode_data(r#"{"type":"response.function_call_arguments.delta","output_index":1,"delta":"{\"a\""}"#).unwrap();
    same_events(&first, &[NeutralStreamEvent::ResponseStart { response_id: None, model: "gpt-5".to_string() }]);
    let added = d
        .decode_data(r#"{"type":"response.output_item.added","output_index":1,"item":{"type":"function_call","call_id":"c1","name":"f"}}"#)
        .unwrap();
    same_events(
        &added,
        &[
            NeutralStreamEvent::ToolCallStart { choice_index: 0, tool_call_index: 1, id: "c1".to_string(), name: "f".to_string() },
            NeutralStreamEvent::ToolCallArgumentsDelta { choice_index: 0, tool_call_index: 1, arguments_delta: "{\"a\"".to_string() },
        ],
    );
    let done = d
        .decode_data(r#"{"type":"response.output_item.done","output_index":1,"item":{"type":"function_call","arguments":"{\"a\":1}"}}"#)
        .unwrap();
    same_events(&done, &[NeutralStreamEvent::ToolCallEnd { choice_index: 0, tool_call_index: 1 }]);
    let end = d.decode_data(r#"{"type":"response.incomplete","response":{"incomplete_details":{"reason":"max_output_tokens"}}}"#).unwrap();
    same_events(
        &end,
        &[
            NeutralStreamEvent::Finish { choice_index: 0, reason: FinishReason::ToolCall, raw_finish_reason: Some("max_output_tokens".to_string()) },
            NeutralStreamEvent::ResponseEnd { usage: None },
        ],
    );
    assert!(d.decode_data(r#"{"type":"response.completed"}"#).unwrap().is_empty());
    assert!(d.finish().is_empty());
}

#[test]
fn stream_decoder_reports_unnamed_calls_and_failures() {
    let mut d = OpenAIResponsesStreamDecoder::new("gpt-5".to_string());
    let err = d
        .decode_data(r#"{"type":"response.output_item.done","output_index":0,"item":{"type":"function_call","arguments":"{}"}}"#)
        .unwrap_err();
    assert_eq!(err.message, "OpenAI Responses function call 0 ended without call_id and name");
    let err = d.decode_data(r#"{"type":"response.failed","response":{"error":{"message":"boom"}}}"#).unwrap_err();
    assert_eq!(err.message, "boom");
    assert_eq!(err.category, ErrorCategory::StreamInterrupted);
    let end = d.finish();
    same_events(&end, &[NeutralStreamEvent::ResponseEnd { usage: None }]);
}

#[test]
fn payload_sends_items_and_reasoning_effort() {
    let mut capabilities = ModelCapabilities::default();
    capabilities.reasoning.levels = vec![
        (ReasoningLevel::Off, ReasoningMapping::Disabled),
        (ReasoningLevel::Medium, ReasoningMapping::Effort("medium".to_string())),
    ];
    let mut m = model();
    m.capabilities = capabilities;
    let mut route = ResolvedRoute {
        upstream_model: m,
        final_parameters: ParameterOverrides {
            temperature: None,
            max_tokens: Some(64),
            top_p: None,
            top_k: None,
            extra_body: Some(vec![("reasoning".to_string(), parse_json(r#"{"summary":"auto"}"#).unwrap())]),
        },
        final_reasoning_level: Some(ReasoningLevel::Medium),
    };
    let request = NeutralChatRequest {
        virtual_model_id: "v".to_string(),
        messages: vec![
            NeutralMessage {
                role: MessageRole::Assistant,
                blocks: vec![
                    NeutralContentBlock::Thinking { text: "private".to_string(), signature: None },
                    NeutralContentBlock::Text("ok".to_string()),
                    NeutralContentBlock::ToolCall { id: "c".to_string(), name: "f".to_string(), arguments_json: "{}".to_string() },
                ],
            },
            NeutralMessage {
                role: MessageRole::Tool,
                blocks: vec![NeutralContentBlock::ToolResult { tool_call_id: "c".to_string(), name: None, content: "1".to_string() }],
            },
        ],
        system_instruction: Some("be nice".to_string()),
        tools: vec![],
        output_modalities: vec![],
        image_generation_config: None,
        reasoning_level: None,
        stream: false,
        generation_parameters: ParameterOverrides::default(),
        extra_body: vec![],
    };
    let payload = to_serde(&OpenAIResponsesAdapter::new().build_request_payload(&route, &request).unwrap());
    assert_eq!(
        payload,
        serde(
            r#"{"model":"gpt-5","stream":false,"instructions":"be nice","max_output_tokens":64,
                "reasoning":{"summary":"auto","effort":"medium"},
                "input":[
                  {"role":"assistant","content":[{"type":"output_text","text":"ok"}]},
                  {"type":"function_call","call_id":"c","name":"f","arguments":"{}"},
                  {"type":"function_call_output","call_id":"c","output":"1"}
                ]}"#
        )
    );

    route.final_reasoning_level = Some(ReasoningLevel::Off);
    let payload = to_serde(&OpenAIResponsesAdapter::new().build_request_payload(&route, &request).unwrap());
    assert!(payload.get("reasoning").is_none());

    let mut bad = request;
    bad.messages[0].blocks.push(NeutralContentBlock::InlineData { mime_type: "audio/wav".to_string(), data_base64: "AA".to_string() });
    let err = OpenAIResponsesAdapter::new().build_request_payload(&route, &bad).unwrap_err();
    assert_eq!(err.category, ErrorCategory::UnsupportedFeature);
    assert_eq!(err.message, "OpenAI Responses does not support inline audio/wav content");
}
