use agy_byok::domain::definition::{ModelCapabilities, ModelModality, ModelRole, UpstreamModel};
use agy_byok::domain::error::ErrorCategory;
use agy_byok::domain::provider::{ParameterOverrides, Provider, ProviderProtocol};
use agy_byok::domain::reasoning::{ReasoningLevel, ReasoningMapping};
use agy_byok::domain::request::{
    MessageRole, NeutralChatRequest, NeutralContentBlock, NeutralMessage, NeutralTool, NeutralToolFunction,
};
use agy_byok::domain::response::{FinishReason, NeutralStreamEvent};
use agy_byok::domain::route::ResolvedRoute;
use agy_byok::domain::token_limits::ModelTokenLimits;
use agy_byok::json::{JsonNumber, JsonValue};
use agy_byok::providers::is_image_generation_request;
use agy_byok::providers::openai::stream::OpenAIStreamDecoder;
use agy_byok::providers::openai::OpenAIAdapter;

fn from_serde(v: serde_json::Value) -> JsonValue {
    match v {
        serde_json::Value::Null => JsonValue::Null,
        serde_json::Value::Bool(b) => JsonValue::Bool(b),
        serde_json::Value::Number(n) => match (n.as_u64(), n.as_i64()) {
            (Some(u), _) => JsonValue::Number(JsonNumber::Unsigned(u)),
            (None, Some(i)) => JsonValue::Number(JsonNumber::Negative(i)),
            (None, None) => JsonValue::Number(JsonNumber::Decimal(n.to_string())),
        },
        serde_json::Value::String(s) => JsonValue::Str(s),
        serde_json::Value::Array(items) => JsonValue::Array(items.into_iter().map(from_serde).collect()),
        serde_json::Value::Object(map) => JsonValue::Object(map.into_iter().map(|(k, v)| (k, from_serde(v))).collect()),
    }
}

fn parse_json(text: &str) -> Result<JsonValue, String> {
    serde_json::from_str::<serde_json::Value>(text).map(from_serde).map_err(|e| e.to_string())
}


fn to_serde(v: &JsonValue) -> serde_json::Value {
    match v {
        JsonValue::Null => serde_json::Value::Null,
        JsonValue::Bool(b) => serde_json::Value::Bool(*b),
        JsonValue::Number(JsonNumber::Unsigned(u)) => serde_json::Value::from(*u),
        JsonValue::Number(JsonNumber::Negative(i)) => serde_json::Value::from(*i),
        JsonValue::Number(JsonNumber::Decimal(d)) => serde_json::from_str(d).unwrap(),
        JsonValue::Str(s) => serde_json::Value::String(s.clone()),
        JsonValue::Array(items) => serde_json::Value::Array(items.iter().map(to_serde).collect()),
        JsonValue::Object(entries) => serde_json::Value::Object(
            entries.iter().map(|(k, v)| (k.clone(), to_serde(v))).collect(),
        ),
    }
}

fn serde(text: &str) -> serde_json::Value {
    serde_json::from_str(text).unwrap()
}

fn model(roles: Vec<ModelRole>, levels: Vec<(ReasoningLevel, ReasoningMapping)>) -> UpstreamModel {
    let mut capabilities = ModelCapabilities::default();
    capabilities.roles = roles;
    capabilities.reasoning.levels = levels;
    UpstreamModel {
        id: "gpt".to_string(),
        provider_id: "openai".to_string(),
        upstream_model_id: "gpt-4.1".to_string(),
        display_name: "GPT".to_string(),
        capabilities,
        token_limits: ModelTokenLimits::default(),
        compression_policy: None,
        parameter_overrides: ParameterOverrides::default(),
        enabled: true,
    }
}

fn route(upstream_model: UpstreamModel, level: Option<ReasoningLevel>) -> ResolvedRoute {
    ResolvedRoute {
        upstream_model,
        final_parameters: ParameterOverrides {
            temperature: Some(JsonNumber::Decimal("0.5".to_string())),
            max_tokens: Some(100),
            top_p: None,
            top_k: Some(5),
            extra_body: None,
        },
        final_reasoning_level: level,
    }
}

fn request(messages: Vec<NeutralMessage>, stream: bool) -> NeutralChatRequest {
    NeutralChatRequest {
        virtual_model_id: "v".to_string(),
        messages,
        system_instruction: Some("sys".to_string()),
        tools: vec![NeutralTool {
            function: NeutralToolFunction {
                name: "lookup".to_string(),
                description: None,
                parameters_schema: parse_json(
                    r#"{"type":"OBJECT","properties":{"q":{"type":["STRING","NULL"]},"n":{"type":"Custom"}}}"#,
                )
                .unwrap(),
            },
        }],
        output_modalities: vec![],
        image_generation_config: None,
        reasoning_level: None,
        stream,
        generation_parameters: ParameterOverrides::default(),
        extra_body: vec![],
    }
}

fn user(text: &str) -> NeutralMessage {
    NeutralMessage { role: MessageRole::User, blocks: vec![NeutralContentBlock::Text(text.to_string())] }
}

#[test]
fn single_text_messages_use_plain_content() {
    let converted = to_serde(&OpenAIAdapter::new().convert_message(&user("hi")));
    assert_eq!(converted, serde(r#"{"role":"user","content":"hi"}"#));
}

#[test]
fn assistant_messages_carry_parts_reasoning_and_tool_calls() {
    let message = NeutralMessage {
        role: MessageRole::Assistant,
        blocks: vec![
            NeutralContentBlock::Thinking { text: "a".to_string(), signature: None },
            NeutralContentBlock::Text("t".to_string()),
            NeutralContentBlock::Thinking { text: "b".to_string(), signature: Some("s".to_string()) },
            NeutralContentBlock::ToolCall {
                id: "c1".to_string(),
                name: "f".to_string(),
                arguments_json: "{}".to_string(),
            },
            NeutralContentBlock::InlineData { mime_type: "image/png".to_string(), data_base64: "QQ==".to_string() },
            NeutralContentBlock::InlineData { mime_type: "audio/mp3".to_string(), data_base64: "AA==".to_string() },
            NeutralContentBlock::InlineData { mime_type: "application/pdf".to_string(), data_base64: "JV".to_string() },
        ],
    };
    let converted = to_serde(&OpenAIAdapter::new().convert_message(&message));
    assert_eq!(
        converted,
        serde(
            r#"{"role":"assistant",
                "content":[
                    {"type":"text","text":"t"},
                    {"type":"image_url","image_url":{"url":"data:image/png;base64,QQ=="}},
                    {"type":"input_audio","input_audio":{"data":"AA==","format":"mp3"}},
                    {"type":"file","file":{"filename":"input.pdf","file_data":"JV"}}
                ],
                "reasoning_content":"a\nb",
                "tool_calls":[{"id":"c1","type":"function","function":{"name":"f","arguments":"{}"}}]}"#
        )
    );
}

#[test]
fn tool_messages_carry_the_call_id_and_first_text() {
    let message = NeutralMessage {
        role: MessageRole::Tool,
        blocks: vec![
            NeutralContentBlock::ToolResult { tool_call_id: "c1".to_string(), name: None, content: "one".to_string() },
            NeutralContentBlock::ToolResult { tool_call_id: "c2".to_string(), name: None, content: "two".to_string() },
        ],
    };
    let converted = to_serde(&OpenAIAdapter::new().convert_message(&message));
    assert_eq!(converted, serde(r#"{"role":"tool","tool_call_id":"c2","content":"one"}"#));
}

#[test]
fn chat_payload_normalizes_schema_types_and_requests_stream_usage() {
    let r = route(model(vec![ModelRole::Agent], vec![(ReasoningLevel::High, ReasoningMapping::Effort("high".to_string()))]), Some(ReasoningLevel::High));
    let payload = to_serde(&OpenAIAdapter::new().build_request_payload(&r, &request(vec![user("hi")], true)).unwrap());
    assert_eq!(payload["model"], "gpt-4.1");
    assert_eq!(payload["stream"], true);
    assert_eq!(payload["messages"], serde(r#"[{"role":"system","content":"sys"},{"role":"user","content":"hi"}]"#));
    assert_eq!(
        payload["tools"][0]["function"]["parameters"],
        serde(r#"{"type":"object","properties":{"q":{"type":["string","null"]},"n":{"type":"Custom"}}}"#)
    );
    assert_eq!(payload["tools"][0]["function"]["description"], serde_json::Value::Null);
    assert_eq!(payload["temperature"], serde("0.5"));
    assert_eq!(payload["max_tokens"], 100);
    assert!(payload.get("top_k").is_none());
    assert_eq!(payload["reasoning_effort"], "high");
    assert_eq!(payload["stream_options"], serde(r#"{"include_usage":true}"#));
}

#[test]
fn chat_payload_rejects_unusable_reasoning_mappings() {
    let r = route(model(vec![], vec![(ReasoningLevel::Low, ReasoningMapping::BudgetTokens(1024))]), Some(ReasoningLevel::Low));
    let err = OpenAIAdapter::new().build_request_payload(&r, &request(vec![user("hi")], false)).unwrap_err();
    assert_eq!(err.category, ErrorCategory::UnsupportedFeature);
    assert_eq!(err.message, "OpenAI does not support reasoning mapping: BudgetTokens(1024)");

    let r = route(model(vec![], vec![]), Some(ReasoningLevel::Max));
    let err = OpenAIAdapter::new().build_request_payload(&r, &request(vec![user("hi")], false)).unwrap_err();
    assert_eq!(err.message, "No reasoning mapping configured for OpenAI level Max");

    let r = route(model(vec![], vec![(ReasoningLevel::Off, ReasoningMapping::Disabled)]), Some(ReasoningLevel::Off));
    let payload = to_serde(&OpenAIAdapter::new().build_request_payload(&r, &request(vec![user("hi")], false)).unwrap());
    assert_eq!(payload["reasoning_effort"], "none");
    assert!(payload.get("stream_options").is_none());
}

#[test]
fn test_image_generation_classification() {
    let image_only = model(vec![ModelRole::ImageGeneration], vec![]);
    let hybrid = model(vec![ModelRole::ImageGeneration, ModelRole::Agent], vec![]);
    let agent = model(vec![ModelRole::Agent], vec![]);
    let mut req = request(vec![user("draw")], false);
    assert!(is_image_generation_request(&image_only, &req));
    assert!(!is_image_generation_request(&hybrid, &req));
    assert!(!is_image_generation_request(&agent, &req));
    req.output_modalities = vec![ModelModality::Image];
    assert!(is_image_generation_request(&hybrid, &req));
    assert!(!is_image_generation_request(&agent, &req));
}

#[test]
fn image_payload_uses_last_user_prompt_and_aspect_ratio() {
    let r = route(model(vec![ModelRole::ImageGeneration], vec![]), None);
    let mut req = request(
        vec![
            user("first"),
            NeutralMessage {
                role: MessageRole::User,
                blocks: vec![
                    NeutralContentBlock::Text("a cat".to_string()),
                    NeutralContentBlock::Text("on a mat".to_string()),
                ],
            },
            NeutralMessage { role: MessageRole::Assistant, blocks: vec![NeutralContentBlock::Text("ok".to_string())] },
        ],
        false,
    );
    req.image_generation_config = Some(parse_json(r#"{"aspectRatio":"16:9","quality":"high"}"#).unwrap());
    let payload = to_serde(&OpenAIAdapter::new().build_request_payload(&r, &req).unwrap());
    assert_eq!(
        payload,
        serde(r#"{"model":"gpt-4.1","prompt":"a cat\non a mat","n":1,"response_format":"b64_json","size":"1536x1024","quality":"high"}"#)
    );

    let blank = request(vec![user("   ")], false);
    let err = OpenAIAdapter::new().build_request_payload(&r, &blank).unwrap_err();
    assert_eq!(err.category, ErrorCategory::InvalidRequest);
    assert_eq!(err.message, "Image generation requires a non-empty text prompt");
}

#[test]
fn headers_use_bearer_tokens() {
    let provider = Provider {
        id: "p".to_string(),
        name: "p".to_string(),
        protocol: ProviderProtocol::OpenaiChatCompletions,
        models_endpoint: String::new(),
        generate_endpoint: String::new(),
        api_key: "k".to_string(),
        headers: vec![("X-Extra".to_string(), "1".to_string())],
        default_parameters: ParameterOverrides::default(),
        connect_timeout_ms: 1,
        request_timeout_ms: 1,
        stream_idle_timeout_ms: 1,
        enabled: true,
    };
    assert_eq!(
        OpenAIAdapter::new().build_headers(&provider),
        vec![
            ("Content-Type".to_string(), "application/json".to_string()),
            ("Authorization".to_string(), "Bearer k".to_string()),
            ("X-Extra".to_string(), "1".to_string()),
        ]
    );
}

#[test]
fn parses_chat_and_image_responses() {
    let m = model(vec![], vec![]);
    let body = r#"{"id":"chat-1","choices":[{"index":0,"message":{"reasoning_content":"why","content":"hello","tool_calls":[{"id":"c","function":{"name":"f"}}]},"finish_reason":"tool_calls"}],"usage":{"prompt_tokens":10,"completion_tokens":4,"total_tokens":14,"prompt_tokens_details":{"cached_tokens":3}}}"#;
    let resp = OpenAIAdapter::new().parse_response(200, body, &m).unwrap();
    assert_eq!(resp.id, "chat-1");
    assert_eq!(resp.model, "gpt-4.1");
    assert_eq!(resp.choices[0].finish_reason, Some(FinishReason::ToolCall));
    assert_eq!(
        format!("{:?}", resp.choices[0].blocks),
        format!(
            "{:?}",
            vec![
                NeutralContentBlock::Thinking { text: "why".to_string(), signature: None },
                NeutralContentBlock::Text("hello".to_string()),
                NeutralContentBlock::ToolCall { id: "c".to_string(), name: "f".to_string(), arguments_json: "{}".to_string() },
            ]
        )
    );
    let usage = resp.usage.unwrap();
    assert_eq!(usage.input_tokens, 7);
    assert_eq!(usage.cache_read_tokens, Some(3));
    assert_eq!(usage.total_tokens, 14);

    let images = OpenAIAdapter::new()
        .parse_response(200, r#"{"data":[{"b64_json":"QQ=="},{"url":"http://x/y.png"},{}]}"#, &m)
        .unwrap();
    assert_eq!(images.id, "gen-id");
    assert_eq!(images.choices.len(), 3);
    assert_eq!(images.choices[2].index, 2);
    assert!(images.choices[2].blocks.is_empty());
    assert_eq!(
        format!("{:?}", images.choices[1].blocks),
        format!("{:?}", vec![NeutralContentBlock::Text("http://x/y.png".to_string())])
    );
    assert!(images.usage.is_none());

    let err = OpenAIAdapter::new().parse_response(200, "{", &m).unwrap_err();
    assert!(err.message.starts_with("Failed to parse OpenAI JSON response: "));
}

fn same_events(actual: &[NeutralStreamEvent], expected: &[NeutralStreamEvent]) {
    assert_eq!(format!("{:?}", actual), format!("{:?}", expected));
}

#[test]
fn stream_decoder_holds_arguments_until_the_call_is_named() {
    let mut decoder = OpenAIStreamDecoder::new("fallback".to_string());
    let first = decoder
        .decode_data(r#"{"id":"r1","choices":[{"delta":{"content":"hi","tool_calls":[{"index":0,"function":{"arguments":"{\"a\""}}]}}]}"#)
        .unwrap();
    same_events(
        &first,
        &[
            NeutralStreamEvent::ResponseStart { response_id: Some("r1".to_string()), model: "fallback".to_string() },
            NeutralStreamEvent::TextDelta { choice_index: 0, text: "hi".to_string() },
        ],
    );
    let second = decoder
        .decode_data(r#"{"choices":[{"delta":{"tool_calls":[{"index":0,"id":"c1","function":{"name":"f","arguments":":1}"}}]},"finish_reason":"tool_calls"}],"usage":{"prompt_tokens":2,"completion_tokens":3}}"#)
        .unwrap();
    same_events(
        &second,
        &[
            NeutralStreamEvent::ToolCallStart { choice_index: 0, tool_call_index: 0, id: "c1".to_string(), name: "f".to_string() },
            NeutralStreamEvent::ToolCallArgumentsDelta { choice_index: 0, tool_call_index: 0, arguments_delta: "{\"a\"".to_string() },
            NeutralStreamEvent::ToolCallArgumentsDelta { choice_index: 0, tool_call_index: 0, arguments_delta: ":1}".to_string() },
            NeutralStreamEvent::ToolCallEnd { choice_index: 0, tool_call_index: 0 },
            NeutralStreamEvent::Finish { choice_index: 0, reason: FinishReason::ToolCall, raw_finish_reason: Some("tool_calls".to_string()) },
        ],
    );
    let err = decoder.decode_data(r#"{"choices":[{"delta":{"tool_calls":[{"index":0,"function":{"arguments":"x"}}]}}]}"#).unwrap_err();
    assert_eq!(err.category, ErrorCategory::StreamInterrupted);
    assert_eq!(err.message, "OpenAI tool call choice 0 index 0 received data after it ended");
    let end = decoder.decode_data(" [DONE] ").unwrap();
    assert_eq!(end.len(), 1);
    assert!(matches!(&end[0], NeutralStreamEvent::ResponseEnd { usage: Some(u) } if u.total_tokens == 5));
    assert!(decoder.decode_data("{}").unwrap().is_empty());
    assert!(decoder.finish().unwrap().is_empty());
}

#[test]
fn stream_decoder_rejects_calls_that_never_start() {
    let mut decoder = OpenAIStreamDecoder::new("m".to_string());
    decoder.decode_data(r#"{"choices":[{"index":1,"delta":{"tool_calls":[{"index":3,"id":"c"}]}}]}"#).unwrap();
    let err = decoder.finish().unwrap_err();
    assert_eq!(err.message, "OpenAI tool call choice 1 index 3 ended without both id and name");
    let err = decoder.decode_data("not json").unwrap_err();
    assert!(err.message.starts_with("Failed to parse OpenAI streaming JSON response: "));
}
