use agy_byok::antigravity::envelope::CloudCodeEnvelopeEncoder;
use agy_byok::antigravity::request_parser::AntigravityRequestParser;
use agy_byok::antigravity::response_encoder::{AntigravityResponseEncoder, AntigravityStreamEncoder};
use agy_byok::domain::error::ErrorCategory;
use agy_byok::domain::request::{MessageRole, NeutralContentBlock};
use agy_byok::domain::response::{
    FinishReason, NeutralChatResponse, NeutralChoice, NeutralStreamEvent, UsageInfo,
};
use agy_byok::json::{JsonNumber, JsonValue};
use serde_json::Value;

fn frame_json(frame: &str) -> Value {
    let data = frame.strip_prefix("data: ").unwrap().strip_suffix("\n\n").unwrap();
    serde_json::from_str(data).unwrap()
}

fn usage() -> UsageInfo {
    UsageInfo {
        input_tokens: 7,
        output_tokens: 5,
        cache_read_tokens: Some(3),
        cache_write_tokens: None,
        reasoning_tokens: Some(2),
        total_tokens: 17,
    }
}

#[test]
fn wraps_non_streaming_response() {
    let wrapped: Value = serde_json::from_str(
        &CloudCodeEnvelopeEncoder::wrap_response(r#"{"candidates":[{"index":0}]}"#).unwrap(),
    )
    .unwrap();

    assert_eq!(wrapped["response"]["candidates"][0]["index"], 0);
    assert_eq!(wrapped["traceId"], "");
    assert!(wrapped["metadata"].is_object());
}

#[test]
fn wraps_stream_data_and_consumes_done_marker() {
    let wrapped = CloudCodeEnvelopeEncoder::wrap_stream_frame("data: {\"candidates\":[{\"index\":2}]}\n\n")
        .unwrap()
        .unwrap();
    assert!(wrapped.contains("\"response\""));
    assert!(wrapped.contains("\"index\":2"));
    assert_eq!(CloudCodeEnvelopeEncoder::wrap_stream_frame("data: [DONE]\n\n").unwrap(), None);
}

#[test]
fn envelope_rejects_frames_without_data_or_json() {
    let missing = CloudCodeEnvelopeEncoder::wrap_stream_frame("event: ping").unwrap_err();
    assert_eq!(missing.category, ErrorCategory::Internal);
    assert_eq!(missing.status_code, 500);
    assert_eq!(missing.message, "Antigravity stream frame is missing the data field");
    let invalid = CloudCodeEnvelopeEncoder::wrap_stream_frame("data: {oops").unwrap_err();
    assert!(invalid.message.starts_with("Failed to encode Cloud Code stream envelope: "));
    let body = CloudCodeEnvelopeEncoder::wrap_response("not json").unwrap_err();
    assert!(body.message.starts_with("Failed to encode Cloud Code response envelope: "));
}

#[test]
fn stream_encoder_emits_text_with_model_version() {
    let mut encoder = AntigravityStreamEncoder::new().with_model_version("configured");
    let frames = encoder
        .encode_event(&NeutralStreamEvent::ResponseStart { response_id: None, model: "  ".to_string() })
        .unwrap();
    assert!(frames.is_empty());
    let frames = encoder
        .encode_event(&NeutralStreamEvent::TextDelta { choice_index: 1, text: "hi".to_string() })
        .unwrap();
    assert_eq!(frames.len(), 1);
    let v = frame_json(&frames[0]);
    assert_eq!(v["candidates"][0]["index"], 1);
    assert_eq!(v["candidates"][0]["content"]["role"], "model");
    assert_eq!(v["candidates"][0]["content"]["parts"][0]["text"], "hi");
    assert_eq!(v["modelVersion"], "configured");
    encoder
        .encode_event(&NeutralStreamEvent::ResponseStart { response_id: None, model: "upstream".to_string() })
        .unwrap();
    let frames = encoder
        .encode_event(&NeutralStreamEvent::ThinkingDelta { choice_index: 0, text: "t".to_string() })
        .unwrap();
    let v = frame_json(&frames[0]);
    assert_eq!(v["modelVersion"], "upstream");
    assert_eq!(v["candidates"][0]["content"]["parts"][0]["thought"], true);
}

#[test]
fn stream_encoder_assembles_tool_calls() {
    let mut encoder = AntigravityStreamEncoder::new();
    let start = NeutralStreamEvent::ToolCallStart {
        choice_index: 0,
        tool_call_index: 3,
        id: "call_1".to_string(),
        name: "lookup".to_string(),
    };
    assert!(encoder.encode_event(&start).unwrap().is_empty());
    let again = encoder.encode_event(&start).unwrap_err();
    assert_eq!(again.category, ErrorCategory::StreamInterrupted);
    assert_eq!(again.status_code, 502);
    assert_eq!(again.message, "Tool call choice 0 index 3 started more than once");
    for part in ["{\"q\":", "\"x\"}"] {
        let frames = encoder
            .encode_event(&NeutralStreamEvent::ToolCallArgumentsDelta {
                choice_index: 0,
                tool_call_index: 3,
                arguments_delta: part.to_string(),
            })
            .unwrap();
        assert!(frames.is_empty());
    }
    let frames = encoder
        .encode_event(&NeutralStreamEvent::ToolCallEnd { choice_index: 0, tool_call_index: 3 })
        .unwrap();
    let v = frame_json(&frames[0]);
    let call = &v["candidates"][0]["content"]["parts"][0]["functionCall"];
    assert_eq!(call["id"], "call_1");
    assert_eq!(call["name"], "lookup");
    assert_eq!(call["args"]["q"], "x");
    assert!(v.get("modelVersion").is_none());
    let unopened = encoder
        .encode_event(&NeutralStreamEvent::ToolCallEnd { choice_index: 0, tool_call_index: 3 })
        .unwrap_err();
    assert_eq!(unopened.message, "Tool end references unopened choice 0 index 3");
    let unopened = encoder
        .encode_event(&NeutralStreamEvent::ToolCallArgumentsDelta {
            choice_index: 1,
            tool_call_index: 0,
            arguments_delta: "{}".to_string(),
        })
        .unwrap_err();
    assert_eq!(unopened.message, "Tool arguments reference unopened choice 1 index 0");
}

#[test]
fn stream_encoder_rejects_invalid_tool_arguments_and_open_calls_at_end() {
    let mut encoder = AntigravityStreamEncoder::new();
    encoder
        .encode_event(&NeutralStreamEvent::ToolCallStart {
            choice_index: 0,
            tool_call_index: 0,
            id: "a".to_string(),
            name: "f".to_string(),
        })
        .unwrap();
    let open = encoder.encode_event(&NeutralStreamEvent::ResponseEnd { usage: None }).unwrap_err();
    assert_eq!(open.message, "Response ended while tool calls were still open");
    assert!(encoder.abort().is_empty());
    encoder
        .encode_event(&NeutralStreamEvent::ToolCallArgumentsDelta {
            choice_index: 0,
            tool_call_index: 0,
            arguments_delta: "{oops".to_string(),
        })
        .unwrap();
    let invalid = encoder
        .encode_event(&NeutralStreamEvent::ToolCallEnd { choice_index: 0, tool_call_index: 0 })
        .unwrap_err();
    assert!(invalid.message.starts_with("Invalid tool arguments JSON for choice 0 index 0: "));
    let frames = encoder.encode_event(&NeutralStreamEvent::ResponseEnd { usage: None }).unwrap();
    assert_eq!(frames, vec!["data: [DONE]\n\n".to_string()]);
}

#[test]
fn stream_encoder_flushes_finishes_with_usage_and_then_ends() {
    let mut encoder = AntigravityStreamEncoder::new();
    encoder
        .encode_event(&NeutralStreamEvent::Finish {
            choice_index: 1,
            reason: FinishReason::MaxTokens,
            raw_finish_reason: None,
        })
        .unwrap();
    let frames = encoder.encode_event(&NeutralStreamEvent::ResponseEnd { usage: Some(usage()) }).unwrap();
    assert_eq!(frames.len(), 2);
    assert_eq!(frames[1], "data: [DONE]\n\n");
    let v = frame_json(&frames[0]);
    assert_eq!(v["candidates"][0]["index"], 1);
    assert_eq!(v["candidates"][0]["finishReason"], "MAX_TOKENS");
    assert_eq!(v["candidates"][0]["content"]["parts"][0]["text"], "");
    assert_eq!(v["usageMetadata"]["promptTokenCount"], 10);
    assert_eq!(v["usageMetadata"]["candidatesTokenCount"], 5);
    assert_eq!(v["usageMetadata"]["totalTokenCount"], 17);
    assert_eq!(v["usageMetadata"]["cachedContentTokenCount"], 3);
    assert_eq!(v["usageMetadata"]["thoughtsTokenCount"], 2);
    assert!(encoder.encode_event(&NeutralStreamEvent::ResponseEnd { usage: None }).unwrap().is_empty());
    let late = encoder
        .encode_event(&NeutralStreamEvent::TextDelta { choice_index: 0, text: "x".to_string() })
        .unwrap_err();
    assert_eq!(late.message, "Received stream event after response end");
    assert!(encoder.abort().is_empty());
}

#[test]
fn stream_encoder_synthesizes_a_finish_only_with_usage() {
    let mut encoder = AntigravityStreamEncoder::new();
    let frames = encoder.encode_event(&NeutralStreamEvent::ResponseEnd { usage: Some(usage()) }).unwrap();
    let v = frame_json(&frames[0]);
    assert_eq!(v["candidates"][0]["index"], 0);
    assert_eq!(v["candidates"][0]["finishReason"], "OTHER");
    let mut plain = AntigravityStreamEncoder::new();
    let frames = plain.encode_event(&NeutralStreamEvent::ResponseEnd { usage: None }).unwrap();
    assert_eq!(frames, vec!["data: [DONE]\n\n".to_string()]);
}

#[test]
fn stream_encoder_abort_flushes_recorded_finishes() {
    let mut encoder = AntigravityStreamEncoder::new();
    encoder
        .encode_event(&NeutralStreamEvent::Finish {
            choice_index: 0,
            reason: FinishReason::ContentFilter,
            raw_finish_reason: Some("safety".to_string()),
        })
        .unwrap();
    let frames = encoder.abort();
    assert_eq!(frames.len(), 1);
    assert_eq!(frame_json(&frames[0])["candidates"][0]["finishReason"], "SAFETY");
    assert!(encoder.abort().is_empty());
    let frames = encoder
        .encode_event(&NeutralStreamEvent::Error { message: "m".to_string(), code: 500 })
        .unwrap_err();
    assert_eq!(frames.category, ErrorCategory::StreamInterrupted);
}

#[test]
fn stream_encoder_reports_errors_as_frames() {
    let mut encoder = AntigravityStreamEncoder::new();
    let frames = encoder
        .encode_event(&NeutralStreamEvent::Error { message: "boom".to_string(), code: 429 })
        .unwrap();
    let v = frame_json(&frames[0]);
    assert_eq!(v["error"]["code"], 429);
    assert_eq!(v["error"]["message"], "boom");
}

#[test]
fn response_encoder_writes_candidates_usage_and_parts() {
    let resp = NeutralChatResponse {
        id: "r".to_string(),
        model: "m-1".to_string(),
        choices: vec![NeutralChoice {
            index: 0,
            blocks: vec![
                NeutralContentBlock::Text("a".to_string()),
                NeutralContentBlock::Thinking { text: "t".to_string(), signature: Some("sig".to_string()) },
                NeutralContentBlock::ToolCall {
                    id: "c".to_string(),
                    name: "f".to_string(),
                    arguments_json: "not json".to_string(),
                },
                NeutralContentBlock::ToolResult { tool_call_id: "c".to_string(), name: None, content: "x".to_string() },
                NeutralContentBlock::InlineData { mime_type: "image/png".to_string(), data_base64: "QQ==".to_string() },
            ],
            finish_reason: Some(FinishReason::ToolCall),
            raw_finish_reason: None,
        }],
        usage: Some(usage()),
    };
    let v: Value = serde_json::from_str(&AntigravityResponseEncoder::encode_response(&resp)).unwrap();
    assert_eq!(v["modelVersion"], "m-1");
    let parts = v["candidates"][0]["content"]["parts"].as_array().unwrap();
    assert_eq!(parts.len(), 4);
    assert_eq!(parts[0]["text"], "a");
    assert_eq!(parts[1]["thoughtSignature"], "sig");
    assert_eq!(parts[2]["functionCall"]["args"], Value::Object(serde_json::Map::new()));
    assert_eq!(parts[3]["inlineData"]["mimeType"], "image/png");
    assert_eq!(v["candidates"][0]["finishReason"], "TOOL_CALL");
    assert_eq!(v["usageMetadata"]["promptTokenCount"], 10);
}

#[test]
fn request_parser_reads_model_messages_tools_and_generation_config() {
    let body = r#"{
        "model": "models/gpt-5",
        "request": {
            "systemInstruction": {"parts": [{"text": "be brief"}]},
            "contents": [
                {"role": "user", "parts": [{"text": "hi"}, {"inlineData": {"data": "QQ=="}}]},
                {"role": "model", "parts": [
                    {"thought": true, "text": "a"},
                    {"thought": true, "text": "b", "thoughtSignature": "s1"},
                    {"functionCall": {"name": "lookup", "args": {"q": 1}}}
                ]},
                {"role": "function", "parts": [{"functionResponse": {"name": "lookup", "response": {"ok": true}}}]}
            ],
            "tools": [{"functionDeclarations": [{"name": "lookup", "description": "find", "parameters": {"type": "object"}}]}],
            "generationConfig": {"temperature": 0.5, "maxOutputTokens": 64, "topK": 4}
        }
    }"#;
    let req = AntigravityRequestParser::parse(body).unwrap();
    assert_eq!(req.virtual_model_id, "gpt-5");
    assert!(req.stream);
    assert_eq!(req.system_instruction.as_deref(), Some("be brief"));
    assert_eq!(req.messages.len(), 3);
    assert_eq!(req.messages[0].role, MessageRole::User);
    match &req.messages[0].blocks[1] {
        NeutralContentBlock::InlineData { mime_type, data_base64 } => {
            assert_eq!(mime_type, "image/png");
            assert_eq!(data_base64, "QQ==");
        },
        other => panic!("unexpected block {other:?}"),
    }
    assert_eq!(req.messages[1].role, MessageRole::Assistant);
    match &req.messages[1].blocks[0] {
        NeutralContentBlock::Thinking { text, signature } => {
            assert_eq!(text, "ab");
            assert_eq!(signature.as_deref(), Some("s1"));
        },
        other => panic!("unexpected block {other:?}"),
    }
    match &req.messages[1].blocks[1] {
        NeutralContentBlock::ToolCall { id, name, arguments_json } => {
            assert_eq!(id, "call_1_2");
            assert_eq!(name, "lookup");
            assert_eq!(arguments_json, "{\"q\":1}");
        },
        other => panic!("unexpected block {other:?}"),
    }
    assert_eq!(req.messages[2].role, MessageRole::Tool);
    match &req.messages[2].blocks[0] {
        NeutralContentBlock::ToolResult { tool_call_id, name, content } => {
            assert_eq!(tool_call_id, "call_1_2");
            assert_eq!(name.as_deref(), Some("lookup"));
            assert_eq!(content, "{\"ok\":true}");
        },
        other => panic!("unexpected block {other:?}"),
    }
    assert_eq!(req.tools.len(), 1);
    assert_eq!(req.tools[0].function.name, "lookup");
    assert_eq!(req.tools[0].function.description.as_deref(), Some("find"));
    assert!(matches!(req.generation_parameters.temperature, Some(JsonNumber::Decimal(ref t)) if t == "0.5"));
    assert_eq!(req.generation_parameters.max_tokens, Some(64));
    assert_eq!(req.generation_parameters.top_k, Some(4));
    assert!(req.generation_parameters.top_p.is_none());
    assert!(matches!(req.tools[0].function.parameters_schema, JsonValue::Object(_)));
}

#[test]
fn request_parser_reports_missing_model_and_bad_json() {
    let missing = AntigravityRequestParser::parse(r#"{"contents": []}"#).unwrap_err();
    assert_eq!(missing.category, ErrorCategory::InvalidRequest);
    assert_eq!(missing.status_code, 400);
    assert_eq!(missing.message, "Missing model ID in Antigravity request");
    let bad = AntigravityRequestParser::parse("{").unwrap_err();
    assert!(bad.message.starts_with("Failed to parse Antigravity JSON request: "));
    assert_eq!(
        AntigravityRequestParser::extract_model_id(r#"{"request": {"plan_model": "p"}, "stream": false}"#).unwrap(),
        "p"
    );
}

#[test]
fn request_parser_answers_function_responses_by_id_or_name() {
    let body = r#"{
        "model": "m",
        "stream": false,
        "contents": [
            {"role": "assistant", "parts": [
                {"functionCall": {"id": "x1", "name": "f"}},
                {"functionCall": {"id": "x2", "name": "f"}}
            ]},
            {"role": "tool", "parts": [
                {"functionResponse": {"id": "x2", "name": "f", "response": "done"}},
                {"functionResponse": {"name": "f"}},
                {"functionResponse": {"name": "g"}}
            ]}
        ]
    }"#;
    let req = AntigravityRequestParser::parse(body).unwrap();
    assert!(!req.stream);
    assert_eq!(req.messages.len(), 4);
    let ids: Vec<String> = req.messages[1..]
        .iter()
        .map(|m| match &m.blocks[0] {
            NeutralContentBlock::ToolResult { tool_call_id, .. } => tool_call_id.clone(),
            other => panic!("unexpected block {other:?}"),
        })
        .collect();
    assert_eq!(ids, vec!["x2".to_string(), "x1".to_string(), "call_g".to_string()]);
    match &req.messages[1].blocks[0] {
        NeutralContentBlock::ToolResult { content, .. } => assert_eq!(content, "done"),
        other => panic!("unexpected block {other:?}"),
    }
    match &req.messages[2].blocks[0] {
        NeutralContentBlock::ToolResult { content, .. } => assert_eq!(content, "{}"),
        other => panic!("unexpected block {other:?}"),
    }
}
