use agy_byok::domain::error::ErrorCategory;
use agy_byok::domain::provider::{ParameterOverrides, Provider, ProviderProtocol};
use agy_byok::providers::catalog::fetch::{
    catalog_error_category, catalog_models_url, catalog_request, catalog_response_models, official_catalog_response,
    official_catalog_target, official_models_url, sort_by_display_name, CATALOG_TIMEOUT_MS,
};
use agy_byok::domain::reasoning::{ReasoningLevel, ReasoningMapping};
use agy_byok::json::{JsonNumber, JsonValue};
use agy_byok::providers::catalog::parser::{
    parse_catalog_models_with_context, parse_official_catalog_models,
};
use agy_byok::providers::catalog::{
    parse_language_server_processes, parse_listening_ports, LanguageServerProcess,
    OfficialCatalogSource, ProviderCatalogModel, UpstreamCompressionPolicy,
};

fn from_serde(v: serde_json::Value) -> JsonValue {
    match v {
        serde_json::Value::Null => JsonValue::Null,
        serde_json::Value::Bool(b) => JsonValue::Bool(b),
        serde_json::Value::Number(n) => match (n.as_u64(), n.as_i64()) {
            (Some(u), _) => JsonValue::Number(JsonNumber::Unsigned(u)),
            (None, Some(i)) => JsonValue::Number(JsonNumber::Negative(i)),
            (None, None) => JsonValue::Number(JsonNumber::Decimal(n.to_string())),
        },
        serde_json::Value::String(s) => JsonValue::Str(s),
        serde_json::Value::Array(items) => JsonValue::Array(items.into_iter().map(from_serde).collect()),
        serde_json::Value::Object(map) => JsonValue::Object(map.into_iter().map(|(k, v)| (k, from_serde(v))).collect()),
    }
}

fn parse_json(text: &str) -> Result<JsonValue, String> {
    serde_json::from_str::<serde_json::Value>(text).map(from_serde).map_err(|e| e.to_string())
}


fn json(text: &str) -> JsonValue {
    parse_json(text).expect("test JSON")
}

fn to_serde(v: &JsonValue) -> serde_json::Value {
    match v {
        JsonValue::Null => serde_json::Value::Null,
        JsonValue::Bool(b) => serde_json::Value::Bool(*b),
        JsonValue::Number(JsonNumber::Unsigned(u)) => serde_json::Value::from(*u),
        JsonValue::Number(JsonNumber::Negative(i)) => serde_json::Value::from(*i),
        JsonValue::Number(JsonNumber::Decimal(d)) => serde_json::from_str(d).unwrap(),
        JsonValue::Str(s) => serde_json::Value::String(s.clone()),
        JsonValue::Array(items) => serde_json::Value::Array(items.iter().map(to_serde).collect()),
        JsonValue::Object(entries) => serde_json::Value::Object(
            entries.iter().map(|(k, v)| (k.clone(), to_serde(v))).collect(),
        ),
    }
}

fn serde(text: &str) -> serde_json::Value {
    serde_json::from_str(text).unwrap()
}

fn parse_catalog_models(payload: &JsonValue, protocol: ProviderProtocol) -> Vec<ProviderCatalogModel> {
    parse_catalog_models_with_context(payload, protocol, false)
}

fn levels(model: &ProviderCatalogModel) -> Vec<ReasoningLevel> {
    model.reasoning.as_ref().unwrap().levels.clone()
}

fn mappings(model: &ProviderCatalogModel) -> Vec<(ReasoningLevel, ReasoningMapping)> {
    model.reasoning.as_ref().unwrap().mappings.clone()
}

fn assert_plain(model: &ProviderCatalogModel, id: &str, display_name: &str) {
    assert_eq!(model.id, id);
    assert_eq!(model.display_name, display_name);
    assert_eq!(model.context_window, None);
    assert_eq!(model.max_context_window, None);
    assert_eq!(model.context_length, None);
    assert_eq!(model.input_token_limit, None);
    assert_eq!(model.output_token_limit, None);
    assert_eq!(model.max_tokens, None);
    assert_eq!(model.token_budget, None);
    assert!(model.capabilities.is_none());
    assert!(model.reasoning.is_none());
    assert!(model.upstream_compression.is_none());
    assert!(model.default_compression_policy.is_none());
    assert!(model.supported_mime_types.is_none());
}

fn upstream(
    model: &ProviderCatalogModel,
) -> Option<(bool, u32, u32, Option<u32>, Option<String>, Option<bool>)> {
    model.upstream_compression.as_ref().map(|u: &UpstreamCompressionPolicy| {
        (
            u.enabled,
            u.token_threshold,
            u.max_token_limit,
            u.max_output_tokens,
            u.checkpoint_model.clone(),
            u.use_last_planner_model,
        )
    })
}

#[test]
fn parses_macos_and_windows_language_server_commands() {
    let listing = r#"
101 /Applications/Antigravity.app/Contents/Resources/bin/language_server --subclient_type hub --https_server_port 0 --csrf_token mac-token --enable_sidecars
202 "C:\Users\Demo\AppData\Local\Programs\Antigravity\resources\bin\language_server.exe" --subclient_type=hub --https_server_port=61234 --csrf_token=windows-token
303 /Applications/Antigravity IDE.app/language_server --csrf_token ide-token --extension_server_port 60000 --subclient_type ide
"#;

    assert_eq!(
        parse_language_server_processes(listing),
        vec![
            LanguageServerProcess {
                pid: 101,
                source: OfficialCatalogSource::App,
                csrf: "mac-token".to_string(),
                configured_port: None,
            },
            LanguageServerProcess {
                pid: 202,
                source: OfficialCatalogSource::App,
                csrf: "windows-token".to_string(),
                configured_port: Some(61234),
            },
            LanguageServerProcess {
                pid: 303,
                source: OfficialCatalogSource::Ide,
                csrf: "ide-token".to_string(),
                configured_port: None,
            },
        ]
    );
}

#[test]
fn parses_and_deduplicates_listening_ports() {
    let listing = "n127.0.0.1:59240\nn[::1]:59241\n59240\ninvalid";

    assert_eq!(parse_listening_ports(listing), vec![59240, 59241]);
}

#[test]
fn language_server_lines_without_a_token_are_ignored() {
    let listing = "7 /bin/language_server --https_server_port 1234\n8 /bin/other --csrf_token x\nabc /bin/language_server --csrf_token y\r\n9 /bin/language_server --csrf_token z --https_server_port 70000\r\n";
    assert_eq!(
        parse_language_server_processes(listing),
        vec![LanguageServerProcess {
            pid: 9,
            source: OfficialCatalogSource::App,
            csrf: "z".to_string(),
            configured_port: None,
        }]
    );
}

#[test]
fn parses_checkpointer_payload_numbers_and_strings_without_fabricating_missing_fields() {
    let models = parse_catalog_models(
        &json(
            r#"{
            "models": [
                {"id": "string-policy", "modelExperiments": {"experiments": {"CASCADE_USE_EXPERIMENT_CHECKPOINTER": {"stringValue": "{\"enabled\":true,\"token_threshold\":\"80000\",\"max_token_limit\":\"100000\",\"max_output_tokens\":\"20000\",\"checkpoint_model\":\"MODEL_PLACEHOLDER_M71\",\"use_last_planner_model\":true}"}}}},
                {"id": "number-policy", "modelExperiments": {"experiments": {"CASCADE_USE_EXPERIMENT_CHECKPOINTER": {"stringValue": "{\"enabled\":false,\"token_threshold\":60000,\"max_token_limit\":90000,\"max_output_tokens\":10000}"}}}},
                {"id": "missing-enabled", "modelExperiments": {"experiments": {"CASCADE_USE_EXPERIMENT_CHECKPOINTER": {"stringValue": "{\"token_threshold\":\"80000\",\"max_token_limit\":\"100000\"}"}}}},
                {"id": "missing-limit", "modelExperiments": {"experiments": {"CASCADE_USE_EXPERIMENT_CHECKPOINTER": {"stringValue": "{\"enabled\":true,\"token_threshold\":\"80000\"}"}}}}
            ]
        }"#,
        ),
        ProviderProtocol::OpenaiChatCompletions,
    );

    assert_eq!(
        upstream(&models[0]),
        Some((
            true,
            80_000,
            100_000,
            Some(20_000),
            Some("MODEL_PLACEHOLDER_M71".to_string()),
            Some(true)
        ))
    );
    assert_eq!(
        upstream(&models[1]),
        Some((false, 60_000, 90_000, Some(10_000), None, None))
    );
    assert_eq!(upstream(&models[2]), None);
    assert_eq!(upstream(&models[3]), None);
}

#[test]
fn parses_official_direct_catalog_token_limits_and_checkpointer_metadata() {
    let models = parse_official_catalog_models(&json(
        r#"{
        "response": {
            "models": {
                "official-model": {
                    "displayName": "Official Model",
                    "maxTokens": "200000",
                    "contextWindow": 180000,
                    "inputTokenLimit": "150000",
                    "maxOutputTokens": 32000,
                    "outputTokenLimit": "16000",
                    "modelExperiments": {"experiments": {"CASCADE_USE_EXPERIMENT_CHECKPOINTER": {"stringValue": "{\"enabled\":true,\"token_threshold\":\"150000\",\"max_token_limit\":200000,\"max_output_tokens\":\"32000\",\"use_last_planner_model\":false}"}}}
                }
            }
        }
    }"#,
    ));

    assert_eq!(models.len(), 1);
    assert_eq!(models[0].id, "official-model");
    assert_eq!(models[0].max_tokens, Some(200_000));
    assert_eq!(models[0].context_window, Some(180_000));
    assert_eq!(models[0].input_token_limit, Some(150_000));
    assert_eq!(models[0].output_token_limit, Some(16_000));
    assert_eq!(
        upstream(&models[0]),
        Some((true, 150_000, 200_000, Some(32_000), None, Some(false)))
    );
}

#[test]
fn parses_complete_checkpointer_as_default_compression_policy() {
    let models = parse_official_catalog_models(&json(
        r#"{
        "models": {
            "gemini-pro": {
                "modelExperiments": {"experiments": {"CASCADE_USE_EXPERIMENT_CHECKPOINTER": {"stringValue": "{\"checkpoint_model\":\"MODEL_PLACEHOLDER_M71\",\"enabled\":true,\"include_artifact_snapshots\":true,\"include_conversation_log\":true,\"include_last_user_message\":false,\"include_running_task_snapshots\":true,\"include_subagent_snapshots\":true,\"is_sync\":false,\"max_output_tokens\":\"65535\",\"max_overhead_ratio\":\"0.30\",\"max_token_limit\":\"734003\",\"max_user_requests\":10,\"moving_window_size\":\"1\",\"retry_config\":{\"exponential_multiplier\":2,\"include_error_feedback\":false,\"initial_sleep_duration_ms\":1000,\"max_retries\":0},\"strategy\":\"CHECKPOINT_STRATEGY_UNSPECIFIED\",\"token_threshold\":\"524288\",\"use_last_planner_model\":true}"}}}
            }
        }
    }"#,
    ));

    let policy = models[0].default_compression_policy.as_ref().unwrap();
    assert!(policy.enabled);
    assert_eq!(policy.checkpoint_model, "MODEL_PLACEHOLDER_M71");
    assert_eq!(policy.token_threshold, 524_288);
    assert_eq!(policy.max_token_limit, 734_003);
    assert_eq!(policy.max_output_tokens, 65_535);
    assert!(policy.use_last_planner_model);
    assert_eq!(policy.retry_config.initial_sleep_duration_ms, 1_000);
}

#[test]
fn incomplete_or_invalid_checkpointer_is_no_default_policy() {
    let models = parse_official_catalog_models(&json(
        r#"{
        "models": {
            "a-invalid-worker": {
                "modelExperiments": {"experiments": {"CASCADE_USE_EXPERIMENT_CHECKPOINTER": {"stringValue": "{\"checkpoint_model\":\"MODEL_PLACEHOLDER_M400\",\"enabled\":true,\"include_artifact_snapshots\":true,\"include_conversation_log\":true,\"include_last_user_message\":false,\"include_running_task_snapshots\":true,\"include_subagent_snapshots\":true,\"is_sync\":false,\"max_output_tokens\":\"65535\",\"max_overhead_ratio\":\"0.30\",\"max_token_limit\":\"734003\",\"max_user_requests\":10,\"moving_window_size\":\"1\",\"retry_config\":{\"exponential_multiplier\":2,\"include_error_feedback\":false,\"initial_sleep_duration_ms\":1000,\"max_retries\":0},\"strategy\":\"CHECKPOINT_STRATEGY_UNSPECIFIED\",\"token_threshold\":\"524288\",\"use_last_planner_model\":true}"}}}
            },
            "b-missing-retry": {
                "modelExperiments": {"experiments": {"CASCADE_USE_EXPERIMENT_CHECKPOINTER": {"stringValue": "{\"enabled\":\"yes\",\"token_threshold\":1,\"max_token_limit\":2}"}}}
            }
        }
    }"#,
    ));
    assert_eq!(models.len(), 2);
    assert!(models[0].default_compression_policy.is_none());
    assert!(models[0].upstream_compression.is_some());
    assert!(models[1].default_compression_policy.is_none());
    assert!(models[1].upstream_compression.is_none());
}

#[test]
fn uses_official_max_tokens_as_input_limit_when_no_explicit_input_limit_exists() {
    let models = parse_official_catalog_models(&json(
        r#"{"models": {"official-model": {"maxTokens": 200000}}}"#,
    ));

    assert_eq!(models[0].max_tokens, Some(200_000));
    assert_eq!(models[0].input_token_limit, Some(200_000));
}

#[test]
fn official_catalog_capabilities_default_to_vision_and_tools() {
    let models = parse_official_catalog_models(&json(
        r#"{"models": {"z-model": {"supportsTools": false}, "a-model": {"supportsThinking": false}}}"#,
    ));
    assert_eq!(models[0].id, "a-model");
    assert_eq!(models[1].id, "z-model");
    let caps = to_serde(models[0].capabilities.as_ref().unwrap());
    assert_eq!(caps["vision"], true);
    assert_eq!(caps["tools"], true);
    assert_eq!(caps["reasoning"], false);
    assert_eq!(caps["raw_config"], serde(r#"{"supportsThinking": false}"#));
    let caps = to_serde(models[1].capabilities.as_ref().unwrap());
    assert_eq!(caps["tools"], false);
    assert!(caps.get("reasoning").is_none());
    assert_eq!(models[1].display_name, "z-model");
}

#[test]
fn parses_official_video_and_mime_capabilities() {
    let models = parse_official_catalog_models(&json(
        r#"{
        "models": {
            "gemini-pro": {
                "displayName": "Gemini Pro",
                "supportsImages": true,
                "supportsVideo": true,
                "supportsThinking": true,
                "thinkingBudget": 10001,
                "minThinkingBudget": 128,
                "supportedMimeTypes": {
                    "image/heic": true,
                    "image/png": true,
                    "video/mp4": true,
                    "video/webm": true,
                    "video/disabled": false
                }
            }
        }
    }"#,
    ));

    assert_eq!(models[0].supports_images, Some(true));
    assert_eq!(models[0].supports_video, Some(true));
    assert_eq!(models[0].reasoning.as_ref().unwrap().supported, Some(true));
    assert_eq!(models[0].reasoning.as_ref().unwrap().thinking_budget, Some(10_001));
    assert_eq!(models[0].reasoning.as_ref().unwrap().min_thinking_budget, Some(128));
    assert_eq!(
        models[0].supported_mime_types,
        Some(vec![
            "image/heic".to_string(),
            "image/png".to_string(),
            "video/mp4".to_string(),
            "video/webm".to_string(),
        ])
    );
}

#[test]
fn media_flags_add_common_mime_types() {
    let models = parse_catalog_models(
        &json(r#"{"data": [{"id": "m", "capabilities": {"supports_vision": true}, "supportsVideo": true}]}"#),
        ProviderProtocol::OpenaiChatCompletions,
    );
    assert_eq!(models[0].supports_images, Some(true));
    assert_eq!(models[0].supports_video, Some(true));
    assert_eq!(
        models[0].supported_mime_types,
        Some(vec![
            "image/jpeg".to_string(),
            "image/png".to_string(),
            "image/webp".to_string(),
            "video/mp4".to_string(),
            "video/webm".to_string(),
        ])
    );
    let models = parse_catalog_models(
        &json(r#"{"data": [{"id": "m", "supported_mime_types": [" Image/PNG ", "", 3]}]}"#),
        ProviderProtocol::OpenaiChatCompletions,
    );
    assert_eq!(models[0].supports_images, Some(true));
    assert_eq!(models[0].supports_video, Some(false));
    assert_eq!(models[0].supported_mime_types, Some(vec!["image/png".to_string()]));
}

#[test]
fn gemini_catalog_uses_max_tokens_as_input_limit() {
    let models = parse_catalog_models(
        &json(r#"{"models": [{"name": "models/gemini-pro", "maxTokens": 1048576, "maxOutputTokens": 65535}]}"#),
        ProviderProtocol::GeminiGenerateContent,
    );

    assert_eq!(models[0].input_token_limit, Some(1_048_576));
    assert_eq!(models[0].output_token_limit, Some(65_535));
}

#[test]
fn parses_dynamic_and_disabled_gemini_thinking_budgets() {
    let models = parse_catalog_models(
        &json(
            r#"{
            "models": [
                {"name": "models/dynamic-thinking", "supportsThinking": true, "thinkingBudget": -1, "minThinkingBudget": 128},
                {"name": "models/thinking-disabled", "supportsThinking": true, "thinkingBudget": 0},
                {"name": "models/explicitly-unsupported", "supportsThinking": false, "reasoning": {"levels": ["high"]}}
            ]
        }"#,
        ),
        ProviderProtocol::GeminiGenerateContent,
    );

    assert_eq!(models[0].reasoning.as_ref().unwrap().thinking_budget, Some(-1));
    assert_eq!(models[0].reasoning.as_ref().unwrap().min_thinking_budget, Some(128));
    assert_eq!(models[1].reasoning.as_ref().unwrap().thinking_budget, Some(0));
    assert_eq!(models[2].reasoning.as_ref().unwrap().supported, Some(false));
}

#[test]
fn parses_common_openai_and_gemini_catalog_shapes() {
    let openai = parse_catalog_models(
        &json(r#"{"data": [{"id": "gpt-5"}, {"id": "gpt-5"}, {"id": "gpt-4.1", "display_name": "GPT 4.1"}]}"#),
        ProviderProtocol::OpenaiChatCompletions,
    );
    assert_eq!(openai.len(), 2);
    assert_plain(&openai[0], "gpt-5", "gpt-5");
    assert_plain(&openai[1], "gpt-4.1", "GPT 4.1");

    let gemini = parse_catalog_models(
        &json(r#"{"models": [{"name": "models/gemini-2.5-pro", "displayName": "Gemini 2.5 Pro"}]}"#),
        ProviderProtocol::GeminiGenerateContent,
    );
    assert_eq!(gemini.len(), 1);
    assert_plain(&gemini[0], "gemini-2.5-pro", "Gemini 2.5 Pro");
}

#[test]
fn parses_cpa_catalog_models_identified_by_slug() {
    let models = parse_catalog_models_with_context(
        &json(
            r#"{"models": [{"slug": "gpt-5.6-sol", "display_name": "GPT 5.6 Sol", "context_window": 372000, "max_tokens": 128000, "supported_reasoning_levels": [{"effort": "low"}, {"effort": "high"}]}]}"#,
        ),
        ProviderProtocol::OpenaiChatCompletions,
        true,
    );

    assert_eq!(models.len(), 1);
    assert_eq!(models[0].id, "gpt-5.6-sol");
    assert_eq!(models[0].display_name, "GPT 5.6 Sol");
    assert_eq!(models[0].context_window, Some(372_000));
    assert_eq!(models[0].max_context_window, None);
    assert_eq!(models[0].input_token_limit, Some(372_000));
    assert_eq!(models[0].output_token_limit, Some(128_000));
    assert_eq!(levels(&models[0]), vec![ReasoningLevel::Low, ReasoningLevel::High]);
}

#[test]
fn normalizes_cpa_capabilities_without_dropping_raw_metadata() {
    let models = parse_catalog_models_with_context(
        &json(
            r#"{"models": [{"slug": "gpt-5.6-sol", "input_modalities": ["text", "IMAGE"], "supports_parallel_tool_calls": true, "capabilities": {"reasoning": true, "vendor_extension": {"mode": "native"}}}]}"#,
        ),
        ProviderProtocol::OpenaiChatCompletions,
        true,
    );

    assert_eq!(
        to_serde(models[0].capabilities.as_ref().unwrap()),
        serde(
            r#"{"reasoning": true, "vendor_extension": {"mode": "native"}, "input_modalities": ["text", "IMAGE"], "supports_parallel_tool_calls": true, "vision": true, "tools": true}"#
        )
    );
}

#[test]
fn preserves_explicit_capability_flags_and_parallel_false_is_not_tool_unsupported() {
    let models = parse_catalog_models_with_context(
        &json(
            r#"{"data": [
                {"id": "explicit-flags", "capabilities": {"vision": false, "tools": false, "input_modalities": ["image"], "supports_parallel_tool_calls": true}},
                {"id": "serial-tools-unknown", "supports_parallel_tool_calls": false},
                {"id": "generation-method-tools", "experimental_supported_tools": [], "supported_generation_methods": ["toolCall"]}
            ]}"#,
        ),
        ProviderProtocol::OpenaiChatCompletions,
        true,
    );

    assert_eq!(to_serde(models[0].capabilities.as_ref().unwrap())["vision"], false);
    assert_eq!(to_serde(models[0].capabilities.as_ref().unwrap())["tools"], false);
    assert_eq!(
        to_serde(models[1].capabilities.as_ref().unwrap()),
        serde(r#"{"supports_parallel_tool_calls": false}"#)
    );
    assert_eq!(to_serde(models[2].capabilities.as_ref().unwrap())["tools"], true);
}

#[test]
fn parses_model_metadata_maps_using_the_object_key_as_model_id() {
    let models = parse_catalog_models_with_context(
        &json(
            r#"{"models": {"gpt-5.6-sol": {"display_name": "GPT 5.6 Sol", "context_window": 372000, "max_tokens": 128000, "reasoning": ["low", "high"]}}}"#,
        ),
        ProviderProtocol::OpenaiChatCompletions,
        true,
    );

    assert_eq!(models.len(), 1);
    assert_eq!(models[0].id, "gpt-5.6-sol");
    assert_eq!(models[0].input_token_limit, Some(372_000));
    assert_eq!(models[0].output_token_limit, Some(128_000));
}

#[test]
fn parses_model_specific_token_limits_and_context_window() {
    let gemini = parse_catalog_models(
        &json(r#"{"models": [{"name": "models/gemini-2.5-pro", "inputTokenLimit": 1000000, "outputTokenLimit": 65536}]}"#),
        ProviderProtocol::GeminiGenerateContent,
    );
    assert_eq!(gemini[0].input_token_limit, Some(1_000_000));
    assert_eq!(gemini[0].output_token_limit, Some(65_536));

    let anthropic_catalog = parse_catalog_models(
        &json(r#"{"data": [{"id": "sonnet-model", "max_input_tokens": "200000", "max_tokens": 32000, "context_length": 200000}]}"#),
        ProviderProtocol::AnthropicMessages,
    );
    assert_eq!(anthropic_catalog[0].input_token_limit, Some(200_000));
    assert_eq!(anthropic_catalog[0].output_token_limit, Some(32_000));

    let ambiguous = parse_catalog_models(
        &json(r#"{"data": [{"id": "unknown", "context_length": 1000000}]}"#),
        ProviderProtocol::OpenaiChatCompletions,
    );
    assert_eq!(ambiguous[0].context_window, None);
    assert_eq!(ambiguous[0].context_length, Some(1_000_000));
    assert_eq!(ambiguous[0].input_token_limit, None);
    assert_eq!(ambiguous[0].output_token_limit, None);

    let max_context = parse_catalog_models(
        &json(r#"{"data": [{"id": "max-context", "max_context_window": 131072}]}"#),
        ProviderProtocol::OpenaiChatCompletions,
    );
    assert_eq!(max_context[0].context_window, Some(131_072));
    assert_eq!(max_context[0].max_context_window, Some(131_072));
}

#[test]
fn preserves_complete_catalog_metadata_and_uses_cpa_context_as_input() {
    let cpa = parse_catalog_models_with_context(
        &json(
            r#"{"data": [{"id": "sonnet-model", "context_length": 1000000, "max_tokens": 128000, "token_budget": 65536, "thinking": {"supported": true}, "capabilities": {"tools": true, "reasoning": true}}]}"#,
        ),
        ProviderProtocol::OpenaiChatCompletions,
        true,
    );
    assert_eq!(cpa[0].context_length, Some(1_000_000));
    assert_eq!(cpa[0].input_token_limit, Some(1_000_000));
    assert_eq!(cpa[0].output_token_limit, Some(128_000));
    assert_eq!(cpa[0].max_tokens, Some(128_000));
    assert_eq!(cpa[0].token_budget, Some(65_536));
    assert_eq!(to_serde(cpa[0].thinking.as_ref().unwrap()), serde(r#"{"supported": true}"#));
    assert_eq!(
        to_serde(cpa[0].capabilities.as_ref().unwrap()),
        serde(r#"{"tools": true, "reasoning": true}"#)
    );

    let openai = parse_catalog_models(
        &json(r#"{"data": [{"id": "plain", "max_tokens": 8192}]}"#),
        ProviderProtocol::OpenaiChatCompletions,
    );
    assert_eq!(openai[0].max_tokens, Some(8_192));
    assert_eq!(openai[0].output_token_limit, None);

    let mistral = parse_catalog_models(
        &json(r#"{"data": [{"id": "mistral-large", "max_context_length": 131072}]}"#),
        ProviderProtocol::OpenaiChatCompletions,
    );
    assert_eq!(mistral[0].context_length, Some(131_072));
    assert_eq!(mistral[0].input_token_limit, None);
}

#[test]
fn parses_vendor_token_and_reasoning_metadata() {
    let anthropic = parse_catalog_models(
        &json(
            r#"{"data": [{"id": "sonnet-model", "max_input_tokens": 200000, "max_tokens": 8192, "capabilities": {"thinking": {"supported": true}, "effort": {"supported_efforts": ["low", "high"]}}}]}"#,
        ),
        ProviderProtocol::AnthropicMessages,
    );
    assert_eq!(anthropic[0].input_token_limit, Some(200_000));
    assert_eq!(anthropic[0].output_token_limit, Some(8_192));
    assert_eq!(
        mappings(&anthropic[0]),
        vec![
            (ReasoningLevel::Low, ReasoningMapping::Effort("low".to_string())),
            (ReasoningLevel::High, ReasoningMapping::Effort("high".to_string())),
        ]
    );

    let gemini = parse_catalog_models(
        &json(
            r#"{"models": [{"name": "models/gemini-2.5-pro", "inputTokenLimit": 1000000, "outputTokenLimit": 65536, "thinking": true}]}"#,
        ),
        ProviderProtocol::GeminiGenerateContent,
    );
    assert_eq!(mappings(&gemini[0]), vec![]);

    let openrouter = parse_catalog_models(
        &json(
            r#"{"data": [{"id": "router-model", "context_length": 131072, "top_provider": {"context_length": 114688, "max_completion_tokens": 4096}, "reasoning": {"supported_efforts": ["minimal", "high"]}}]}"#,
        ),
        ProviderProtocol::OpenaiChatCompletions,
    );
    assert_eq!(openrouter[0].context_window, None);
    assert_eq!(openrouter[0].context_length, Some(131_072));
    assert_eq!(openrouter[0].input_token_limit, None);
    assert_eq!(openrouter[0].output_token_limit, Some(4_096));
    assert_eq!(
        mappings(&openrouter[0]),
        vec![
            (ReasoningLevel::Low, ReasoningMapping::Effort("minimal".to_string())),
            (ReasoningLevel::High, ReasoningMapping::Effort("high".to_string())),
        ]
    );

    let invalid = parse_catalog_models(
        &json(r#"{"data": [{"id": "invalid", "max_input_tokens": 0, "max_output_tokens": "not-a-number", "max_tokens": -1}]}"#),
        ProviderProtocol::OpenaiChatCompletions,
    );
    assert_eq!(invalid[0].input_token_limit, None);
    assert_eq!(invalid[0].output_token_limit, None);
}

#[test]
fn parses_reasoning_metadata_without_assuming_missing_capability() {
    let models = parse_catalog_models(
        &json(
            r#"{"data": [
                {"id": "opus-model", "thinking": {"supported": true, "levels": ["low", "high", "xhigh"]}},
                {"id": "plain-model"},
                {"id": "no-thinking", "capabilities": {"reasoning": false}},
                {"id": "router-model", "supported_parameters": ["reasoning_effort"]},
                {"id": "modelgate-reasoning", "type": "Reasoning"}
            ]}"#,
        ),
        ProviderProtocol::OpenaiChatCompletions,
    );

    let r0 = models[0].reasoning.as_ref().unwrap();
    assert_eq!(r0.supported, Some(true));
    assert_eq!(
        r0.levels,
        vec![ReasoningLevel::Low, ReasoningLevel::High, ReasoningLevel::XHigh]
    );
    assert_eq!(
        r0.mappings,
        vec![
            (ReasoningLevel::Low, ReasoningMapping::Effort("low".to_string())),
            (ReasoningLevel::High, ReasoningMapping::Effort("high".to_string())),
            (ReasoningLevel::XHigh, ReasoningMapping::Effort("xhigh".to_string())),
        ]
    );
    assert_eq!(r0.thinking_budget, None);
    assert_eq!(r0.min_thinking_budget, None);
    assert!(models[1].reasoning.is_none());
    for (index, supported) in [(2, false), (3, true), (4, true)] {
        let r = models[index].reasoning.as_ref().unwrap();
        assert_eq!(r.supported, Some(supported));
        assert!(r.levels.is_empty());
        assert!(r.mappings.is_empty());
        assert_eq!(r.thinking_budget, None);
        assert_eq!(r.min_thinking_budget, None);
    }
}

#[test]
fn reasoning_budgets_and_adaptive_levels_map_per_protocol() {
    let models = parse_catalog_models(
        &json(
            r#"{"data": [{"id": "m", "reasoning": {"High": {"budget_tokens": 4096}, "auto": true, "off": true, "x-high": false}}]}"#,
        ),
        ProviderProtocol::AnthropicMessages,
    );
    assert_eq!(
        mappings(&models[0]),
        vec![
            (ReasoningLevel::Off, ReasoningMapping::Disabled),
            (ReasoningLevel::High, ReasoningMapping::BudgetTokens(4096)),
            (ReasoningLevel::Auto, ReasoningMapping::Adaptive),
        ]
    );
    assert_eq!(
        levels(&models[0]),
        vec![ReasoningLevel::Off, ReasoningLevel::High, ReasoningLevel::Auto]
    );
    let gemini = parse_catalog_models(
        &json(r#"{"models": [{"name": "g", "thinkingLevels": ["Medium", "unknown"]}]}"#),
        ProviderProtocol::GeminiGenerateContent,
    );
    assert_eq!(
        mappings(&gemini[0]),
        vec![(ReasoningLevel::Medium, ReasoningMapping::NativeLevel("medium".to_string()))]
    );
}

#[test]
fn catalog_entries_may_be_plain_strings_or_top_level_objects() {
    let models = parse_catalog_models(
        &json(r#"["  a  ", "", "a", "b"]"#),
        ProviderProtocol::OpenaiChatCompletions,
    );
    assert_eq!(models.len(), 2);
    assert_eq!(models[0].id, "a");
    assert_eq!(models[1].id, "b");
    let models = parse_catalog_models(
        &json(r#"{"m1": {"display_name": "One"}, "note": "x"}"#),
        ProviderProtocol::OpenaiChatCompletions,
    );
    assert_eq!(models.len(), 2);
    assert_eq!(models[0].id, "m1");
    assert_eq!(models[0].display_name, "One");
    assert_eq!(models[1].id, "x");
    assert!(parse_catalog_models(&json(r#"{"object": "list"}"#), ProviderProtocol::OpenaiChatCompletions).is_empty());
}

fn catalog_provider(models_endpoint: String) -> Provider {
    Provider {
        id: "provider-catalog".to_string(),
        name: "Catalog Provider".to_string(),
        protocol: ProviderProtocol::OpenaiChatCompletions,
        models_endpoint,
        generate_endpoint: "http://127.0.0.1:50998/v1/chat/completions".to_string(),
        api_key: "sk-catalog".to_string(),
        headers: Vec::new(),
        default_parameters: ParameterOverrides::default(),
        connect_timeout_ms: 3000,
        request_timeout_ms: 5000,
        stream_idle_timeout_ms: 5000,
        enabled: true,
    }
}

#[test]
fn adds_cpa_catalog_version_only_for_cpa_endpoint() {
    let provider = catalog_provider("http://127.0.0.1:8317/v1/models?tenant=test".to_string());
    assert_eq!(
        catalog_models_url(&provider).unwrap().as_str(),
        "http://127.0.0.1:8317/v1/models?tenant=test&client_version=1"
    );

    let provider =
        catalog_provider("http://127.0.0.1:8317/v1/models?client_version=custom".to_string());
    assert_eq!(
        catalog_models_url(&provider).unwrap().as_str(),
        "http://127.0.0.1:8317/v1/models?client_version=custom"
    );

    let provider = catalog_provider("https://api.openai.com/v1/models".to_string());
    assert_eq!(
        catalog_models_url(&provider).unwrap().as_str(),
        "https://api.openai.com/v1/models"
    );

    let provider = catalog_provider("http://[::1]:8317/v1/models".to_string());
    assert_eq!(
        catalog_models_url(&provider).unwrap().as_str(),
        "http://[::1]:8317/v1/models?client_version=1"
    );
}

#[test]
fn cpa_detection_needs_the_gateway_port_on_this_machine() {
    let provider = catalog_provider("http://localhost:8317/v1/models".to_string());
    assert_eq!(catalog_models_url(&provider).unwrap(), "http://localhost:8317/v1/models?client_version=1");
    let provider = catalog_provider("http://127.0.0.1:8318/v1/models".to_string());
    assert_eq!(catalog_models_url(&provider).unwrap(), "http://127.0.0.1:8318/v1/models");
    let provider = catalog_provider("http://10.0.0.1:8317/v1/models".to_string());
    assert_eq!(catalog_models_url(&provider).unwrap(), "http://10.0.0.1:8317/v1/models");
    let provider = catalog_provider("not a url".to_string());
    let error = catalog_models_url(&provider).unwrap_err();
    assert_eq!(error.category, ErrorCategory::InvalidRequest);
    assert_eq!(error.status_code, 400);
    assert!(error.message.starts_with("模型目录地址无效："));
}

#[test]
fn catalog_request_caps_timeouts_and_carries_the_protocol_headers() {
    let mut provider = catalog_provider("http://127.0.0.1:8317/v1/models".to_string());
    provider.request_timeout_ms = 60_000;
    provider.connect_timeout_ms = 20_000;
    let request = catalog_request(&provider).unwrap();
    assert_eq!(request.timeout_ms, CATALOG_TIMEOUT_MS);
    assert_eq!(request.connect_timeout_ms, 15_000);
    assert!(request.is_cpa_catalog);
    assert_eq!(request.url, "http://127.0.0.1:8317/v1/models?client_version=1");
    assert!(request
        .headers
        .iter()
        .any(|(name, value)| name == "Authorization" && value == "Bearer sk-catalog"));

    let provider = catalog_provider("https://api.openai.com/v1/models".to_string());
    let request = catalog_request(&provider).unwrap();
    assert_eq!((request.connect_timeout_ms, request.timeout_ms), (3000, 5000));
    assert!(!request.is_cpa_catalog);
}

#[test]
fn catalog_request_refuses_an_invalid_draft() {
    let mut provider = catalog_provider("https://api.openai.com/v1/models".to_string());
    provider.name = "  ".to_string();
    let error = catalog_request(&provider).err().unwrap();
    assert_eq!(error.category, ErrorCategory::InvalidRequest);
    assert_eq!(error.status_code, 400);
    assert_eq!(error.message, "Provider provider-catalog has an empty name");

    let provider = catalog_provider("   ".to_string());
    let error = catalog_request(&provider).err().unwrap();
    assert_eq!(error.message, "Provider models endpoint cannot be empty");
}

#[test]
fn catalog_errors_follow_the_status() {
    assert_eq!(catalog_error_category(401), ErrorCategory::Authentication);
    assert_eq!(catalog_error_category(403), ErrorCategory::Authentication);
    assert_eq!(catalog_error_category(404), ErrorCategory::ModelNotFound);
    assert_eq!(catalog_error_category(429), ErrorCategory::RateLimit);
    assert_eq!(catalog_error_category(503), ErrorCategory::UpstreamServerError);
    assert_eq!(catalog_error_category(418), ErrorCategory::InvalidRequest);

    let error = catalog_response_models(404, "", ProviderProtocol::OpenaiChatCompletions, false).err().unwrap();
    assert_eq!(error.category, ErrorCategory::ModelNotFound);
    assert_eq!(error.status_code, 404);
    assert_eq!(error.message, "模型目录返回 HTTP 404");

    let error = catalog_response_models(200, "{", ProviderProtocol::OpenaiChatCompletions, false).err().unwrap();
    assert_eq!(error.category, ErrorCategory::Internal);
    assert_eq!(error.status_code, 500);
    assert!(error.message.starts_with("模型目录不是有效 JSON："));

    let error = catalog_response_models(200, r#"{"data": []}"#, ProviderProtocol::OpenaiChatCompletions, false)
        .err()
        .unwrap();
    assert_eq!(error.message, "响应中没有可识别的模型列表");
    assert_eq!(error.status_code, 500);
}

#[test]
fn catalog_models_are_sorted_by_lowercased_display_name() {
    let body = r#"{"data": [
        {"id": "m-b", "display_name": "B"},
        {"id": "m-a", "display_name": "a"},
        {"id": "m-c", "display_name": "b"},
        {"id": "m-d", "display_name": "A"}
    ]}"#;
    let models = catalog_response_models(200, body, ProviderProtocol::OpenaiChatCompletions, false).unwrap();
    let ids: Vec<&str> = models.iter().map(|m| m.id.as_str()).collect();
    assert_eq!(ids, vec!["m-a", "m-d", "m-b", "m-c"]);
}

#[test]
fn sorting_by_display_name_is_stable() {
    let models = parse_catalog_models(
        &json(r#"{"data": [{"id": "z", "display_name": "Same"}, {"id": "y", "display_name": "same"}, {"id": "x", "display_name": "Other"}]}"#),
        ProviderProtocol::OpenaiChatCompletions,
    );
    let sorted = sort_by_display_name(models);
    let ids: Vec<&str> = sorted.iter().map(|m| m.id.as_str()).collect();
    assert_eq!(ids, vec!["x", "z", "y"]);
}

#[test]
fn official_catalog_pieces() {
    assert_eq!(
        official_models_url(61234),
        "https://127.0.0.1:61234/exa.language_server_pb.LanguageServerService/GetAvailableModels"
    );
    let processes = parse_language_server_processes(
        "1 /x/language_server --csrf_token a --https_server_port 0\n2 /x/language_server --csrf_token b --https_server_port 4000\n",
    );
    let (port, csrf) = official_catalog_target(&processes).unwrap();
    assert_eq!((port, csrf.as_str()), (4000, "b"));
    let error = official_catalog_target(&Vec::new()).err().unwrap();
    assert_eq!(error.status_code, 404);
    assert_eq!(error.category, ErrorCategory::InvalidRequest);

    let error = official_catalog_response("nope").err().unwrap();
    assert_eq!(error.category, ErrorCategory::UpstreamServerError);
    assert!(error.message.starts_with("解析 JSON 响应失败: "));
    let error = official_catalog_response(r#"{"models": {}}"#).err().unwrap();
    assert_eq!(error.message, "未从直连响应中找到有效的 models 节点");
    let models = official_catalog_response(r#"{"models": {"b": {}, "a": {"displayName": "A"}}}"#).unwrap();
    let ids: Vec<&str> = models.iter().map(|m| m.id.as_str()).collect();
    assert_eq!(ids, vec!["a", "b"]);
}
