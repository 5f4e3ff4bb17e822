use agy_byok::antigravity::model_descriptor::custom::{
    DEFAULT_CONTEXT_WINDOW, DEFAULT_INPUT_TOKEN_LIMIT, DEFAULT_OUTPUT_TOKEN_LIMIT,
};
use agy_byok::antigravity::model_descriptor::checkpoint::{
    canonical_model_id, official_checkpoint_worker_limits, official_default_checkpoint_model, official_model_aliases,
};
use agy_byok::antigravity::model_descriptor::AntigravityModelDescriptor;
use agy_byok::domain::checkpoint::ModelCompressionPolicy;
use agy_byok::domain::definition::{ModelCapabilities, ModelModality, UpstreamModel, VirtualModel};
use agy_byok::domain::provider::{ParameterOverrides, Provider, ProviderProtocol};
use agy_byok::domain::reasoning::{ReasoningLevel, ReasoningMapping};
use agy_byok::domain::token_limits::{ModelTokenLimits, TokenLimitSource};
use agy_byok::json::{JsonNumber, JsonValue};

fn from_serde(v: serde_json::Value) -> JsonValue {
    match v {
        serde_json::Value::Null => JsonValue::Null,
        serde_json::Value::Bool(b) => JsonValue::Bool(b),
        serde_json::Value::Number(n) => match (n.as_u64(), n.as_i64()) {
            (Some(u), _) => JsonValue::Number(JsonNumber::Unsigned(u)),
            (None, Some(i)) => JsonValue::Number(JsonNumber::Negative(i)),
            (None, None) => JsonValue::Number(JsonNumber::Decimal(n.to_string())),
        },
        serde_json::Value::String(s) => JsonValue::Str(s),
        serde_json::Value::Array(items) => JsonValue::Array(items.into_iter().map(from_serde).collect()),
        serde_json::Value::Object(map) => JsonValue::Object(map.into_iter().map(|(k, v)| (k, from_serde(v))).collect()),
    }
}

fn parse_json(text: &str) -> Result<JsonValue, String> {
    serde_json::from_str::<serde_json::Value>(text).map(from_serde).map_err(|e| e.to_string())
}


fn to_serde(v: &JsonValue) -> serde_json::Value {
    match v {
        JsonValue::Null => serde_json::Value::Null,
        JsonValue::Bool(b) => serde_json::Value::Bool(*b),
        JsonValue::Number(JsonNumber::Unsigned(u)) => serde_json::Value::from(*u),
        JsonValue::Number(JsonNumber::Negative(i)) => serde_json::Value::from(*i),
        JsonValue::Number(JsonNumber::Decimal(d)) => serde_json::from_str(d).unwrap(),
        JsonValue::Str(s) => serde_json::Value::String(s.clone()),
        JsonValue::Array(items) => serde_json::Value::Array(items.iter().map(to_serde).collect()),
        JsonValue::Object(entries) => serde_json::Value::Object(
            entries.iter().map(|(k, v)| (k.clone(), to_serde(v))).collect(),
        ),
    }
}

fn value(text: &str) -> JsonValue {
    parse_json(text).unwrap()
}

fn models() -> (VirtualModel, UpstreamModel) {
    (
        VirtualModel {
            id: "custom-model".to_string(),
            host_model_id: Some("MODEL_PLACEHOLDER_M400".to_string()),
            upstream_model_id: "upstream-model".to_string(),
            display_name: "Custom Model".to_string(),
            default_reasoning_level: None,
            parameter_overrides: ParameterOverrides::default(),
            fallback_virtual_model_id: None,
            enabled: true,
        },
        UpstreamModel {
            id: "upstream-model".to_string(),
            provider_id: "provider".to_string(),
            upstream_model_id: "provider-model".to_string(),
            display_name: "Custom Model".to_string(),
            capabilities: ModelCapabilities::default(),
            token_limits: ModelTokenLimits::default(),
            compression_policy: None,
            parameter_overrides: ParameterOverrides::default(),
            enabled: true,
        },
    )
}

fn provider() -> Provider {
    Provider {
        id: "provider".to_string(),
        name: "Provider".to_string(),
        protocol: ProviderProtocol::GeminiGenerateContent,
        models_endpoint: String::new(),
        generate_endpoint: String::new(),
        api_key: String::new(),
        headers: Vec::new(),
        default_parameters: ParameterOverrides::default(),
        connect_timeout_ms: 1,
        request_timeout_ms: 1,
        stream_idle_timeout_ms: 1,
        enabled: true,
    }
}

fn policy(threshold: u32, limit: u32, output: u32) -> ModelCompressionPolicy {
    let mut p = ModelCompressionPolicy::default();
    p.checkpoint_model = "MODEL_PLACEHOLDER_M72".to_string();
    p.token_threshold = threshold;
    p.max_token_limit = limit;
    p.max_output_tokens = output;
    p
}

fn checkpoint_experiments_with_model(checkpoint_model: &str) -> String {
    let settings = serde_json::Value::Object(
        [
            ("enabled".to_string(), serde_json::Value::Bool(false)),
            ("checkpoint_model".to_string(), serde_json::Value::String(checkpoint_model.to_string())),
            ("strategy".to_string(), serde_json::Value::String("UPSTREAM_STRATEGY".to_string())),
            ("retry_config".to_string(), serde_json::from_str(r#"{"max_retries":7}"#).unwrap()),
            ("token_threshold".to_string(), serde_json::Value::String("123".to_string())),
            ("max_token_limit".to_string(), serde_json::Value::String("456".to_string())),
            ("max_output_tokens".to_string(), serde_json::Value::String("78".to_string())),
        ]
        .into_iter()
        .collect(),
    );
    let text = serde_json::to_string(&settings).unwrap();
    let wrapped = serde_json::Value::Object(
        [(
            "experiments".to_string(),
            serde_json::Value::Object(
                [(
                    "CASCADE_USE_EXPERIMENT_CHECKPOINTER".to_string(),
                    serde_json::Value::Object(
                        [("stringValue".to_string(), serde_json::Value::String(text))].into_iter().collect(),
                    ),
                )]
                .into_iter()
                .collect(),
            ),
        )]
        .into_iter()
        .collect(),
    );
    serde_json::to_string(&wrapped).unwrap()
}

fn checkpoint_experiments() -> String {
    checkpoint_experiments_with_model("UPSTREAM_WORKER")
}

fn checkpoint(descriptor: &serde_json::Value) -> serde_json::Value {
    let raw = descriptor["modelExperiments"]["experiments"]["CASCADE_USE_EXPERIMENT_CHECKPOINTER"]["stringValue"]
        .as_str()
        .expect("model must contain checkpoint settings");
    serde_json::from_str(raw).expect("checkpoint settings must be valid JSON")
}

fn has_checkpoint(descriptor: &serde_json::Value) -> bool {
    descriptor["modelExperiments"]["experiments"]["CASCADE_USE_EXPERIMENT_CHECKPOINTER"]["stringValue"].is_string()
}

fn inject(catalog: &mut JsonValue, virtual_model: &VirtualModel, upstream_model: &UpstreamModel) {
    AntigravityModelDescriptor::inject_into_model_list(
        catalog,
        std::slice::from_ref(virtual_model),
        std::slice::from_ref(upstream_model),
        &[provider()],
    );
}

#[test]
fn custom_model_without_policy_does_not_inject_checkpointer() {
    let (virtual_model, upstream_model) = models();
    let mut object_catalog = value(r#"{ "models": {} }"#);
    let mut array_catalog = value(r#"{ "models": [] }"#);

    inject(&mut object_catalog, &virtual_model, &upstream_model);
    inject(&mut array_catalog, &virtual_model, &upstream_model);

    assert!(!has_checkpoint(&to_serde(&object_catalog)["models"]["custom-model"]));
    assert!(!has_checkpoint(&to_serde(&array_catalog)["models"][0]));
}

#[test]
fn custom_model_policy_is_applied_and_clamped_to_model_limits() {
    let (virtual_model, mut upstream_model) = models();
    let mut limits = ModelTokenLimits::default();
    limits.context_window = Some(200_000);
    limits.input_token_limit = Some(180_000);
    limits.output_token_limit = Some(10_000);
    upstream_model.token_limits = limits;
    upstream_model.compression_policy = Some(policy(250_000, 300_000, 20_000));
    let mut catalog = value(r#"{ "models": {} }"#);

    inject(&mut catalog, &virtual_model, &upstream_model);

    let checkpoint = checkpoint(&to_serde(&catalog)["models"]["custom-model"]);
    assert_eq!(checkpoint["token_threshold"], "170000");
    assert_eq!(checkpoint["max_token_limit"], "180000");
    assert_eq!(checkpoint["max_output_tokens"], "10000");
    assert_eq!(checkpoint["checkpoint_model"], "MODEL_PLACEHOLDER_M72");
    assert_eq!(checkpoint["retry_config"]["max_retries"], 0);
}

#[test]
fn estimated_context_does_not_clamp_catalog_input_checkpointer_capacity() {
    let (virtual_model, mut upstream_model) = models();
    upstream_model.token_limits = ModelTokenLimits {
        context_window: Some(128_000),
        context_window_source: TokenLimitSource::Estimated,
        input_token_limit: Some(1_048_576),
        input_token_limit_source: TokenLimitSource::Catalog,
        output_token_limit: Some(65_535),
        output_token_limit_source: TokenLimitSource::Catalog,
    };
    upstream_model.compression_policy = Some(policy(524_288, 734_003, 65_535));
    let mut catalog = value(r#"{ "models": {} }"#);

    inject(&mut catalog, &virtual_model, &upstream_model);

    let checkpoint = checkpoint(&to_serde(&catalog)["models"]["custom-model"]);
    assert_eq!(checkpoint["token_threshold"], "524288");
    assert_eq!(checkpoint["max_token_limit"], "734003");
    assert_eq!(checkpoint["max_output_tokens"], "65535");
}

#[test]
fn official_policy_map_matches_object_key_and_array_id() {
    let policies = vec![
        ("official-array".to_string(), policy(60_000, 90_000, 10_000)),
        ("official-object".to_string(), policy(80_000, 100_000, 20_000)),
    ];
    let mut object_catalog = value(&format!(
        r#"{{ "models": {{ "official-object": {{ "maxTokens": 90000, "maxOutputTokens": 8000, "modelExperiments": {} }} }} }}"#,
        checkpoint_experiments()
    ));
    let mut array_catalog = value(&format!(
        r#"{{ "models": [{{ "id": "official-array", "maxTokens": "80000", "maxOutputTokens": 6000, "modelExperiments": {} }}] }}"#,
        checkpoint_experiments()
    ));

    AntigravityModelDescriptor::apply_official_model_overrides(&mut object_catalog, &policies);
    AntigravityModelDescriptor::apply_official_model_overrides(&mut array_catalog, &policies);

    let object_checkpoint = checkpoint(&to_serde(&object_catalog)["models"]["official-object"]);
    assert_eq!(object_checkpoint["token_threshold"], "80000");
    assert_eq!(object_checkpoint["max_token_limit"], "90000");
    assert_eq!(object_checkpoint["max_output_tokens"], "8000");

    let array_checkpoint = checkpoint(&to_serde(&array_catalog)["models"][0]);
    assert_eq!(array_checkpoint["token_threshold"], "60000");
    assert_eq!(array_checkpoint["max_token_limit"], "80000");
    assert_eq!(array_checkpoint["max_output_tokens"], "6000");
}

#[test]
fn official_policy_output_is_clamped_to_checkpoint_model_limit() {
    let mut catalog = value(&format!(
        r#"{{ "models": {{
            "gemini-3.1-flash-lite": {{ "model": "MODEL_PLACEHOLDER_M50", "maxTokens": 1048576, "maxOutputTokens": 65535 }},
            "gemini-3.6-flash-high": {{ "model": "MODEL_PLACEHOLDER_M71", "maxTokens": 1048576, "maxOutputTokens": 65536, "modelExperiments": {} }}
        }} }}"#,
        checkpoint_experiments_with_model("MODEL_PLACEHOLDER_M50")
    ));
    let mut compression = policy(314_572, 524_288, 65_536);
    compression.checkpoint_model = "MODEL_PLACEHOLDER_M50".to_string();
    let policies = vec![("gemini-3.6-flash-high".to_string(), compression)];

    AntigravityModelDescriptor::apply_official_model_overrides(&mut catalog, &policies);

    let catalog = to_serde(&catalog);
    let target = &catalog["models"]["gemini-3.6-flash-high"];
    assert_eq!(target["maxOutputTokens"], 65_536);
    let checkpoint = checkpoint(target);
    assert_eq!(checkpoint["max_output_tokens"], "65535");
}

#[test]
fn deprecated_official_policy_is_applied_to_both_mapped_model_entries() {
    let mut catalog = value(&format!(
        r#"{{ "models": {{
            "gemini-3.1-pro-high": {{ "maxTokens": 1048576, "maxOutputTokens": 65535, "modelExperiments": {0} }},
            "gemini-pro-agent": {{ "maxTokens": 1048576, "maxOutputTokens": 65535, "modelExperiments": {0} }}
        }},
        "deprecatedModelIds": {{ "gemini-3.1-pro-high": {{ "newModelId": "gemini-pro-agent" }} }} }}"#,
        checkpoint_experiments()
    ));
    let policies = vec![("gemini-3.1-pro-high".to_string(), policy(80_000, 100_000, 20_000))];

    AntigravityModelDescriptor::apply_official_model_overrides(&mut catalog, &policies);

    let view = to_serde(&catalog);
    let deprecated_checkpoint = checkpoint(&view["models"]["gemini-3.1-pro-high"]);
    let replacement_checkpoint = checkpoint(&view["models"]["gemini-pro-agent"]);
    assert_eq!(deprecated_checkpoint["token_threshold"], "80000");
    assert_eq!(deprecated_checkpoint["max_token_limit"], "100000");
    assert_eq!(deprecated_checkpoint["max_output_tokens"], "20000");
    assert_eq!(replacement_checkpoint["token_threshold"], "80000");
    assert_eq!(replacement_checkpoint["max_token_limit"], "100000");
    assert_eq!(replacement_checkpoint["max_output_tokens"], "20000");

    let mut replacement_only_catalog = catalog.deep_clone();
    let replacement_only_policy = vec![("gemini-pro-agent".to_string(), policy(80_000, 110_000, 24_000))];
    AntigravityModelDescriptor::apply_official_model_overrides(&mut replacement_only_catalog, &replacement_only_policy);
    let deprecated_checkpoint = checkpoint(&to_serde(&replacement_only_catalog)["models"]["gemini-3.1-pro-high"]);
    assert_eq!(deprecated_checkpoint["token_threshold"], "80000");
}

#[test]
fn official_policy_only_replaces_three_token_fields() {
    let mut catalog = value(&format!(
        r#"{{ "response": {{ "models": {{ "official-default": {{ "maxTokens": 128000, "maxOutputTokens": 16384, "modelExperiments": {} }} }} }} }}"#,
        checkpoint_experiments()
    ));
    let original = checkpoint(&to_serde(&catalog)["response"]["models"]["official-default"]);
    let policies = vec![("official-default".to_string(), policy(50_000, 100_000, 10_000))];

    AntigravityModelDescriptor::apply_official_model_overrides(&mut catalog, &policies);

    let modified = checkpoint(&to_serde(&catalog)["response"]["models"]["official-default"]);
    assert_eq!(modified["token_threshold"], "50000");
    assert_eq!(modified["max_token_limit"], "100000");
    assert_eq!(modified["max_output_tokens"], "10000");
    for field in ["enabled", "checkpoint_model", "strategy", "retry_config"] {
        assert_eq!(modified[field], original[field]);
    }
}

#[test]
fn model_injection_supports_root_and_response_object_and_array_catalogs() {
    let (virtual_model, upstream_model) = models();
    let sorts = r#"[{ "groups": [{ "modelIds": ["official"] }] }]"#;
    let mut catalogs = [
        value(&format!(r#"{{ "models": {{}}, "agentModelSorts": {} }}"#, sorts)),
        value(&format!(r#"{{ "response": {{ "models": {{}}, "agentModelSorts": {} }} }}"#, sorts)),
        value(&format!(r#"{{ "models": [], "agentModelSorts": {} }}"#, sorts)),
        value(&format!(r#"{{ "response": {{ "models": [], "agentModelSorts": {} }} }}"#, sorts)),
    ];

    for catalog in &mut catalogs {
        inject(catalog, &virtual_model, &upstream_model);
    }

    let views: Vec<serde_json::Value> = catalogs.iter().map(to_serde).collect();
    assert!(views[0]["models"]["custom-model"].is_object());
    assert!(views[1]["response"]["models"]["custom-model"].is_object());
    assert_eq!(views[2]["models"][0]["id"], "custom-model");
    assert_eq!(views[3]["response"]["models"][0]["id"], "custom-model");
    assert_eq!(views[0]["agentModelSorts"][0]["groups"][0]["modelIds"][1], "custom-model");
    assert_eq!(views[1]["response"]["agentModelSorts"][0]["groups"][0]["modelIds"][1], "custom-model");
    assert_eq!(views[2]["agentModelSorts"][0]["groups"][0]["modelIds"][1], "custom-model");
    assert_eq!(views[3]["response"]["agentModelSorts"][0]["groups"][0]["modelIds"][1], "custom-model");
    for catalog in &catalogs {
        assert_eq!(AntigravityModelDescriptor::model_count(catalog), 1);
    }
}

#[test]
fn disabled_official_models_are_removed_from_models_and_agent_sorts() {
    let mut catalog = value(
        r#"{
        "models": {
            "gemini-2.5-flash": { "displayName": "Gemini 2.5 Flash" },
            "sonnet-3-5": { "displayName": "Sonnet 3.5" }
        },
        "agentModelSorts": [{
            "groups": [{ "modelIds": ["gemini-2.5-flash", "sonnet-3-5"] }]
        }]
    }"#,
    );
    let disabled = vec!["gemini-2.5-flash".to_string()];

    AntigravityModelDescriptor::remove_disabled_official_models(&mut catalog, &disabled);

    let view = to_serde(&catalog);
    assert!(view["models"].get("gemini-2.5-flash").is_none());
    assert!(view["models"].get("sonnet-3-5").is_some());
    let remaining_sorts = &view["agentModelSorts"][0]["groups"][0]["modelIds"];
    assert_eq!(remaining_sorts, &serde_json::Value::Array(vec![serde_json::Value::String("sonnet-3-5".to_string())]));
}

#[test]
fn official_model_without_policy_keeps_upstream_checkpointer_unchanged() {
    let original = r#"{"enabled":false,"token_threshold":"123"}"#;
    let mut catalog = value(&format!(
        r#"{{ "models": {{ "official-default": {{ "modelExperiments": {{ "experiments": {{ "CASCADE_USE_EXPERIMENT_CHECKPOINTER": {{ "stringValue": {} }} }} }} }} }} }}"#,
        serde_json::to_string(original).unwrap()
    ));

    AntigravityModelDescriptor::apply_official_model_overrides(&mut catalog, &Vec::new());

    assert_eq!(
        to_serde(&catalog)["models"]["official-default"]["modelExperiments"]["experiments"]
            ["CASCADE_USE_EXPERIMENT_CHECKPOINTER"]["stringValue"],
        original
    );
}

#[test]
fn official_placeholder_m400_entry_is_not_skipped() {
    let mut catalog = value(&format!(
        r#"{{ "models": {{ "official-placeholder": {{ "id": "official-placeholder", "model": "MODEL_PLACEHOLDER_M400", "maxTokens": 100000, "maxOutputTokens": 20000, "modelExperiments": {} }} }} }}"#,
        checkpoint_experiments()
    ));
    let policies = vec![("official-placeholder".to_string(), policy(70_000, 90_000, 10_000))];

    AntigravityModelDescriptor::apply_official_model_overrides(&mut catalog, &policies);

    assert_eq!(checkpoint(&to_serde(&catalog)["models"]["official-placeholder"])["max_token_limit"], "90000");
}

#[test]
fn descriptor_uses_experience_defaults_for_missing_model_limits() {
    let (virtual_model, upstream_model) = models();
    let descriptor = to_serde(&AntigravityModelDescriptor::build_model_object(&virtual_model, &upstream_model));
    let catalog =
        to_serde(&AntigravityModelDescriptor::build_cloud_code_catalog_entry(&virtual_model, &upstream_model, &provider()));

    assert_eq!(descriptor["contextWindow"], DEFAULT_CONTEXT_WINDOW);
    assert_eq!(descriptor["inputTokenLimit"], DEFAULT_INPUT_TOKEN_LIMIT);
    assert_eq!(descriptor["outputTokenLimit"], DEFAULT_OUTPUT_TOKEN_LIMIT);
    assert_eq!(catalog["contextWindow"], DEFAULT_CONTEXT_WINDOW);
    assert_eq!(catalog["recommended"], false);
}

#[test]
fn video_capabilities_are_consistent_across_catalog_shapes() {
    let (virtual_model, mut upstream_model) = models();
    upstream_model.capabilities.input_modalities = vec![ModelModality::Text, ModelModality::Image, ModelModality::Video];
    upstream_model.capabilities.input_mime_types =
        vec!["image/png".to_string(), "video/mp4".to_string(), "video/webm".to_string()];
    let mut object_catalog = value(r#"{ "models": {} }"#);
    let mut array_catalog = value(r#"{ "models": [] }"#);

    inject(&mut object_catalog, &virtual_model, &upstream_model);
    inject(&mut array_catalog, &virtual_model, &upstream_model);

    let object_view = to_serde(&object_catalog);
    let array_view = to_serde(&array_catalog);
    let object_model = &object_view["models"]["custom-model"];
    let array_model = &array_view["models"][0];
    assert_eq!(object_model["supportsVideo"], true);
    assert_eq!(array_model["supportsVideo"], true);
    let text_only = serde_json::Value::Array(vec![serde_json::Value::String("TEXT".to_string())]);
    assert_eq!(object_model["outputModalities"], text_only);
    assert_eq!(array_model["outputModalities"], text_only);
    assert_eq!(object_model["supportedMimeTypes"]["video/mp4"], true);
    assert!(array_model["supportedMimeTypes"].as_array().unwrap().iter().any(|mime_type| mime_type == "video/mp4"));
    assert!(object_model["inputModalities"].as_array().unwrap().iter().any(|modality| modality == "VIDEO"));
    assert!(array_model["inputModalities"].as_array().unwrap().iter().any(|modality| modality == "VIDEO"));
}

#[test]
fn model_thinking_budgets_are_preserved_across_catalog_shapes() {
    let (virtual_model, mut upstream_model) = models();
    upstream_model.capabilities.reasoning.thinking_budget = Some(10_001);
    upstream_model.capabilities.reasoning.min_thinking_budget = Some(128);

    let descriptor = to_serde(&AntigravityModelDescriptor::build_model_object(&virtual_model, &upstream_model));
    let catalog =
        to_serde(&AntigravityModelDescriptor::build_cloud_code_catalog_entry(&virtual_model, &upstream_model, &provider()));

    assert_eq!(descriptor["supportsThinking"], true);
    assert_eq!(descriptor["thinkingBudget"], 10_001);
    assert_eq!(descriptor["minThinkingBudget"], 128);
    assert_eq!(catalog["supportsThinking"], true);
    assert_eq!(catalog["thinkingBudget"], 10_001);
    assert_eq!(catalog["minThinkingBudget"], 128);
}

#[test]
fn reasoning_models_get_a_tiered_parent_entry() {
    let (mut virtual_model, mut upstream_model) = models();
    virtual_model.id = "custom-model-high".to_string();
    virtual_model.display_name = "Custom Model (High)".to_string();
    upstream_model.capabilities.reasoning.levels = vec![(ReasoningLevel::High, ReasoningMapping::BudgetTokens(4096))];
    virtual_model.default_reasoning_level = Some(ReasoningLevel::High);
    let mut catalog = value(r#"{ "models": {}, "tieredModelIds": { "custom": ["other-tiered"] } }"#);

    inject(&mut catalog, &virtual_model, &upstream_model);

    let view = to_serde(&catalog);
    let parent = &view["models"]["custom-model-tiered"];
    assert_eq!(parent["displayName"], "Custom Model");
    assert_eq!(parent["thinkingBudget"], -1);
    assert_eq!(view["models"]["custom-model-high"]["thinkingBudget"], 4096);
    assert_eq!(
        view["tieredModelIds"]["custom"],
        serde_json::from_str::<serde_json::Value>(r#"["other-tiered","custom-model-tiered"]"#).unwrap()
    );
}

#[test]
fn agent_models_join_a_byok_sort_and_image_models_their_list() {
    let (virtual_model, mut upstream_model) = models();
    upstream_model.capabilities.roles =
        vec![agy_byok::domain::definition::ModelRole::Agent, agy_byok::domain::definition::ModelRole::ImageGeneration];
    let mut catalog = value(r#"{ "models": {}, "agentModelSorts": [{ "displayName": "Recommended", "groups": [] }] }"#);

    inject(&mut catalog, &virtual_model, &upstream_model);

    let view = to_serde(&catalog);
    assert_eq!(view["agentModelSorts"][1]["displayName"], "BYOK");
    assert_eq!(view["agentModelSorts"][1]["groups"][0]["modelIds"][0], "custom-model");
    assert_eq!(view["imageGenerationModelIds"][0], "custom-model");
}

#[test]
fn disabled_models_and_providers_are_not_injected() {
    let (mut virtual_model, upstream_model) = models();
    virtual_model.enabled = false;
    let mut catalog = value(r#"{ "models": {} }"#);
    inject(&mut catalog, &virtual_model, &upstream_model);
    assert_eq!(AntigravityModelDescriptor::model_count(&catalog), 0);
}

#[test]
fn aliases_and_worker_limits_are_read_from_the_catalog() {
    let catalog = value(&format!(
        r#"{{ "models": [
            {{ "id": "MODEL_PLACEHOLDER_M50", "maxOutputTokens": 4000 }},
            {{ "id": "pro", "outputTokenLimit": "9000", "modelExperiments": {} }}
        ],
        "deprecatedModelIds": {{ "a": {{ "newModelId": "b" }}, "b": {{ "newModelId": "a" }}, "c": {{ "newModelId": "" }} }} }}"#,
        checkpoint_experiments_with_model(" MODEL_PLACEHOLDER_M50 ")
    ));
    let aliases = official_model_aliases(&catalog);
    assert_eq!(aliases, vec![("a".to_string(), "b".to_string()), ("b".to_string(), "a".to_string())]);
    assert_eq!(canonical_model_id("a", &aliases), "a");
    assert_eq!(canonical_model_id("x", &aliases), "x");
    let limits = official_checkpoint_worker_limits(&catalog);
    assert_eq!(limits, vec![("MODEL_PLACEHOLDER_M50".to_string(), 4000)]);
}

fn worker_entry(worker: &str) -> String {
    let settings = format!("{{\\\"checkpoint_model\\\": \\\"{worker}\\\"}}");
    format!(
        r#"{{"modelExperiments": {{"experiments": {{"CASCADE_USE_EXPERIMENT_CHECKPOINTER": {{"stringValue": "{settings}"}}}}}}}}"#
    )
}

#[test]
fn default_checkpoint_model_is_the_most_used_worker() {
    let payload = format!(
        r#"{{"models": {{"a": {}, "b": {}, "c": {}, "d": {}, "e": {{}}}}}}"#,
        worker_entry("w2"),
        worker_entry(" w1 "),
        worker_entry("w2"),
        worker_entry("w1"),
    );
    let payload = parse_json(&payload).unwrap();
    assert_eq!(official_default_checkpoint_model(&payload), Some("w1".to_string()));

    let payload = format!(r#"{{"models": [{}, {}, {}]}}"#, worker_entry("w9"), worker_entry("w2"), worker_entry("w9"));
    let payload = parse_json(&payload).unwrap();
    assert_eq!(official_default_checkpoint_model(&payload), Some("w9".to_string()));

    let payload = parse_json(r#"{"models": {"a": {}}}"#).unwrap();
    assert_eq!(official_default_checkpoint_model(&payload), None);
    let payload = parse_json(r#"{"models": 3}"#).unwrap();
    assert_eq!(official_default_checkpoint_model(&payload), None);
}
