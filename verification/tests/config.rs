use agy_byok::domain::checkpoint::ModelCompressionPolicy;
use agy_byok::domain::config::{is_loopback_host, validate_endpoint, validate_parameters, AppConfig, ConfigError};
use agy_byok::domain::definition::{ModelCapabilities, ModelModality, UpstreamModel, VirtualModel};
use agy_byok::domain::provider::{ParameterOverrides, Provider, ProviderProtocol};
use agy_byok::domain::reasoning::{ReasoningLevel, ReasoningMapping};
use agy_byok::domain::token_limits::ModelTokenLimits;
use agy_byok::json::JsonNumber;

fn provider(protocol: ProviderProtocol) -> Provider {
    Provider {
        id: "provider".to_string(),
        name: "Provider".to_string(),
        protocol,
        models_endpoint: "http://127.0.0.1/models".to_string(),
        generate_endpoint: "http://127.0.0.1/generate".to_string(),
        api_key: String::new(),
        headers: Vec::new(),
        default_parameters: ParameterOverrides::default(),
        connect_timeout_ms: 1_000,
        request_timeout_ms: 2_000,
        stream_idle_timeout_ms: 1_000,
        enabled: true,
    }
}

fn media_config(protocol: ProviderProtocol, mime_types: &[&str]) -> AppConfig {
    let mut capabilities = ModelCapabilities::default();
    capabilities.tools = true;
    capabilities.input_mime_types = mime_types.iter().map(|mime_type| (*mime_type).to_string()).collect();
    let mut config = AppConfig::default();
    config.providers = vec![provider(protocol)];
    config.upstream_models = vec![UpstreamModel {
        id: "upstream".to_string(),
        provider_id: "provider".to_string(),
        upstream_model_id: "model".to_string(),
        display_name: "Model".to_string(),
        capabilities,
        token_limits: ModelTokenLimits::default(),
        compression_policy: None,
        parameter_overrides: ParameterOverrides::default(),
        enabled: true,
    }];
    config
}

fn set_vision(config: &mut AppConfig) {
    config.upstream_models[0].capabilities.input_modalities = vec![ModelModality::Text, ModelModality::Image];
}

fn virtual_model(id: &str, upstream: &str) -> VirtualModel {
    VirtualModel {
        id: id.to_string(),
        host_model_id: None,
        upstream_model_id: upstream.to_string(),
        display_name: id.to_string(),
        default_reasoning_level: None,
        parameter_overrides: ParameterOverrides::default(),
        fallback_virtual_model_id: None,
        enabled: true,
    }
}

#[test]
fn video_mime_requires_gemini_protocol() {
    assert!(media_config(ProviderProtocol::GeminiGenerateContent, &["video/mp4"]).validate().is_ok());

    let error = media_config(ProviderProtocol::OpenaiChatCompletions, &["video/mp4"]).validate().unwrap_err();
    assert!(error.describe().contains("video/mp4"));
}

#[test]
fn unsupported_image_mime_requires_gemini_protocol() {
    let mut gemini_config = media_config(ProviderProtocol::GeminiGenerateContent, &["image/heic"]);
    set_vision(&mut gemini_config);
    assert!(gemini_config.validate().is_ok());

    let error = media_config(ProviderProtocol::AnthropicMessages, &["image/heic"]).validate().unwrap_err();
    assert!(error.describe().contains("image/heic"));
}

#[test]
fn vision_requires_an_explicit_image_mime_type() {
    let mut config = media_config(ProviderProtocol::GeminiGenerateContent, &[]);
    set_vision(&mut config);

    let error = config.validate().unwrap_err();
    assert!(error.describe().contains("vision capability"));
}

#[test]
fn minimum_thinking_budget_cannot_exceed_default_budget() {
    let mut config = media_config(ProviderProtocol::GeminiGenerateContent, &[]);
    config.upstream_models[0].capabilities.reasoning.thinking_budget = Some(128);
    config.upstream_models[0].capabilities.reasoning.min_thinking_budget = Some(256);

    let error = config.validate().unwrap_err();
    assert!(error.describe().contains("min_thinking_budget"));
}

#[test]
fn model_thinking_budget_requires_gemini() {
    let mut config = media_config(ProviderProtocol::AnthropicMessages, &[]);
    config.upstream_models[0].capabilities.reasoning.thinking_budget = Some(10_001);

    let error = config.validate().unwrap_err();
    assert!(error.describe().contains("only with Gemini"));
}

#[test]
fn disabled_reasoning_rejects_budget_configuration() {
    let mut config = media_config(ProviderProtocol::GeminiGenerateContent, &[]);
    let reasoning = &mut config.upstream_models[0].capabilities.reasoning;
    reasoning.supported = Some(false);
    reasoning.thinking_budget = Some(10_001);

    let error = config.validate().unwrap_err();
    assert!(error.describe().contains("cannot disable reasoning"));
}

#[test]
fn dynamic_thinking_budget_accepts_a_positive_minimum() {
    let mut config = media_config(ProviderProtocol::GeminiGenerateContent, &[]);
    let reasoning = &mut config.upstream_models[0].capabilities.reasoning;
    reasoning.supported = Some(true);
    reasoning.thinking_budget = Some(-1);
    reasoning.min_thinking_budget = Some(128);

    assert!(config.validate().is_ok());
}

#[test]
fn thinking_budget_rejects_values_below_dynamic_sentinel() {
    let mut config = media_config(ProviderProtocol::GeminiGenerateContent, &[]);
    config.upstream_models[0].capabilities.reasoning.thinking_budget = Some(-2);

    let error = config.validate().unwrap_err();
    assert!(error.describe().contains("must be -1, 0"));
}

#[test]
fn default_config_is_valid() {
    assert!(AppConfig::default().validate().is_ok());
}

#[test]
fn low_proxy_port_is_rejected() {
    let mut config = AppConfig::default();
    config.proxy_port = 80;
    assert_eq!(
        config.validate(),
        Err(ConfigError::InvalidValue("Proxy port must be between 1024 and 65535".to_string()))
    );
}

#[test]
fn duplicate_provider_is_reported_with_its_id() {
    let mut config = media_config(ProviderProtocol::GeminiGenerateContent, &[]);
    config.providers.push(provider(ProviderProtocol::GeminiGenerateContent));
    let error = config.validate().unwrap_err();
    assert_eq!(error, ConfigError::DuplicateId { kind: "Provider", id: "provider".to_string() });
    assert_eq!(error.describe(), "Duplicate Provider ID: provider");
}

#[test]
fn upstream_model_needs_an_existing_provider() {
    let mut config = media_config(ProviderProtocol::GeminiGenerateContent, &[]);
    config.upstream_models[0].provider_id = "elsewhere".to_string();
    let error = config.validate().unwrap_err();
    assert_eq!(error.describe(), "UpstreamModel upstream references missing Provider elsewhere");
}

#[test]
fn virtual_model_reports_missing_upstream_and_fallback() {
    let mut config = media_config(ProviderProtocol::GeminiGenerateContent, &[]);
    config.virtual_models = vec![virtual_model("fast", "nowhere")];
    assert_eq!(
        config.validate().unwrap_err().describe(),
        "VirtualModel fast references missing UpstreamModel nowhere"
    );

    config.virtual_models = vec![virtual_model("fast", "upstream")];
    config.virtual_models[0].fallback_virtual_model_id = Some("slow".to_string());
    assert_eq!(config.validate().unwrap_err().describe(), "VirtualModel fast references missing fallback slow");

    config.virtual_models[0].fallback_virtual_model_id = Some("fast".to_string());
    assert_eq!(config.validate().unwrap_err().describe(), "VirtualModel fast cannot fallback to itself");

    config.virtual_models.push(virtual_model("slow", "upstream"));
    config.virtual_models[0].fallback_virtual_model_id = Some("slow".to_string());
    assert!(config.validate().is_ok());
}

#[test]
fn virtual_model_identifiers_must_not_collide() {
    let mut config = media_config(ProviderProtocol::GeminiGenerateContent, &[]);
    let mut first = virtual_model("fast", "upstream");
    first.host_model_id = Some("MODEL_PLACEHOLDER_M450".to_string());
    let mut second = virtual_model("quick", "upstream");
    second.host_model_id = Some("MODEL_PLACEHOLDER_M450".to_string());
    config.virtual_models = vec![first, second];
    let error = config.validate().unwrap_err();
    assert_eq!(
        error,
        ConfigError::IdentifierConflict {
            model_id: "quick".to_string(),
            existing_model_id: "fast".to_string(),
            identifier: "MODEL_PLACEHOLDER_M450".to_string(),
        }
    );
}

#[test]
fn default_reasoning_level_must_be_supported() {
    let mut config = media_config(ProviderProtocol::GeminiGenerateContent, &[]);
    config.upstream_models[0].capabilities.reasoning.levels =
        vec![(ReasoningLevel::Low, ReasoningMapping::BudgetTokens(1024))];
    let mut model = virtual_model("fast", "upstream");
    model.default_reasoning_level = Some(ReasoningLevel::High);
    config.virtual_models = vec![model];
    assert_eq!(
        config.validate().unwrap_err().describe(),
        "VirtualModel fast uses unsupported reasoning level High"
    );
    config.virtual_models[0].default_reasoning_level = Some(ReasoningLevel::Low);
    assert!(config.validate().is_ok());
}

#[test]
fn level_budgets_must_reach_the_minimum() {
    let mut config = media_config(ProviderProtocol::GeminiGenerateContent, &[]);
    let reasoning = &mut config.upstream_models[0].capabilities.reasoning;
    reasoning.min_thinking_budget = Some(512);
    reasoning.levels = vec![(ReasoningLevel::Low, ReasoningMapping::BudgetTokens(256))];
    assert_eq!(
        config.validate().unwrap_err().describe(),
        "UpstreamModel upstream reasoning budget 256 is below min_thinking_budget 512"
    );
}

#[test]
fn duplicate_and_malformed_mime_types_are_rejected() {
    let config = media_config(ProviderProtocol::GeminiGenerateContent, &["video/mp4", " Video/MP4 "]);
    assert_eq!(
        config.validate().unwrap_err().describe(),
        "UpstreamModel upstream has duplicate supported MIME type video/mp4"
    );
    let config = media_config(ProviderProtocol::GeminiGenerateContent, &["mp4"]);
    assert_eq!(
        config.validate().unwrap_err().describe(),
        "UpstreamModel upstream has invalid supported MIME type \"mp4\""
    );
    let config = media_config(ProviderProtocol::OpenaiResponses, &["video/mp4"]);
    assert_eq!(
        config.validate().unwrap_err().describe(),
        "UpstreamModel upstream cannot use inline MIME type video/mp4 with provider protocol OpenaiResponses"
    );
}

#[test]
fn endpoints_need_https_unless_loopback() {
    assert!(validate_endpoint("E", "https://api.example.com/v1").is_ok());
    assert!(validate_endpoint("E", "http://localhost:8080/v1").is_ok());
    assert!(validate_endpoint("E", "http://127.0.0.1:8080/v1").is_ok());
    assert_eq!(
        validate_endpoint("E", "http://example.com/v1").unwrap_err().describe(),
        "E must use https unless it targets loopback"
    );
    assert_eq!(validate_endpoint("E", "  ").unwrap_err().describe(), "E cannot be empty");
    assert_eq!(validate_endpoint("E", "ftp://example.com").unwrap_err().describe(), "E must use http or https");
    assert_eq!(
        validate_endpoint("E", "https://user:pw@example.com").unwrap_err().describe(),
        "E must not contain embedded credentials"
    );
    assert_eq!(
        validate_endpoint("E", "https://example.com/#top").unwrap_err().describe(),
        "E must not contain a URL fragment"
    );
    assert_eq!(
        validate_endpoint("E", "not a url").unwrap_err().describe(),
        "E is invalid: relative URL without a base"
    );
}

#[test]
fn loopback_hosts() {
    assert!(is_loopback_host("LocalHost"));
    assert!(is_loopback_host("127.0.0.1"));
    assert!(is_loopback_host("127.255.10.3"));
    assert!(!is_loopback_host("127.0.0"));
    assert!(!is_loopback_host("127.0.0.256"));
    assert!(!is_loopback_host("127.00.0.1"));
    assert!(!is_loopback_host("128.0.0.1"));
    assert!(!is_loopback_host("[::1]"));
}

#[test]
fn parameter_ranges() {
    let mut p = ParameterOverrides::default();
    p.temperature = Some(JsonNumber::Decimal("0.7".to_string()));
    p.top_p = Some(JsonNumber::Decimal("1.0".to_string()));
    assert!(validate_parameters("L", &p).is_ok());
    p.top_p = Some(JsonNumber::Decimal("1.5".to_string()));
    assert_eq!(validate_parameters("L", &p).unwrap_err().describe(), "L top_p must be between 0 and 1");
    p.top_p = Some(JsonNumber::Unsigned(1));
    p.temperature = Some(JsonNumber::Negative(-1));
    assert_eq!(
        validate_parameters("L", &p).unwrap_err().describe(),
        "L temperature must be finite and non-negative"
    );
    p.temperature = None;
    p.max_tokens = Some(0);
    assert_eq!(validate_parameters("L", &p).unwrap_err().describe(), "L max_tokens must be greater than 0");
    p.max_tokens = Some(10);
    p.top_k = Some(0);
    assert_eq!(validate_parameters("L", &p).unwrap_err().describe(), "L top_k must be greater than 0");
}

#[test]
fn provider_headers_must_parse() {
    let mut config = media_config(ProviderProtocol::GeminiGenerateContent, &[]);
    config.providers[0].headers = vec![("Bad Name".to_string(), "v".to_string())];
    assert_eq!(
        config.validate().unwrap_err().describe(),
        "Provider provider header name is invalid: invalid HTTP header name"
    );
    config.providers[0].headers = vec![("X-Ok".to_string(), "line\nbreak".to_string())];
    assert_eq!(
        config.validate().unwrap_err().describe(),
        "Provider provider header value for X-Ok is invalid: failed to parse header value"
    );
}

#[test]
fn compression_policy_keys_are_checked() {
    let mut config = media_config(ProviderProtocol::GeminiGenerateContent, &[]);
    config.model_compression_policies = vec![(" ".to_string(), ModelCompressionPolicy::default())];
    assert_eq!(
        config.validate().unwrap_err().describe(),
        "model_compression_policies cannot contain an empty model ID"
    );
}
