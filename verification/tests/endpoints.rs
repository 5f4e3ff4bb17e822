use agy_byok::domain::definition::{ModelCapabilities, ModelModality, ModelRole, UpstreamModel};
use agy_byok::domain::error::ErrorCategory;
use agy_byok::domain::provider::{ParameterOverrides, Provider, ProviderProtocol};
use agy_byok::domain::request::NeutralChatRequest;
use agy_byok::domain::token_limits::ModelTokenLimits;
use agy_byok::providers::gemini::request::gemini_endpoint_parts;
use agy_byok::providers::gemini::GeminiAdapter;
use agy_byok::providers::openai::{images_generation_endpoint, images_generation_path, OpenAIAdapter};
use agy_byok::url::replace_str;

fn provider(protocol: ProviderProtocol, generate_endpoint: &str) -> Provider {
    Provider {
        id: "p".to_string(),
        name: "P".to_string(),
        protocol,
        models_endpoint: "https://example.com/v1/models".to_string(),
        generate_endpoint: generate_endpoint.to_string(),
        api_key: "k".to_string(),
        headers: Vec::new(),
        default_parameters: ParameterOverrides::default(),
        connect_timeout_ms: 1_000,
        request_timeout_ms: 2_000,
        stream_idle_timeout_ms: 1_000,
        enabled: true,
    }
}

fn model(upstream_model_id: &str, roles: Vec<ModelRole>) -> UpstreamModel {
    let mut capabilities = ModelCapabilities::default();
    capabilities.roles = roles;
    UpstreamModel {
        id: "m".to_string(),
        provider_id: "p".to_string(),
        upstream_model_id: upstream_model_id.to_string(),
        display_name: "M".to_string(),
        capabilities,
        token_limits: ModelTokenLimits::default(),
        compression_policy: None,
        parameter_overrides: ParameterOverrides::default(),
        enabled: true,
    }
}

fn request(output_modalities: Vec<ModelModality>) -> NeutralChatRequest {
    NeutralChatRequest {
        virtual_model_id: "v".to_string(),
        messages: Vec::new(),
        system_instruction: None,
        tools: Vec::new(),
        output_modalities,
        image_generation_config: None,
        reasoning_level: None,
        stream: false,
        generation_parameters: ParameterOverrides::default(),
        extra_body: Vec::new(),
    }
}

#[test]
fn replace_str_replaces_every_occurrence() {
    assert_eq!(replace_str("/{model}/x/{model}", "{model}", "gem"), "/gem/x/gem");
    assert_eq!(replace_str("no placeholder", "{model}", "gem"), "no placeholder");
    assert_eq!(replace_str("aaa", "aa", "b"), "ba");
}

#[test]
fn gemini_streaming_endpoint_switches_method_and_sets_alt_sse() {
    let adapter = GeminiAdapter::new();
    let p = provider(
        ProviderProtocol::GeminiGenerateContent,
        "https://generativelanguage.googleapis.com/v1beta/models/{model}:generateContent?key=abc",
    );
    let m = model("gemini-pro", vec![ModelRole::Agent]);
    let url = adapter.build_generate_endpoint(&p, &m, true, &request(vec![])).unwrap();
    assert_eq!(
        url,
        "https://generativelanguage.googleapis.com/v1beta/models/gemini-pro:streamGenerateContent?key=abc&alt=sse"
    );
}

#[test]
fn gemini_streaming_endpoint_rewrites_an_existing_alt() {
    let adapter = GeminiAdapter::new();
    let p = provider(
        ProviderProtocol::GeminiGenerateContent,
        "https://example.com/v1beta/models/{model}:streamGenerateContent?alt=json",
    );
    let m = model("g", vec![ModelRole::Agent]);
    let url = adapter.build_generate_endpoint(&p, &m, true, &request(vec![])).unwrap();
    assert_eq!(url, "https://example.com/v1beta/models/g:streamGenerateContent?alt=sse");
}

#[test]
fn gemini_plain_endpoint_drops_alt_sse_and_an_empty_query() {
    let adapter = GeminiAdapter::new();
    let p = provider(
        ProviderProtocol::GeminiGenerateContent,
        "https://example.com/v1beta/models/{model}:streamGenerateContent?alt=sse",
    );
    let m = model("g", vec![ModelRole::Agent]);
    let url = adapter.build_generate_endpoint(&p, &m, false, &request(vec![])).unwrap();
    assert_eq!(url, "https://example.com/v1beta/models/g:generateContent");
}

#[test]
fn gemini_invalid_endpoint_is_an_invalid_request() {
    let adapter = GeminiAdapter::new();
    let p = provider(ProviderProtocol::GeminiGenerateContent, "not a url {model}");
    let m = model("g", vec![ModelRole::Agent]);
    let error = adapter.build_generate_endpoint(&p, &m, true, &request(vec![])).unwrap_err();
    assert_eq!(error.category, ErrorCategory::InvalidRequest);
    assert_eq!(error.status_code, 400);
    assert!(error.message.starts_with("Invalid Gemini generate endpoint: "));
    assert!(error.message.len() > "Invalid Gemini generate endpoint: ".len());
}

#[test]
fn gemini_endpoint_parts_keep_other_pairs() {
    let pairs = vec![
        ("key".to_string(), "abc".to_string()),
        ("alt".to_string(), "sse".to_string()),
        ("alt".to_string(), "json".to_string()),
    ];
    let (path, kept) = gemini_endpoint_parts("/m:streamGenerateContent", &pairs, false);
    assert_eq!(path, "/m:generateContent");
    assert_eq!(kept, vec![("key".to_string(), "abc".to_string()), ("alt".to_string(), "json".to_string())]);
    let (path, set) = gemini_endpoint_parts("/m", &pairs, true);
    assert_eq!(path, "/m");
    assert_eq!(
        set,
        vec![
            ("key".to_string(), "abc".to_string()),
            ("alt".to_string(), "sse".to_string()),
            ("alt".to_string(), "sse".to_string()),
        ]
    );
}

#[test]
fn openai_images_endpoint_sits_beside_chat_and_responses() {
    assert_eq!(
        images_generation_endpoint("https://api.openai.com/v1/chat/completions").unwrap(),
        "https://api.openai.com/v1/images/generations"
    );
    assert_eq!(
        images_generation_endpoint("https://gateway.example/openai/v1/responses/").unwrap(),
        "https://gateway.example/openai/v1/images/generations"
    );
    assert_eq!(
        images_generation_endpoint("https://gateway.example/custom?x=1").unwrap(),
        "https://gateway.example/v1/images/generations?x=1"
    );
    assert_eq!(images_generation_path("/a/chat/completions//"), "/a/images/generations");
    assert_eq!(images_generation_path("/"), "/v1/images/generations");
}

#[test]
fn openai_invalid_endpoint_is_an_invalid_request() {
    let error = images_generation_endpoint("::").unwrap_err();
    assert_eq!(error.category, ErrorCategory::InvalidRequest);
    assert_eq!(error.status_code, 400);
    assert!(error.message.starts_with("Invalid OpenAI generate endpoint: "));
}

#[test]
fn openai_endpoint_uses_images_only_for_image_generation() {
    let adapter = OpenAIAdapter::new();
    let p = provider(ProviderProtocol::OpenaiChatCompletions, "https://api.openai.com/v1/chat/completions?m={model}");
    let chat = model("gpt-4.1", vec![ModelRole::Agent]);
    assert_eq!(
        adapter.build_generate_endpoint(&p, &chat, false, &request(vec![])).unwrap(),
        "https://api.openai.com/v1/chat/completions?m=gpt-4.1"
    );
    let painter = model("gpt-image-1", vec![ModelRole::ImageGeneration]);
    assert_eq!(
        adapter.build_generate_endpoint(&p, &painter, false, &request(vec![])).unwrap(),
        "https://api.openai.com/v1/images/generations?m={model}"
    );
    let both = model("gpt-image-1", vec![ModelRole::Agent, ModelRole::ImageGeneration]);
    assert_eq!(
        adapter.build_generate_endpoint(&p, &both, false, &request(vec![])).unwrap(),
        "https://api.openai.com/v1/chat/completions?m=gpt-image-1"
    );
    assert_eq!(
        adapter
            .build_generate_endpoint(&p, &both, false, &request(vec![ModelModality::Image]))
            .unwrap(),
        "https://api.openai.com/v1/images/generations?m={model}"
    );
}
