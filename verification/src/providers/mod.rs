//! Upstream provider protocols.

pub mod anthropic;
pub mod catalog;
pub mod error;
pub mod gemini;
pub mod openai;
pub mod openai_responses;
pub mod schema;

use crate::domain::definition::{contains_modality, ModelModality, ModelRole, UpstreamModel};
use crate::domain::provider::{pairs_view, Provider, ProviderProtocol};
use crate::domain::request::NeutralChatRequest;
use vstd::prelude::*;

verus! {

/// Whether a request asks for image generation: the model must have the
/// image-generation role, and then either the request wants image output or
/// the model is not also an agent model.
pub open spec fn spec_is_image_generation(model: UpstreamModel, request: NeutralChatRequest) -> bool {
    let roles = model.capabilities.roles@;
    roles.contains(ModelRole::ImageGeneration) && (request.output_modalities@.contains(ModelModality::Image)
        || !roles.contains(ModelRole::Agent))
}

pub fn is_image_generation_request(upstream_model: &UpstreamModel, request: &NeutralChatRequest) -> (r: bool)
    ensures
        r == spec_is_image_generation(*upstream_model, *request),
{
    let caps = &upstream_model.capabilities;
    if !caps.has_role(ModelRole::ImageGeneration) {
        return false;
    }
    let wants_image = contains_modality(&request.output_modalities, ModelModality::Image);
    let is_agent = caps.has_role(ModelRole::Agent);
    if wants_image {
        return true;
    }
    if !is_agent {
        return true;
    }
    false
}

/// The request headers a provider's protocol sends (both OpenAI protocols
/// send the same ones).
pub open spec fn protocol_headers(p: Provider) -> Seq<(Seq<char>, Seq<char>)> {
    match p.protocol {
        ProviderProtocol::AnthropicMessages => anthropic::request::anthropic_headers(p),
        ProviderProtocol::GeminiGenerateContent => gemini::request::gemini_headers(p),
        _ => openai::request::openai_headers(p),
    }
}

/// The adapter of each upstream protocol.
pub enum Adapter {
    OpenAI(openai::OpenAIAdapter),
    Anthropic(anthropic::AnthropicAdapter),
    Gemini(gemini::GeminiAdapter),
    OpenAIResponses(openai_responses::OpenAIResponsesAdapter),
}

/// The adapter that speaks `protocol`.
pub fn get_adapter(protocol: ProviderProtocol) -> (r: Adapter)
    ensures
        match protocol {
            ProviderProtocol::OpenaiChatCompletions => r is OpenAI,
            ProviderProtocol::AnthropicMessages => r is Anthropic,
            ProviderProtocol::GeminiGenerateContent => r is Gemini,
            ProviderProtocol::OpenaiResponses => r is OpenAIResponses,
        },
{
    match protocol {
        ProviderProtocol::OpenaiChatCompletions => Adapter::OpenAI(openai::OpenAIAdapter::new()),
        ProviderProtocol::AnthropicMessages => Adapter::Anthropic(anthropic::AnthropicAdapter::new()),
        ProviderProtocol::GeminiGenerateContent => Adapter::Gemini(gemini::GeminiAdapter::new()),
        ProviderProtocol::OpenaiResponses => Adapter::OpenAIResponses(openai_responses::OpenAIResponsesAdapter::new()),
    }
}

/// The request headers of `provider`, built by the adapter of its protocol.
pub fn build_provider_headers(provider: &Provider) -> (r: Vec<(String, String)>)
    ensures
        pairs_view(r@) == protocol_headers(*provider),
{
    match get_adapter(provider.protocol) {
        Adapter::OpenAI(a) => a.build_headers(provider),
        Adapter::Anthropic(a) => a.build_headers(provider),
        Adapter::Gemini(a) => a.build_headers(provider),
        Adapter::OpenAIResponses(a) => a.build_headers(provider),
    }
}

} // verus!
