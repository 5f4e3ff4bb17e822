//! Model catalogs of upstream providers and of the official host.

pub mod fetch;
pub mod official;
pub mod parser;
pub mod reasoning;

pub use crate::providers::catalog::official::{
    parse_language_server_processes, parse_listening_ports, LanguageServerProcess,
    OfficialCatalogSource,
};
use crate::domain::checkpoint::ModelCompressionPolicy;
use crate::domain::reasoning::{levels_map, levels_wf, Mapping, ReasoningLevel, ReasoningMapping};
use crate::providers::catalog::reasoning::levels_sorted;
use crate::json::JsonValue;
use vstd::prelude::*;

verus! {

/// Reasoning metadata a catalog states for a model.
#[derive(Debug)]
pub struct ProviderCatalogReasoning {
    pub supported: Option<bool>,
    /// Levels the model offers, in level order.
    pub levels: Vec<ReasoningLevel>,
    /// Mapping of each level, in level order.
    pub mappings: Vec<(ReasoningLevel, ReasoningMapping)>,
    /// Default thinking budget (`-1` for dynamic, `0` for disabled).
    pub thinking_budget: Option<i64>,
    pub min_thinking_budget: Option<i64>,
}

impl ProviderCatalogReasoning {
    pub open spec fn wf(&self) -> bool {
        levels_sorted(self.levels@) && levels_wf(self.mappings@)
    }

    pub open spec fn level_set(&self) -> Set<ReasoningLevel> {
        self.levels@.to_set()
    }

    pub open spec fn mapping_map(&self) -> Map<ReasoningLevel, Mapping> {
        levels_map(self.mappings@)
    }
}

/// The checkpointer policy an upstream catalog states for a model.
#[derive(Debug)]
pub struct UpstreamCompressionPolicy {
    pub enabled: bool,
    pub token_threshold: u32,
    pub max_token_limit: u32,
    pub max_output_tokens: Option<u32>,
    pub checkpoint_model: Option<String>,
    pub use_last_planner_model: Option<bool>,
}

/// One model of a provider's catalog.
#[derive(Debug)]
pub struct ProviderCatalogModel {
    pub id: String,
    pub display_name: String,
    pub context_window: Option<u32>,
    pub max_context_window: Option<u32>,
    pub context_length: Option<u32>,
    pub auto_compact_token_limit: Option<u32>,
    pub input_token_limit: Option<u32>,
    pub output_token_limit: Option<u32>,
    pub max_tokens: Option<u32>,
    pub token_budget: Option<u32>,
    pub capabilities: Option<JsonValue>,
    /// Accepted input MIME types, sorted, each once.
    pub supported_mime_types: Option<Vec<String>>,
    pub supports_images: Option<bool>,
    pub supports_video: Option<bool>,
    pub thinking: Option<JsonValue>,
    pub reasoning: Option<ProviderCatalogReasoning>,
    pub upstream_compression: Option<UpstreamCompressionPolicy>,
    pub default_compression_policy: Option<ModelCompressionPolicy>,
}

} // verus!
