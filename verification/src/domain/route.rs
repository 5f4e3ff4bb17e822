//! The outcome of routing a request to an upstream model.

use crate::domain::definition::UpstreamModel;
use crate::domain::provider::ParameterOverrides;
use crate::domain::reasoning::ReasoningLevel;
use vstd::prelude::*;

verus! {

/// An upstream model chosen for a request, with the generation parameters
/// and reasoning level that apply after every layer of overrides.
#[derive(Debug)]
pub struct ResolvedRoute {
    pub upstream_model: UpstreamModel,
    pub final_parameters: ParameterOverrides,
    pub final_reasoning_level: Option<ReasoningLevel>,
}

} // verus!
