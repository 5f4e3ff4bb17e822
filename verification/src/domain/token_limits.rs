//! Token limits of an upstream model and where each came from.

use vstd::prelude::*;

verus! {

#[derive(Debug, Clone, Copy, PartialEq, Eq, Structural)]
pub enum TokenLimitSource {
    Catalog,
    Configured,
    Estimated,
    Unknown,
}

impl Default for TokenLimitSource {
    fn default() -> (r: Self)
        ensures
            r == TokenLimitSource::Unknown,
    {
        TokenLimitSource::Unknown
    }
}

/// A limit stated by a catalog or by the user, as opposed to an estimate.
pub open spec fn is_trusted_source(s: TokenLimitSource) -> bool {
    s == TokenLimitSource::Catalog || s == TokenLimitSource::Configured
}

#[derive(Debug, Clone, Copy, PartialEq, Eq, Structural)]
pub struct ModelTokenLimits {
    /// The model's context window, independent of the input limit.
    pub context_window: Option<u32>,
    pub context_window_source: TokenLimitSource,
    /// Largest input the model accepts.
    pub input_token_limit: Option<u32>,
    pub input_token_limit_source: TokenLimitSource,
    /// Largest output the model produces.
    pub output_token_limit: Option<u32>,
    pub output_token_limit_source: TokenLimitSource,
}

impl Default for ModelTokenLimits {
    fn default() -> (r: Self)
        ensures
            r.context_window is None && r.input_token_limit is None && r.output_token_limit is None,
            r.context_window_source == TokenLimitSource::Unknown,
            r.input_token_limit_source == TokenLimitSource::Unknown,
            r.output_token_limit_source == TokenLimitSource::Unknown,
    {
        ModelTokenLimits {
            context_window: None,
            context_window_source: TokenLimitSource::Unknown,
            input_token_limit: None,
            input_token_limit_source: TokenLimitSource::Unknown,
            output_token_limit: None,
            output_token_limit_source: TokenLimitSource::Unknown,
        }
    }
}

pub open spec fn or_default(v: Option<u32>, d: u32) -> u32 {
    match v {
        Some(x) => x,
        None => d,
    }
}

/// The first problem `validate` reports, if any.
pub open spec fn limits_problem(l: ModelTokenLimits) -> Option<Seq<char>> {
    if l.context_window == Some(0u32) {
        Some("context_window must be greater than 0"@)
    } else if l.context_window matches Some(v) && v < 2 {
        Some("context_window must be at least 2 for Checkpointer"@)
    } else if l.input_token_limit == Some(0u32) {
        Some("input_token_limit must be greater than 0"@)
    } else if l.input_token_limit matches Some(v) && v < 2 {
        Some("input_token_limit must be at least 2 for Checkpointer"@)
    } else if l.output_token_limit == Some(0u32) {
        Some("output_token_limit must be greater than 0"@)
    } else {
        None
    }
}

impl ModelTokenLimits {
    /// The capacity the Checkpointer may fill: the smaller of the context
    /// window and the input limit, except that an estimated context window
    /// gives way to an input limit stated by a catalog or the user.
    pub open spec fn spec_compression_capacity(self, default_context_window: u32, default_input_token_limit: u32) -> u32 {
        let cw = or_default(self.context_window, default_context_window);
        let il = or_default(self.input_token_limit, default_input_token_limit);
        if self.context_window_source == TokenLimitSource::Estimated && is_trusted_source(
            self.input_token_limit_source,
        ) {
            il
        } else if cw <= il {
            cw
        } else {
            il
        }
    }

    pub fn effective_compression_capacity(&self, default_context_window: u32, default_input_token_limit: u32) -> (r: u32)
        ensures
            r == self.spec_compression_capacity(default_context_window, default_input_token_limit),
            r <= or_default(self.input_token_limit, default_input_token_limit),
            !(self.context_window_source == TokenLimitSource::Estimated && is_trusted_source(
                self.input_token_limit_source,
            )) ==> r <= or_default(self.context_window, default_context_window),
    {
        let context_window = match self.context_window {
            Some(v) => v,
            None => default_context_window,
        };
        let input_token_limit = match self.input_token_limit {
            Some(v) => v,
            None => default_input_token_limit,
        };
        let trusted_input = match self.input_token_limit_source {
            TokenLimitSource::Catalog | TokenLimitSource::Configured => true,
            _ => false,
        };
        if self.context_window_source == TokenLimitSource::Estimated && trusted_input {
            input_token_limit
        } else if context_window <= input_token_limit {
            context_window
        } else {
            input_token_limit
        }
    }

    pub fn validate(&self) -> (r: Result<(), &'static str>)
        ensures
            r is Ok <==> limits_problem(*self) is None,
            r matches Err(m) ==> limits_problem(*self) == Some(m@),
    {
        if self.context_window == Some(0u32) {
            return Err("context_window must be greater than 0");
        }
        if let Some(v) = self.context_window {
            if v < 2 {
                return Err("context_window must be at least 2 for Checkpointer");
            }
        }
        if self.input_token_limit == Some(0u32) {
            return Err("input_token_limit must be greater than 0");
        }
        if let Some(v) = self.input_token_limit {
            if v < 2 {
                return Err("input_token_limit must be at least 2 for Checkpointer");
            }
        }
        if self.output_token_limit == Some(0u32) {
            return Err("output_token_limit must be greater than 0");
        }
        Ok(())
    }
}

/// Law: the compression capacity never exceeds the input limit in effect.
pub proof fn lemma_capacity_within_input_limit(l: ModelTokenLimits, dcw: u32, dil: u32)
    ensures
        l.spec_compression_capacity(dcw, dil) <= or_default(l.input_token_limit, dil),
        l.spec_compression_capacity(dcw, dil) == or_default(l.input_token_limit, dil)
            || l.spec_compression_capacity(dcw, dil) == or_default(l.context_window, dcw),
{
}

/// Law: the compression capacity is the smaller of the context window and
/// the input limit in effect, except that an estimated context window gives
/// way to an input limit stated by a catalog or the user, which is then the
/// capacity.
pub proof fn lemma_capacity_is_smaller_limit(l: ModelTokenLimits, dcw: u32, dil: u32)
    ensures
        ({
            let cap = l.spec_compression_capacity(dcw, dil);
            let cw = or_default(l.context_window, dcw);
            let il = or_default(l.input_token_limit, dil);
            let defers = l.context_window_source == TokenLimitSource::Estimated && (l.input_token_limit_source
                == TokenLimitSource::Catalog || l.input_token_limit_source == TokenLimitSource::Configured);
            &&& defers ==> cap == il
            &&& !defers ==> (cap <= cw && cap <= il && (cap == cw || cap == il))
        }),
{
}

} // verus!
