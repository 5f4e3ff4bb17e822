//! Checkpointer (context compression) policies attached to models.

use crate::domain::number::{classify_decimal_text, float_text_class};
use crate::text::{
    chars_of, owned, parse_u32, parse_unsigned, push_str, starts_with, string_from_chars,
    strip_prefix, strip_prefix_str, trim, trim_chars,
};
use vstd::prelude::*;

verus! {

#[derive(Debug, Clone, Copy, PartialEq, Eq, Structural)]
pub struct CustomModelCheckpointRetryConfig {
    pub max_retries: u32,
    pub initial_sleep_duration_ms: u32,
    pub exponential_multiplier: u32,
    pub include_error_feedback: bool,
}

impl CustomModelCheckpointRetryConfig {
    pub open spec fn spec_default() -> Self {
        CustomModelCheckpointRetryConfig {
            max_retries: 0,
            initial_sleep_duration_ms: 1_000,
            exponential_multiplier: 2,
            include_error_feedback: false,
        }
    }
}

impl Default for CustomModelCheckpointRetryConfig {
    fn default() -> (r: Self)
        ensures
            r == Self::spec_default(),
    {
        CustomModelCheckpointRetryConfig {
            max_retries: 0,
            initial_sleep_duration_ms: 1_000,
            exponential_multiplier: 2,
            include_error_feedback: false,
        }
    }
}

#[derive(Debug)]
pub struct ModelCompressionPolicy {
    pub enabled: bool,
    pub checkpoint_model: String,
    pub strategy: String,
    pub max_overhead_ratio: String,
    pub moving_window_size: String,
    pub use_last_planner_model: bool,
    pub is_sync: bool,
    pub max_user_requests: u32,
    pub include_last_user_message: bool,
    pub include_conversation_log: bool,
    pub include_running_task_snapshots: bool,
    pub include_subagent_snapshots: bool,
    pub include_artifact_snapshots: bool,
    pub retry_config: CustomModelCheckpointRetryConfig,
    pub token_threshold: u32,
    pub max_token_limit: u32,
    pub max_output_tokens: u32,
}

/// Two policies agree on everything but the three token limits.
pub open spec fn same_settings(a: ModelCompressionPolicy, b: ModelCompressionPolicy) -> bool {
    &&& a.enabled == b.enabled
    &&& a.checkpoint_model@ == b.checkpoint_model@
    &&& a.strategy@ == b.strategy@
    &&& a.max_overhead_ratio@ == b.max_overhead_ratio@
    &&& a.moving_window_size@ == b.moving_window_size@
    &&& a.use_last_planner_model == b.use_last_planner_model
    &&& a.is_sync == b.is_sync
    &&& a.max_user_requests == b.max_user_requests
    &&& a.include_last_user_message == b.include_last_user_message
    &&& a.include_conversation_log == b.include_conversation_log
    &&& a.include_running_task_snapshots == b.include_running_task_snapshots
    &&& a.include_subagent_snapshots == b.include_subagent_snapshots
    &&& a.include_artifact_snapshots == b.include_artifact_snapshots
    &&& a.retry_config == b.retry_config
}

pub open spec fn min_u32(a: u32, b: u32) -> u32 {
    if a <= b {
        a
    } else {
        b
    }
}

/// The token limits `(token_threshold, max_token_limit, max_output_tokens)` a
/// policy takes on a model of the given capacity and output limit, or `None`
/// where the policy cannot fit.
pub open spec fn resolved_limits(
    threshold: u32,
    limit: u32,
    output: u32,
    capacity: Option<u32>,
    output_limit: Option<u32>,
) -> Option<(u32, u32, u32)> {
    let cap = match capacity {
        Some(c) => c,
        None => limit,
    };
    let out = match output_limit {
        Some(o) => o,
        None => output,
    };
    if cap < 2 || out == 0 {
        None
    } else {
        let max_token_limit = min_u32(limit, cap);
        if max_token_limit < 2 {
            None
        } else {
            let max_output_tokens = min_u32(min_u32(output, out), (max_token_limit - 1) as u32);
            if max_output_tokens == 0 {
                None
            } else {
                let token_threshold = min_u32(threshold, (max_token_limit - max_output_tokens) as u32);
                if token_threshold == 0 {
                    None
                } else {
                    Some((token_threshold, max_token_limit, max_output_tokens))
                }
            }
        }
    }
}

/// Token limits the Checkpointer accepts.
pub open spec fn valid_token_limits(threshold: u32, limit: u32, output: u32) -> bool {
    &&& threshold > 0 && limit > 0 && output > 0
    &&& threshold < limit
    &&& output < limit
    &&& threshold + output <= limit
}

/// Worker model identifiers: `MODEL_PLACEHOLDER_M<number>`, outside the
/// slots `M400`..`M599` that hold user-defined models.
pub open spec fn valid_checkpoint_model(value: Seq<char>) -> bool {
    match strip_prefix(value, "MODEL_PLACEHOLDER_M"@) {
        Some(number) => match parse_unsigned(number, 0xffff_ffff) {
            Some(n) => !(400 <= n && n <= 599),
            None => false,
        },
        None => false,
    }
}

/// The first problem `validate` reports for a policy, as message text after the scope.
pub open spec fn policy_problem(p: ModelCompressionPolicy) -> Option<Seq<char>> {
    if !valid_checkpoint_model(p.checkpoint_model@) {
        Some(" checkpoint_model must match MODEL_PLACEHOLDER_M<number>"@)
    } else if trim(p.strategy@).len() == 0 {
        Some(" strategy cannot be empty"@)
    } else if number_problem("max_overhead_ratio"@, p.max_overhead_ratio@) is Some {
        number_problem("max_overhead_ratio"@, p.max_overhead_ratio@)
    } else if number_problem("moving_window_size"@, p.moving_window_size@) is Some {
        number_problem("moving_window_size"@, p.moving_window_size@)
    } else {
        token_limit_problem(p.token_threshold, p.max_token_limit, p.max_output_tokens)
    }
}

pub open spec fn number_problem(name: Seq<char>, value: Seq<char>) -> Option<Seq<char>> {
    match float_text_class(value) {
        None => Some(" "@ + name + " must be numeric"@),
        Some(ok) => if ok {
            None
        } else {
            Some(" "@ + name + " must be finite and non-negative"@)
        },
    }
}

pub open spec fn token_limit_problem(threshold: u32, limit: u32, output: u32) -> Option<Seq<char>> {
    if threshold == 0 || limit == 0 || output == 0 {
        Some(" token limits must be greater than 0"@)
    } else if threshold >= limit {
        Some(" token_threshold must be less than max_token_limit"@)
    } else if output >= limit {
        Some(" max_output_tokens must be less than max_token_limit"@)
    } else if threshold + output > limit {
        Some(" token_threshold plus max_output_tokens must not exceed max_token_limit"@)
    } else {
        None
    }
}

impl ModelCompressionPolicy {
    pub open spec fn spec_limits(self) -> (u32, u32, u32) {
        (self.token_threshold, self.max_token_limit, self.max_output_tokens)
    }

    pub open spec fn is_default(self) -> bool {
        &&& self.enabled
        &&& self.checkpoint_model@ == "MODEL_PLACEHOLDER_M71"@
        &&& self.strategy@ == "CHECKPOINT_STRATEGY_UNSPECIFIED"@
        &&& self.max_overhead_ratio@ == "0.30"@
        &&& self.moving_window_size@ == "1"@
        &&& !self.use_last_planner_model
        &&& !self.is_sync
        &&& self.max_user_requests == 10
        &&& !self.include_last_user_message
        &&& self.include_conversation_log
        &&& self.include_running_task_snapshots
        &&& self.include_subagent_snapshots
        &&& self.include_artifact_snapshots
        &&& self.retry_config == CustomModelCheckpointRetryConfig::spec_default()
        &&& self.token_threshold == 50_000
        &&& self.max_token_limit == 128_000
        &&& self.max_output_tokens == 16_384
    }

    /// A copy of this policy with the given token limits.
    pub fn with_limits(&self, threshold: u32, limit: u32, output: u32) -> (r: Self)
        ensures
            same_settings(r, *self),
            r.spec_limits() == (threshold, limit, output),
    {
        ModelCompressionPolicy {
            enabled: self.enabled,
            checkpoint_model: self.checkpoint_model.clone(),
            strategy: self.strategy.clone(),
            max_overhead_ratio: self.max_overhead_ratio.clone(),
            moving_window_size: self.moving_window_size.clone(),
            use_last_planner_model: self.use_last_planner_model,
            is_sync: self.is_sync,
            max_user_requests: self.max_user_requests,
            include_last_user_message: self.include_last_user_message,
            include_conversation_log: self.include_conversation_log,
            include_running_task_snapshots: self.include_running_task_snapshots,
            include_subagent_snapshots: self.include_subagent_snapshots,
            include_artifact_snapshots: self.include_artifact_snapshots,
            retry_config: self.retry_config,
            token_threshold: threshold,
            max_token_limit: limit,
            max_output_tokens: output,
        }
    }

    /// A copy of this policy.
    pub fn duplicate(&self) -> (r: Self)
        ensures
            same_settings(r, *self),
            r.spec_limits() == self.spec_limits(),
    {
        self.with_limits(self.token_threshold, self.max_token_limit, self.max_output_tokens)
    }

    /// Fits the policy to a model: the limit is capped by `capacity`, the
    /// output by `output_token_limit` and by the limit, the threshold by what
    /// the output leaves. `None` where nothing usable remains.
    pub fn resolve_effective(&self, capacity: Option<u32>, output_token_limit: Option<u32>) -> (r:
        Option<Self>)
        ensures
            r is Some <==> resolved_limits(
                self.token_threshold,
                self.max_token_limit,
                self.max_output_tokens,
                capacity,
                output_token_limit,
            ) is Some,
            r matches Some(p) ==> same_settings(p, *self) && Some(p.spec_limits())
                == resolved_limits(
                self.token_threshold,
                self.max_token_limit,
                self.max_output_tokens,
                capacity,
                output_token_limit,
            ),
    {
        let capacity = match capacity {
            Some(c) => c,
            None => self.max_token_limit,
        };
        let output_token_limit = match output_token_limit {
            Some(o) => o,
            None => self.max_output_tokens,
        };
        if capacity < 2 || output_token_limit == 0 {
            return None;
        }
        let max_token_limit = if self.max_token_limit <= capacity {
            self.max_token_limit
        } else {
            capacity
        };
        if max_token_limit < 2 {
            return None;
        }
        let a = if self.max_output_tokens <= output_token_limit {
            self.max_output_tokens
        } else {
            output_token_limit
        };
        let max_output_tokens = if a <= max_token_limit - 1 {
            a
        } else {
            max_token_limit - 1
        };
        if max_output_tokens == 0 {
            return None;
        }
        let room = max_token_limit - max_output_tokens;
        let token_threshold = if self.token_threshold <= room {
            self.token_threshold
        } else {
            room
        };
        if token_threshold == 0 {
            return None;
        }
        Some(self.with_limits(token_threshold, max_token_limit, max_output_tokens))
    }

    /// Checks the policy; the error text is `scope` followed by the first problem found.
    pub fn validate(&self, scope: &str) -> (r: Result<(), String>)
        ensures
            r is Ok <==> policy_problem(*self) is None,
            r matches Err(m) ==> policy_problem(*self) matches Some(p) && m@ == scope@ + p,
    {
        if !is_valid_checkpoint_model(self.checkpoint_model.as_str()) {
            return Err(scoped(scope, " checkpoint_model must match MODEL_PLACEHOLDER_M<number>"));
        }
        let strategy = chars_of(self.strategy.as_str());
        let trimmed = trim_chars(strategy.as_slice());
        if trimmed.len() == 0 {
            return Err(scoped(scope, " strategy cannot be empty"));
        }
        match validate_non_negative_number(scope, "max_overhead_ratio", self.max_overhead_ratio.as_str()) {
            Ok(()) => {},
            Err(m) => {
                return Err(m);
            },
        }
        match validate_non_negative_number(scope, "moving_window_size", self.moving_window_size.as_str()) {
            Ok(()) => {},
            Err(m) => {
                return Err(m);
            },
        }
        validate_token_limits(scope, self.token_threshold, self.max_token_limit, self.max_output_tokens)
    }
}

impl Default for ModelCompressionPolicy {
    fn default() -> (r: Self)
        ensures
            r.is_default(),
    {
        ModelCompressionPolicy {
            enabled: true,
            checkpoint_model: owned("MODEL_PLACEHOLDER_M71"),
            strategy: owned("CHECKPOINT_STRATEGY_UNSPECIFIED"),
            max_overhead_ratio: owned("0.30"),
            moving_window_size: owned("1"),
            use_last_planner_model: false,
            is_sync: false,
            max_user_requests: 10,
            include_last_user_message: false,
            include_conversation_log: true,
            include_running_task_snapshots: true,
            include_subagent_snapshots: true,
            include_artifact_snapshots: true,
            retry_config: CustomModelCheckpointRetryConfig::default(),
            token_threshold: 50_000,
            max_token_limit: 128_000,
            max_output_tokens: 16_384,
        }
    }
}

fn scoped(scope: &str, message: &str) -> (r: String)
    ensures
        r@ == scope@ + message@,
{
    crate::text::concat2(scope, message)
}

pub fn is_valid_checkpoint_model(value: &str) -> (r: bool)
    ensures
        r == valid_checkpoint_model(value@),
{
    let v = chars_of(value);
    match strip_prefix_str(v.as_slice(), "MODEL_PLACEHOLDER_M") {
        Some(number) => match parse_u32(number.as_slice()) {
            Some(n) => !(400 <= n && n <= 599),
            None => false,
        },
        None => false,
    }
}

pub fn validate_token_limits(scope: &str, token_threshold: u32, max_token_limit: u32, max_output_tokens: u32) -> (r: Result<(), String>)
    ensures
        r is Ok <==> token_limit_problem(token_threshold, max_token_limit, max_output_tokens) is None,
        r matches Err(m) ==> token_limit_problem(token_threshold, max_token_limit, max_output_tokens) matches Some(p) && m@ == scope@ + p,
{
    if token_threshold == 0 || max_token_limit == 0 || max_output_tokens == 0 {
        return Err(scoped(scope, " token limits must be greater than 0"));
    }
    if token_threshold >= max_token_limit {
        return Err(scoped(scope, " token_threshold must be less than max_token_limit"));
    }
    if max_output_tokens >= max_token_limit {
        return Err(scoped(scope, " max_output_tokens must be less than max_token_limit"));
    }
    if token_threshold as u64 + max_output_tokens as u64 > max_token_limit as u64 {
        return Err(scoped(scope, " token_threshold plus max_output_tokens must not exceed max_token_limit"));
    }
    Ok(())
}

pub fn validate_non_negative_number(scope: &str, name: &str, value: &str) -> (r: Result<(), String>)
    ensures
        r is Ok <==> number_problem(name@, value@) is None,
        r matches Err(m) ==> number_problem(name@, value@) matches Some(p) && m@ == scope@ + p,
{
    let v = chars_of(value);
    let class = classify_decimal_text(v.as_slice());
    let mut buf: Vec<char> = Vec::new();
    push_str(&mut buf, scope);
    push_str(&mut buf, " ");
    push_str(&mut buf, name);
    match class {
        None => {
            push_str(&mut buf, " must be numeric");
            assert(buf@ =~= scope@ + (" "@ + name@ + " must be numeric"@));
            Err(string_from_chars(buf.as_slice()))
        },
        Some(ok) => {
            if ok {
                Ok(())
            } else {
                push_str(&mut buf, " must be finite and non-negative");
                assert(buf@ =~= scope@ + (" "@ + name@ + " must be finite and non-negative"@));
                Err(string_from_chars(buf.as_slice()))
            }
        },
    }
}

/// Laws of `resolve_effective`.
///
/// Whatever policy and model limits it is given, a resolved policy has
/// token limits the Checkpointer accepts, never exceeds the model's capacity
/// or output limit, and resolving it again against the same limits changes
/// nothing.
pub proof fn lemma_resolved_limits_are_valid(
    threshold: u32,
    limit: u32,
    output: u32,
    capacity: Option<u32>,
    output_limit: Option<u32>,
)
    ensures
        resolved_limits(threshold, limit, output, capacity, output_limit) matches Some(
            (t, l, o),
        ) ==> {
            &&& valid_token_limits(t, l, o)
            &&& token_limit_problem(t, l, o) is None
            &&& l <= limit && o <= output && t <= threshold
            &&& capacity matches Some(c) ==> l <= c
            &&& output_limit matches Some(m) ==> o <= m
            &&& resolved_limits(t, l, o, capacity, output_limit) == Some((t, l, o))
            &&& resolved_limits(t, l, o, None, None) == Some((t, l, o))
        },
{
}

} // verus!
