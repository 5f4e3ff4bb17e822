//! Application configuration and its validation.
//!
//! `AppConfig::validate` checks a configuration in a fixed order and reports
//! the first problem it finds; `config_fault` states that order and each
//! problem's text.

use crate::domain::checkpoint::{policy_problem, ModelCompressionPolicy};
use crate::domain::definition::{
    normalized_mime, spec_inline_image_mime, is_supported_inline_image_mime_type, ModelModality,
    UpstreamModel, VirtualModel,
};
use crate::domain::number::{
    float_text_class, float_text_in_unit_interval, lead_count, lemma_lead_count, parses_finite_non_negative,
    parses_unit_interval,
};
use crate::domain::provider::{protocol_debug, spec_protocol_debug, ParameterOverrides, Provider, ProviderProtocol};
use crate::domain::reasoning::{level_debug, levels_get, spec_level_debug, Mapping, ReasoningMapping, ReasoningLevel};
use crate::domain::token_limits::limits_problem;
use crate::json::{num_view, JsonNum, JsonNumber};
use crate::url::{parse_route, url_route};
use crate::text::{
    all_digits, chars_of, contains, debug_quoted, debug_str, decimal, digit_value, digits_value, eq_ignore_case,
    push_decimal, push_str, starts_with, string_from_chars, strip_prefix, trim,
};
use vstd::prelude::*;

verus! {

pub const DEFAULT_PROXY_PORT: u16 = 12345;

pub const MIN_PROXY_PORT: u16 = 1024;

/// A configuration problem.
#[derive(Debug, Clone, PartialEq, Eq)]
pub enum ConfigError {
    InvalidValue(String),
    DuplicateId { kind: &'static str, id: String },
    MissingReference {
        owner_kind: &'static str,
        owner_id: String,
        target_kind: &'static str,
        target_id: String,
    },
    IdentifierConflict { model_id: String, existing_model_id: String, identifier: String },
    UnsupportedReasoning { model_id: String, level: String },
}

/// Mathematical form of a configuration problem.
pub enum ConfigFault {
    Invalid(Seq<char>),
    Duplicate { kind: Seq<char>, id: Seq<char> },
    Missing { owner_kind: Seq<char>, owner_id: Seq<char>, target_kind: Seq<char>, target_id: Seq<char> },
    Conflict { model_id: Seq<char>, existing_model_id: Seq<char>, identifier: Seq<char> },
    Unsupported { model_id: Seq<char>, level: Seq<char> },
}

impl View for ConfigError {
    type V = ConfigFault;

    open spec fn view(&self) -> ConfigFault {
        match self {
            ConfigError::InvalidValue(m) => ConfigFault::Invalid(m@),
            ConfigError::DuplicateId { kind, id } => ConfigFault::Duplicate { kind: kind@, id: id@ },
            ConfigError::MissingReference { owner_kind, owner_id, target_kind, target_id } => ConfigFault::Missing {
                owner_kind: owner_kind@,
                owner_id: owner_id@,
                target_kind: target_kind@,
                target_id: target_id@,
            },
            ConfigError::IdentifierConflict { model_id, existing_model_id, identifier } => ConfigFault::Conflict {
                model_id: model_id@,
                existing_model_id: existing_model_id@,
                identifier: identifier@,
            },
            ConfigError::UnsupportedReasoning { model_id, level } => ConfigFault::Unsupported {
                model_id: model_id@,
                level: level@,
            },
        }
    }
}

/// The text of a problem, as it is shown to the user.
pub open spec fn fault_text(f: ConfigFault) -> Seq<char> {
    match f {
        ConfigFault::Invalid(m) => m,
        ConfigFault::Duplicate { kind, id } => "Duplicate "@ + kind + " ID: "@ + id,
        ConfigFault::Missing { owner_kind, owner_id, target_kind, target_id } => owner_kind + " "@ + owner_id
            + " references missing "@ + target_kind + " "@ + target_id,
        ConfigFault::Conflict { model_id, existing_model_id, identifier } => "VirtualModel "@ + model_id
            + " identifier conflicts with VirtualModel "@ + existing_model_id + ": "@ + identifier,
        ConfigFault::Unsupported { model_id, level } => "VirtualModel "@ + model_id
            + " uses unsupported reasoning level "@ + level,
    }
}

impl ConfigError {
    /// The problem as text.
    pub fn describe(&self) -> (r: String)
        ensures
            r@ == fault_text(self@),
    {
        let mut b: Vec<char> = Vec::new();
        match self {
            ConfigError::InvalidValue(m) => {
                push_str(&mut b, m.as_str());
            },
            ConfigError::DuplicateId { kind, id } => {
                push_str(&mut b, "Duplicate ");
                push_str(&mut b, kind);
                push_str(&mut b, " ID: ");
                push_str(&mut b, id.as_str());
            },
            ConfigError::MissingReference { owner_kind, owner_id, target_kind, target_id } => {
                push_str(&mut b, owner_kind);
                push_str(&mut b, " ");
                push_str(&mut b, owner_id.as_str());
                push_str(&mut b, " references missing ");
                push_str(&mut b, target_kind);
                push_str(&mut b, " ");
                push_str(&mut b, target_id.as_str());
            },
            ConfigError::IdentifierConflict { model_id, existing_model_id, identifier } => {
                push_str(&mut b, "VirtualModel ");
                push_str(&mut b, model_id.as_str());
                push_str(&mut b, " identifier conflicts with VirtualModel ");
                push_str(&mut b, existing_model_id.as_str());
                push_str(&mut b, ": ");
                push_str(&mut b, identifier.as_str());
            },
            ConfigError::UnsupportedReasoning { model_id, level } => {
                push_str(&mut b, "VirtualModel ");
                push_str(&mut b, model_id.as_str());
                push_str(&mut b, " uses unsupported reasoning level ");
                push_str(&mut b, level.as_str());
            },
        }
        proof {
            assert(b@ =~= fault_text(self@));
        }
        string_from_chars(b.as_slice())
    }
}

/// Where the two applications the proxy configures are installed, where
/// they are not in their default place.
#[derive(Debug, Clone)]
pub struct CustomHostPaths {
    pub app: Option<String>,
    pub ide: Option<String>,
}

impl Default for CustomHostPaths {
    fn default() -> (r: Self)
        ensures
            r.app is None && r.ide is None,
    {
        CustomHostPaths { app: None, ide: None }
    }
}

/// The whole configuration of the proxy.
#[derive(Debug)]
pub struct AppConfig {
    pub proxy_port: u16,
    pub providers: Vec<Provider>,
    pub upstream_models: Vec<UpstreamModel>,
    pub virtual_models: Vec<VirtualModel>,
    /// Compression policy per model ID, in ascending key order.
    pub model_compression_policies: Vec<(String, ModelCompressionPolicy)>,
    /// Official models hidden from the host catalog (a set).
    pub disabled_official_models: Vec<String>,
    pub custom_host_paths: CustomHostPaths,
}

impl Default for AppConfig {
    fn default() -> (r: Self)
        ensures
            r.proxy_port == DEFAULT_PROXY_PORT,
            r.providers@.len() == 0,
            r.upstream_models@.len() == 0,
            r.virtual_models@.len() == 0,
            r.model_compression_policies@.len() == 0,
            r.disabled_official_models@.len() == 0,
            r.custom_host_paths.app is None && r.custom_host_paths.ide is None,
    {
        AppConfig {
            proxy_port: DEFAULT_PROXY_PORT,
            providers: Vec::new(),
            upstream_models: Vec::new(),
            virtual_models: Vec::new(),
            model_compression_policies: Vec::new(),
            disabled_official_models: Vec::new(),
            custom_host_paths: CustomHostPaths::default(),
        }
    }
}

// ---------------------------------------------------------------------------
// The problems, in the order they are checked.
// ---------------------------------------------------------------------------

/// The first of two checks that finds a problem.
pub open spec fn or_fault(a: Option<ConfigFault>, b: Option<ConfigFault>) -> Option<ConfigFault> {
    if a is Some {
        a
    } else {
        b
    }
}

/// The first problem among checks `0..n` of a sequence of checks.
pub open spec fn first_fault(f: spec_fn(int) -> Option<ConfigFault>, n: nat) -> Option<ConfigFault>
    decreases n,
{
    if n == 0 {
        None
    } else {
        or_fault(first_fault(f, (n - 1) as nat), f(n - 1))
    }
}

/// Once a problem is found, later checks do not change it.
pub proof fn lemma_first_fault_stable(f: spec_fn(int) -> Option<ConfigFault>, k: nat, n: nat)
    requires
        k <= n,
        first_fault(f, k) is Some,
    ensures
        first_fault(f, n) == first_fault(f, k),
    decreases n - k,
{
    if k < n {
        lemma_first_fault_stable(f, k, (n - 1) as nat);
    }
}

pub open spec fn invalid(m: Seq<char>) -> Option<ConfigFault> {
    Some(ConfigFault::Invalid(m))
}

/// Whether a result reports exactly the problem `f` (or success where there is none).
pub open spec fn reports(r: Result<(), ConfigError>, f: Option<ConfigFault>) -> bool {
    match r {
        Ok(()) => f is None,
        Err(e) => f == Some(e@),
    }
}

pub open spec fn id_fault(kind: Seq<char>, id: Seq<char>) -> Option<ConfigFault> {
    if trim(id).len() == 0 {
        invalid(kind + " ID cannot be empty"@)
    } else {
        None
    }
}

/// An IPv4 octet as `std` reads it: one to three digits, no leading zero,
/// at most 255.
pub open spec fn octet_text(p: Seq<char>) -> bool {
    &&& 1 <= p.len() <= 3
    &&& all_digits(p)
    &&& (p.len() == 1 || p[0] != '0')
    &&& digits_value(p) <= 255
}

pub open spec fn non_dot_pred() -> spec_fn(char) -> bool {
    |c: char| c != '.'
}

/// `n` octets separated by dots, and nothing else.
pub open spec fn octets_text(r: Seq<char>, n: nat) -> bool
    decreases n,
{
    let k = lead_count(r, non_dot_pred());
    if n <= 1 {
        octet_text(r)
    } else {
        k < r.len() && octet_text(r.take(k as int)) && octets_text(r.skip(k as int + 1), (n - 1) as nat)
    }
}

/// A host that is a loopback address: `localhost` in any case, or an IPv4
/// address in `127.0.0.0/8` written as `std` reads addresses. (An IPv6
/// address comes bracketed from the URL parser, which `IpAddr` does not
/// read, so it never counts.)
pub open spec fn loopback_host(h: Seq<char>) -> bool {
    eq_ignore_case(h, "localhost"@) || ipv4_loopback(h)
}

/// An IPv4 address in `127.0.0.0/8`, written as `std` reads addresses.
pub open spec fn ipv4_loopback(h: Seq<char>) -> bool {
    match strip_prefix(h, "127."@) {
        Some(r) => octets_text(r, 3),
        None => false,
    }
}

pub open spec fn endpoint_fault(label: Seq<char>, endpoint: Seq<char>) -> Option<ConfigFault> {
    if trim(endpoint).len() == 0 {
        invalid(label + " cannot be empty"@)
    } else {
        match url_route(endpoint) {
            Err(e) => invalid(label + " is invalid: "@ + e),
            Ok(u) => if !(u.scheme == "http"@ || u.scheme == "https"@) {
                invalid(label + " must use http or https"@)
            } else if u.username.len() > 0 || u.password is Some {
                invalid(label + " must not contain embedded credentials"@)
            } else if u.fragment is Some {
                invalid(label + " must not contain a URL fragment"@)
            } else if u.scheme == "http"@ {
                match u.host {
                    None => invalid(label + " is missing a host"@),
                    Some(h) => if loopback_host(h) {
                        None
                    } else {
                        invalid(label + " must use https unless it targets loopback"@)
                    },
                }
            } else {
                None
            },
        }
    }
}

/// A temperature the proxy accepts: finite and not negative.
pub open spec fn temperature_ok(n: JsonNum) -> bool {
    match n {
        JsonNum::Unsigned(_) => true,
        JsonNum::Negative(i) => i >= 0,
        JsonNum::Decimal(s) => float_text_class(s) == Some(true),
    }
}

/// A top-p the proxy accepts: between 0 and 1.
pub open spec fn top_p_ok(n: JsonNum) -> bool {
    match n {
        JsonNum::Unsigned(u) => u <= 1,
        JsonNum::Negative(i) => 0 <= i <= 1,
        JsonNum::Decimal(s) => float_text_in_unit_interval(s),
    }
}

pub open spec fn parameters_fault(label: Seq<char>, p: ParameterOverrides) -> Option<ConfigFault> {
    if p.temperature matches Some(t) && !temperature_ok(num_view(t)) {
        invalid(label + " temperature must be finite and non-negative"@)
    } else if p.top_p matches Some(t) && !top_p_ok(num_view(t)) {
        invalid(label + " top_p must be between 0 and 1"@)
    } else if p.max_tokens == Some(0u32) {
        invalid(label + " max_tokens must be greater than 0"@)
    } else if p.top_k == Some(0u32) {
        invalid(label + " top_k must be greater than 0"@)
    } else {
        None
    }
}

/// The problem with the `k`-th input MIME type of a model, given the ones before it.
pub open spec fn mime_entry_fault(m: UpstreamModel, protocol: ProviderProtocol, k: int) -> Option<ConfigFault> {
    let types = m.capabilities.input_mime_types@;
    let raw = types[k]@;
    let n = normalized_mime(raw);
    if n.len() == 0 || !contains(n, "/"@) {
        invalid("UpstreamModel "@ + m.id@ + " has invalid supported MIME type "@ + debug_str(raw))
    } else if exists|j: int| 0 <= j < k && normalized_mime(#[trigger] types[j]@) == n {
        invalid("UpstreamModel "@ + m.id@ + " has duplicate supported MIME type "@ + n)
    } else if protocol != ProviderProtocol::GeminiGenerateContent && !spec_inline_image_mime(n) {
        invalid(
            "UpstreamModel "@ + m.id@ + " cannot use inline MIME type "@ + n + " with provider protocol "@
                + spec_protocol_debug(protocol),
        )
    } else {
        None
    }
}

pub open spec fn mime_check(m: UpstreamModel, protocol: ProviderProtocol) -> spec_fn(int) -> Option<ConfigFault> {
    |k: int| mime_entry_fault(m, protocol, k)
}

/// The first problem among the first `n` input MIME types.
pub open spec fn mime_faults(m: UpstreamModel, protocol: ProviderProtocol, n: nat) -> Option<ConfigFault> {
    first_fault(mime_check(m, protocol), n)
}

pub open spec fn has_image_mime(types: Seq<String>) -> bool {
    exists|k: int| 0 <= k < types.len() && starts_with(normalized_mime(#[trigger] types[k]@), "image/"@)
}

/// Input MIME types must be well formed and distinct, those outside the
/// common inline images need Gemini, and the model takes image input exactly
/// where it lists an image type.
pub open spec fn media_fault(m: UpstreamModel, protocol: ProviderProtocol) -> Option<ConfigFault> {
    or_fault(
        mime_faults(m, protocol, m.capabilities.input_mime_types@.len()),
        if m.capabilities.input_modalities@.contains(ModelModality::Image) != has_image_mime(
            m.capabilities.input_mime_types@,
        ) {
            invalid("UpstreamModel "@ + m.id@ + " vision capability must match its image MIME types"@)
        } else {
            None
        },
    )
}

/// The first thinking budget in a level table below `minimum`.
pub open spec fn budget_below(levels: Seq<(ReasoningLevel, ReasoningMapping)>, minimum: u32) -> Option<u32>
    decreases levels.len(),
{
    if levels.len() == 0 {
        None
    } else {
        match levels[0].1@ {
            Mapping::BudgetTokens(t) => if t < minimum {
                Some(t)
            } else {
                budget_below(levels.drop_first(), minimum)
            },
            _ => budget_below(levels.drop_first(), minimum),
        }
    }
}

pub open spec fn reasoning_fault(m: UpstreamModel, protocol: ProviderProtocol) -> Option<ConfigFault> {
    let r = m.capabilities.reasoning;
    let id = m.id@;
    let has_budget = r.thinking_budget is Some || r.min_thinking_budget is Some;
    if r.thinking_budget matches Some(b) && b < -1 {
        invalid("UpstreamModel "@ + id + " thinking_budget must be -1, 0, or a positive integer"@)
    } else if has_budget && protocol != ProviderProtocol::GeminiGenerateContent {
        invalid("UpstreamModel "@ + id + " can use model-level thinking budgets only with Gemini"@)
    } else if r.supported == Some(false) && (has_budget || r.levels@.len() > 0) {
        invalid("UpstreamModel "@ + id + " cannot disable reasoning while keeping reasoning configuration"@)
    } else if r.min_thinking_budget == Some(0u32) {
        invalid("UpstreamModel "@ + id + " min_thinking_budget must be greater than 0"@)
    } else if r.min_thinking_budget matches Some(mn) && r.thinking_budget matches Some(d) && (d == 0 || (d > 0
        && mn > d)) {
        invalid("UpstreamModel "@ + id + " min_thinking_budget must not exceed thinking_budget"@)
    } else {
        match r.min_thinking_budget {
            Some(mn) => match budget_below(r.levels@, mn) {
                Some(t) => invalid(
                    "UpstreamModel "@ + id + " reasoning budget "@ + decimal(t as nat) + " is below min_thinking_budget "@
                        + decimal(mn as nat),
                ),
                None => None,
            },
            None => None,
        }
    }
}

/// The problem with a compression policy entry, by model ID.
pub open spec fn policy_entry_fault(e: (String, ModelCompressionPolicy)) -> Option<ConfigFault> {
    if trim(e.0@).len() == 0 {
        invalid("model_compression_policies cannot contain an empty model ID"@)
    } else {
        match policy_problem(e.1) {
            Some(p) => invalid("model_compression_policies["@ + e.0@ + "]"@ + p),
            None => None,
        }
    }
}

pub open spec fn policy_check(ps: Seq<(String, ModelCompressionPolicy)>) -> spec_fn(int) -> Option<ConfigFault> {
    |k: int| policy_entry_fault(ps[k])
}

/// Whether `http::HeaderName::from_str` accepts a header name.
pub uninterp spec fn header_name_accepted(name: Seq<char>) -> bool;

/// `reqwest::header::HeaderName` (the `http` crate) parsed from a string:
/// `None` where it is accepted, otherwise the `Display` text of the error,
/// which the `http` source fixes as "invalid HTTP header name". Which names
/// are accepted (a table of token characters and a length limit) is only
/// named here.
#[verifier::external_body]
fn header_name_error(name: &str) -> (r: Option<String>)
    ensures
        r is None <==> header_name_accepted(name@),
        r matches Some(e) ==> e@ == "invalid HTTP header name"@,
{
    match name.parse::<reqwest::header::HeaderName>() {
        Ok(_) => None,
        Err(error) => Some(error.to_string()),
    }
}

/// A header value `http` accepts: every byte is a tab or at least a space
/// and not DEL. On characters: each is a tab, or at least a space and not
/// DEL (every byte of a multi-byte character is at least 0x80).
pub open spec fn header_value_text(v: Seq<char>) -> bool {
    forall|i: int| 0 <= i < v.len() ==> ((#[trigger] v[i] as u32) >= 32 && (v[i] as u32) != 127) || v[i] == '\t'
}

/// `reqwest::header::HeaderValue` (the `http` crate) parsed from a string:
/// `None` where every byte is valid (`is_valid` in the `http` source),
/// otherwise the `Display` text of the error, "failed to parse header value".
#[verifier::external_body]
fn header_value_error(value: &str) -> (r: Option<String>)
    ensures
        r is None <==> header_value_text(value@),
        r matches Some(e) ==> e@ == "failed to parse header value"@,
{
    match value.parse::<reqwest::header::HeaderValue>() {
        Ok(_) => None,
        Err(error) => Some(error.to_string()),
    }
}

pub open spec fn header_entry_fault(p: Provider, k: int) -> Option<ConfigFault> {
    let name = p.headers@[k].0@;
    let value = p.headers@[k].1@;
    if !header_name_accepted(name) {
        invalid("Provider "@ + p.id@ + " header name is invalid: "@ + "invalid HTTP header name"@)
    } else if !header_value_text(value) {
        invalid("Provider "@ + p.id@ + " header value for "@ + name + " is invalid: "@ + "failed to parse header value"@)
    } else {
        None
    }
}

pub open spec fn header_check(p: Provider) -> spec_fn(int) -> Option<ConfigFault> {
    |k: int| header_entry_fault(p, k)
}

pub open spec fn provider_fault(ps: Seq<Provider>, i: int) -> Option<ConfigFault> {
    let p = ps[i];
    let id = p.id@;
    if id_fault("Provider"@, id) is Some {
        id_fault("Provider"@, id)
    } else if exists|j: int| 0 <= j < i && (#[trigger] ps[j]).id@ == id {
        Some(ConfigFault::Duplicate { kind: "Provider"@, id })
    } else {
        provider_fields_fault(p)
    }
}

/// The problems of a provider past its ID: name, endpoints, timeouts,
/// headers and default parameters, in that order.
pub open spec fn provider_fields_fault(p: Provider) -> Option<ConfigFault> {
    let id = p.id@;
    if trim(p.name@).len() == 0 {
        invalid("Provider "@ + id + " has an empty name"@)
    } else {
        or_fault(
            endpoint_fault("Provider generate endpoint"@, p.generate_endpoint@),
            or_fault(
                endpoint_fault("Provider models endpoint"@, p.models_endpoint@),
                if p.connect_timeout_ms == 0 || p.request_timeout_ms == 0 || p.stream_idle_timeout_ms == 0 {
                    invalid("Provider "@ + id + " timeouts must be greater than 0"@)
                } else if p.connect_timeout_ms > p.request_timeout_ms {
                    invalid("Provider "@ + id + " connect timeout cannot exceed request timeout"@)
                } else {
                    or_fault(
                        first_fault(header_check(p), p.headers@.len()),
                        parameters_fault("Provider "@ + id + " default parameters"@, p.default_parameters),
                    )
                },
            ),
        )
    }
}

pub open spec fn provider_check(ps: Seq<Provider>) -> spec_fn(int) -> Option<ConfigFault> {
    |i: int| provider_fault(ps, i)
}

/// The first of the first `n` providers with ID `id`.
pub open spec fn first_provider(ps: Seq<Provider>, id: Seq<char>, n: nat) -> Option<int>
    decreases n,
{
    if n == 0 {
        None
    } else {
        match first_provider(ps, id, (n - 1) as nat) {
            Some(j) => Some(j),
            None => if ps[n - 1].id@ == id {
                Some(n - 1)
            } else {
                None
            },
        }
    }
}

/// The first of the first `n` upstream models with ID `id`.
pub open spec fn first_upstream(ms: Seq<UpstreamModel>, id: Seq<char>, n: nat) -> Option<int>
    decreases n,
{
    if n == 0 {
        None
    } else {
        match first_upstream(ms, id, (n - 1) as nat) {
            Some(j) => Some(j),
            None => if ms[n - 1].id@ == id {
                Some(n - 1)
            } else {
                None
            },
        }
    }
}

/// The checks on an upstream model after its provider's protocol is known.
pub open spec fn upstream_tail_fault(m: UpstreamModel) -> Option<ConfigFault> {
    let id = m.id@;
    if trim(m.upstream_model_id@).len() == 0 {
        invalid("UpstreamModel "@ + id + " has an empty upstream model ID"@)
    } else {
        match limits_problem(m.token_limits) {
            Some(e) => invalid("UpstreamModel "@ + id + ": "@ + e),
            None => or_fault(
                match m.compression_policy {
                    Some(cp) => match policy_problem(cp) {
                        Some(e) => invalid("UpstreamModel "@ + id + " compression_policy"@ + e),
                        None => None,
                    },
                    None => None,
                },
                parameters_fault("UpstreamModel "@ + id + " parameter overrides"@, m.parameter_overrides),
            ),
        }
    }
}

pub open spec fn upstream_fault(cfg: AppConfig, i: int) -> Option<ConfigFault> {
    let ms = cfg.upstream_models@;
    let m = ms[i];
    let id = m.id@;
    if id_fault("UpstreamModel"@, id) is Some {
        id_fault("UpstreamModel"@, id)
    } else if exists|j: int| 0 <= j < i && (#[trigger] ms[j]).id@ == id {
        Some(ConfigFault::Duplicate { kind: "UpstreamModel"@, id })
    } else {
        match first_provider(cfg.providers@, m.provider_id@, cfg.providers@.len()) {
            None => Some(
                ConfigFault::Missing {
                    owner_kind: "UpstreamModel"@,
                    owner_id: id,
                    target_kind: "Provider"@,
                    target_id: m.provider_id@,
                },
            ),
            Some(k) => or_fault(
                media_fault(m, cfg.providers@[k].protocol),
                or_fault(reasoning_fault(m, cfg.providers@[k].protocol), upstream_tail_fault(m)),
            ),
        }
    }
}

pub open spec fn upstream_check(cfg: AppConfig) -> spec_fn(int) -> Option<ConfigFault> {
    |i: int| upstream_fault(cfg, i)
}

/// The first of the first `n` virtual models that accepts the identifier `x`.
pub open spec fn first_holder(vs: Seq<VirtualModel>, x: Seq<char>, n: nat) -> Option<int>
    decreases n,
{
    if n == 0 {
        None
    } else {
        match first_holder(vs, x, (n - 1) as nat) {
            Some(j) => Some(j),
            None => if vs[n - 1].spec_accepted_ids().contains(x) {
                Some(n - 1)
            } else {
                None
            },
        }
    }
}

/// The `k`-th identifier of virtual model `i` already routes to an earlier model.
pub open spec fn conflict_at(vs: Seq<VirtualModel>, i: int, k: int) -> Option<ConfigFault> {
    let x = vs[i].spec_accepted_ids()[k];
    match first_holder(vs, x, i as nat) {
        Some(j) => Some(ConfigFault::Conflict { model_id: vs[i].id@, existing_model_id: vs[j].id@, identifier: x }),
        None => None,
    }
}

pub open spec fn conflicts_fault(vs: Seq<VirtualModel>, i: int) -> Option<ConfigFault> {
    or_fault(conflict_at(vs, i, 0), or_fault(conflict_at(vs, i, 1), conflict_at(vs, i, 2)))
}

/// The reasoning level and parameter checks of a virtual model routed to
/// upstream model `u`.
pub open spec fn virtual_tail_fault(v: VirtualModel, u: UpstreamModel) -> Option<ConfigFault> {
    or_fault(
        match v.default_reasoning_level {
            Some(l) => if levels_get(u.capabilities.reasoning.levels@, l) is None {
                Some(ConfigFault::Unsupported { model_id: v.id@, level: spec_level_debug(l) })
            } else {
                None
            },
            None => None,
        },
        parameters_fault("VirtualModel "@ + v.id@ + " parameter overrides"@, v.parameter_overrides),
    )
}

pub open spec fn virtual_fault(cfg: AppConfig, i: int) -> Option<ConfigFault> {
    let vs = cfg.virtual_models@;
    let v = vs[i];
    let id = v.id@;
    let host = v.spec_host_model_id();
    if id_fault("VirtualModel"@, id) is Some {
        id_fault("VirtualModel"@, id)
    } else if exists|j: int| 0 <= j < i && (#[trigger] vs[j]).id@ == id {
        Some(ConfigFault::Duplicate { kind: "VirtualModel"@, id })
    } else if id_fault("VirtualModel host model"@, host) is Some {
        id_fault("VirtualModel host model"@, host)
    } else if !(starts_with(host, "MODEL_PLACEHOLDER_"@) && host.len() > 18) {
        invalid("VirtualModel "@ + id + " host model ID must match MODEL_PLACEHOLDER_M400..M599"@)
    } else {
        or_fault(
            conflicts_fault(vs, i),
            match first_upstream(cfg.upstream_models@, v.upstream_model_id@, cfg.upstream_models@.len()) {
                None => Some(
                    ConfigFault::Missing {
                        owner_kind: "VirtualModel"@,
                        owner_id: id,
                        target_kind: "UpstreamModel"@,
                        target_id: v.upstream_model_id@,
                    },
                ),
                Some(u) => virtual_tail_fault(v, cfg.upstream_models@[u]),
            },
        )
    }
}

pub open spec fn virtual_check(cfg: AppConfig) -> spec_fn(int) -> Option<ConfigFault> {
    |i: int| virtual_fault(cfg, i)
}

pub open spec fn fallback_fault(vs: Seq<VirtualModel>, i: int) -> Option<ConfigFault> {
    let v = vs[i];
    match v.fallback_virtual_model_id {
        None => None,
        Some(f) => if f@ == v.id@ {
            invalid("VirtualModel "@ + v.id@ + " cannot fallback to itself"@)
        } else if !(exists|j: int| 0 <= j < vs.len() && (#[trigger] vs[j]).id@ == f@) {
            Some(
                ConfigFault::Missing {
                    owner_kind: "VirtualModel"@,
                    owner_id: v.id@,
                    target_kind: "fallback"@,
                    target_id: f@,
                },
            )
        } else {
            None
        },
    }
}

pub open spec fn fallback_check(vs: Seq<VirtualModel>) -> spec_fn(int) -> Option<ConfigFault> {
    |i: int| fallback_fault(vs, i)
}

/// The first problem of a configuration, in the order `validate` checks:
/// the port; each compression policy (by model ID); each provider; each
/// upstream model; each virtual model; then each virtual model's fallback.
pub open spec fn config_fault(cfg: AppConfig) -> Option<ConfigFault> {
    if cfg.proxy_port < MIN_PROXY_PORT {
        invalid("Proxy port must be between 1024 and 65535"@)
    } else {
        or_fault(
            first_fault(policy_check(cfg.model_compression_policies@), cfg.model_compression_policies@.len()),
            or_fault(
                first_fault(provider_check(cfg.providers@), cfg.providers@.len()),
                or_fault(
                    first_fault(upstream_check(cfg), cfg.upstream_models@.len()),
                    or_fault(
                        first_fault(virtual_check(cfg), cfg.virtual_models@.len()),
                        first_fault(fallback_check(cfg.virtual_models@), cfg.virtual_models@.len()),
                    ),
                ),
            ),
        )
    }
}

// ---------------------------------------------------------------------------
// Checks.


// ---------------------------------------------------------------------------

fn text2(a: &str, b: &str) -> (r: String)
    ensures
        r@ == a@ + b@,
{
    crate::text::concat2(a, b)
}

fn text3(a: &str, b: &str, c: &str) -> (r: String)
    ensures
        r@ == a@ + b@ + c@,
{
    let mut buf: Vec<char> = Vec::new();
    push_str(&mut buf, a);
    push_str(&mut buf, b);
    push_str(&mut buf, c);
    assert(buf@ =~= a@ + b@ + c@);
    string_from_chars(buf.as_slice())
}

fn is_blank(s: &str) -> (r: bool)
    ensures
        r == (trim(s@).len() == 0),
{
    let cs = chars_of(s);
    let t = crate::text::trim_chars(cs.as_slice());
    t.len() == 0
}

pub fn validate_id(kind: &'static str, id: &str) -> (r: Result<(), ConfigError>)
    ensures
        reports(r, id_fault(kind@, id@)),
{
    if is_blank(id) {
        return Err(ConfigError::InvalidValue(text2(kind, " ID cannot be empty")));
    }
    Ok(())
}

fn octet_ok(p: &[char]) -> (r: bool)
    ensures
        r == octet_text(p@),
{
    if p.len() < 1 || p.len() > 3 {
        return false;
    }
    if p.len() > 1 && p[0] == '0' {
        return false;
    }
    let mut v: u32 = 0;
    let mut i: usize = 0;
    while i < p.len()
        invariant
            1 <= p@.len() <= 3,
            i <= p@.len(),
            all_digits(p@.take(i as int)),
            v as nat == digits_value(p@.take(i as int)),
            v < 1000,
            i == 0 ==> v == 0,
            i == 1 ==> v < 10,
            i == 2 ==> v < 100,
        decreases p.len() - i,
    {
        let c = p[i];
        if !('0' <= c && c <= '9') {
            assert(!crate::text::is_digit(p@[i as int]));
            return false;
        }
        assert(p@.take(i + 1).drop_last() =~= p@.take(i as int));
        v = v * 10 + (c as u32 - '0' as u32);
        i += 1;
        assert(all_digits(p@.take(i as int))) by {
            assert forall|k: int| 0 <= k < i implies crate::text::is_digit(#[trigger] p@.take(i as int)[k]) by {
                if k < i - 1 {
                    assert(p@.take(i as int)[k] == p@.take(i - 1)[k]);
                }
            }
        }
    }
    assert(p@.take(p@.len() as int) =~= p@);
    v <= 255
}

fn dot_index(r: &[char]) -> (k: usize)
    ensures
        k <= r@.len(),
        k == lead_count(r@, non_dot_pred()),
        k < r@.len() ==> r@[k as int] == '.',
{
    let mut i: usize = 0;
    while i < r.len() && r[i] != '.'
        invariant
            i <= r@.len(),
            forall|j: int| 0 <= j < i ==> (non_dot_pred())(#[trigger] r@[j]),
        decreases r.len() - i,
    {
        i += 1;
    }
    proof {
        lemma_lead_count(r@, non_dot_pred(), i as nat);
    }
    i
}

fn octets_ok(r: &[char], n: usize) -> (b: bool)
    ensures
        b == octets_text(r@, n as nat),
    decreases n,
{
    let k = dot_index(r);
    if n <= 1 {
        return octet_ok(r);
    }
    if k >= r.len() {
        return false;
    }
    let first = crate::text::slice_range(r, 0, k);
    let rest = crate::text::slice_range(r, k + 1, r.len());
    proof {
        assert(first@ =~= r@.take(k as int));
        assert(rest@ =~= r@.skip(k + 1));
    }
    octet_ok(first.as_slice()) && octets_ok(rest.as_slice(), n - 1)
}

pub fn is_loopback_host(host: &str) -> (r: bool)
    ensures
        r == loopback_host(host@),
{
    let h = chars_of(host);
    if crate::text::eq_ignore_ascii_case(h.as_slice(), chars_of("localhost").as_slice()) {
        return true;
    }
    is_ipv4_loopback(h.as_slice())
}

pub fn is_ipv4_loopback(h: &[char]) -> (r: bool)
    ensures
        r == ipv4_loopback(h@),
{
    match crate::text::strip_prefix_str(h, "127.") {
        Some(r) => octets_ok(r.as_slice(), 3),
        None => false,
    }
}

pub fn validate_endpoint(label: &str, endpoint: &str) -> (r: Result<(), ConfigError>)
    ensures
        reports(r, endpoint_fault(label@, endpoint@)),
{
    if is_blank(endpoint) {
        return Err(ConfigError::InvalidValue(text2(label, " cannot be empty")));
    }
    let url = match parse_route(endpoint) {
        Ok(u) => u,
        Err(e) => {
            return Err(ConfigError::InvalidValue(text3(label, " is invalid: ", e.as_str())));
        },
    };
    proof {
        reveal_strlit("http");
        reveal_strlit("https");
    }
    let is_http = crate::text::str_eq(url.scheme.as_str(), "http");
    let is_https = crate::text::str_eq(url.scheme.as_str(), "https");
    if !(is_http || is_https) {
        return Err(ConfigError::InvalidValue(text2(label, " must use http or https")));
    }
    if chars_of(url.username.as_str()).len() > 0 || url.password.is_some() {
        return Err(ConfigError::InvalidValue(text2(label, " must not contain embedded credentials")));
    }
    if url.fragment.is_some() {
        return Err(ConfigError::InvalidValue(text2(label, " must not contain a URL fragment")));
    }
    if is_http {
        match &url.host {
            None => {
                return Err(ConfigError::InvalidValue(text2(label, " is missing a host")));
            },
            Some(h) => {
                if !is_loopback_host(h.as_str()) {
                    return Err(ConfigError::InvalidValue(text2(label, " must use https unless it targets loopback")));
                }
            },
        }
    }
    Ok(())
}

fn number_temperature_ok(n: &JsonNumber) -> (r: bool)
    ensures
        r == temperature_ok(num_view(*n)),
{
    match n {
        JsonNumber::Unsigned(_) => true,
        JsonNumber::Negative(i) => *i >= 0,
        JsonNumber::Decimal(s) => parses_finite_non_negative(s.as_str()),
    }
}

fn number_top_p_ok(n: &JsonNumber) -> (r: bool)
    ensures
        r == top_p_ok(num_view(*n)),
{
    match n {
        JsonNumber::Unsigned(u) => *u <= 1,
        JsonNumber::Negative(i) => 0 <= *i && *i <= 1,
        JsonNumber::Decimal(s) => parses_unit_interval(s.as_str()),
    }
}

pub fn validate_parameters(label: &str, parameters: &ParameterOverrides) -> (r: Result<(), ConfigError>)
    ensures
        reports(r, parameters_fault(label@, *parameters)),
{
    if let Some(t) = &parameters.temperature {
        if !number_temperature_ok(t) {
            return Err(ConfigError::InvalidValue(text2(label, " temperature must be finite and non-negative")));
        }
    }
    if let Some(t) = &parameters.top_p {
        if !number_top_p_ok(t) {
            return Err(ConfigError::InvalidValue(text2(label, " top_p must be between 0 and 1")));
        }
    }
    if parameters.max_tokens == Some(0u32) {
        return Err(ConfigError::InvalidValue(text2(label, " max_tokens must be greater than 0")));
    }
    if parameters.top_k == Some(0u32) {
        return Err(ConfigError::InvalidValue(text2(label, " top_k must be greater than 0")));
    }
    Ok(())
}

fn invalid_for_model(model_id: &str, message: &str) -> (r: ConfigError)
    ensures
        r@ == ConfigFault::Invalid("UpstreamModel "@ + model_id@ + message@),
{
    ConfigError::InvalidValue(text3("UpstreamModel ", model_id, message))
}

pub fn validate_model_media_capabilities(model: &UpstreamModel, protocol: ProviderProtocol) -> (r: Result<(), ConfigError>)
    ensures
        reports(r, media_fault(*model, protocol)),
{
    let types = &model.capabilities.input_mime_types;
    let mut seen: Vec<Vec<char>> = Vec::new();
    let mut has_image = false;
    let mut i: usize = 0;
    while i < types.len()
        invariant
            i <= types@.len(),
            types == &model.capabilities.input_mime_types,
            mime_faults(*model, protocol, i as nat) is None,
            seen@.len() == i,
            forall|j: int| 0 <= j < i ==> (#[trigger] seen@[j])@ == normalized_mime(types@[j]@),
            has_image == exists|j: int| 0 <= j < i && starts_with(normalized_mime(#[trigger] types@[j]@), "image/"@),
        decreases types.len() - i,
    {
        let raw = types[i].as_str();
        let cs = chars_of(raw);
        let t = crate::text::trim_chars(cs.as_slice());
        let n = crate::text::to_lower(t.as_slice());
        let ghost nv = normalized_mime(types@[i as int]@);
        assert(n@ == nv);
        if n.len() == 0 || !crate::text::contains_str(n.as_slice(), "/") {
            let q = debug_quoted(raw);
            let msg = text2(" has invalid supported MIME type ", q.as_str());
            proof {
                assert("UpstreamModel "@ + model.id@ + msg@ =~= "UpstreamModel "@ + model.id@ + " has invalid supported MIME type "@ + debug_str(types@[i as int]@));
                lemma_first_fault_stable(mime_check(*model, protocol), i as nat + 1, types@.len());
            }
            return Err(invalid_for_model(model.id.as_str(), msg.as_str()));
        }
        let mut j: usize = 0;
        while j < seen.len()
            invariant
                j <= seen@.len(),
                seen@.len() == i,
                i < types@.len(),
                forall|k: int| 0 <= k < i ==> (#[trigger] seen@[k])@ == normalized_mime(types@[k]@),
                forall|k: int| 0 <= k < j ==> normalized_mime(#[trigger] types@[k]@) != nv,
                n@ == nv,
                nv == normalized_mime(types@[i as int]@),
                nv.len() > 0 && contains(nv, "/"@),
                types == &model.capabilities.input_mime_types,
                mime_faults(*model, protocol, i as nat) is None,
            decreases seen.len() - j,
        {
            if crate::text::chars_eq(seen[j].as_slice(), n.as_slice()) {
                assert(normalized_mime(types@[j as int]@) == nv);
                let ns = string_from_chars(n.as_slice());
                let msg = text2(" has duplicate supported MIME type ", ns.as_str());
                proof {
                    assert("UpstreamModel "@ + model.id@ + msg@ =~= "UpstreamModel "@ + model.id@ + " has duplicate supported MIME type "@ + nv);
                    lemma_first_fault_stable(mime_check(*model, protocol), i as nat + 1, types@.len());
                }
                return Err(invalid_for_model(model.id.as_str(), msg.as_str()));
            }
            j += 1;
        }
        let ns = string_from_chars(n.as_slice());
        if protocol != ProviderProtocol::GeminiGenerateContent && !is_supported_inline_image_mime_type(ns.as_str()) {
            let mut b: Vec<char> = Vec::new();
            push_str(&mut b, " cannot use inline MIME type ");
            push_str(&mut b, ns.as_str());
            push_str(&mut b, " with provider protocol ");
            push_str(&mut b, protocol_debug(protocol));
            let msg = string_from_chars(b.as_slice());
            proof {
                assert("UpstreamModel "@ + model.id@ + msg@ =~= "UpstreamModel "@ + model.id@ + " cannot use inline MIME type "@ + nv + " with provider protocol "@ + spec_protocol_debug(protocol));
                lemma_first_fault_stable(mime_check(*model, protocol), i as nat + 1, types@.len());
            }
            return Err(invalid_for_model(model.id.as_str(), msg.as_str()));
        }
        proof {
            reveal_strlit("image/");
        }
        if crate::text::starts_with_str(n.as_slice(), "image/") {
            has_image = true;
        }
        seen.push(n);
        i += 1;
    }
    proof {
        assert(types@.len() == i);
    }
    if model.capabilities.supports_input(ModelModality::Image) != has_image {
        return Err(invalid_for_model(model.id.as_str(), " vision capability must match its image MIME types"));
    }
    Ok(())
}

fn first_budget_below(levels: &Vec<(ReasoningLevel, ReasoningMapping)>, minimum: u32) -> (r: Option<u32>)
    ensures
        r == budget_below(levels@, minimum),
{
    let mut i: usize = 0;
    assert(levels@.skip(0) =~= levels@);
    while i < levels.len()
        invariant
            i <= levels@.len(),
            budget_below(levels@, minimum) == budget_below(levels@.skip(i as int), minimum),
        decreases levels.len() - i,
    {
        assert(levels@.skip(i as int).drop_first() =~= levels@.skip(i + 1));
        assert(levels@.skip(i as int)[0] == levels@[i as int]);
        if let ReasoningMapping::BudgetTokens(t) = &levels[i].1 {
            if *t < minimum {
                return Some(*t);
            }
        }
        i += 1;
    }
    assert(levels@.skip(i as int).len() == 0);
    None
}

pub fn validate_model_reasoning_capabilities(model: &UpstreamModel, protocol: ProviderProtocol) -> (r: Result<(), ConfigError>)
    ensures
        reports(r, reasoning_fault(*model, protocol)),
{
    let reasoning = &model.capabilities.reasoning;
    let id = model.id.as_str();
    let has_model_budget = reasoning.thinking_budget.is_some() || reasoning.min_thinking_budget.is_some();
    if let Some(budget) = reasoning.thinking_budget {
        if budget < -1 {
            return Err(invalid_for_model(id, " thinking_budget must be -1, 0, or a positive integer"));
        }
    }
    if has_model_budget && protocol != ProviderProtocol::GeminiGenerateContent {
        return Err(invalid_for_model(id, " can use model-level thinking budgets only with Gemini"));
    }
    if reasoning.supported == Some(false) && (has_model_budget || reasoning.levels.len() > 0) {
        return Err(invalid_for_model(id, " cannot disable reasoning while keeping reasoning configuration"));
    }
    if reasoning.min_thinking_budget == Some(0u32) {
        return Err(invalid_for_model(id, " min_thinking_budget must be greater than 0"));
    }
    if let (Some(minimum), Some(default)) = (reasoning.min_thinking_budget, reasoning.thinking_budget) {
        if default == 0 || (default > 0 && minimum as i64 > default as i64) {
            return Err(invalid_for_model(id, " min_thinking_budget must not exceed thinking_budget"));
        }
    }
    if let Some(minimum) = reasoning.min_thinking_budget {
        if let Some(tokens) = first_budget_below(&reasoning.levels, minimum) {
            let mut b: Vec<char> = Vec::new();
            push_str(&mut b, " reasoning budget ");
            push_decimal(&mut b, tokens as u64);
            push_str(&mut b, " is below min_thinking_budget ");
            push_decimal(&mut b, minimum as u64);
            let msg = string_from_chars(b.as_slice());
            proof {
                assert("UpstreamModel "@ + id@ + msg@ =~= "UpstreamModel "@ + id@ + " reasoning budget "@ + decimal(tokens as nat) + " is below min_thinking_budget "@ + decimal(minimum as nat));
            }
            return Err(invalid_for_model(id, msg.as_str()));
        }
    }
    Ok(())
}

fn validate_policy_entry(entry: &(String, ModelCompressionPolicy)) -> (r: Result<(), ConfigError>)
    ensures
        reports(r, policy_entry_fault(*entry)),
{
    if is_blank(entry.0.as_str()) {
        return Err(ConfigError::InvalidValue(crate::text::owned("model_compression_policies cannot contain an empty model ID")));
    }
    let scope = text3("model_compression_policies[", entry.0.as_str(), "]");
    match entry.1.validate(scope.as_str()) {
        Ok(()) => Ok(()),
        Err(m) => {
            proof {
                assert(m@ =~= "model_compression_policies["@ + entry.0@ + "]"@ + policy_problem(entry.1)->0);
            }
            Err(ConfigError::InvalidValue(m))
        },
    }
}

fn validate_headers(provider: &Provider) -> (r: Result<(), ConfigError>)
    ensures
        reports(r, first_fault(header_check(*provider), provider.headers@.len())),
{
    let mut i: usize = 0;
    while i < provider.headers.len()
        invariant
            i <= provider.headers@.len(),
            first_fault(header_check(*provider), i as nat) is None,
        decreases provider.headers.len() - i,
    {
        let name = provider.headers[i].0.as_str();
        let value = provider.headers[i].1.as_str();
        if let Some(e) = header_name_error(name) {
            let msg = text3("Provider ", provider.id.as_str(), " header name is invalid: ");
            let full = text2(msg.as_str(), e.as_str());
            proof {
                assert(full@ =~= "Provider "@ + provider.id@ + " header name is invalid: "@ + "invalid HTTP header name"@);
                lemma_first_fault_stable(header_check(*provider), i as nat + 1, provider.headers@.len());
            }
            return Err(ConfigError::InvalidValue(full));
        }
        if let Some(e) = header_value_error(value) {
            let mut b: Vec<char> = Vec::new();
            push_str(&mut b, "Provider ");
            push_str(&mut b, provider.id.as_str());
            push_str(&mut b, " header value for ");
            push_str(&mut b, name);
            push_str(&mut b, " is invalid: ");
            push_str(&mut b, e.as_str());
            proof {
                assert(b@ =~= "Provider "@ + provider.id@ + " header value for "@ + name@ + " is invalid: "@ + "failed to parse header value"@);
                lemma_first_fault_stable(header_check(*provider), i as nat + 1, provider.headers@.len());
            }
            return Err(ConfigError::InvalidValue(string_from_chars(b.as_slice())));
        }
        i += 1;
    }
    Ok(())
}

fn validate_provider(providers: &Vec<Provider>, i: usize) -> (r: Result<(), ConfigError>)
    requires
        i < providers@.len(),
    ensures
        reports(r, provider_fault(providers@, i as int)),
{
    let provider = &providers[i];
    let id = provider.id.as_str();
    match validate_id("Provider", id) {
        Ok(()) => {},
        Err(e) => {
            return Err(e);
        },
    }
    let mut j: usize = 0;
    while j < i
        invariant
            i < providers@.len(),
            j <= i,
            id@ == providers@[i as int].id@,
            id_fault("Provider"@, id@) is None,
            *provider == providers@[i as int],
            forall|k: int| 0 <= k < j ==> (#[trigger] providers@[k]).id@ != id@,
        decreases i - j,
    {
        if crate::text::str_eq(providers[j].id.as_str(), id) {
            assert(providers@[j as int].id@ == id@);
            return Err(ConfigError::DuplicateId { kind: "Provider", id: provider.id.clone() });
        }
        j += 1;
    }
    validate_provider_fields(provider)
}

/// The problem a provider has on its own, as the only provider of a
/// configuration: its ID, then its fields.
pub open spec fn provider_alone_fault(p: Provider) -> Option<ConfigFault> {
    or_fault(id_fault("Provider"@, p.id@), provider_fields_fault(p))
}

/// Validates one provider as if it were the only one of a configuration.
pub fn validate_provider_alone(provider: &Provider) -> (r: Result<(), ConfigError>)
    ensures
        reports(r, provider_alone_fault(*provider)),
{
    match validate_id("Provider", provider.id.as_str()) {
        Ok(()) => {},
        Err(e) => {
            return Err(e);
        },
    }
    validate_provider_fields(provider)
}

fn validate_provider_fields(provider: &Provider) -> (r: Result<(), ConfigError>)
    ensures
        reports(r, provider_fields_fault(*provider)),
{
    let id = provider.id.as_str();
    if is_blank(provider.name.as_str()) {
        return Err(ConfigError::InvalidValue(text3("Provider ", id, " has an empty name")));
    }
    match validate_endpoint("Provider generate endpoint", provider.generate_endpoint.as_str()) {
        Ok(()) => {},
        Err(e) => {
            return Err(e);
        },
    }
    match validate_endpoint("Provider models endpoint", provider.models_endpoint.as_str()) {
        Ok(()) => {},
        Err(e) => {
            return Err(e);
        },
    }
    if provider.connect_timeout_ms == 0 || provider.request_timeout_ms == 0 || provider.stream_idle_timeout_ms == 0 {
        return Err(ConfigError::InvalidValue(text3("Provider ", id, " timeouts must be greater than 0")));
    }
    if provider.connect_timeout_ms > provider.request_timeout_ms {
        return Err(ConfigError::InvalidValue(text3("Provider ", id, " connect timeout cannot exceed request timeout")));
    }
    match validate_headers(provider) {
        Ok(()) => {},
        Err(e) => {
            return Err(e);
        },
    }
    let label = text3("Provider ", id, " default parameters");
    validate_parameters(label.as_str(), &provider.default_parameters)
}

fn find_provider(providers: &Vec<Provider>, id: &str) -> (r: Option<usize>)
    ensures
        (match r {
            Some(k) => first_provider(providers@, id@, providers@.len()) == Some(k as int),
            None => first_provider(providers@, id@, providers@.len()) is None,
        }),
        r matches Some(k) ==> k < providers@.len(),
{
    let mut j: usize = 0;
    while j < providers.len()
        invariant
            j <= providers@.len(),
            first_provider(providers@, id@, j as nat) is None,
        decreases providers.len() - j,
    {
        if crate::text::str_eq(providers[j].id.as_str(), id) {
            proof {
                lemma_first_provider_stable(providers@, id@, j as nat + 1, providers@.len());
            }
            return Some(j);
        }
        j += 1;
    }
    None
}

proof fn lemma_first_provider_stable(ps: Seq<Provider>, id: Seq<char>, k: nat, n: nat)
    requires
        k <= n,
        first_provider(ps, id, k) is Some,
    ensures
        first_provider(ps, id, n) == first_provider(ps, id, k),
    decreases n - k,
{
    if k < n {
        lemma_first_provider_stable(ps, id, k, (n - 1) as nat);
    }
}

proof fn lemma_first_upstream_stable(ms: Seq<UpstreamModel>, id: Seq<char>, k: nat, n: nat)
    requires
        k <= n,
        first_upstream(ms, id, k) is Some,
    ensures
        first_upstream(ms, id, n) == first_upstream(ms, id, k),
    decreases n - k,
{
    if k < n {
        lemma_first_upstream_stable(ms, id, k, (n - 1) as nat);
    }
}

proof fn lemma_first_holder_stable(vs: Seq<VirtualModel>, x: Seq<char>, k: nat, n: nat)
    requires
        k <= n,
        first_holder(vs, x, k) is Some,
    ensures
        first_holder(vs, x, n) == first_holder(vs, x, k),
    decreases n - k,
{
    if k < n {
        lemma_first_holder_stable(vs, x, k, (n - 1) as nat);
    }
}

fn find_upstream(models: &Vec<UpstreamModel>, id: &str) -> (r: Option<usize>)
    ensures
        (match r {
            Some(k) => first_upstream(models@, id@, models@.len()) == Some(k as int),
            None => first_upstream(models@, id@, models@.len()) is None,
        }),
        r matches Some(k) ==> k < models@.len(),
{
    let mut j: usize = 0;
    while j < models.len()
        invariant
            j <= models@.len(),
            first_upstream(models@, id@, j as nat) is None,
        decreases models.len() - j,
    {
        if crate::text::str_eq(models[j].id.as_str(), id) {
            proof {
                lemma_first_upstream_stable(models@, id@, j as nat + 1, models@.len());
            }
            return Some(j);
        }
        j += 1;
    }
    None
}

fn validate_upstream(config: &AppConfig, i: usize) -> (r: Result<(), ConfigError>)
    requires
        i < config.upstream_models@.len(),
    ensures
        reports(r, upstream_fault(*config, i as int)),
{
    let models = &config.upstream_models;
    let model = &models[i];
    let id = model.id.as_str();
    match validate_id("UpstreamModel", id) {
        Ok(()) => {},
        Err(e) => {
            return Err(e);
        },
    }
    let mut j: usize = 0;
    while j < i
        invariant
            i < models@.len(),
            j <= i,
            id@ == models@[i as int].id@,
            id_fault("UpstreamModel"@, id@) is None,
            models == &config.upstream_models,
            *model == models@[i as int],
            forall|k: int| 0 <= k < j ==> (#[trigger] models@[k]).id@ != id@,
        decreases i - j,
    {
        if crate::text::str_eq(models[j].id.as_str(), id) {
            assert(models@[j as int].id@ == id@);
            return Err(ConfigError::DuplicateId { kind: "UpstreamModel", id: model.id.clone() });
        }
        j += 1;
    }
    let k = match find_provider(&config.providers, model.provider_id.as_str()) {
        Some(k) => k,
        None => {
            return Err(
                ConfigError::MissingReference {
                    owner_kind: "UpstreamModel",
                    owner_id: model.id.clone(),
                    target_kind: "Provider",
                    target_id: model.provider_id.clone(),
                },
            );
        },
    };
    let protocol = config.providers[k].protocol;
    match validate_model_media_capabilities(model, protocol) {
        Ok(()) => {},
        Err(e) => {
            return Err(e);
        },
    }
    match validate_model_reasoning_capabilities(model, protocol) {
        Ok(()) => {},
        Err(e) => {
            return Err(e);
        },
    }
    if is_blank(model.upstream_model_id.as_str()) {
        return Err(invalid_for_model(id, " has an empty upstream model ID"));
    }
    match model.token_limits.validate() {
        Ok(()) => {},
        Err(m) => {
            let msg = text2(": ", m);
            proof {
                assert("UpstreamModel "@ + id@ + msg@ =~= "UpstreamModel "@ + id@ + ": "@ + m@);
            }
            return Err(invalid_for_model(id, msg.as_str()));
        },
    }
    if let Some(policy) = &model.compression_policy {
        let scope = text3("UpstreamModel ", id, " compression_policy");
        match policy.validate(scope.as_str()) {
            Ok(()) => {},
            Err(m) => {
                proof {
                    assert(m@ =~= "UpstreamModel "@ + id@ + " compression_policy"@ + policy_problem(*policy)->0);
                }
                return Err(ConfigError::InvalidValue(m));
            },
        }
    }
    let label = text3("UpstreamModel ", id, " parameter overrides");
    validate_parameters(label.as_str(), &model.parameter_overrides)
}

/// Whether one of a model's three accepted identifiers is `x`.
fn accepts_identifier(v: &VirtualModel, x: &str) -> (r: bool)
    ensures
        r == v.spec_accepted_ids().contains(x@),
{
    let ids = v.accepted_ids();
    let found = crate::text::str_eq(ids[0].as_str(), x) || crate::text::str_eq(ids[1].as_str(), x)
        || crate::text::str_eq(ids[2].as_str(), x);
    proof {
        let s = v.spec_accepted_ids();
        if found {
            if ids[0]@ == x@ {
                assert(s[0] == x@);
            } else if ids[1]@ == x@ {
                assert(s[1] == x@);
            } else {
                assert(s[2] == x@);
            }
        } else {
            assert forall|t: int| 0 <= t < s.len() implies s[t] != x@ by {
                if t == 0 {
                } else if t == 1 {
                } else {
                }
            }
        }
    }
    found
}

fn find_holder(models: &Vec<VirtualModel>, x: &str, n: usize) -> (r: Option<usize>)
    requires
        n <= models@.len(),
    ensures
        (match r {
            Some(j) => first_holder(models@, x@, n as nat) == Some(j as int),
            None => first_holder(models@, x@, n as nat) is None,
        }),
        r matches Some(j) ==> j < n,
{
    let mut j: usize = 0;
    while j < n
        invariant
            n <= models@.len(),
            j <= n,
            first_holder(models@, x@, j as nat) is None,
        decreases n - j,
    {
        if accepts_identifier(&models[j], x) {
            proof {
                lemma_first_holder_stable(models@, x@, j as nat + 1, n as nat);
            }
            return Some(j);
        }
        j += 1;
    }
    None
}

fn check_conflicts(models: &Vec<VirtualModel>, i: usize) -> (r: Result<(), ConfigError>)
    requires
        i < models@.len(),
    ensures
        reports(r, conflicts_fault(models@, i as int)),
{
    let ids = models[i].accepted_ids();
    let mut k: usize = 0;
    while k < 3
        invariant
            i < models@.len(),
            k <= 3,
            ids[0]@ == models@[i as int].spec_accepted_ids()[0],
            ids[1]@ == models@[i as int].spec_accepted_ids()[1],
            ids[2]@ == models@[i as int].spec_accepted_ids()[2],
            k > 0 ==> conflict_at(models@, i as int, 0) is None,
            k > 1 ==> conflict_at(models@, i as int, 1) is None,
            k > 2 ==> conflict_at(models@, i as int, 2) is None,
        decreases 3 - k,
    {
        let x = ids[k].as_str();
        if let Some(j) = find_holder(models, x, i) {
            return Err(
                ConfigError::IdentifierConflict {
                    model_id: models[i].id.clone(),
                    existing_model_id: models[j].id.clone(),
                    identifier: ids[k].clone(),
                },
            );
        }
        k += 1;
    }
    Ok(())
}

fn validate_virtual(config: &AppConfig, i: usize) -> (r: Result<(), ConfigError>)
    requires
        i < config.virtual_models@.len(),
    ensures
        reports(r, virtual_fault(*config, i as int)),
{
    let models = &config.virtual_models;
    let model = &models[i];
    let id = model.id.as_str();
    match validate_id("VirtualModel", id) {
        Ok(()) => {},
        Err(e) => {
            return Err(e);
        },
    }
    let mut j: usize = 0;
    while j < i
        invariant
            i < models@.len(),
            j <= i,
            models == &config.virtual_models,
            *model == models@[i as int],
            id@ == models@[i as int].id@,
            id_fault("VirtualModel"@, id@) is None,
            forall|k: int| 0 <= k < j ==> (#[trigger] models@[k]).id@ != id@,
        decreases i - j,
    {
        if crate::text::str_eq(models[j].id.as_str(), id) {
            assert(models@[j as int].id@ == id@);
            return Err(ConfigError::DuplicateId { kind: "VirtualModel", id: model.id.clone() });
        }
        j += 1;
    }
    let host = model.effective_host_model_id();
    match validate_id("VirtualModel host model", host.as_str()) {
        Ok(()) => {},
        Err(e) => {
            return Err(e);
        },
    }
    if !model.has_valid_host_model_id() {
        return Err(ConfigError::InvalidValue(text3("VirtualModel ", id, " host model ID must match MODEL_PLACEHOLDER_M400..M599")));
    }
    match check_conflicts(models, i) {
        Ok(()) => {},
        Err(e) => {
            return Err(e);
        },
    }
    let u = match find_upstream(&config.upstream_models, model.upstream_model_id.as_str()) {
        Some(u) => u,
        None => {
            return Err(
                ConfigError::MissingReference {
                    owner_kind: "VirtualModel",
                    owner_id: model.id.clone(),
                    target_kind: "UpstreamModel",
                    target_id: model.upstream_model_id.clone(),
                },
            );
        },
    };
    if let Some(level) = model.default_reasoning_level {
        if config.upstream_models[u].capabilities.reasoning.mapping_for(level).is_none() {
            return Err(
                ConfigError::UnsupportedReasoning {
                    model_id: model.id.clone(),
                    level: crate::text::owned(level_debug(level)),
                },
            );
        }
    }
    let label = text3("VirtualModel ", id, " parameter overrides");
    validate_parameters(label.as_str(), &model.parameter_overrides)
}

fn validate_fallback(models: &Vec<VirtualModel>, i: usize) -> (r: Result<(), ConfigError>)
    requires
        i < models@.len(),
    ensures
        reports(r, fallback_fault(models@, i as int)),
{
    let model = &models[i];
    if let Some(fallback_id) = &model.fallback_virtual_model_id {
        if crate::text::str_eq(fallback_id.as_str(), model.id.as_str()) {
            return Err(ConfigError::InvalidValue(text3("VirtualModel ", model.id.as_str(), " cannot fallback to itself")));
        }
        let mut j: usize = 0;
        let mut found = false;
        while j < models.len()
            invariant
                j <= models@.len(),
                found == exists|k: int| 0 <= k < j && (#[trigger] models@[k]).id@ == fallback_id@,
            decreases models.len() - j,
        {
            if crate::text::str_eq(models[j].id.as_str(), fallback_id.as_str()) {
                assert(models@[j as int].id@ == fallback_id@);
                found = true;
            }
            j += 1;
        }
        if !found {
            return Err(
                ConfigError::MissingReference {
                    owner_kind: "VirtualModel",
                    owner_id: model.id.clone(),
                    target_kind: "fallback",
                    target_id: fallback_id.clone(),
                },
            );
        }
    }
    Ok(())
}

fn validate_policies(policies: &Vec<(String, ModelCompressionPolicy)>) -> (r: Result<(), ConfigError>)
    ensures
        reports(r, first_fault(policy_check(policies@), policies@.len())),
{
    let mut i: usize = 0;
    while i < policies.len()
        invariant
            i <= policies@.len(),
            first_fault(policy_check(policies@), i as nat) is None,
        decreases policies.len() - i,
    {
        match validate_policy_entry(&policies[i]) {
            Ok(()) => {},
            Err(e) => {
                proof {
                    lemma_first_fault_stable(policy_check(policies@), i as nat + 1, policies@.len());
                }
                return Err(e);
            },
        }
        i += 1;
    }
    Ok(())
}

fn validate_providers(providers: &Vec<Provider>) -> (r: Result<(), ConfigError>)
    ensures
        reports(r, first_fault(provider_check(providers@), providers@.len())),
{
    let mut i: usize = 0;
    while i < providers.len()
        invariant
            i <= providers@.len(),
            first_fault(provider_check(providers@), i as nat) is None,
        decreases providers.len() - i,
    {
        match validate_provider(providers, i) {
            Ok(()) => {},
            Err(e) => {
                proof {
                    lemma_first_fault_stable(provider_check(providers@), i as nat + 1, providers@.len());
                }
                return Err(e);
            },
        }
        i += 1;
    }
    Ok(())
}

fn validate_upstreams(config: &AppConfig) -> (r: Result<(), ConfigError>)
    ensures
        reports(r, first_fault(upstream_check(*config), config.upstream_models@.len())),
{
    let mut i: usize = 0;
    while i < config.upstream_models.len()
        invariant
            i <= config.upstream_models@.len(),
            first_fault(upstream_check(*config), i as nat) is None,
        decreases config.upstream_models.len() - i,
    {
        match validate_upstream(config, i) {
            Ok(()) => {},
            Err(e) => {
                proof {
                    lemma_first_fault_stable(upstream_check(*config), i as nat + 1, config.upstream_models@.len());
                }
                return Err(e);
            },
        }
        i += 1;
    }
    Ok(())
}

fn validate_virtuals(config: &AppConfig) -> (r: Result<(), ConfigError>)
    ensures
        reports(r, first_fault(virtual_check(*config), config.virtual_models@.len())),
{
    let mut i: usize = 0;
    while i < config.virtual_models.len()
        invariant
            i <= config.virtual_models@.len(),
            first_fault(virtual_check(*config), i as nat) is None,
        decreases config.virtual_models.len() - i,
    {
        match validate_virtual(config, i) {
            Ok(()) => {},
            Err(e) => {
                proof {
                    lemma_first_fault_stable(virtual_check(*config), i as nat + 1, config.virtual_models@.len());
                }
                return Err(e);
            },
        }
        i += 1;
    }
    Ok(())
}

fn validate_fallbacks(models: &Vec<VirtualModel>) -> (r: Result<(), ConfigError>)
    ensures
        reports(r, first_fault(fallback_check(models@), models@.len())),
{
    let mut i: usize = 0;
    while i < models.len()
        invariant
            i <= models@.len(),
            first_fault(fallback_check(models@), i as nat) is None,
        decreases models.len() - i,
    {
        match validate_fallback(models, i) {
            Ok(()) => {},
            Err(e) => {
                proof {
                    lemma_first_fault_stable(fallback_check(models@), i as nat + 1, models@.len());
                }
                return Err(e);
            },
        }
        i += 1;
    }
    Ok(())
}

impl AppConfig {
    /// Checks the configuration; the error is the first problem in the order
    /// of `config_fault`.
    pub fn validate(&self) -> (r: Result<(), ConfigError>)
        ensures
            reports(r, config_fault(*self)),
    {
        if self.proxy_port < MIN_PROXY_PORT {
            return Err(ConfigError::InvalidValue(crate::text::owned("Proxy port must be between 1024 and 65535")));
        }
        match validate_policies(&self.model_compression_policies) {
            Ok(()) => {},
            Err(e) => {
                return Err(e);
            },
        }
        match validate_providers(&self.providers) {
            Ok(()) => {},
            Err(e) => {
                return Err(e);
            },
        }
        match validate_upstreams(self) {
            Ok(()) => {},
            Err(e) => {
                return Err(e);
            },
        }
        match validate_virtuals(self) {
            Ok(()) => {},
            Err(e) => {
                return Err(e);
            },
        }
        validate_fallbacks(&self.virtual_models)
    }
}

// ---------------------------------------------------------------------------
// Laws.
// ---------------------------------------------------------------------------

proof fn lemma_first_fault_none(f: spec_fn(int) -> Option<ConfigFault>, n: nat, i: int)
    requires
        first_fault(f, n) is None,
        0 <= i < n,
    ensures
        f(i) is None,
    decreases n,
{
    if i < n - 1 {
        lemma_first_fault_none(f, (n - 1) as nat, i);
    }
}

/// An endpoint the proxy may call: it parses as a URL without credentials
/// or fragment, and uses HTTPS, or plain HTTP to a loopback host.
pub open spec fn endpoint_safe(endpoint: Seq<char>) -> bool {
    match url_route(endpoint) {
        Ok(u) => {
            &&& u.username.len() == 0 && u.password is None && u.fragment is None
            &&& (u.scheme == "https"@ || (u.scheme == "http"@ && (u.host matches Some(h) && loopback_host(h))))
        },
        Err(_) => false,
    }
}

/// Law: in a configuration that `validate` accepts, every provider has its
/// own ID, and each of its endpoints uses HTTPS unless it targets loopback.
pub proof fn lemma_valid_config_providers(cfg: AppConfig, i: int)
    requires
        config_fault(cfg) is None,
        0 <= i < cfg.providers@.len(),
    ensures
        forall|j: int| 0 <= j < i ==> (#[trigger] cfg.providers@[j]).id@ != cfg.providers@[i].id@,
        endpoint_safe(cfg.providers@[i].generate_endpoint@),
        endpoint_safe(cfg.providers@[i].models_endpoint@),
{
    let ps = cfg.providers@;
    lemma_first_fault_none(provider_check(ps), ps.len(), i);
    assert(provider_fault(ps, i) is None);
}

/// Law: in a configuration that `validate` accepts, every virtual model has
/// its own ID, reaches an existing upstream model, and falls back, where it
/// does, to another existing virtual model.
pub proof fn lemma_valid_config_virtual_models(cfg: AppConfig, i: int)
    requires
        config_fault(cfg) is None,
        0 <= i < cfg.virtual_models@.len(),
    ensures
        forall|j: int| 0 <= j < i ==> (#[trigger] cfg.virtual_models@[j]).id@ != cfg.virtual_models@[i].id@,
        first_upstream(cfg.upstream_models@, cfg.virtual_models@[i].upstream_model_id@, cfg.upstream_models@.len()) is Some,
        cfg.virtual_models@[i].fallback_virtual_model_id matches Some(f) ==> f@ != cfg.virtual_models@[i].id@
            && exists|j: int| 0 <= j < cfg.virtual_models@.len() && (#[trigger] cfg.virtual_models@[j]).id@ == f@,
{
    let vs = cfg.virtual_models@;
    lemma_first_fault_none(virtual_check(cfg), vs.len(), i);
    lemma_first_fault_none(fallback_check(vs), vs.len(), i);
    assert(virtual_fault(cfg, i) is None);
    assert(fallback_fault(vs, i) is None);
}


/// A configuration holding one provider and nothing else (with a valid
/// port) has exactly the problems that provider has on its own.
pub proof fn lemma_single_provider_config(cfg: AppConfig)
    requires
        cfg.proxy_port >= MIN_PROXY_PORT,
        cfg.providers@.len() == 1,
        cfg.model_compression_policies@.len() == 0,
        cfg.upstream_models@.len() == 0,
        cfg.virtual_models@.len() == 0,
    ensures
        config_fault(cfg) == provider_alone_fault(cfg.providers@[0]),
{
    let ps = cfg.providers@;
    assert(first_fault(provider_check(ps), 1) == or_fault(first_fault(provider_check(ps), 0), provider_fault(ps, 0)));
    assert(first_fault(policy_check(cfg.model_compression_policies@), 0) is None);
    assert(first_fault(upstream_check(cfg), 0) is None);
    assert(first_fault(virtual_check(cfg), 0) is None);
    assert(first_fault(fallback_check(cfg.virtual_models@), 0) is None);
}

} // verus!
