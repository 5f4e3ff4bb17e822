//! The configured models as host catalog entries.

use super::checkpoint::{
    canonical, canonical_model_id, compressed_entry, limit_lookup, table_view, apply_model_compression_policy,
};
use super::AntigravityModelDescriptor;
use crate::domain::checkpoint::min_u32;
use crate::domain::definition::{effective_mime_set, ModelCapabilities, ModelModality, ModelRole, UpstreamModel, VirtualModel};
use super::checkpoint::{alias_table, official_checkpoint_worker_limits, official_model_aliases, worker_limit};
use crate::domain::provider::{Provider, ProviderProtocol};
use crate::domain::reasoning::{levels_get, Mapping, ReasoningMapping};
use crate::json::{
    entries_get, entries_index, lemma_entries_get_index, entries_lookup, jobj1, jobj2, entries_view, items_view, juint, lemma_entries_view, lemma_items_view, push_entry, set_entry, set_member,
    uint_value, Json, JsonNum, JsonNumber, JsonValue,
};
use crate::text::{ends_with, eq_ignore_case, strip_suffix, trim_end, chars_of, lemma_seq_lt_irreflexive, lemma_seq_lt_trichotomy, lemma_seq_lt_transitive, seq_lt, string_from_chars, string_set, strictly_sorted, trim};
use vstd::prelude::*;

verus! {

/// Context window assumed where neither the catalog nor the user gives one.
pub const DEFAULT_CONTEXT_WINDOW: u32 = 128_000;

/// Input limit assumed where neither the catalog nor the user gives one.
pub const DEFAULT_INPUT_TOKEN_LIMIT: u32 = 128_000;

/// Output limit assumed where neither the catalog nor the user gives one.
pub const DEFAULT_OUTPUT_TOKEN_LIMIT: u32 = 65_536;

pub open spec fn jstr(s: Seq<char>) -> Json {
    Json::Str(s)
}

pub open spec fn jbool(b: bool) -> Json {
    Json::Bool(b)
}

/// A signed 32-bit count as a JSON number.
pub open spec fn jint(i: i32) -> Json {
    if i >= 0 {
        Json::Number(JsonNum::Unsigned(i as u64))
    } else {
        Json::Number(JsonNum::Negative(i as i64))
    }
}

fn int_value(i: i32) -> (r: JsonValue)
    ensures
        r@ == jint(i),
{
    if i >= 0 {
        JsonValue::Number(JsonNumber::Unsigned(i as u64))
    } else {
        JsonValue::Number(JsonNumber::Negative(i as i64))
    }
}

/// The host's name for the company behind a protocol.
pub open spec fn spec_host_model_provider(p: ProviderProtocol) -> Seq<char> {
    match p {
        ProviderProtocol::OpenaiChatCompletions | ProviderProtocol::OpenaiResponses => "MODEL_PROVIDER_OPENAI"@,
        ProviderProtocol::AnthropicMessages => "MODEL_PROVIDER_ANTHROPIC"@,
        ProviderProtocol::GeminiGenerateContent => "MODEL_PROVIDER_GOOGLE"@,
    }
}

pub fn host_model_provider(p: ProviderProtocol) -> (r: &'static str)
    ensures
        r@ == spec_host_model_provider(p),
{
    match p {
        ProviderProtocol::OpenaiChatCompletions | ProviderProtocol::OpenaiResponses => "MODEL_PROVIDER_OPENAI",
        ProviderProtocol::AnthropicMessages => "MODEL_PROVIDER_ANTHROPIC",
        ProviderProtocol::GeminiGenerateContent => "MODEL_PROVIDER_GOOGLE",
    }
}

pub open spec fn modality_name(m: ModelModality, lowercase: bool) -> Seq<char> {
    match (m, lowercase) {
        (ModelModality::Text, false) => "TEXT"@,
        (ModelModality::Image, false) => "IMAGE"@,
        (ModelModality::Audio, false) => "AUDIO"@,
        (ModelModality::Video, false) => "VIDEO"@,
        (ModelModality::Document, false) => "DOCUMENT"@,
        (ModelModality::Text, true) => "text"@,
        (ModelModality::Image, true) => "image"@,
        (ModelModality::Audio, true) => "audio"@,
        (ModelModality::Video, true) => "video"@,
        (ModelModality::Document, true) => "document"@,
    }
}

pub open spec fn name_if(mods: Seq<ModelModality>, m: ModelModality, lowercase: bool) -> Seq<Json> {
    if mods.contains(m) {
        seq![jstr(modality_name(m, lowercase))]
    } else {
        Seq::empty()
    }
}

/// The names of a set of modalities, in the order of `ModelModality`.
pub open spec fn modality_names(mods: Seq<ModelModality>, lowercase: bool) -> Seq<Json> {
    name_if(mods, ModelModality::Text, lowercase) + name_if(mods, ModelModality::Image, lowercase) + name_if(
        mods,
        ModelModality::Audio,
        lowercase,
    ) + name_if(mods, ModelModality::Video, lowercase) + name_if(mods, ModelModality::Document, lowercase)
}

fn modality_str(m: ModelModality, lowercase: bool) -> (r: &'static str)
    ensures
        r@ == modality_name(m, lowercase),
{
    match (m, lowercase) {
        (ModelModality::Text, false) => "TEXT",
        (ModelModality::Image, false) => "IMAGE",
        (ModelModality::Audio, false) => "AUDIO",
        (ModelModality::Video, false) => "VIDEO",
        (ModelModality::Document, false) => "DOCUMENT",
        (ModelModality::Text, true) => "text",
        (ModelModality::Image, true) => "image",
        (ModelModality::Audio, true) => "audio",
        (ModelModality::Video, true) => "video",
        (ModelModality::Document, true) => "document",
    }
}

fn push_name_if(out: &mut Vec<JsonValue>, mods: &Vec<ModelModality>, m: ModelModality, lowercase: bool)
    ensures
        items_view(final(out)@) == items_view(old(out)@) + name_if(mods@, m, lowercase),
{
    if crate::domain::definition::contains_modality(mods, m) {
        let ghost before = out@;
        out.push(crate::json::str_value(modality_str(m, lowercase)));
        proof {
            lemma_items_view(out@);
            lemma_items_view(before);
            assert(items_view(out@) =~= items_view(before) + name_if(mods@, m, lowercase));
        }
    } else {
        assert(items_view(out@) =~= items_view(out@) + name_if(mods@, m, lowercase));
    }
}

/// The names of a set of modalities, in the order of `ModelModality`.
pub fn modalities(mods: &Vec<ModelModality>, lowercase: bool) -> (r: Vec<JsonValue>)
    ensures
        items_view(r@) == modality_names(mods@, lowercase),
{
    let mut out: Vec<JsonValue> = Vec::new();
    assert(items_view(out@) =~= Seq::<Json>::empty());
    push_name_if(&mut out, mods, ModelModality::Text, lowercase);
    push_name_if(&mut out, mods, ModelModality::Image, lowercase);
    push_name_if(&mut out, mods, ModelModality::Audio, lowercase);
    push_name_if(&mut out, mods, ModelModality::Video, lowercase);
    push_name_if(&mut out, mods, ModelModality::Document, lowercase);
    assert(items_view(out@) =~= modality_names(mods@, lowercase));
    out
}

/// Character sequences in strictly increasing order.
pub open spec fn sorted_views(s: Seq<Seq<char>>) -> bool {
    forall|i: int, j: int| 0 <= i < j < s.len() ==> seq_lt(#[trigger] s[i], #[trigger] s[j])
}

/// The accepted input MIME types of a model, normalized, in ascending order.
pub open spec fn mime_list(caps: ModelCapabilities) -> Seq<Seq<char>> {
    choose|s: Seq<Seq<char>>| sorted_views(s) && s.to_set() == effective_mime_set(caps.input_mime_types@)
}

proof fn lemma_sorted_unique(a: Seq<Seq<char>>, b: Seq<Seq<char>>)
    requires
        sorted_views(a),
        sorted_views(b),
        a.to_set() == b.to_set(),
    ensures
        a == b,
    decreases a.len(),
{
    if a.len() == 0 {
        if b.len() > 0 {
            assert(b.to_set().contains(b[0]));
        }
        assert(a =~= b);
    } else if b.len() == 0 {
        assert(a.to_set().contains(a[0]));
    } else {
        assert(b.to_set().contains(a[0])) by {
            assert(a.to_set().contains(a[0]));
        }
        assert(a.to_set().contains(b[0])) by {
            assert(b.to_set().contains(b[0]));
        }
        let j = choose|j: int| 0 <= j < b.len() && b[j] == a[0];
        let i = choose|i: int| 0 <= i < a.len() && a[i] == b[0];
        lemma_seq_lt_irreflexive(a[0]);
        lemma_seq_lt_irreflexive(b[0]);
        if j > 0 {
            assert(seq_lt(b[0], b[j]));
            if i > 0 {
                assert(seq_lt(a[0], a[i]));
                lemma_seq_lt_trichotomy(a[0], b[0]);
            }
        }
        assert(a[0] == b[0]);
        let a1 = a.drop_first();
        let b1 = b.drop_first();
        assert forall|x: Seq<char>| a1.to_set().contains(x) <==> b1.to_set().contains(x) by {
            if a1.to_set().contains(x) {
                let k = choose|k: int| 0 <= k < a1.len() && a1[k] == x;
                assert(a[k + 1] == x);
                assert(seq_lt(a[0], x));
                assert(a.to_set().contains(x));
                assert(b.to_set().contains(x));
                let m = choose|m: int| 0 <= m < b.len() && b[m] == x;
                if m == 0 {
                    lemma_seq_lt_irreflexive(x);
                }
                assert(b1[m - 1] == x);
            }
            if b1.to_set().contains(x) {
                let k = choose|k: int| 0 <= k < b1.len() && b1[k] == x;
                assert(b[k + 1] == x);
                assert(seq_lt(b[0], x));
                assert(b.to_set().contains(x));
                assert(a.to_set().contains(x));
                let m = choose|m: int| 0 <= m < a.len() && a[m] == x;
                if m == 0 {
                    lemma_seq_lt_irreflexive(x);
                }
                assert(a1[m - 1] == x);
            }
        }
        assert(a1.to_set() =~= b1.to_set());
        assert forall|p: int, q: int| 0 <= p < q < a1.len() implies seq_lt(#[trigger] a1[p], #[trigger] a1[q]) by {
            assert(a1[p] == a[p + 1] && a1[q] == a[q + 1]);
        }
        assert forall|p: int, q: int| 0 <= p < q < b1.len() implies seq_lt(#[trigger] b1[p], #[trigger] b1[q]) by {
            assert(b1[p] == b[p + 1] && b1[q] == b[q + 1]);
        }
        lemma_sorted_unique(a1, b1);
        assert(a =~= b) by {
            assert forall|k: int| 0 <= k < a.len() implies a[k] == b[k] by {
                if k > 0 {
                    assert(a[k] == a1[k - 1] && b[k] == b1[k - 1]);
                }
            }
        }
    }
}

/// The accepted input MIME types, normalized and in ascending order.
pub fn sorted_input_mime_types(caps: &ModelCapabilities) -> (r: Vec<String>)
    ensures
        r@.map_values(|s: String| s@) == mime_list(*caps),
{
    let r = caps.effective_input_mime_types();
    proof {
        let v = r@.map_values(|s: String| s@);
        assert(sorted_views(v)) by {
            assert forall|i: int, j: int| 0 <= i < j < v.len() implies seq_lt(#[trigger] v[i], #[trigger] v[j]) by {
                assert(seq_lt(r@[i]@, r@[j]@));
            }
        }
        assert(v.to_set() =~= string_set(r@)) by {
            assert forall|x: Seq<char>| v.to_set().contains(x) <==> string_set(r@).contains(x) by {
                if v.to_set().contains(x) {
                    let k = choose|k: int| 0 <= k < v.len() && v[k] == x;
                    assert(r@[k]@ == x);
                }
                if string_set(r@).contains(x) {
                    let k = choose|k: int| 0 <= k < r@.len() && r@[k]@ == x;
                    assert(v[k] == x);
                }
            }
        }
        let c = mime_list(*caps);
        assert(sorted_views(c) && c.to_set() == effective_mime_set(caps.input_mime_types@));
        lemma_sorted_unique(v, c);
    }
    r
}

/// `{ mime_type: true, ... }` over the accepted input MIME types.
pub open spec fn mime_flags(caps: ModelCapabilities) -> Json {
    let l = mime_list(caps);
    Json::Object(Seq::new(l.len(), |i: int| (l[i], jbool(true))))
}

/// The accepted input MIME types as an array of strings.
pub open spec fn mime_names(caps: ModelCapabilities) -> Json {
    let l = mime_list(caps);
    Json::Array(Seq::new(l.len(), |i: int| jstr(l[i])))
}

fn mime_values(caps: &ModelCapabilities) -> (r: (JsonValue, JsonValue))
    ensures
        r.0@ == mime_flags(*caps),
        r.1@ == mime_names(*caps),
{
    let types = sorted_input_mime_types(caps);
    let ghost l = mime_list(*caps);
    let mut flags: Vec<(String, JsonValue)> = Vec::new();
    let mut names: Vec<JsonValue> = Vec::new();
    let mut i: usize = 0;
    while i < types.len()
        invariant
            i <= types@.len(),
            l == types@.map_values(|s: String| s@),
            entries_view(flags@) == Seq::new(i as nat, |k: int| (l[k], jbool(true))),
            items_view(names@) == Seq::new(i as nat, |k: int| jstr(l[k])),
        decreases types.len() - i,
    {
        let ghost fb = flags@;
        let ghost nb = names@;
        assert(l[i as int] == types@[i as int]@);
        flags.push((types[i].clone(), JsonValue::Bool(true)));
        names.push(JsonValue::Str(types[i].clone()));
        proof {
            assert(flags@.drop_last() =~= fb);
            assert(names@.drop_last() =~= nb);
            lemma_items_view(names@);
            lemma_items_view(nb);
            lemma_entries_view(flags@);
            lemma_entries_view(fb);
            assert(entries_view(flags@) =~= Seq::new((i + 1) as nat, |k: int| (l[k], jbool(true))));
            assert(items_view(names@) =~= Seq::new((i + 1) as nat, |k: int| jstr(l[k])));
        }
        i += 1;
    }
    (JsonValue::Object(flags), JsonValue::Array(names))
}

/// Context window, input limit and output limit of a model, with defaults.
pub open spec fn spec_token_limits(m: UpstreamModel) -> (u32, u32, u32) {
    (
        match m.token_limits.context_window {
            Some(v) => v,
            None => DEFAULT_CONTEXT_WINDOW,
        },
        match m.token_limits.input_token_limit {
            Some(v) => v,
            None => DEFAULT_INPUT_TOKEN_LIMIT,
        },
        match m.token_limits.output_token_limit {
            Some(v) => v,
            None => DEFAULT_OUTPUT_TOKEN_LIMIT,
        },
    )
}

pub fn token_limits(m: &UpstreamModel) -> (r: (u32, u32, u32))
    ensures
        r == spec_token_limits(*m),
{
    (
        match m.token_limits.context_window {
            Some(v) => v,
            None => DEFAULT_CONTEXT_WINDOW,
        },
        match m.token_limits.input_token_limit {
            Some(v) => v,
            None => DEFAULT_INPUT_TOKEN_LIMIT,
        },
        match m.token_limits.output_token_limit {
            Some(v) => v,
            None => DEFAULT_OUTPUT_TOKEN_LIMIT,
        },
    )
}

/// A descriptor with the model's thinking metadata: its default budget (-1:
/// dynamic), its minimum, and the budget of the virtual model's default
/// level (0 where that level turns thinking off). Unchanged for a model
/// without reasoning.
pub open spec fn reasoning_metadata(desc: Json, vm: VirtualModel, um: UpstreamModel) -> Json {
    let r = um.capabilities.reasoning;
    if !r.spec_supports_reasoning() {
        desc
    } else {
        match desc {
            Json::Object(es) => {
                let es1 = set_member(
                    es,
                    "thinkingBudget"@,
                    jint(
                        match r.thinking_budget {
                            Some(b) => b,
                            None => -1i32,
                        },
                    ),
                );
                let es2 = match r.min_thinking_budget {
                    Some(t) => set_member(es1, "minThinkingBudget"@, juint(t as int)),
                    None => es1,
                };
                let es3 = match vm.default_reasoning_level {
                    None => es2,
                    Some(l) => match levels_get(r.levels@, l) {
                        Some(Mapping::BudgetTokens(t)) => set_member(es2, "thinkingBudget"@, juint(t as int)),
                        Some(Mapping::Disabled) => set_member(es2, "thinkingBudget"@, juint(0)),
                        _ => es2,
                    },
                };
                Json::Object(es3)
            },
            _ => desc,
        }
    }
}

fn apply_reasoning_metadata(desc: JsonValue, vm: &VirtualModel, um: &UpstreamModel) -> (r: JsonValue)
    ensures
        r@ == reasoning_metadata(desc@, *vm, *um),
{
    let reasoning = &um.capabilities.reasoning;
    if !reasoning.supports_reasoning() {
        return desc;
    }
    let mut es = match desc {
        JsonValue::Object(es) => es,
        other => {
            return other;
        },
    };
    let budget: i32 = match reasoning.thinking_budget {
        Some(b) => b,
        None => -1,
    };
    set_entry(&mut es, "thinkingBudget", int_value(budget));
    if let Some(t) = reasoning.min_thinking_budget {
        set_entry(&mut es, "minThinkingBudget", uint_value(t as u64));
    }
    if let Some(level) = vm.default_reasoning_level {
        match reasoning.mapping_for(level) {
            Some(ReasoningMapping::BudgetTokens(t)) => {
                set_entry(&mut es, "thinkingBudget", uint_value(*t as u64));
            },
            Some(ReasoningMapping::Disabled) => {
                set_entry(&mut es, "thinkingBudget", uint_value(0));
            },
            _ => {},
        }
    }
    JsonValue::Object(es)
}

/// The entry of a configured model in an array catalog, before reasoning metadata.
pub open spec fn model_object_base(vm: VirtualModel, um: UpstreamModel) -> Json {
    let caps = um.capabilities;
    let host = vm.spec_host_model_id();
    let (cw, il, ol) = spec_token_limits(um);
    Json::Object(
        seq![
            ("id"@, jstr(vm.id@)),
            ("name"@, jstr("models/"@ + host)),
            ("displayName"@, jstr(vm.display_name@)),
            ("description"@, jstr("Custom BYOK Model (Provider: "@ + um.provider_id@ + ")"@)),
            ("contextWindow"@, juint(cw as int)),
            ("inputTokenLimit"@, juint(il as int)),
            ("outputTokenLimit"@, juint(ol as int)),
            ("supportsImages"@, jbool(caps.input_modalities@.contains(ModelModality::Image))),
            ("supportsAudio"@, jbool(caps.input_modalities@.contains(ModelModality::Audio))),
            ("supportsVideo"@, jbool(caps.input_modalities@.contains(ModelModality::Video))),
            ("supportsTools"@, jbool(caps.tools)),
            ("supportsThinking"@, jbool(caps.reasoning.spec_supports_reasoning())),
            ("inputModalities"@, Json::Array(modality_names(caps.input_modalities@, false))),
            ("outputModalities"@, Json::Array(modality_names(caps.output_modalities@, false))),
            ("supportedMimeTypes"@, mime_names(caps)),
        ],
    )
}

pub open spec fn spec_model_object(vm: VirtualModel, um: UpstreamModel) -> Json {
    reasoning_metadata(model_object_base(vm, um), vm, um)
}

/// The entry of a configured model in an object catalog, before the
/// provider tag and reasoning metadata.
pub open spec fn catalog_entry_base(vm: VirtualModel, um: UpstreamModel, p: Provider) -> Seq<(Seq<char>, Json)> {
    let caps = um.capabilities;
    let host = vm.spec_host_model_id();
    let (cw, il, ol) = spec_token_limits(um);
    seq![
        ("displayName"@, jstr(vm.display_name@)),
        ("contextWindow"@, juint(cw as int)),
        ("maxTokens"@, juint(il as int)),
        ("maxOutputTokens"@, juint(ol as int)),
        ("model"@, jstr(host)),
        ("planModel"@, jstr(host)),
        ("requestedModel"@, jstr(host)),
        ("apiProvider"@, jstr("API_PROVIDER_GOOGLE_GEMINI"@)),
        ("modelProvider"@, jstr(spec_host_model_provider(p.protocol))),
        ("recommended"@, jbool(false)),
        ("supportsImages"@, jbool(caps.input_modalities@.contains(ModelModality::Image))),
        ("supportsThinking"@, jbool(caps.reasoning.spec_supports_reasoning())),
        ("supportsVideo"@, jbool(caps.input_modalities@.contains(ModelModality::Video))),
        ("inputModalities"@, Json::Array(modality_names(caps.input_modalities@, false))),
        ("outputModalities"@, Json::Array(modality_names(caps.output_modalities@, false))),
        ("supportedMimeTypes"@, mime_flags(caps)),
    ]
}

/// The provider's trimmed name as a tag, where it has one.
pub open spec fn with_provider_tag(es: Seq<(Seq<char>, Json)>, p: Provider) -> Seq<(Seq<char>, Json)> {
    let name = trim(p.name@);
    if name.len() == 0 {
        es
    } else {
        set_member(set_member(es, "tagTitle"@, jstr(name)), "tagDescription"@, jstr("Provider: "@ + name))
    }
}

pub open spec fn spec_catalog_entry(vm: VirtualModel, um: UpstreamModel, p: Provider) -> Json {
    reasoning_metadata(Json::Object(with_provider_tag(catalog_entry_base(vm, um, p), p)), vm, um)
}

fn concat_str(a: &str, b: &str, c: &str) -> (r: String)
    ensures
        r@ == a@ + b@ + c@,
{
    let mut buf: Vec<char> = Vec::new();
    crate::text::push_str(&mut buf, a);
    crate::text::push_str(&mut buf, b);
    crate::text::push_str(&mut buf, c);
    assert(buf@ =~= a@ + b@ + c@);
    string_from_chars(buf.as_slice())
}

impl AntigravityModelDescriptor {
    /// The entry of a configured model in an array catalog.
    #[verifier::rlimit(50)]
    pub fn build_model_object(virtual_model: &VirtualModel, upstream_model: &UpstreamModel) -> (r: JsonValue)
        ensures
            r@ == spec_model_object(*virtual_model, *upstream_model),
    {
        let caps = &upstream_model.capabilities;
        let host = virtual_model.effective_host_model_id();
        let (_, names) = mime_values(caps);
        let (cw, il, ol) = token_limits(upstream_model);
        let mut es: Vec<(String, JsonValue)> = Vec::new();
        push_entry(&mut es, "id", JsonValue::Str(virtual_model.id.clone()));
        push_entry(&mut es, "name", JsonValue::Str(crate::text::concat2("models/", host.as_str())));
        push_entry(&mut es, "displayName", JsonValue::Str(virtual_model.display_name.clone()));
        push_entry(
            &mut es,
            "description",
            JsonValue::Str(concat_str("Custom BYOK Model (Provider: ", upstream_model.provider_id.as_str(), ")")),
        );
        push_entry(&mut es, "contextWindow", uint_value(cw as u64));
        push_entry(&mut es, "inputTokenLimit", uint_value(il as u64));
        push_entry(&mut es, "outputTokenLimit", uint_value(ol as u64));
        push_entry(&mut es, "supportsImages", JsonValue::Bool(caps.supports_input(ModelModality::Image)));
        push_entry(&mut es, "supportsAudio", JsonValue::Bool(caps.supports_input(ModelModality::Audio)));
        push_entry(&mut es, "supportsVideo", JsonValue::Bool(caps.supports_input(ModelModality::Video)));
        push_entry(&mut es, "supportsTools", JsonValue::Bool(caps.tools));
        push_entry(&mut es, "supportsThinking", JsonValue::Bool(caps.reasoning.supports_reasoning()));
        push_entry(&mut es, "inputModalities", JsonValue::Array(modalities(&caps.input_modalities, false)));
        push_entry(&mut es, "outputModalities", JsonValue::Array(modalities(&caps.output_modalities, false)));
        push_entry(&mut es, "supportedMimeTypes", names);
        proof {
            match model_object_base(*virtual_model, *upstream_model) {
                Json::Object(b) => {
                    assert(entries_view(es@) =~= b);
                },
                _ => {},
            }
        }
        apply_reasoning_metadata(JsonValue::Object(es), virtual_model, upstream_model)
    }

    /// The entry of a configured model in an object catalog.
    #[verifier::rlimit(50)]
    pub fn build_cloud_code_catalog_entry(
        virtual_model: &VirtualModel,
        upstream_model: &UpstreamModel,
        provider: &Provider,
    ) -> (r: JsonValue)
        ensures
            r@ == spec_catalog_entry(*virtual_model, *upstream_model, *provider),
    {
        let caps = &upstream_model.capabilities;
        let host = virtual_model.effective_host_model_id();
        let (flags, _) = mime_values(caps);
        let (cw, il, ol) = token_limits(upstream_model);
        let mut es: Vec<(String, JsonValue)> = Vec::new();
        push_entry(&mut es, "displayName", JsonValue::Str(virtual_model.display_name.clone()));
        push_entry(&mut es, "contextWindow", uint_value(cw as u64));
        push_entry(&mut es, "maxTokens", uint_value(il as u64));
        push_entry(&mut es, "maxOutputTokens", uint_value(ol as u64));
        push_entry(&mut es, "model", JsonValue::Str(host.clone()));
        push_entry(&mut es, "planModel", JsonValue::Str(host.clone()));
        push_entry(&mut es, "requestedModel", JsonValue::Str(host));
        push_entry(&mut es, "apiProvider", crate::json::str_value("API_PROVIDER_GOOGLE_GEMINI"));
        push_entry(&mut es, "modelProvider", crate::json::str_value(host_model_provider(provider.protocol)));
        push_entry(&mut es, "recommended", JsonValue::Bool(false));
        push_entry(&mut es, "supportsImages", JsonValue::Bool(caps.supports_input(ModelModality::Image)));
        push_entry(&mut es, "supportsThinking", JsonValue::Bool(caps.reasoning.supports_reasoning()));
        push_entry(&mut es, "supportsVideo", JsonValue::Bool(caps.supports_input(ModelModality::Video)));
        push_entry(&mut es, "inputModalities", JsonValue::Array(modalities(&caps.input_modalities, false)));
        push_entry(&mut es, "outputModalities", JsonValue::Array(modalities(&caps.output_modalities, false)));
        push_entry(&mut es, "supportedMimeTypes", flags);
        proof {
            assert(entries_view(es@) =~= catalog_entry_base(*virtual_model, *upstream_model, *provider));
        }
        let name_chars = chars_of(provider.name.as_str());
        let name = crate::text::trim_chars(name_chars.as_slice());
        if name.len() > 0 {
            let title = string_from_chars(name.as_slice());
            let description = crate::text::concat2("Provider: ", title.as_str());
            set_entry(&mut es, "tagTitle", JsonValue::Str(title));
            set_entry(&mut es, "tagDescription", JsonValue::Str(description));
        }
        apply_reasoning_metadata(JsonValue::Object(es), virtual_model, upstream_model)
    }
}

// ---------------------------------------------------------------------------
// Compression policies of configured models.
// ---------------------------------------------------------------------------

/// A configured model's entry with its own compression policy, where it is
/// enabled: fitted to the model's compression capacity and to its output
/// limit, itself capped by the Checkpointer worker's limit (`lim`, by the
/// worker's current ID first). The policy itself supplies the settings
/// where the entry has none.
pub open spec fn custom_compressed(
    desc: Json,
    um: UpstreamModel,
    lim: spec_fn(Seq<char>) -> Option<u32>,
    t: Seq<(Seq<char>, Seq<char>)>,
) -> Json {
    match um.compression_policy {
        None => desc,
        Some(p) => if !p.enabled {
            desc
        } else {
            let out = spec_token_limits(um).2;
            let capacity = um.token_limits.spec_compression_capacity(DEFAULT_CONTEXT_WINDOW, DEFAULT_INPUT_TOKEN_LIMIT);
            let canon = canonical(p.checkpoint_model@, t);
            let worker_limit = match lim(canon) {
                Some(l) => Some(l),
                None => lim(p.checkpoint_model@),
            };
            let eff = match worker_limit {
                Some(l) => min_u32(out, l),
                None => out,
            };
            compressed_entry(desc, p, capacity, eff, Some(p))
        },
    }
}

fn apply_custom_model_compression_policy(
    desc: JsonValue,
    um: &UpstreamModel,
    limits: &Vec<(String, u32)>,
    aliases: &Vec<(String, String)>,
) -> (r: JsonValue)
    ensures
        r@ == custom_compressed(desc@, *um, |w: Seq<char>| limit_lookup(limits@, w), table_view(aliases@)),
{
    let policy = match &um.compression_policy {
        Some(p) => p,
        None => {
            return desc;
        },
    };
    if !policy.enabled {
        return desc;
    }
    let (_, _, out) = token_limits(um);
    let capacity = um.token_limits.effective_compression_capacity(DEFAULT_CONTEXT_WINDOW, DEFAULT_INPUT_TOKEN_LIMIT);
    let canon = canonical_model_id(policy.checkpoint_model.as_str(), aliases);
    let worker_limit = match super::checkpoint::lookup_worker_limit(limits, canon.as_str()) {
        Some(l) => Some(l),
        None => super::checkpoint::lookup_worker_limit(limits, policy.checkpoint_model.as_str()),
    };
    let eff = match worker_limit {
        Some(l) => if out <= l {
            out
        } else {
            l
        },
        None => out,
    };
    apply_model_compression_policy(desc, policy, capacity, eff, Some(policy))
}

pub open spec fn custom_model_object(
    vm: VirtualModel,
    um: UpstreamModel,
    lim: spec_fn(Seq<char>) -> Option<u32>,
    t: Seq<(Seq<char>, Seq<char>)>,
) -> Json {
    custom_compressed(spec_model_object(vm, um), um, lim, t)
}

pub open spec fn custom_catalog_entry(
    vm: VirtualModel,
    um: UpstreamModel,
    p: Provider,
    lim: spec_fn(Seq<char>) -> Option<u32>,
    t: Seq<(Seq<char>, Seq<char>)>,
) -> Json {
    custom_compressed(spec_catalog_entry(vm, um, p), um, lim, t)
}

// ---------------------------------------------------------------------------
// Which configured models are shown.
// ---------------------------------------------------------------------------

/// The first of the first `n` enabled upstream models with ID `id`.
pub open spec fn enabled_upstream(ums: Seq<UpstreamModel>, id: Seq<char>, n: nat) -> Option<int>
    decreases n,
{
    if n == 0 {
        None
    } else {
        match enabled_upstream(ums, id, (n - 1) as nat) {
            Some(j) => Some(j),
            None => if ums[n - 1].id@ == id && ums[n - 1].enabled {
                Some(n - 1)
            } else {
                None
            },
        }
    }
}

/// The first of the first `n` enabled providers with ID `id`.
pub open spec fn enabled_provider(ps: Seq<Provider>, id: Seq<char>, n: nat) -> Option<int>
    decreases n,
{
    if n == 0 {
        None
    } else {
        match enabled_provider(ps, id, (n - 1) as nat) {
            Some(j) => Some(j),
            None => if ps[n - 1].id@ == id && ps[n - 1].enabled {
                Some(n - 1)
            } else {
                None
            },
        }
    }
}

/// The enabled upstream model and provider a virtual model reaches.
pub open spec fn route_of(vm: VirtualModel, ums: Seq<UpstreamModel>, ps: Seq<Provider>) -> Option<(int, int)> {
    if !vm.enabled {
        None
    } else {
        match enabled_upstream(ums, vm.upstream_model_id@, ums.len()) {
            None => None,
            Some(u) => match enabled_provider(ps, ums[u].provider_id@, ps.len()) {
                None => None,
                Some(p) => Some((u, p)),
            },
        }
    }
}

/// The shown models among the first `n` virtual models, as positions of
/// (virtual model, upstream model, provider).
pub open spec fn selected(vms: Seq<VirtualModel>, ums: Seq<UpstreamModel>, ps: Seq<Provider>, n: nat) -> Seq<(int, int, int)>
    decreases n,
{
    if n == 0 {
        Seq::empty()
    } else {
        let s = selected(vms, ums, ps, (n - 1) as nat);
        match route_of(vms[n - 1], ums, ps) {
            Some((u, p)) => s.push((n - 1, u, p)),
            None => s,
        }
    }
}

pub open spec fn selection_valid(sel: Seq<(int, int, int)>, vn: nat, un: nat, pn: nat) -> bool {
    forall|k: int| 0 <= k < sel.len() ==> 0 <= (#[trigger] sel[k]).0 < vn && 0 <= sel[k].1 < un && 0 <= sel[k].2 < pn
}

proof fn lemma_enabled_upstream_stable(ums: Seq<UpstreamModel>, id: Seq<char>, k: nat, n: nat)
    requires
        k <= n,
        enabled_upstream(ums, id, k) is Some,
    ensures
        enabled_upstream(ums, id, n) == enabled_upstream(ums, id, k),
    decreases n - k,
{
    if k < n {
        lemma_enabled_upstream_stable(ums, id, k, (n - 1) as nat);
    }
}

proof fn lemma_enabled_provider_stable(ps: Seq<Provider>, id: Seq<char>, k: nat, n: nat)
    requires
        k <= n,
        enabled_provider(ps, id, k) is Some,
    ensures
        enabled_provider(ps, id, n) == enabled_provider(ps, id, k),
    decreases n - k,
{
    if k < n {
        lemma_enabled_provider_stable(ps, id, k, (n - 1) as nat);
    }
}

fn find_enabled_upstream(ums: &[UpstreamModel], id: &str) -> (r: Option<usize>)
    ensures
        (match r {
            Some(j) => enabled_upstream(ums@, id@, ums@.len()) == Some(j as int) && j < ums@.len(),
            None => enabled_upstream(ums@, id@, ums@.len()) is None,
        }),
{
    let mut j: usize = 0;
    while j < ums.len()
        invariant
            j <= ums@.len(),
            enabled_upstream(ums@, id@, j as nat) is None,
        decreases ums.len() - j,
    {
        if ums[j].enabled && crate::text::str_eq(ums[j].id.as_str(), id) {
            proof {
                lemma_enabled_upstream_stable(ums@, id@, j as nat + 1, ums@.len());
            }
            return Some(j);
        }
        j += 1;
    }
    None
}

fn find_enabled_provider(ps: &[Provider], id: &str) -> (r: Option<usize>)
    ensures
        (match r {
            Some(j) => enabled_provider(ps@, id@, ps@.len()) == Some(j as int) && j < ps@.len(),
            None => enabled_provider(ps@, id@, ps@.len()) is None,
        }),
{
    let mut j: usize = 0;
    while j < ps.len()
        invariant
            j <= ps@.len(),
            enabled_provider(ps@, id@, j as nat) is None,
        decreases ps.len() - j,
    {
        if ps[j].enabled && crate::text::str_eq(ps[j].id.as_str(), id) {
            proof {
                lemma_enabled_provider_stable(ps@, id@, j as nat + 1, ps@.len());
            }
            return Some(j);
        }
        j += 1;
    }
    None
}

/// Positions of the shown models: enabled virtual models whose upstream
/// model and provider are enabled.
pub fn select_models(vms: &[VirtualModel], ums: &[UpstreamModel], ps: &[Provider]) -> (r: Vec<(usize, usize, usize)>)
    ensures
        r@.len() == selected(vms@, ums@, ps@, vms@.len()).len(),
        forall|k: int| 0 <= k < r@.len() ==> ((#[trigger] r@[k]).0 as int, r@[k].1 as int, r@[k].2 as int) == selected(vms@, ums@, ps@, vms@.len())[k],
        forall|k: int| 0 <= k < r@.len() ==> (#[trigger] r@[k]).0 < vms@.len() && r@[k].1 < ums@.len() && r@[k].2 < ps@.len(),
{
    let mut out: Vec<(usize, usize, usize)> = Vec::new();
    let mut i: usize = 0;
    while i < vms.len()
        invariant
            i <= vms@.len(),
            out@.len() == selected(vms@, ums@, ps@, i as nat).len(),
            forall|k: int| 0 <= k < out@.len() ==> ((#[trigger] out@[k]).0 as int, out@[k].1 as int, out@[k].2 as int) == selected(vms@, ums@, ps@, i as nat)[k],
            forall|k: int| 0 <= k < out@.len() ==> (#[trigger] out@[k]).0 < vms@.len() && out@[k].1 < ums@.len() && out@[k].2 < ps@.len(),
        decreases vms.len() - i,
    {
        let vm = &vms[i];
        if vm.enabled {
            match find_enabled_upstream(ums, vm.upstream_model_id.as_str()) {
                Some(u) => match find_enabled_provider(ps, ums[u].provider_id.as_str()) {
                    Some(p) => {
                        out.push((i, u, p));
                    },
                    None => {},
                },
                None => {},
            }
        }
        i += 1;
    }
    out
}

// ---------------------------------------------------------------------------
// Adding entries.
// ---------------------------------------------------------------------------

/// Object entries with the configured models set under their catalog keys.
pub open spec fn inserted_entries(
    es: Seq<(Seq<char>, Json)>,
    sel: Seq<(int, int, int)>,
    vms: Seq<VirtualModel>,
    ums: Seq<UpstreamModel>,
    ps: Seq<Provider>,
    lim: spec_fn(Seq<char>) -> Option<u32>,
    t: Seq<(Seq<char>, Seq<char>)>,
    n: nat,
) -> Seq<(Seq<char>, Json)>
    decreases n,
{
    if n == 0 {
        es
    } else {
        let (v, u, p) = sel[n - 1];
        set_member(
            inserted_entries(es, sel, vms, ums, ps, lim, t, (n - 1) as nat),
            vms[v].spec_catalog_key(),
            custom_catalog_entry(vms[v], ums[u], ps[p], lim, t),
        )
    }
}

/// A model collection with the configured models added: appended to an
/// array, set by catalog key in an object, or replacing anything else with
/// an object of them.
pub open spec fn models_injected(
    target: Json,
    sel: Seq<(int, int, int)>,
    vms: Seq<VirtualModel>,
    ums: Seq<UpstreamModel>,
    ps: Seq<Provider>,
    lim: spec_fn(Seq<char>) -> Option<u32>,
    t: Seq<(Seq<char>, Seq<char>)>,
) -> Json {
    match target {
        Json::Array(items) => Json::Array(
            items + Seq::new(sel.len(), |k: int| custom_model_object(vms[sel[k].0], ums[sel[k].1], lim, t)),
        ),
        Json::Object(es) => Json::Object(inserted_entries(es, sel, vms, ums, ps, lim, t, sel.len())),
        _ => Json::Object(inserted_entries(Seq::empty(), sel, vms, ums, ps, lim, t, sel.len())),
    }
}

pub open spec fn sel_view(sel: Seq<(usize, usize, usize)>) -> Seq<(int, int, int)> {
    Seq::new(sel.len(), |k: int| (sel[k].0 as int, sel[k].1 as int, sel[k].2 as int))
}

fn inject_models(
    target: JsonValue,
    sel: &Vec<(usize, usize, usize)>,
    vms: &[VirtualModel],
    ums: &[UpstreamModel],
    ps: &[Provider],
    limits: &Vec<(String, u32)>,
    aliases: &Vec<(String, String)>,
) -> (r: JsonValue)
    requires
        forall|k: int| 0 <= k < sel@.len() ==> (#[trigger] sel@[k]).0 < vms@.len() && sel@[k].1 < ums@.len() && sel@[k].2 < ps@.len(),
    ensures
        r@ == models_injected(
            target@,
            sel_view(sel@),
            vms@,
            ums@,
            ps@,
            |w: Seq<char>| limit_lookup(limits@, w),
            table_view(aliases@),
        ),
{
    let ghost lim = |w: Seq<char>| limit_lookup(limits@, w);
    let ghost t = table_view(aliases@);
    let ghost sv = sel_view(sel@);
    match target {
        JsonValue::Array(mut items) => {
            let ghost base = items_view(items@);
            let mut k: usize = 0;
            while k < sel.len()
                invariant
                    k <= sel@.len(),
                    sv == sel_view(sel@),
                    lim == (|w: Seq<char>| limit_lookup(limits@, w)),
                    t == table_view(aliases@),
                    forall|q: int| 0 <= q < sel@.len() ==> (#[trigger] sel@[q]).0 < vms@.len() && sel@[q].1 < ums@.len() && sel@[q].2 < ps@.len(),
                    items_view(items@) == base + Seq::new(k as nat, |q: int| custom_model_object(vms@[sv[q].0], ums@[sv[q].1], lim, t)),
                decreases sel.len() - k,
            {
                let (v, u, _) = sel[k];
                let obj = AntigravityModelDescriptor::build_model_object(&vms[v], &ums[u]);
                let e = apply_custom_model_compression_policy(obj, &ums[u], limits, aliases);
                crate::json::push_item(&mut items, e);
                proof {
                    assert(items_view(items@) =~= base + Seq::new((k + 1) as nat, |q: int| custom_model_object(vms@[sv[q].0], ums@[sv[q].1], lim, t)));
                }
                k += 1;
            }
            JsonValue::Array(items)
        },
        other => {
            let mut es: Vec<(String, JsonValue)> = match other {
                JsonValue::Object(es) => es,
                _ => Vec::new(),
            };
            let ghost base = entries_view(es@);
            proof {
                if !(other@ is Object) {
                    assert(base =~= Seq::<(Seq<char>, Json)>::empty());
                }
            }
            let mut k: usize = 0;
            while k < sel.len()
                invariant
                    k <= sel@.len(),
                    sv == sel_view(sel@),
                    lim == (|w: Seq<char>| limit_lookup(limits@, w)),
                    t == table_view(aliases@),
                    forall|q: int| 0 <= q < sel@.len() ==> (#[trigger] sel@[q]).0 < vms@.len() && sel@[q].1 < ums@.len() && sel@[q].2 < ps@.len(),
                    entries_view(es@) == inserted_entries(base, sv, vms@, ums@, ps@, lim, t, k as nat),
                decreases sel.len() - k,
            {
                let (v, u, p) = sel[k];
                let entry = AntigravityModelDescriptor::build_cloud_code_catalog_entry(&vms[v], &ums[u], &ps[p]);
                let e = apply_custom_model_compression_policy(entry, &ums[u], limits, aliases);
                let key = vms[v].catalog_key();
                set_entry(&mut es, key.as_str(), e);
                k += 1;
            }
            JsonValue::Object(es)
        },
    }
}

/// `ids` with each of `keys` appended that no string item equals.
pub open spec fn add_missing(ids: Seq<Json>, keys: Seq<Seq<char>>) -> Seq<Json>
    decreases keys.len(),
{
    if keys.len() == 0 {
        ids
    } else {
        let r = add_missing(ids, keys.drop_last());
        if exists|j: int| 0 <= j < r.len() && (#[trigger] r[j]).as_str() == Some(keys.last()) {
            r
        } else {
            r.push(jstr(keys.last()))
        }
    }
}

fn has_str_item(ids: &Vec<JsonValue>, key: &str) -> (r: bool)
    ensures
        r == exists|j: int| 0 <= j < items_view(ids@).len() && (#[trigger] items_view(ids@)[j]).as_str() == Some(key@),
{
    proof {
        lemma_items_view(ids@);
    }
    let ghost iv = items_view(ids@);
    let mut j: usize = 0;
    while j < ids.len()
        invariant
            j <= ids@.len(),
            iv == items_view(ids@),
            iv.len() == ids@.len(),
            forall|q: int| 0 <= q < ids@.len() ==> #[trigger] iv[q] == ids@[q]@,
            forall|q: int| 0 <= q < j ==> (#[trigger] iv[q]).as_str() != Some(key@),
        decreases ids.len() - j,
    {
        match ids[j].as_str() {
            Some(s) => {
                if crate::text::str_eq(s.as_str(), key) {
                    assert(iv[j as int].as_str() == Some(key@));
                    return true;
                }
            },
            None => {},
        }
        j += 1;
    }
    false
}

pub open spec fn keys_view(keys: Seq<String>) -> Seq<Seq<char>> {
    Seq::new(keys.len(), |i: int| keys[i]@)
}

fn push_missing(ids: &mut Vec<JsonValue>, keys: &Vec<String>)
    ensures
        items_view(final(ids)@) == add_missing(items_view(old(ids)@), keys_view(keys@)),
{
    let ghost base = items_view(ids@);
    let ghost kv = keys_view(keys@);
    let mut k: usize = 0;
    assert(kv.take(0) =~= Seq::<Seq<char>>::empty());
    while k < keys.len()
        invariant
            k <= keys@.len(),
            kv == keys_view(keys@),
            items_view(ids@) == add_missing(base, kv.take(k as int)),
        decreases keys.len() - k,
    {
        assert(kv.take(k + 1).drop_last() =~= kv.take(k as int));
        assert(kv.take(k + 1).last() == keys@[k as int]@);
        if !has_str_item(ids, keys[k].as_str()) {
            crate::json::push_item(ids, JsonValue::Str(keys[k].clone()));
        }
        k += 1;
    }
    assert(kv.take(keys@.len() as int) =~= kv);
}

/// A catalog with each selected key added once to its role list `field`
/// (created where it is not an array).
pub open spec fn role_list_placed(c: Json, field: Seq<char>, keys: Seq<Seq<char>>) -> Json {
    if keys.len() == 0 {
        c
    } else {
        match c {
            Json::Object(es) => {
                let ids0 = match entries_get(es, field) {
                    Some(Json::Array(a)) => a,
                    _ => Seq::empty(),
                };
                Json::Object(set_member(es, field, Json::Array(add_missing(ids0, keys))))
            },
            _ => c,
        }
    }
}

fn place_catalog_keys_in_role_list(c: JsonValue, field: &str, selected_keys: &Vec<String>) -> (r: JsonValue)
    ensures
        r@ == role_list_placed(c@, field@, keys_view(selected_keys@)),
{
    if selected_keys.len() == 0 {
        return c;
    }
    match c {
        JsonValue::Object(mut es) => {
            let mut ids: Vec<JsonValue> = match crate::json::entries_lookup(&es, field) {
                Some(v) => match v.deep_clone() {
                    JsonValue::Array(a) => a,
                    _ => Vec::new(),
                },
                None => Vec::new(),
            };
            proof {
                assert(items_view(Seq::<JsonValue>::empty()) =~= Seq::<Json>::empty());
            }
            push_missing(&mut ids, selected_keys);
            set_entry(&mut es, field, JsonValue::Array(ids));
            JsonValue::Object(es)
        },
        other => other,
    }
}

// ---------------------------------------------------------------------------
// The host's model sorts.
// ---------------------------------------------------------------------------

pub open spec fn listed(keys: Seq<Seq<char>>, j: Json) -> bool {
    j.as_str() matches Some(s) && keys.contains(s)
}

/// `ids` without the strings listed in `keys`.
pub open spec fn drop_listed(ids: Seq<Json>, keys: Seq<Seq<char>>) -> Seq<Json>
    decreases ids.len(),
{
    if ids.len() == 0 {
        ids
    } else {
        let r = drop_listed(ids.drop_last(), keys);
        if listed(keys, ids.last()) {
            r
        } else {
            r.push(ids.last())
        }
    }
}

/// The keys of `all` that are not in `agent`.
pub open spec fn non_agent_keys(all: Seq<Seq<char>>, agent: Seq<Seq<char>>) -> Seq<Seq<char>>
    decreases all.len(),
{
    if all.len() == 0 {
        all
    } else {
        let r = non_agent_keys(all.drop_last(), agent);
        if agent.contains(all.last()) {
            r
        } else {
            r.push(all.last())
        }
    }
}

/// A sort group with the non-agent keys taken out and the agent keys added.
pub open spec fn group_placed(g: Json, na: Seq<Seq<char>>, agent: Seq<Seq<char>>) -> Json {
    match g {
        Json::Object(es) => match entries_get(es, "modelIds"@) {
            Some(Json::Array(ids)) => Json::Object(
                set_member(
                    es,
                    "modelIds"@,
                    Json::Array(
                        add_missing(
                            if na.len() > 0 {
                                drop_listed(ids, na)
                            } else {
                                ids
                            },
                            agent,
                        ),
                    ),
                ),
            ),
            _ => g,
        },
        _ => g,
    }
}

pub open spec fn sort_placed(s: Json, na: Seq<Seq<char>>, agent: Seq<Seq<char>>) -> Json {
    match s {
        Json::Object(es) => match entries_get(es, "groups"@) {
            Some(Json::Array(gs)) => Json::Object(
                set_member(es, "groups"@, Json::Array(Seq::new(gs.len(), |j: int| group_placed(gs[j], na, agent)))),
            ),
            _ => s,
        },
        _ => s,
    }
}

pub open spec fn is_byok(s: Json) -> bool {
    s.get("displayName"@) matches Some(Json::Str(n)) && n == "BYOK"@
}

/// The first of the first `n` sorts named BYOK.
pub open spec fn first_byok(sorts: Seq<Json>, n: nat) -> Option<int>
    decreases n,
{
    if n == 0 {
        None
    } else {
        match first_byok(sorts, (n - 1) as nat) {
            Some(i) => Some(i),
            None => if is_byok(sorts[n - 1]) {
                Some(n - 1)
            } else {
                None
            },
        }
    }
}

pub open spec fn empty_group() -> Json {
    jobj1("modelIds"@, Json::Array(Seq::empty()))
}

pub open spec fn new_byok_sort() -> Json {
    jobj2("displayName"@, jstr("BYOK"@), "groups"@, Json::Array(seq![empty_group()]))
}

/// `value[key] = v`: an object takes the member, `null` becomes an object
/// of it (anything else makes serde_json panic).
pub open spec fn index_set(j: Json, k: Seq<char>, v: Json) -> Json {
    match j {
        Json::Object(es) => Json::Object(set_member(es, k, v)),
        Json::Null => Json::Object(seq![(k, v)]),
        _ => j,
    }
}

/// The groups of the BYOK sort, created where missing, and their first group.
pub open spec fn byok_groups(b: Json) -> (Json, Seq<Json>) {
    let b1 = if b.get("groups"@) matches Some(Json::Array(_)) {
        b
    } else {
        index_set(b, "groups"@, Json::Array(Seq::empty()))
    };
    let gs = match b1.get("groups"@) {
        Some(Json::Array(gs)) => gs,
        _ => Seq::empty(),
    };
    (b1, if gs.len() == 0 {
        seq![empty_group()]
    } else {
        gs
    })
}

/// The BYOK sort with every agent key in its first group.
pub open spec fn byok_filled(b: Json, agent: Seq<Seq<char>>) -> Json {
    let (b1, g1) = byok_groups(b);
    let g0 = g1[0];
    let g0b = if g0.get("modelIds"@) matches Some(Json::Array(_)) {
        g0
    } else {
        index_set(g0, "modelIds"@, Json::Array(Seq::empty()))
    };
    let ids = match g0b.get("modelIds"@) {
        Some(Json::Array(ids)) => ids,
        _ => Seq::empty(),
    };
    super::obj_set(b1, "groups"@, Json::Array(g1.update(0, super::obj_set(g0b, "modelIds"@, Json::Array(add_missing(ids, agent))))))
}

/// The sorts with the catalog keys placed: non-agent keys leave every
/// group, agent keys join every group, and a BYOK sort (created where
/// missing) holds the agent keys in its first group.
pub open spec fn byok_sorts(sorts: Seq<Json>, all: Seq<Seq<char>>, agent: Seq<Seq<char>>) -> Seq<Json> {
    let na = non_agent_keys(all, agent);
    let s1 = Seq::new(sorts.len(), |i: int| sort_placed(sorts[i], na, agent));
    if agent.len() == 0 {
        s1
    } else {
        match first_byok(s1, s1.len()) {
            Some(i) => s1.update(i, byok_filled(s1[i], agent)),
            None => s1.push(byok_filled(new_byok_sort(), agent)),
        }
    }
}

pub open spec fn byok_placed(c: Json, all: Seq<Seq<char>>, agent: Seq<Seq<char>>) -> Json {
    if all.len() == 0 {
        c
    } else {
        match c.get("agentModelSorts"@) {
            Some(Json::Array(sorts)) => super::obj_set(c, "agentModelSorts"@, Json::Array(byok_sorts(sorts, all, agent))),
            _ => c,
        }
    }
}

/// Whether placing the keys goes through: serde_json panics where the first
/// group of the BYOK sort is neither an object nor `null`.
pub open spec fn byok_ok(c: Json, all: Seq<Seq<char>>, agent: Seq<Seq<char>>) -> bool {
    all.len() > 0 && agent.len() > 0 ==> match c.get("agentModelSorts"@) {
        Some(Json::Array(sorts)) => {
            let na = non_agent_keys(all, agent);
            let s1 = Seq::new(sorts.len(), |i: int| sort_placed(sorts[i], na, agent));
            match first_byok(s1, s1.len()) {
                Some(i) => {
                    let g0 = byok_groups(s1[i]).1[0];
                    g0 is Object || g0 is Null
                },
                None => true,
            }
        },
        _ => true,
    }
}

fn non_agent(all: &Vec<String>, agent: &Vec<String>) -> (r: Vec<String>)
    ensures
        keys_view(r@) == non_agent_keys(keys_view(all@), keys_view(agent@)),
{
    let ghost av = keys_view(all@);
    let ghost gv = keys_view(agent@);
    let mut out: Vec<String> = Vec::new();
    let mut i: usize = 0;
    assert(av.take(0) =~= Seq::<Seq<char>>::empty());
    assert(keys_view(out@) =~= Seq::<Seq<char>>::empty());
    while i < all.len()
        invariant
            i <= all@.len(),
            av == keys_view(all@),
            gv == keys_view(agent@),
            keys_view(out@) == non_agent_keys(av.take(i as int), gv),
        decreases all.len() - i,
    {
        assert(av.take(i + 1).drop_last() =~= av.take(i as int));
        assert(av.take(i + 1).last() == all@[i as int]@);
        if !contains_key(agent, all[i].as_str()) {
            let ghost before = out@;
            out.push(all[i].clone());
            assert(keys_view(out@) =~= keys_view(before).push(all@[i as int]@));
        }
        i += 1;
    }
    assert(av.take(all@.len() as int) =~= av);
    out
}

fn contains_key(keys: &Vec<String>, k: &str) -> (r: bool)
    ensures
        r == keys_view(keys@).contains(k@),
{
    let ghost kv = keys_view(keys@);
    let mut i: usize = 0;
    while i < keys.len()
        invariant
            i <= keys@.len(),
            kv == keys_view(keys@),
            forall|j: int| 0 <= j < i ==> kv[j] != k@,
        decreases keys.len() - i,
    {
        if crate::text::str_eq(keys[i].as_str(), k) {
            assert(kv[i as int] == k@);
            return true;
        }
        i += 1;
    }
    false
}

fn drop_listed_ids(ids: &Vec<JsonValue>, keys: &Vec<String>) -> (r: Vec<JsonValue>)
    ensures
        items_view(r@) == drop_listed(items_view(ids@), keys_view(keys@)),
{
    proof {
        lemma_items_view(ids@);
    }
    let ghost iv = items_view(ids@);
    let ghost kv = keys_view(keys@);
    let mut out: Vec<JsonValue> = Vec::new();
    let mut i: usize = 0;
    assert(iv.take(0) =~= Seq::<Json>::empty());
    assert(items_view(out@) =~= Seq::<Json>::empty());
    while i < ids.len()
        invariant
            i <= ids@.len(),
            iv == items_view(ids@),
            kv == keys_view(keys@),
            iv.len() == ids@.len(),
            forall|q: int| 0 <= q < ids@.len() ==> #[trigger] iv[q] == ids@[q]@,
            items_view(out@) == drop_listed(iv.take(i as int), kv),
        decreases ids.len() - i,
    {
        assert(iv.take(i + 1).drop_last() =~= iv.take(i as int));
        let is_listed = match ids[i].as_str() {
            Some(s) => contains_key(keys, s.as_str()),
            None => false,
        };
        if !is_listed {
            crate::json::push_item(&mut out, ids[i].deep_clone());
        }
        i += 1;
    }
    assert(iv.take(ids@.len() as int) =~= iv);
    out
}

fn placed_group(g: &JsonValue, na: &Vec<String>, agent: &Vec<String>) -> (r: JsonValue)
    ensures
        r@ == group_placed(g@, keys_view(na@), keys_view(agent@)),
{
    match g {
        JsonValue::Object(es) => match entries_lookup(es, "modelIds") {
            Some(JsonValue::Array(ids)) => {
                let mut kept = if na.len() > 0 {
                    drop_listed_ids(ids, na)
                } else {
                    match JsonValue::Array(Vec::new()) {
                        _ => match (JsonValue::Object(Vec::new())) {
                            _ => {
                                let copy = entries_lookup(es, "modelIds").unwrap().deep_clone();
                                match copy {
                                    JsonValue::Array(v) => v,
                                    _ => Vec::new(),
                                }
                            },
                        },
                    }
                };
                push_missing(&mut kept, agent);
                let mut out = crate::domain::provider::clone_entries(es);
                set_entry(&mut out, "modelIds", JsonValue::Array(kept));
                JsonValue::Object(out)
            },
            _ => g.deep_clone(),
        },
        _ => g.deep_clone(),
    }
}

fn placed_sort(s: &JsonValue, na: &Vec<String>, agent: &Vec<String>) -> (r: JsonValue)
    ensures
        r@ == sort_placed(s@, keys_view(na@), keys_view(agent@)),
{
    let ghost nv = keys_view(na@);
    let ghost gv = keys_view(agent@);
    match s {
        JsonValue::Object(es) => match entries_lookup(es, "groups") {
            Some(JsonValue::Array(groups)) => {
                proof {
                    lemma_items_view(groups@);
                }
                let ghost sv = items_view(groups@);
                let mut out_groups: Vec<JsonValue> = Vec::new();
                let mut i: usize = 0;
                while i < groups.len()
                    invariant
                        i <= groups@.len(),
                        sv == items_view(groups@),
                        sv.len() == groups@.len(),
                        forall|j: int| 0 <= j < groups@.len() ==> #[trigger] sv[j] == groups@[j]@,
                        nv == keys_view(na@),
                        gv == keys_view(agent@),
                        items_view(out_groups@) == Seq::new(i as nat, |j: int| group_placed(sv[j], nv, gv)),
                    decreases groups.len() - i,
                {
                    let g = placed_group(&groups[i], na, agent);
                    let ghost before = out_groups@;
                    out_groups.push(g);
                    proof {
                        lemma_items_view(out_groups@);
                        lemma_items_view(before);
                        assert(out_groups@.drop_last() =~= before);
                        assert(items_view(out_groups@) =~= Seq::new((i + 1) as nat, |j: int| group_placed(sv[j], nv, gv)));
                    }
                    i += 1;
                }
                let mut out = crate::domain::provider::clone_entries(es);
                set_entry(&mut out, "groups", JsonValue::Array(out_groups));
                JsonValue::Object(out)
            },
            _ => s.deep_clone(),
        },
        _ => s.deep_clone(),
    }
}

fn is_byok_sort(s: &JsonValue) -> (r: bool)
    ensures
        r == is_byok(s@),
{
    proof {
        reveal_strlit("BYOK");
    }
    match s.get("displayName") {
        Some(JsonValue::Str(n)) => crate::text::str_eq(n.as_str(), "BYOK"),
        _ => false,
    }
}

/// `value[key] = v` on a value that is an object or `null`.
fn set_index(j: JsonValue, key: &str, v: JsonValue) -> (r: JsonValue)
    requires
        j@ is Object || j@ is Null,
    ensures
        r@ == index_set(j@, key@, v@),
{
    match j {
        JsonValue::Object(mut es) => {
            set_entry(&mut es, key, v);
            JsonValue::Object(es)
        },
        _ => {
            let mut es: Vec<(String, JsonValue)> = Vec::new();
            push_entry(&mut es, key, v);
            proof {
                assert(entries_view(es@) =~= seq![(key@, v@)]);
            }
            JsonValue::Object(es)
        },
    }
}

fn empty_group_value() -> (r: JsonValue)
    ensures
        r@ == empty_group(),
{
    let v = JsonValue::Array(Vec::new());
    assert(items_view(Seq::<JsonValue>::empty()) =~= Seq::<Json>::empty());
    crate::json::object1("modelIds", v)
}

fn fill_byok(b: JsonValue, agent: &Vec<String>) -> (r: JsonValue)
    requires
        b@ is Object,
        byok_groups(b@).1[0] is Object || byok_groups(b@).1[0] is Null,
    ensures
        r@ == byok_filled(b@, keys_view(agent@)),
{
    let has_groups = match b.get("groups") {
        Some(JsonValue::Array(_)) => true,
        _ => false,
    };
    let b1 = if has_groups {
        b
    } else {
        assert(items_view(Seq::<JsonValue>::empty()) =~= Seq::<Json>::empty());
        let ghost bv = b@;
        let r = set_index(b, "groups", JsonValue::Array(Vec::new()));
        proof {
            match bv {
                Json::Object(es) => {
                    crate::json::lemma_set_member_get(es, "groups"@, Json::Array(Seq::empty()), "groups"@);
                },
                _ => {},
            }
        }
        r
    };
    assert(b1@ == byok_groups(b@).0);
    let (groups, hole) = super::take_member_value(b1, "groups");
    let mut gs: Vec<JsonValue> = match groups {
        JsonValue::Array(gs) => gs,
        _ => Vec::new(),
    };
    if gs.len() == 0 {
        crate::json::push_item(&mut gs, empty_group_value());
    }
    proof {
        lemma_items_view(gs@);
        assert(items_view(gs@) == byok_groups(b@).1);
    }
    let g0 = gs.remove(0);
    let has_ids = match g0.get("modelIds") {
        Some(JsonValue::Array(_)) => true,
        _ => false,
    };
    let g0b = if has_ids {
        g0
    } else {
        assert(items_view(Seq::<JsonValue>::empty()) =~= Seq::<Json>::empty());
        let ghost gv0 = g0@;
        let r = set_index(g0, "modelIds", JsonValue::Array(Vec::new()));
        proof {
            match gv0 {
                Json::Object(es) => {
                    crate::json::lemma_set_member_get(es, "modelIds"@, Json::Array(Seq::empty()), "modelIds"@);
                },
                _ => {
                    reveal_strlit("modelIds");
                },
            }
        }
        r
    };
    let (ids, hole0) = super::take_member_value(g0b, "modelIds");
    let mut idv: Vec<JsonValue> = match ids {
        JsonValue::Array(v) => v,
        _ => Vec::new(),
    };
    push_missing(&mut idv, agent);
    let g0c = super::fill(hole0, JsonValue::Array(idv));
    let ghost rest = gs@;
    gs.insert(0, g0c);
    proof {
        lemma_items_view(gs@);
        lemma_items_view(rest);
        assert(items_view(gs@) =~= byok_groups(b@).1.update(0, g0c@));
    }
    super::fill(hole, JsonValue::Array(gs))
}

/// Places catalog keys in the host's model sorts; see `byok_placed`.
fn place_catalog_keys_in_byok_sort(c: JsonValue, all: &Vec<String>, agent: &Vec<String>) -> (r: JsonValue)
    requires
        byok_ok(c@, keys_view(all@), keys_view(agent@)),
    ensures
        r@ == byok_placed(c@, keys_view(all@), keys_view(agent@)),
{
    let ghost av = keys_view(all@);
    let ghost gv = keys_view(agent@);
    if all.len() == 0 {
        return c;
    }
    let is_array = match c.get("agentModelSorts") {
        Some(JsonValue::Array(_)) => true,
        _ => false,
    };
    if !is_array {
        return c;
    }
    let ghost c0 = c@;
    let (sorts, hole) = super::take_member_value(c, "agentModelSorts");
    let items: Vec<JsonValue> = match sorts {
        JsonValue::Array(v) => v,
        _ => Vec::new(),
    };
    proof {
        lemma_items_view(items@);
    }
    let ghost sv = items_view(items@);
    let na = non_agent(all, agent);
    let ghost nv = keys_view(na@);
    let mut s1: Vec<JsonValue> = Vec::new();
    let mut i: usize = 0;
    while i < items.len()
        invariant
            i <= items@.len(),
            sv == items_view(items@),
            sv.len() == items@.len(),
            forall|j: int| 0 <= j < items@.len() ==> #[trigger] sv[j] == items@[j]@,
            nv == keys_view(na@),
            gv == keys_view(agent@),
            items_view(s1@) == Seq::new(i as nat, |j: int| sort_placed(sv[j], nv, gv)),
        decreases items.len() - i,
    {
        let sp = placed_sort(&items[i], &na, agent);
        crate::json::push_item(&mut s1, sp);
        proof {
            assert(items_view(s1@) =~= Seq::new((i + 1) as nat, |j: int| sort_placed(sv[j], nv, gv)));
        }
        i += 1;
    }
    if agent.len() == 0 {
        return super::fill(hole, JsonValue::Array(s1));
    }
    proof {
        lemma_items_view(s1@);
    }
    let ghost s1v = items_view(s1@);
    let found = find_byok(&s1);
    if let Some(k) = found {
        let b = s1.remove(k);
        let filled = fill_byok(b, agent);
        let ghost rest = s1@;
        s1.insert(k, filled);
        proof {
            lemma_items_view(s1@);
            lemma_items_view(rest);
            assert(items_view(s1@) =~= s1v.update(k as int, filled@));
        }
    } else {
        let nb = crate::json::object2("displayName", crate::json::str_value("BYOK"), "groups", crate::json::array1(empty_group_value()));
        proof {
            assert(nb@ == new_byok_sort());
            reveal_strlit("displayName");
            reveal_strlit("groups");
            assert("displayName"@ != "groups"@) by {
                assert("displayName"@[0] != "groups"@[0]);
            }
            let es2 = seq![("displayName"@, jstr("BYOK"@)), ("groups"@, Json::Array(seq![empty_group()]))];
            assert(es2.drop_first() =~= seq![("groups"@, Json::Array(seq![empty_group()]))]);
            assert(entries_get(es2.drop_first(), "groups"@) == Some(Json::Array(seq![empty_group()])));
            assert(nb@.get("groups"@) == Some(Json::Array(seq![empty_group()])));
        }
        let filled = fill_byok(nb, agent);
        crate::json::push_item(&mut s1, filled);
    }
    super::fill(hole, JsonValue::Array(s1))
}

fn find_byok(sorts: &Vec<JsonValue>) -> (r: Option<usize>)
    ensures
        (match r {
            Some(k) => first_byok(items_view(sorts@), sorts@.len()) == Some(k as int) && k < sorts@.len()
                && is_byok(items_view(sorts@)[k as int]),
            None => first_byok(items_view(sorts@), sorts@.len()) is None,
        }),
{
    proof {
        lemma_items_view(sorts@);
    }
    let ghost sv = items_view(sorts@);
    let mut k: usize = 0;
    while k < sorts.len()
        invariant
            k <= sorts@.len(),
            sv == items_view(sorts@),
            sv.len() == sorts@.len(),
            forall|j: int| 0 <= j < sorts@.len() ==> #[trigger] sv[j] == sorts@[j]@,
            first_byok(sv, k as nat) is None,
        decreases sorts.len() - k,
    {
        if is_byok_sort(&sorts[k]) {
            proof {
                lemma_first_byok_stable(sv, (k + 1) as nat, sv.len());
            }
            return Some(k);
        }
        k += 1;
    }
    None
}

proof fn lemma_first_byok_stable(sorts: Seq<Json>, k: nat, n: nat)
    requires
        k <= n,
        first_byok(sorts, k) is Some,
    ensures
        first_byok(sorts, n) == first_byok(sorts, k),
    decreases n - k,
{
    if k < n {
        lemma_first_byok_stable(sorts, k, (n - 1) as nat);
    }
}

// ---------------------------------------------------------------------------
// Tiered entries.
// ---------------------------------------------------------------------------

/// A catalog key without its level suffix (longer suffixes first, so that
/// `-x-high` is not read as `-high`).
pub open spec fn strip_level(id: Seq<char>) -> Seq<char> {
    match strip_suffix(id, "-adaptive"@) {
        Some(b) => b,
        None => match strip_suffix(id, "-x-high"@) {
        Some(b) => b,
        None => match strip_suffix(id, "-medium"@) {
        Some(b) => b,
        None => match strip_suffix(id, "-auto"@) {
        Some(b) => b,
        None => match strip_suffix(id, "-high"@) {
        Some(b) => b,
        None => match strip_suffix(id, "-max"@) {
        Some(b) => b,
        None => match strip_suffix(id, "-low"@) {
        Some(b) => b,
        None => match strip_suffix(id, "-off"@) {
        Some(b) => b,
        None => id,
    },
    },
    },
    },
    },
    },
    },
    }
}

fn strip_level_suffix(id: &[char]) -> (r: Vec<char>)
    ensures
        r@ == strip_level(id@),
{
    if let Some(b) = crate::text::strip_suffix_str(id, "-adaptive") {
        return b;
    }
    if let Some(b) = crate::text::strip_suffix_str(id, "-x-high") {
        return b;
    }
    if let Some(b) = crate::text::strip_suffix_str(id, "-medium") {
        return b;
    }
    if let Some(b) = crate::text::strip_suffix_str(id, "-auto") {
        return b;
    }
    if let Some(b) = crate::text::strip_suffix_str(id, "-high") {
        return b;
    }
    if let Some(b) = crate::text::strip_suffix_str(id, "-max") {
        return b;
    }
    if let Some(b) = crate::text::strip_suffix_str(id, "-low") {
        return b;
    }
    if let Some(b) = crate::text::strip_suffix_str(id, "-off") {
        return b;
    }
    crate::text::slice_range(id, 0, id.len())
}

/// The display-name level suffixes, in the order they are tried.
pub open spec fn display_suffix(k: int) -> Seq<char> {
    if k == 0 {
        " (adaptive)"@
    } else if k == 1 {
        " adaptive"@
    } else if k == 2 {
        " (x-high)"@
    } else if k == 3 {
        " x-high"@
    } else if k == 4 {
        " (medium)"@
    } else if k == 5 {
        " medium"@
    } else if k == 6 {
        " (auto)"@
    } else if k == 7 {
        " auto"@
    } else if k == 8 {
        " (custom)"@
    } else if k == 9 {
        " custom"@
    } else if k == 10 {
        " (default)"@
    } else if k == 11 {
        " default"@
    } else if k == 12 {
        " (high)"@
    } else if k == 13 {
        " high"@
    } else if k == 14 {
        " (max)"@
    } else if k == 15 {
        " max"@
    } else if k == 16 {
        " (low)"@
    } else if k == 17 {
        " low"@
    } else if k == 18 {
        " (off)"@
    } else if k == 19 {
        " off"@
    } else {
        Seq::empty()
    }
}

fn display_suffix_str(k: usize) -> (r: &'static str)
    requires
        k < 20,
    ensures
        r@ == display_suffix(k as int),
{
    match k {
        0 => " (adaptive)",
        1 => " adaptive",
        2 => " (x-high)",
        3 => " x-high",
        4 => " (medium)",
        5 => " medium",
        6 => " (auto)",
        7 => " auto",
        8 => " (custom)",
        9 => " custom",
        10 => " (default)",
        11 => " default",
        12 => " (high)",
        13 => " high",
        14 => " (max)",
        15 => " max",
        16 => " (low)",
        17 => " low",
        18 => " (off)",
        19 => " off",
        _ => "",
    }
}

/// `value` without `suffix`, compared without ASCII case.
pub open spec fn ci_strip(v: Seq<char>, sfx: Seq<char>) -> Option<Seq<char>> {
    if v.len() >= sfx.len() && eq_ignore_case(v.skip(v.len() - sfx.len()), sfx) {
        Some(v.take(v.len() - sfx.len()))
    } else {
        None
    }
}

pub open spec fn strip_display_from(t: Seq<char>, k: int) -> Seq<char>
    decreases 20 - k,
{
    if k < 0 || k >= 20 {
        t
    } else {
        match ci_strip(t, display_suffix(k)) {
            Some(s) => trim_end(s),
            None => strip_display_from(t, k + 1),
        }
    }
}

/// A display name without its level suffix, such as ` (High)` or ` low`.
pub open spec fn strip_display(name: Seq<char>) -> Seq<char> {
    strip_display_from(trim(name), 0)
}

pub open spec fn utf8_len(s: Seq<char>) -> nat {
    vstd::utf8::encode_utf8(s).len()
}

/// Whether byte offset `n` of the UTF-8 form of `s` falls between characters.
pub open spec fn char_boundary(s: Seq<char>, n: int) -> bool {
    exists|i: int| 0 <= i <= s.len() && #[trigger] utf8_len(s.take(i)) == n
}

/// Whether stripping a display-name suffix goes through: the host code
/// compares suffixes at a byte offset, and slicing panics where that offset
/// falls inside a character.
pub open spec fn display_strip_safe_from(t: Seq<char>, k: int) -> bool
    decreases 20 - k,
{
    if k < 0 || k >= 20 {
        true
    } else {
        let sfx = display_suffix(k);
        let n = utf8_len(t) - sfx.len();
        if n >= 0 && !char_boundary(t, n) {
            false
        } else {
            match ci_strip(t, sfx) {
                Some(_) => true,
                None => display_strip_safe_from(t, k + 1),
            }
        }
    }
}

fn ci_strip_chars(v: &[char], sfx: &str) -> (r: Option<Vec<char>>)
    ensures
        (match r {
            Some(x) => ci_strip(v@, sfx@) == Some(x@),
            None => ci_strip(v@, sfx@) is None,
        }),
{
    let sc = chars_of(sfx);
    if v.len() < sc.len() {
        return None;
    }
    let start = v.len() - sc.len();
    let tail = crate::text::slice_range(v, start, v.len());
    assert(tail@ =~= v@.skip(start as int));
    if crate::text::eq_ignore_ascii_case(tail.as_slice(), sc.as_slice()) {
        let head = crate::text::slice_range(v, 0, start);
        assert(head@ =~= v@.take(start as int));
        Some(head)
    } else {
        None
    }
}

fn strip_display_level_suffix(name: &str) -> (r: String)
    ensures
        r@ == strip_display(name@),
{
    let cs = chars_of(name);
    let t = crate::text::trim_chars(cs.as_slice());
    let mut k: usize = 0;
    while k < 20
        invariant
            k <= 20,
            t@ == trim(name@),
            strip_display_from(t@, 0) == strip_display_from(t@, k as int),
        decreases 20 - k,
    {
        let sfx = display_suffix_str(k);
        if let Some(s) = ci_strip_chars(t.as_slice(), sfx) {
            let e = crate::text::trim_end_chars(s.as_slice());
            return string_from_chars(e.as_slice());
        }
        k += 1;
    }
    string_from_chars(t.as_slice())
}

/// The first configured model of each upstream model with reasoning, in order.
pub open spec fn reasoning_groups(sel: Seq<(int, int, int)>, ums: Seq<UpstreamModel>, n: nat) -> Seq<(int, int, int)>
    decreases n,
{
    if n == 0 {
        Seq::empty()
    } else {
        let g = reasoning_groups(sel, ums, (n - 1) as nat);
        let u = sel[n - 1].1;
        if ums[u].capabilities.reasoning.spec_supports_reasoning() && !(exists|q: int|
            0 <= q < g.len() && ums[(#[trigger] g[q]).1].id@ == ums[u].id@) {
            g.push(sel[n - 1])
        } else {
            g
        }
    }
}

pub open spec fn tiered_key(vm: VirtualModel) -> Seq<char> {
    strip_level(vm.spec_catalog_key()) + "-tiered"@
}

/// The parent entry of a model's level entries: its catalog entry under the
/// display name without level, with a dynamic thinking budget.
pub open spec fn tiered_entry(vm: VirtualModel, um: UpstreamModel, p: Provider) -> Json {
    super::obj_set(
        super::obj_set(spec_catalog_entry(vm, um, p), "displayName"@, jstr(strip_display(vm.display_name@))),
        "thinkingBudget"@,
        jint(-1i32),
    )
}

/// Object entries with the parent entries of the first `n` groups added
/// where their keys are free, and the keys added.
pub open spec fn tiered_fold(
    mes: Seq<(Seq<char>, Json)>,
    gs: Seq<(int, int, int)>,
    vms: Seq<VirtualModel>,
    ums: Seq<UpstreamModel>,
    ps: Seq<Provider>,
    n: nat,
) -> (Seq<(Seq<char>, Json)>, Seq<Seq<char>>)
    decreases n,
{
    if n == 0 {
        (mes, Seq::empty())
    } else {
        let (m, added) = tiered_fold(mes, gs, vms, ums, ps, (n - 1) as nat);
        let (v, u, p) = gs[n - 1];
        let k = tiered_key(vms[v]);
        if entries_get(m, k) is None {
            (m.push((k, tiered_entry(vms[v], ums[u], ps[p]))), added.push(k))
        } else {
            (m, added)
        }
    }
}

/// A catalog whose object model collection gets a parent entry per model
/// with reasoning, each registered under `tieredModelIds.custom`.
pub open spec fn tiered(
    c: Json,
    gs: Seq<(int, int, int)>,
    vms: Seq<VirtualModel>,
    ums: Seq<UpstreamModel>,
    ps: Seq<Provider>,
) -> Json {
    if gs.len() == 0 {
        c
    } else {
        match c.get("models"@) {
            Some(Json::Object(mes)) => {
                let (m2, added) = tiered_fold(mes, gs, vms, ums, ps, gs.len());
                if added.len() == 0 {
                    c
                } else {
                    let c1 = super::obj_set(c, "models"@, Json::Object(m2));
                    let t0 = match c.get("tieredModelIds"@) {
                        Some(Json::Object(t)) => t,
                        _ => Seq::empty(),
                    };
                    let t1 = match entries_get(t0, "custom"@) {
                        Some(Json::Array(arr)) => set_member(t0, "custom"@, Json::Array(add_missing(arr, added))),
                        _ => set_member(t0, "custom"@, Json::Array(Seq::new(added.len(), |i: int| jstr(added[i])))),
                    };
                    super::obj_set(c1, "tieredModelIds"@, Json::Object(t1))
                }
            },
            _ => c,
        }
    }
}

proof fn lemma_tiered_fold_stable_keys(
    mes: Seq<(Seq<char>, Json)>,
    gs: Seq<(int, int, int)>,
    vms: Seq<VirtualModel>,
    ums: Seq<UpstreamModel>,
    ps: Seq<Provider>,
    n: nat,
)
    ensures
        tiered_fold(mes, gs, vms, ums, ps, n).1.len() == 0 ==> tiered_fold(mes, gs, vms, ums, ps, n).0 == mes,
    decreases n,
{
    if n > 0 {
        lemma_tiered_fold_stable_keys(mes, gs, vms, ums, ps, (n - 1) as nat);
    }
}

fn tiered_entry_value(vm: &VirtualModel, um: &UpstreamModel, p: &Provider) -> (r: JsonValue)
    ensures
        r@ == tiered_entry(*vm, *um, *p),
{
    let e = AntigravityModelDescriptor::build_cloud_code_catalog_entry(vm, um, p);
    let name = strip_display_level_suffix(vm.display_name.as_str());
    let e1 = super::set_object_member(e, "displayName", JsonValue::Str(name));
    super::set_object_member(e1, "thinkingBudget", int_value(-1))
}

fn tiered_key_string(vm: &VirtualModel) -> (r: String)
    ensures
        r@ == tiered_key(*vm),
{
    let key = vm.catalog_key();
    let kc = chars_of(key.as_str());
    let mut base = strip_level_suffix(kc.as_slice());
    let ghost b0 = base@;
    crate::text::push_str(&mut base, "-tiered");
    assert(base@ =~= b0 + "-tiered"@);
    string_from_chars(base.as_slice())
}

/// Adds a parent entry per model with reasoning; see `tiered`.
fn inject_tiered_catalog(
    c: JsonValue,
    gs: &Vec<(usize, usize, usize)>,
    vms: &[VirtualModel],
    ums: &[UpstreamModel],
    ps: &[Provider],
) -> (r: JsonValue)
    requires
        forall|k: int| 0 <= k < gs@.len() ==> (#[trigger] gs@[k]).0 < vms@.len() && gs@[k].1 < ums@.len() && gs@[k].2 < ps@.len(),
    ensures
        r@ == tiered(c@, sel_view(gs@), vms@, ums@, ps@),
{
    let ghost gv = sel_view(gs@);
    if gs.len() == 0 {
        return c;
    }
    let mes0: Vec<(String, JsonValue)> = match c.get("models") {
        Some(JsonValue::Object(es)) => crate::domain::provider::clone_entries(es),
        _ => {
            return c;
        },
    };
    let mut mes = mes0;
    let mut added: Vec<String> = Vec::new();
    let ghost base = entries_view(mes@);
    let mut k: usize = 0;
    while k < gs.len()
        invariant
            k <= gs@.len(),
            gv == sel_view(gs@),
            forall|q: int| 0 <= q < gs@.len() ==> (#[trigger] gs@[q]).0 < vms@.len() && gs@[q].1 < ums@.len() && gs@[q].2 < ps@.len(),
            (entries_view(mes@), keys_view(added@)) == tiered_fold(base, gv, vms@, ums@, ps@, k as nat),
        decreases gs.len() - k,
    {
        let (v, u, p) = gs[k];
        let key = tiered_key_string(&vms[v]);
        if entries_lookup(&mes, key.as_str()).is_none() {
            let e = tiered_entry_value(&vms[v], &ums[u], &ps[p]);
            let ghost before = added@;
            push_entry(&mut mes, key.as_str(), e);
            added.push(key);
            proof {
                assert(keys_view(added@) =~= keys_view(before).push(tiered_key(vms@[v as int])));
            }
        }
        k += 1;
    }
    if added.len() == 0 {
        proof {
            lemma_tiered_fold_stable_keys(base, gv, vms@, ums@, ps@, gs@.len());
        }
        return c;
    }
    let t0: Vec<(String, JsonValue)> = match c.get("tieredModelIds") {
        Some(JsonValue::Object(t)) => crate::domain::provider::clone_entries(t),
        _ => {
            let v: Vec<(String, JsonValue)> = Vec::new();
            assert(entries_view(v@) =~= Seq::<(Seq<char>, Json)>::empty());
            v
        },
    };
    let mut t1 = t0;
    let existing = match entries_lookup(&t1, "custom") {
        Some(v) => match v.deep_clone() {
            JsonValue::Array(a) => Some(a),
            _ => None,
        },
        None => None,
    };
    match existing {
        Some(mut arr) => {
            push_missing(&mut arr, &added);
            set_entry(&mut t1, "custom", JsonValue::Array(arr));
        },
        None => {
            let mut arr: Vec<JsonValue> = Vec::new();
            let mut q: usize = 0;
            while q < added.len()
                invariant
                    q <= added@.len(),
                    items_view(arr@) == Seq::new(q as nat, |i: int| jstr(keys_view(added@)[i])),
                decreases added.len() - q,
            {
                crate::json::push_item(&mut arr, JsonValue::Str(added[q].clone()));
                proof {
                    assert(items_view(arr@) =~= Seq::new((q + 1) as nat, |i: int| jstr(keys_view(added@)[i])));
                }
                q += 1;
            }
            set_entry(&mut t1, "custom", JsonValue::Array(arr));
        },
    }
    let c1 = super::set_object_member(c, "models", JsonValue::Object(mes));
    super::set_object_member(c1, "tieredModelIds", JsonValue::Object(t1))
}

/// The catalog ID of each shown model: its ID in an array catalog, its
/// catalog key in an object catalog.
pub open spec fn catalog_ids(sel: Seq<(int, int, int)>, vms: Seq<VirtualModel>, array: bool) -> Seq<Seq<char>> {
    Seq::new(
        sel.len(),
        |k: int|
            if array {
                vms[sel[k].0].id@
            } else {
                vms[sel[k].0].spec_catalog_key()
            },
    )
}

/// The catalog IDs of the first `n` shown models whose upstream model has `role`.
pub open spec fn role_keys(
    sel: Seq<(int, int, int)>,
    ids: Seq<Seq<char>>,
    ums: Seq<UpstreamModel>,
    role: ModelRole,
    n: nat,
) -> Seq<Seq<char>>
    decreases n,
{
    if n == 0 {
        Seq::empty()
    } else {
        let r = role_keys(sel, ids, ums, role, (n - 1) as nat);
        if ums[sel[n - 1].1].capabilities.roles@.contains(role) {
            r.push(ids[n - 1])
        } else {
            r
        }
    }
}

/// A catalog after `inject_into_model_list`: the shown configured models
/// are added to its model collection; where the catalog holds its models
/// under `models`, parent entries for models with reasoning are added first,
/// and the catalog keys are placed in the model sorts and, for image
/// generation models, in `imageGenerationModelIds`.
pub open spec fn injected(p: Json, vms: Seq<VirtualModel>, ums: Seq<UpstreamModel>, ps: Seq<Provider>) -> Json {
    let sel = selected(vms, ums, ps, vms.len());
    let t = alias_table(p);
    let lim = |w: Seq<char>| worker_limit(super::catalog_models(p), w);
    let c = super::catalog_container(p);
    match c.get("models"@) {
        Some(target) => {
            let ids = catalog_ids(sel, vms, target is Array);
            let agent = role_keys(sel, ids, ums, ModelRole::Agent, sel.len());
            let image = role_keys(sel, ids, ums, ModelRole::ImageGeneration, sel.len());
            let c1 = tiered(c, reasoning_groups(sel, ums, sel.len()), vms, ums, ps);
            let c2 = super::obj_set(c1, "models"@, models_injected(c1.at("models"@), sel, vms, ums, ps, lim, t));
            let c3 = byok_placed(c2, ids, agent);
            super::with_container(p, role_list_placed(c3, "imageGenerationModelIds"@, image))
        },
        None => super::with_container(p, models_injected(c, sel, vms, ums, ps, lim, t)),
    }
}

/// Where the host code does not panic on a catalog: each model with reasoning
/// has a display name whose suffixes can be compared, and the BYOK sort's
/// first group can take model IDs.
pub open spec fn inject_ok(p: Json, vms: Seq<VirtualModel>, ums: Seq<UpstreamModel>, ps: Seq<Provider>) -> bool {
    let sel = selected(vms, ums, ps, vms.len());
    let c = super::catalog_container(p);
    match c.get("models"@) {
        Some(target) => {
            let ids = catalog_ids(sel, vms, target is Array);
            let agent = role_keys(sel, ids, ums, ModelRole::Agent, sel.len());
            let gs = reasoning_groups(sel, ums, sel.len());
            &&& forall|k: int| 0 <= k < gs.len() ==> display_strip_safe_from(trim(vms[(#[trigger] gs[k]).0].display_name@), 0)
            &&& byok_ok(c, ids, agent)
        },
        None => true,
    }
}

fn reasoning_group_list(sel: &Vec<(usize, usize, usize)>, ums: &[UpstreamModel]) -> (r: Vec<(usize, usize, usize)>)
    requires
        forall|k: int| 0 <= k < sel@.len() ==> (#[trigger] sel@[k]).1 < ums@.len(),
    ensures
        sel_view(r@) == reasoning_groups(sel_view(sel@), ums@, sel@.len()),
        forall|k: int| 0 <= k < r@.len() ==> exists|j: int| 0 <= j < sel@.len() && #[trigger] r@[k] == sel@[j],
{
    let ghost sv = sel_view(sel@);
    let mut out: Vec<(usize, usize, usize)> = Vec::new();
    let mut k: usize = 0;
    assert(sel_view(out@) =~= Seq::<(int, int, int)>::empty());
    while k < sel.len()
        invariant
            k <= sel@.len(),
            sv == sel_view(sel@),
            forall|q: int| 0 <= q < sel@.len() ==> (#[trigger] sel@[q]).1 < ums@.len(),
            sel_view(out@) == reasoning_groups(sv, ums@, k as nat),
            forall|q: int| 0 <= q < out@.len() ==> exists|j: int| 0 <= j < sel@.len() && #[trigger] out@[q] == sel@[j],
        decreases sel.len() - k,
    {
        let (v, u, p) = sel[k];
        if ums[u].capabilities.reasoning.supports_reasoning() {
            let mut seen = false;
            let mut q: usize = 0;
            let ghost g = sel_view(out@);
            while q < out.len()
                invariant
                    q <= out@.len(),
                    g == sel_view(out@),
                    u < ums@.len(),
                    forall|j: int| 0 <= j < out@.len() ==> exists|jj: int| 0 <= jj < sel@.len() && #[trigger] out@[j] == sel@[jj],
                    forall|q2: int| 0 <= q2 < sel@.len() ==> (#[trigger] sel@[q2]).1 < ums@.len(),
                    seen == exists|j: int| 0 <= j < q && ums@[(#[trigger] g[j]).1].id@ == ums@[u as int].id@,
                decreases out.len() - q,
            {
                let u2 = out[q].1;
                assert(exists|jj: int| 0 <= jj < sel@.len() && out@[q as int] == sel@[jj]);
                assert(g[q as int].1 == u2 as int);
                if crate::text::str_eq(ums[u2].id.as_str(), ums[u].id.as_str()) {
                    seen = true;
                }
                q += 1;
            }
            if !seen {
                let ghost before = out@;
                out.push((v, u, p));
                proof {
                    assert(sel_view(out@) =~= sel_view(before).push(sv[k as int]));
                    assert forall|q3: int| 0 <= q3 < out@.len() implies exists|j: int| 0 <= j < sel@.len() && #[trigger] out@[q3] == sel@[j] by {
                        if q3 == out@.len() - 1 {
                            assert(out@[q3] == sel@[k as int]);
                        } else {
                            assert(out@[q3] == before[q3]);
                        }
                    }
                }
            }
        }
        k += 1;
    }
    out
}

impl AntigravityModelDescriptor {
    /// Adds the configured models that are enabled, with an enabled upstream
    /// model and provider, to the host's model catalog; see `injected`.
    #[verifier::rlimit(60)]
    pub fn inject_into_model_list(
        models_json: &mut JsonValue,
        virtual_models: &[VirtualModel],
        upstream_models: &[UpstreamModel],
        providers: &[Provider],
    )
        requires
            inject_ok(old(models_json)@, virtual_models@, upstream_models@, providers@),
        ensures
            final(models_json)@ == injected(old(models_json)@, virtual_models@, upstream_models@, providers@),
    {
        let ghost p0 = models_json@;
        let ghost vms = virtual_models@;
        let ghost ums = upstream_models@;
        let ghost ps = providers@;
        let sel = select_models(virtual_models, upstream_models, providers);
        let ghost sv = sel_view(sel@);
        proof {
            assert(sv =~= selected(vms, ums, ps, vms.len()));
        }
        let aliases = official_model_aliases(models_json);
        let limits = official_checkpoint_worker_limits(models_json);
        proof {
            let l1 = |w: Seq<char>| limit_lookup(limits@, w);
            let l2 = |w: Seq<char>| worker_limit(super::catalog_models(p0), w);
            assert(l1 =~= l2);
        }
        let mut p = JsonValue::Null;
        std::mem::swap(&mut p, models_json);
        let (c, h1) = super::split_container(p);
        if !super::has_models_member(&c) {
            let r = inject_models(c, &sel, virtual_models, upstream_models, providers, &limits, &aliases);
            *models_json = super::fill(h1, r);
            return;
        }
        let is_array = match c.get("models") {
            Some(JsonValue::Array(_)) => true,
            _ => false,
        };
        let ghost cids = catalog_ids(sv, vms, is_array);
        let mut ids: Vec<String> = Vec::new();
        let mut agent: Vec<String> = Vec::new();
        let mut image: Vec<String> = Vec::new();
        let mut k: usize = 0;
        while k < sel.len()
            invariant
                k <= sel@.len(),
                sv == sel_view(sel@),
                cids == catalog_ids(sv, vms, is_array),
                vms == virtual_models@,
                ums == upstream_models@,
                forall|q: int| 0 <= q < sel@.len() ==> (#[trigger] sel@[q]).0 < vms.len() && sel@[q].1 < ums.len() && sel@[q].2 < ps.len(),
                keys_view(ids@) == cids.take(k as int),
                keys_view(agent@) == role_keys(sv, cids, ums, ModelRole::Agent, k as nat),
                keys_view(image@) == role_keys(sv, cids, ums, ModelRole::ImageGeneration, k as nat),
            decreases sel.len() - k,
        {
            let (v, u, _) = sel[k];
            let id = if is_array {
                virtual_models[v].id.clone()
            } else {
                virtual_models[v].catalog_key()
            };
            assert(id@ == cids[k as int]);
            let ghost ib = ids@;
            let ghost ab = agent@;
            let ghost mb = image@;
            if upstream_models[u].capabilities.has_role(ModelRole::Agent) {
                agent.push(id.clone());
                assert(keys_view(agent@) =~= keys_view(ab).push(id@));
            }
            if upstream_models[u].capabilities.has_role(ModelRole::ImageGeneration) {
                image.push(id.clone());
                assert(keys_view(image@) =~= keys_view(mb).push(id@));
            }
            let ghost idv = id@;
            ids.push(id);
            assert(keys_view(ids@) =~= keys_view(ib).push(idv));
            assert(keys_view(ids@) =~= cids.take(k + 1));
            k += 1;
        }
        assert(cids.take(sel@.len() as int) =~= cids);
        let gs = reasoning_group_list(&sel, upstream_models);
        let ghost c0 = c@;
        let c1 = inject_tiered_catalog(c, &gs, virtual_models, upstream_models, providers);
        proof {
            reveal_strlit("models");
            reveal_strlit("tieredModelIds");
            reveal_strlit("agentModelSorts");
            assert("models"@ != "tieredModelIds"@) by {
                assert("models"@[0] != "tieredModelIds"@[0]);
            }
            assert("agentModelSorts"@ != "tieredModelIds"@) by {
                assert("agentModelSorts"@[0] != "tieredModelIds"@[0]);
            }
            assert("agentModelSorts"@ != "models"@) by {
                assert("agentModelSorts"@[0] != "models"@[0]);
            }
            if c1@ != c0 {
                match c0 {
                    Json::Object(es) => {
                        match entries_get(es, "models"@) {
                            Some(Json::Object(mes)) => {
                                let gv = sel_view(gs@);
                                let (m2, added) = tiered_fold(mes, gv, vms, ums, ps, gv.len());
                                let es1 = set_member(es, "models"@, Json::Object(m2));
                                crate::json::lemma_set_member_get(es, "models"@, Json::Object(m2), "models"@);
                                crate::json::lemma_set_member_get(es, "models"@, Json::Object(m2), "agentModelSorts"@);
                                match super::obj_set(c0, "models"@, Json::Object(m2)) {
                                    Json::Object(es1b) => {
                                        let t0 = match c0.get("tieredModelIds"@) {
                                            Some(Json::Object(t)) => t,
                                            _ => Seq::empty(),
                                        };
                                        let t1 = match entries_get(t0, "custom"@) {
                                            Some(Json::Array(arr)) => set_member(t0, "custom"@, Json::Array(add_missing(arr, added))),
                                            _ => set_member(t0, "custom"@, Json::Array(Seq::new(added.len(), |i: int| jstr(added[i])))),
                                        };
                                        crate::json::lemma_set_member_get(es1b, "tieredModelIds"@, Json::Object(t1), "models"@);
                                        crate::json::lemma_set_member_get(es1b, "tieredModelIds"@, Json::Object(t1), "agentModelSorts"@);
                                    },
                                    _ => {},
                                }
                            },
                            _ => {},
                        }
                    },
                    _ => {},
                }
            }
            assert(c1@.get("models"@) is Some);
            assert(c1@.get("agentModelSorts"@) == c0.get("agentModelSorts"@));
        }
        let ghost c1v = c1@;
        let (m, h2) = super::take_member_value(c1, "models");
        let m2 = inject_models(m, &sel, virtual_models, upstream_models, providers, &limits, &aliases);
        let c2 = super::fill(h2, m2);
        proof {
            match c1v {
                Json::Object(es) => {
                    crate::json::lemma_set_member_get(es, "models"@, c2@.get("models"@)->0, "agentModelSorts"@);
                    assert(c2@ == super::obj_set(c1v, "models"@, m2@));
                    crate::json::lemma_set_member_get(es, "models"@, m2@, "agentModelSorts"@);
                },
                _ => {},
            }
            assert(c2@.get("agentModelSorts"@) == c0.get("agentModelSorts"@));
            assert(byok_ok(c0, cids, keys_view(agent@)));
        }
        let c3 = place_catalog_keys_in_byok_sort(c2, &ids, &agent);
        let c4 = place_catalog_keys_in_role_list(c3, "imageGenerationModelIds", &image);
        *models_json = super::fill(h1, c4);
    }
}

} // verus!
