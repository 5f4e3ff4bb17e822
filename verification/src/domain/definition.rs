//! Model capabilities and the upstream / virtual model definitions.

use crate::domain::checkpoint::ModelCompressionPolicy;
use crate::domain::provider::ParameterOverrides;
use crate::domain::reasoning::{ReasoningCapability, ReasoningLevel};
use crate::domain::token_limits::ModelTokenLimits;
use crate::text::{
    chars_of, decimal, lower, push_decimal, push_str, seq_lt, sorted_insert, starts_with,
    strictly_sorted, string_from_chars, string_set, strip_prefix, strip_prefix_str, to_lower,
    trim, trim_chars,
};
use vstd::prelude::*;

verus! {

#[derive(Debug, Clone, Copy, PartialEq, Eq, PartialOrd, Ord, Hash, Structural)]
pub enum ModelRole {
    Agent,
    Command,
    Tab,
    ImageGeneration,
    Mquery,
    WebSearch,
    CommitMessage,
    AudioTranscription,
}

#[derive(Debug, Clone, Copy, PartialEq, Eq, PartialOrd, Ord, Hash, Structural)]
pub enum ModelModality {
    Text,
    Image,
    Audio,
    Video,
    Document,
}

#[derive(Debug, Clone)]
pub struct ModelCapabilities {
    /// Host roles the model serves (a set).
    pub roles: Vec<ModelRole>,
    /// Input modalities (a set).
    pub input_modalities: Vec<ModelModality>,
    /// Output modalities (a set).
    pub output_modalities: Vec<ModelModality>,
    pub tools: bool,
    /// MIME types of input data the upstream model accepts.
    pub input_mime_types: Vec<String>,
    pub reasoning: ReasoningCapability,
}

impl Default for ModelCapabilities {
    fn default() -> (r: Self)
        ensures
            r.roles@ == seq![ModelRole::Agent],
            r.input_modalities@ == seq![ModelModality::Text],
            r.output_modalities@ == seq![ModelModality::Text],
            !r.tools,
            r.input_mime_types@.len() == 0,
            r.reasoning.levels@.len() == 0,
            r.reasoning.supported is None,
    {
        ModelCapabilities {
            roles: vec![ModelRole::Agent],
            input_modalities: vec![ModelModality::Text],
            output_modalities: vec![ModelModality::Text],
            tools: false,
            input_mime_types: Vec::new(),
            reasoning: ReasoningCapability::default(),
        }
    }
}

/// A MIME type as the capability checks compare it: trimmed and lower-cased.
pub open spec fn normalized_mime(m: Seq<char>) -> Seq<char> {
    lower(trim(m))
}

/// The normalized, non-empty MIME types of a list.
pub open spec fn effective_mime_set(types: Seq<String>) -> Set<Seq<char>> {
    Set::new(
        |x: Seq<char>|
            x.len() > 0 && exists|i: int| 0 <= i < types.len() && normalized_mime(#[trigger] types[i]@) == x,
    )
}

/// Image MIME types every protocol accepts inline: PNG, JPEG, GIF and WebP,
/// written in lower case. Other image types and other media reach only Gemini.
pub open spec fn spec_inline_image_mime(m: Seq<char>) -> bool {
    m == "image/png"@ || m == "image/jpeg"@ || m == "image/gif"@ || m == "image/webp"@
}

pub fn is_supported_inline_image_mime_type(mime_type: &str) -> (r: bool)
    ensures
        r == spec_inline_image_mime(mime_type@),
{
    crate::text::str_eq(mime_type, "image/png") || crate::text::str_eq(mime_type, "image/jpeg")
        || crate::text::str_eq(mime_type, "image/gif") || crate::text::str_eq(mime_type, "image/webp")
}

impl ModelCapabilities {
    /// The accepted input MIME types: trimmed, lower-cased, without empty
    /// entries, each once, in ascending order.
    pub fn effective_input_mime_types(&self) -> (r: Vec<String>)
        ensures
            strictly_sorted(r@),
            string_set(r@) == effective_mime_set(self.input_mime_types@),
    {
        let mut out: Vec<String> = Vec::new();
        let mut i: usize = 0;
        proof {
            assert(string_set(out@) =~= Set::<Seq<char>>::empty());
        }
        while i < self.input_mime_types.len()
            invariant
                i <= self.input_mime_types@.len(),
                strictly_sorted(out@),
                string_set(out@) == effective_mime_set(self.input_mime_types@.take(i as int)),
            decreases self.input_mime_types.len() - i,
        {
            let cs = chars_of(self.input_mime_types[i].as_str());
            let t = trim_chars(cs.as_slice());
            let l = to_lower(t.as_slice());
            let ghost prev = self.input_mime_types@.take(i as int);
            let ghost next = self.input_mime_types@.take(i as int + 1);
            proof {
                assert(next =~= prev.push(self.input_mime_types@[i as int]));
            }
            if l.len() > 0 {
                let s = string_from_chars(l.as_slice());
                sorted_insert(&mut out, s);
                proof {
                    assert(effective_mime_set(next) =~= effective_mime_set(prev).insert(l@)) by {
                        assert forall|x: Seq<char>| #[trigger] effective_mime_set(next).contains(x) implies effective_mime_set(prev).insert(l@).contains(x) by {
                            let j = choose|j: int| 0 <= j < next.len() && normalized_mime(#[trigger] next[j]@) == x;
                            if j < i {
                                assert(prev[j] == next[j]);
                            }
                        }
                        assert forall|x: Seq<char>| #[trigger] effective_mime_set(prev).insert(l@).contains(x) implies effective_mime_set(next).contains(x) by {
                            if x == l@ {
                                assert(normalized_mime(next[i as int]@) == x);
                            } else {
                                let j = choose|j: int| 0 <= j < prev.len() && normalized_mime(#[trigger] prev[j]@) == x;
                                assert(prev[j] == next[j]);
                            }
                        }
                    }
                }
            } else {
                proof {
                    assert(effective_mime_set(next) =~= effective_mime_set(prev)) by {
                        assert forall|x: Seq<char>| #[trigger] effective_mime_set(next).contains(x) implies effective_mime_set(prev).contains(x) by {
                            let j = choose|j: int| 0 <= j < next.len() && normalized_mime(#[trigger] next[j]@) == x;
                            if j < i {
                                assert(prev[j] == next[j]);
                            }
                        }
                        assert forall|x: Seq<char>| #[trigger] effective_mime_set(prev).contains(x) implies effective_mime_set(next).contains(x) by {
                            let j = choose|j: int| 0 <= j < prev.len() && normalized_mime(#[trigger] prev[j]@) == x;
                            assert(prev[j] == next[j]);
                        }
                    }
                }
            }
            i += 1;
        }
        proof {
            assert(self.input_mime_types@.take(self.input_mime_types@.len() as int) =~= self.input_mime_types@);
        }
        out
    }

    pub fn supports_input(&self, modality: ModelModality) -> (r: bool)
        ensures
            r == self.input_modalities@.contains(modality),
    {
        contains_modality(&self.input_modalities, modality)
    }

    pub fn supports_output(&self, modality: ModelModality) -> (r: bool)
        ensures
            r == self.output_modalities@.contains(modality),
    {
        contains_modality(&self.output_modalities, modality)
    }

    pub fn has_role(&self, role: ModelRole) -> (r: bool)
        ensures
            r == self.roles@.contains(role),
    {
        let mut i: usize = 0;
        while i < self.roles.len()
            invariant
                i <= self.roles@.len(),
                forall|j: int| 0 <= j < i ==> self.roles@[j] != role,
            decreases self.roles.len() - i,
        {
            if self.roles[i] == role {
                return true;
            }
            i += 1;
        }
        false
    }
}

pub fn contains_modality(v: &Vec<ModelModality>, m: ModelModality) -> (r: bool)
    ensures
        r == v@.contains(m),
{
    let mut i: usize = 0;
    while i < v.len()
        invariant
            i <= v@.len(),
            forall|j: int| 0 <= j < i ==> v@[j] != m,
        decreases v.len() - i,
    {
        if v[i] == m {
            return true;
        }
        i += 1;
    }
    false
}

#[derive(Debug)]
pub struct UpstreamModel {
    pub id: String,
    pub provider_id: String,
    pub upstream_model_id: String,
    pub display_name: String,
    pub capabilities: ModelCapabilities,
    pub token_limits: ModelTokenLimits,
    pub compression_policy: Option<ModelCompressionPolicy>,
    pub parameter_overrides: ParameterOverrides,
    pub enabled: bool,
}

#[derive(Debug)]
pub struct VirtualModel {
    pub id: String,
    pub host_model_id: Option<String>,
    pub upstream_model_id: String,
    pub display_name: String,
    pub default_reasoning_level: Option<ReasoningLevel>,
    pub parameter_overrides: ParameterOverrides,
    pub fallback_virtual_model_id: Option<String>,
    pub enabled: bool,
}

/// 32-bit FNV-1a over a byte sequence.
pub open spec fn fnv1a(bytes: Seq<u8>) -> u32
    decreases bytes.len(),
{
    if bytes.len() == 0 {
        0x811c9dc5
    } else {
        (fnv1a(bytes.drop_last()) ^ (bytes.last() as u32)).wrapping_mul(0x01000193)
    }
}

/// Hash of a string into `0..200`: FNV-1a over its UTF-8 bytes.
pub open spec fn spec_stable_hash(value: Seq<char>) -> u16 {
    (fnv1a(vstd::utf8::encode_utf8(value)) % 200) as u16
}

pub fn stable_hash(value: &str) -> (r: u16)
    ensures
        r == spec_stable_hash(value@),
        r < 200,
{
    let bytes = value.as_bytes();
    let mut hash: u32 = 0x811c9dc5;
    let mut i: usize = 0;
    while i < bytes.len()
        invariant
            i <= bytes@.len(),
            bytes@ == vstd::utf8::encode_utf8(value@),
            hash == fnv1a(bytes@.take(i as int)),
        decreases bytes.len() - i,
    {
        hash = hash ^ (bytes[i] as u32);
        hash = hash.wrapping_mul(0x01000193);
        assert(bytes@.take(i as int + 1).drop_last() =~= bytes@.take(i as int));
        i += 1;
    }
    assert(bytes@.take(bytes@.len() as int) =~= bytes@);
    (hash % 200) as u16
}

/// The host slot identifier a model without an explicit one receives.
pub open spec fn derived_host_model_id(id: Seq<char>) -> Seq<char> {
    "MODEL_PLACEHOLDER_M"@ + decimal((400 + spec_stable_hash(id) % 200) as nat)
}

impl VirtualModel {
    /// The host model identifier: the configured one, or a stable slot
    /// `MODEL_PLACEHOLDER_M400..M599` derived from the model ID.
    pub open spec fn spec_host_model_id(&self) -> Seq<char> {
        match self.host_model_id {
            Some(h) => h@,
            None => derived_host_model_id(self.id@),
        }
    }

    /// The key under which the model appears in the host catalog.
    pub open spec fn spec_catalog_key(&self) -> Seq<char> {
        let prefixed = if starts_with(self.id@, "custom-"@) {
            self.id@
        } else {
            "custom-"@ + self.id@
        };
        if !crate::text::contains(prefixed, "_"@) {
            prefixed
        } else {
            let host = self.spec_host_model_id();
            let slot = match strip_prefix(host, "MODEL_PLACEHOLDER_"@) {
                Some(s) => s,
                None => host,
            };
            "custom-byok-"@ + lower(slot)
        }
    }

    pub open spec fn spec_accepted_ids(&self) -> Seq<Seq<char>> {
        seq![self.id@, self.spec_host_model_id(), self.spec_catalog_key()]
    }

    pub open spec fn spec_matches_id(&self, model_id: Seq<char>) -> bool {
        let clean = match strip_prefix(model_id, "models/"@) {
            Some(c) => c,
            None => model_id,
        };
        exists|i: int| 0 <= i < 3 && (#[trigger] self.spec_accepted_ids()[i] == clean || self.spec_accepted_ids()[i] == model_id)
    }

    pub fn effective_host_model_id(&self) -> (r: String)
        ensures
            r@ == self.spec_host_model_id(),
    {
        match &self.host_model_id {
            Some(h) => h.clone(),
            None => {
                let mut buf: Vec<char> = Vec::new();
                push_str(&mut buf, "MODEL_PLACEHOLDER_M");
                let h = stable_hash(self.id.as_str());
                push_decimal(&mut buf, (400 + h % 200) as u64);
                string_from_chars(buf.as_slice())
            },
        }
    }

    /// The catalog key: the ID with a `custom-` prefix; IDs holding `_` use
    /// the host slot instead (`custom-byok-m4xx`), because the host rewrites
    /// such keys in its model map but not in its sort tables.
    pub fn catalog_key(&self) -> (r: String)
        ensures
            r@ == self.spec_catalog_key(),
    {
        let id = chars_of(self.id.as_str());
        let prefixed: Vec<char> = if crate::text::starts_with_str(id.as_slice(), "custom-") {
            id
        } else {
            let mut p: Vec<char> = Vec::new();
            push_str(&mut p, "custom-");
            crate::text::push_chars(&mut p, id.as_slice());
            p
        };
        if !crate::text::contains_str(prefixed.as_slice(), "_") {
            return string_from_chars(prefixed.as_slice());
        }
        let host = self.effective_host_model_id();
        let hc = chars_of(host.as_str());
        let slot = match strip_prefix_str(hc.as_slice(), "MODEL_PLACEHOLDER_") {
            Some(s) => s,
            None => hc,
        };
        let lowered = to_lower(slot.as_slice());
        let mut out: Vec<char> = Vec::new();
        push_str(&mut out, "custom-byok-");
        crate::text::push_chars(&mut out, lowered.as_slice());
        string_from_chars(out.as_slice())
    }

    /// The identifiers that route to this model: its ID, host model ID and catalog key.
    pub fn accepted_ids(&self) -> (r: [String; 3])
        ensures
            r[0]@ == self.id@,
            r[1]@ == self.spec_host_model_id(),
            r[2]@ == self.spec_catalog_key(),
    {
        [self.id.clone(), self.effective_host_model_id(), self.catalog_key()]
    }

    pub fn matches_id(&self, model_id: &str) -> (r: bool)
        ensures
            r == self.spec_matches_id(model_id@),
    {
        let m = chars_of(model_id);
        let clean = match strip_prefix_str(m.as_slice(), "models/") {
            Some(c) => c,
            None => chars_of(model_id),
        };
        let ids = self.accepted_ids();
        let mut i: usize = 0;
        while i < 3
            invariant
                i <= 3,
                ids[0]@ == self.id@,
                ids[1]@ == self.spec_host_model_id(),
                ids[2]@ == self.spec_catalog_key(),
                clean@ == (match strip_prefix(model_id@, "models/"@) {
                    Some(c) => c,
                    None => model_id@,
                }),
                m@ == model_id@,
                forall|j: int| 0 <= j < i ==> !(#[trigger] self.spec_accepted_ids()[j] == clean@ || self.spec_accepted_ids()[j] == model_id@),
            decreases 3 - i,
        {
            let a = chars_of(ids[i].as_str());
            assert(a@ == self.spec_accepted_ids()[i as int]);
            if crate::text::chars_eq(a.as_slice(), clean.as_slice()) || crate::text::chars_eq(a.as_slice(), m.as_slice()) {
                return true;
            }
            i += 1;
        }
        false
    }

    pub fn has_valid_host_model_id(&self) -> (r: bool)
        ensures
            r == (starts_with(self.spec_host_model_id(), "MODEL_PLACEHOLDER_"@) && self.spec_host_model_id().len() > 18),
    {
        let host = self.effective_host_model_id();
        let hc = chars_of(host.as_str());
        proof {
            reveal_strlit("MODEL_PLACEHOLDER_");
        }
        crate::text::starts_with_str(hc.as_slice(), "MODEL_PLACEHOLDER_") && hc.len() > 18
    }
}

} // verus!
