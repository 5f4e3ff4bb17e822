//! Reasoning metadata in model catalogs: which levels a model offers and
//! how each maps onto its protocol.

use crate::domain::provider::ProviderProtocol;
use crate::providers::catalog::ProviderCatalogReasoning;
use crate::domain::reasoning::{
    insert_level, lemma_levels_get_char, level_rank, levels_get, levels_map, levels_wf, rank_of,
    Mapping, ReasoningLevel, ReasoningMapping,
};
use crate::json::{
    entries_get, entries_index, entries_view, items_view, json_view, lemma_entries_get_index,
    lemma_entries_view, lemma_items_view, lemma_weight_entries, lemma_weight_items, weight,
    weight_entries, weight_items, Json, JsonNum, JsonNumber, JsonValue,
};
use crate::text::{
    chars_eq_str, chars_of, contains, contains_str, is_whitespace, is_ws, lower, lower_char,
    parse_unsigned, parse_unsigned_chars, string_from_chars, to_lower, to_lower_char, trim,
    trim_chars,
};
use vstd::prelude::*;

verus! {

/// What the catalog says about reasoning, gathered so far.
pub struct ReasoningFacts {
    pub supported: Option<bool>,
    pub levels: Set<ReasoningLevel>,
    pub mappings: Map<ReasoningLevel, Mapping>,
}

pub open spec fn no_facts() -> ReasoningFacts {
    ReasoningFacts { supported: None, levels: Set::empty(), mappings: Map::empty() }
}

pub open spec fn with_support(st: ReasoningFacts, b: bool) -> ReasoningFacts {
    ReasoningFacts { supported: Some(b), ..st }
}

/// A level name with whitespace, `-` and `_` removed and letters lower-cased.
/// (Only ASCII letters spell level words, so ASCII lower-casing decides
/// exactly what Unicode lower-casing would.)
pub open spec fn level_key(s: Seq<char>) -> Seq<char>
    decreases s.len(),
{
    if s.len() == 0 {
        Seq::empty()
    } else {
        let k = level_key(s.drop_last());
        let c = s.last();
        if !is_ws(c) && c != '-' && c != '_' {
            k.push(lower_char(c))
        } else {
            k
        }
    }
}

pub open spec fn level_word(n: Seq<char>) -> Option<ReasoningLevel> {
    if n == "off"@ || n == "none"@ {
        Some(ReasoningLevel::Off)
    } else if n == "low"@ || n == "minimal"@ {
        Some(ReasoningLevel::Low)
    } else if n == "medium"@ || n == "med"@ || n == "balanced"@ {
        Some(ReasoningLevel::Medium)
    } else if n == "high"@ {
        Some(ReasoningLevel::High)
    } else if n == "xhigh"@ || n == "extrahigh"@ {
        Some(ReasoningLevel::XHigh)
    } else if n == "max"@ || n == "maximum"@ {
        Some(ReasoningLevel::Max)
    } else if n == "auto"@ || n == "adaptive"@ {
        Some(ReasoningLevel::Auto)
    } else {
        None
    }
}

pub open spec fn spec_normalize_level(value: Seq<char>) -> Option<ReasoningLevel> {
    level_word(level_key(value))
}

pub open spec fn spec_level_name(l: ReasoningLevel) -> Seq<char> {
    match l {
        ReasoningLevel::Off => "off"@,
        ReasoningLevel::Low => "low"@,
        ReasoningLevel::Medium => "medium"@,
        ReasoningLevel::High => "high"@,
        ReasoningLevel::XHigh => "xhigh"@,
        ReasoningLevel::Max => "max"@,
        ReasoningLevel::Auto => "auto"@,
    }
}

/// How a level maps onto a protocol: an explicit budget wins; `off`
/// disables; `auto` is adaptive on Anthropic; otherwise the native value
/// (trimmed, lower-cased; the level name when blank) as an effort, or as a
/// native level on Gemini.
pub open spec fn spec_reasoning_mapping(
    p: ProviderProtocol,
    level: ReasoningLevel,
    native: Seq<char>,
    budget: Option<u32>,
) -> Mapping {
    match budget {
        Some(b) => Mapping::BudgetTokens(b),
        None => if level == ReasoningLevel::Off {
            Mapping::Disabled
        } else if level == ReasoningLevel::Auto && p == ProviderProtocol::AnthropicMessages {
            Mapping::Adaptive
        } else {
            let v = if trim(native).len() == 0 {
                spec_level_name(level)
            } else {
                lower(trim(native))
            };
            if p == ProviderProtocol::GeminiGenerateContent {
                Mapping::NativeLevel(v)
            } else {
                Mapping::Effort(v)
            }
        },
    }
}

/// Records a level named `value`: a budget replaces an earlier mapping,
/// otherwise the first mapping seen for the level stays.
pub open spec fn spec_add_level(
    st: ReasoningFacts,
    value: Seq<char>,
    p: ProviderProtocol,
    budget: Option<u32>,
) -> ReasoningFacts {
    match spec_normalize_level(value) {
        None => st,
        Some(level) => {
            let m = spec_reasoning_mapping(p, level, value, budget);
            ReasoningFacts {
                levels: st.levels.insert(level),
                mappings: if budget is Some || !st.mappings.dom().contains(level) {
                    st.mappings.insert(level, m)
                } else {
                    st.mappings
                },
                ..st
            }
        },
    }
}

/// A positive count that fits in `u32`, given as a number or a decimal string.
pub open spec fn spec_positive_u32(v: Json) -> Option<u32> {
    let n = match v {
        Json::Number(JsonNum::Unsigned(u)) => Some(u as nat),
        Json::Str(s) => parse_unsigned(trim(s), u64::MAX as nat),
        _ => None,
    };
    match n {
        Some(x) => if 0 < x && x <= u32::MAX {
            Some(x as u32)
        } else {
            None
        },
        None => None,
    }
}

pub open spec fn member_positive(v: Json, key: Seq<char>) -> Option<u32> {
    match v.get(key) {
        Some(m) => spec_positive_u32(m),
        None => None,
    }
}

pub open spec fn first_some_u32(a: Option<u32>, b: Option<u32>) -> Option<u32> {
    if a is Some {
        a
    } else {
        b
    }
}

/// A reasoning budget: the value itself, or one of its budget members.
pub open spec fn spec_reasoning_budget(v: Json) -> Option<u32> {
    first_some_u32(
        spec_positive_u32(v),
        if v.is_object() {
            first_some_u32(
                member_positive(v, "budget_tokens"@),
                first_some_u32(
                    member_positive(v, "budgetTokens"@),
                    first_some_u32(
                        member_positive(v, "thinking_budget"@),
                        first_some_u32(
                            member_positive(v, "thinkingBudget"@),
                            first_some_u32(
                                member_positive(v, "max_thinking_tokens"@),
                                member_positive(v, "maxThinkingTokens"@),
                            ),
                        ),
                    ),
                ),
            )
        } else {
            None
        },
    )
}

pub open spec fn support_word(n: Seq<char>) -> Option<bool> {
    if n == "enabled"@ || n == "supported"@ || n == "true"@ || n == "on"@ {
        Some(true)
    } else if n == "disabled"@ || n == "unsupported"@ || n == "none"@ || n == "false"@ || n == "off"@ {
        Some(false)
    } else {
        None
    }
}

/// Levels named by the keys of an object, in entry order.
pub open spec fn level_entries(es: Seq<(Seq<char>, Json)>, p: ProviderProtocol, st: ReasoningFacts) -> ReasoningFacts
    decreases es.len(),
{
    if es.len() == 0 {
        st
    } else {
        let prev = level_entries(es.drop_last(), p, st);
        let (key, value) = es.last();
        match spec_normalize_level(key) {
            None => prev,
            Some(level) => if value.as_bool() == Some(false) {
                prev
            } else {
                let next = spec_add_level(prev, key, p, spec_reasoning_budget(value));
                if level != ReasoningLevel::Off {
                    with_support(next, true)
                } else {
                    next
                }
            },
        }
    }
}

pub open spec fn flag_member(v: Json, key: Seq<char>, st: ReasoningFacts) -> ReasoningFacts {
    match v.get(key) {
        Some(Json::Bool(b)) => with_support(st, b),
        _ => st,
    }
}

/// The reasoning facts one catalog value adds: booleans and support words
/// set support, level names and objects of levels add levels, arrays are
/// read item by item.
pub open spec fn collect(v: Json, p: ProviderProtocol, st: ReasoningFacts) -> ReasoningFacts
    decreases v,
{
    match v {
        Json::Bool(b) => with_support(st, b),
        Json::Str(s) => match support_word(lower(trim(s))) {
            Some(b) => with_support(st, b),
            None => spec_add_level(st, s, p, None),
        },
        Json::Number(JsonNum::Unsigned(u)) => if u > 0 {
            with_support(st, true)
        } else {
            st
        },
        Json::Array(items) => collect_items(items, p, st),
        Json::Object(es) => {
            let s1 = collect_member(es, "levels"@, p, st);
            let s2 = collect_member(es, "supported_levels"@, p, s1);
            let s3 = collect_member(es, "supportedLevels"@, p, s2);
            let s4 = collect_member(es, "reasoning_levels"@, p, s3);
            let s5 = collect_member(es, "reasoningLevels"@, p, s4);
            let s6 = collect_member(es, "effort"@, p, s5);
            let s7 = collect_member(es, "supported_efforts"@, p, s6);
            let s8 = collect_member(es, "supportedEfforts"@, p, s7);
            let s9 = collect_member(es, "modes"@, p, s8);
            let s10 = collect_member(es, "supported_modes"@, p, s9);
            let s11 = collect_member(es, "supportedModes"@, p, s10);
            let s12 = collect_member(es, "types"@, p, s11);
            let s13 = level_entries(es, p, s12);
            let obj = Json::Object(es);
            let s14 = flag_member(obj, "supported"@, s13);
            let s15 = flag_member(obj, "enabled"@, s14);
            let s16 = flag_member(obj, "supports_reasoning"@, s15);
            let s17 = flag_member(obj, "supportsReasoning"@, s16);
            match obj.get("type"@) {
                Some(Json::Str(t)) => {
                    let n = lower(t);
                    if n == "enabled"@ || n == "adaptive"@ {
                        with_support(s17, true)
                    } else if n == "disabled"@ || n == "none"@ {
                        with_support(s17, false)
                    } else {
                        s17
                    }
                },
                _ => s17,
            }
        },
        _ => st,
    }
}

pub open spec fn collect_items(items: Seq<Json>, p: ProviderProtocol, st: ReasoningFacts) -> ReasoningFacts
    decreases items,
{
    if items.len() == 0 {
        st
    } else {
        collect(
            items[items.len() - 1],
            p,
            collect_items(items.subrange(0, items.len() - 1), p, st),
        )
    }
}

pub open spec fn collect_member(
    es: Seq<(Seq<char>, Json)>,
    key: Seq<char>,
    p: ProviderProtocol,
    st: ReasoningFacts,
) -> ReasoningFacts
    decreases es,
{
    let k = entries_index(es, key);
    if 0 <= k < es.len() {
        collect(es[k].1, p, st)
    } else {
        st
    }
}

/// Levels in strictly increasing level order.
pub open spec fn levels_sorted(levels: Seq<ReasoningLevel>) -> bool {
    forall|i: int, j: int| 0 <= i < j < levels.len() ==> level_rank(#[trigger] levels[i]) < level_rank(#[trigger] levels[j])
}

/// Facts gathered while reading a catalog entry.
pub struct Collected {
    pub supported: Option<bool>,
    pub levels: Vec<ReasoningLevel>,
    pub mappings: Vec<(ReasoningLevel, ReasoningMapping)>,
}

impl Collected {
    pub open spec fn wf(&self) -> bool {
        levels_sorted(self.levels@) && levels_wf(self.mappings@)
    }

    pub open spec fn facts(&self) -> ReasoningFacts {
        ReasoningFacts {
            supported: self.supported,
            levels: self.levels@.to_set(),
            mappings: levels_map(self.mappings@),
        }
    }

    pub fn new() -> (r: Self)
        ensures
            r.wf(),
            r.facts() == no_facts(),
    {
        let r = Collected { supported: None, levels: Vec::new(), mappings: Vec::new() };
        proof {
            assert(r.levels@.to_set() =~= Set::empty());
            assert(levels_map(r.mappings@) =~= Map::empty());
        }
        r
    }
}

pub fn normalize_reasoning_level(value: &str) -> (r: Option<ReasoningLevel>)
    ensures
        r == spec_normalize_level(value@),
{
    let chars = chars_of(value);
    let mut key: Vec<char> = Vec::new();
    let mut i: usize = 0;
    while i < chars.len()
        invariant
            i <= chars@.len(),
            chars@ == value@,
            key@ == level_key(chars@.take(i as int)),
        decreases chars.len() - i,
    {
        let c = chars[i];
        assert(chars@.take(i as int + 1).drop_last() =~= chars@.take(i as int));
        if !is_whitespace(c) && c != '-' && c != '_' {
            key.push(to_lower_char(c));
        }
        i += 1;
    }
    assert(chars@.take(i as int) =~= chars@);
    let k = key.as_slice();
    if chars_eq_str(k, "off") || chars_eq_str(k, "none") {
        Some(ReasoningLevel::Off)
    } else if chars_eq_str(k, "low") || chars_eq_str(k, "minimal") {
        Some(ReasoningLevel::Low)
    } else if chars_eq_str(k, "medium") || chars_eq_str(k, "med") || chars_eq_str(k, "balanced") {
        Some(ReasoningLevel::Medium)
    } else if chars_eq_str(k, "high") {
        Some(ReasoningLevel::High)
    } else if chars_eq_str(k, "xhigh") || chars_eq_str(k, "extrahigh") {
        Some(ReasoningLevel::XHigh)
    } else if chars_eq_str(k, "max") || chars_eq_str(k, "maximum") {
        Some(ReasoningLevel::Max)
    } else if chars_eq_str(k, "auto") || chars_eq_str(k, "adaptive") {
        Some(ReasoningLevel::Auto)
    } else {
        None
    }
}

pub fn level_name(level: ReasoningLevel) -> (r: &'static str)
    ensures
        r@ == spec_level_name(level),
{
    match level {
        ReasoningLevel::Off => "off",
        ReasoningLevel::Low => "low",
        ReasoningLevel::Medium => "medium",
        ReasoningLevel::High => "high",
        ReasoningLevel::XHigh => "xhigh",
        ReasoningLevel::Max => "max",
        ReasoningLevel::Auto => "auto",
    }
}

pub fn reasoning_mapping(
    protocol: ProviderProtocol,
    level: ReasoningLevel,
    native_value: &str,
    budget_tokens: Option<u32>,
) -> (r: ReasoningMapping)
    ensures
        r@ == spec_reasoning_mapping(protocol, level, native_value@, budget_tokens),
{
    if let Some(b) = budget_tokens {
        return ReasoningMapping::BudgetTokens(b);
    }
    if level == ReasoningLevel::Off {
        return ReasoningMapping::Disabled;
    }
    if level == ReasoningLevel::Auto && protocol == ProviderProtocol::AnthropicMessages {
        return ReasoningMapping::Adaptive;
    }
    let chars = chars_of(native_value);
    let t = trim_chars(chars.as_slice());
    let v = if t.len() == 0 {
        crate::text::owned(level_name(level))
    } else {
        let l = to_lower(t.as_slice());
        string_from_chars(l.as_slice())
    };
    if protocol == ProviderProtocol::GeminiGenerateContent {
        ReasoningMapping::NativeLevel(v)
    } else {
        ReasoningMapping::Effort(v)
    }
}

/// Adds a level to a sorted list of levels, once.
pub fn add_level_sorted(levels: &mut Vec<ReasoningLevel>, level: ReasoningLevel)
    requires
        levels_sorted(old(levels)@),
    ensures
        levels_sorted(final(levels)@),
        final(levels)@.to_set() == old(levels)@.to_set().insert(level),
{
    let ghost o = levels@;
    let rank = rank_of(level);
    let mut i: usize = 0;
    while i < levels.len() && rank_of(levels[i]) < rank
        invariant
            i <= levels@.len(),
            levels@ == o,
            levels_sorted(o),
            rank as nat == level_rank(level),
            forall|j: int| 0 <= j < i ==> level_rank(#[trigger] o[j]) < level_rank(level),
        decreases levels.len() - i,
    {
        i += 1;
    }
    if i < levels.len() && levels[i] == level {
        assert(o.to_set().insert(level) =~= o.to_set());
        return;
    }
    levels.insert(i, level);
    proof {
        let n = levels@;
        assert(n =~= o.insert(i as int, level));
        assert forall|a: int, b: int| 0 <= a < b < n.len() implies level_rank(#[trigger] n[a]) < level_rank(
            #[trigger] n[b],
        ) by {
            if b < i {
                assert(n[a] == o[a] && n[b] == o[b]);
            } else if b == i {
                assert(n[a] == o[a]);
            } else if a < i {
                assert(n[a] == o[a] && n[b] == o[b - 1]);
            } else if a == i {
                assert(n[b] == o[b - 1]);
                assert(level_rank(o[i as int]) >= level_rank(level));
                if b - 1 > i {
                    assert(level_rank(o[i as int]) < level_rank(o[b - 1]));
                }
                assert(o[i as int] != level);
                crate::domain::reasoning::lemma_rank_injective(o[i as int], level);
            } else {
                assert(n[a] == o[a - 1] && n[b] == o[b - 1]);
            }
        }
        assert forall|x: ReasoningLevel| n.to_set().contains(x) <==> o.to_set().insert(level).contains(x) by {
            if n.contains(x) {
                let k = choose|k: int| 0 <= k < n.len() && n[k] == x;
                if k < i {
                    assert(o[k] == x);
                } else if k > i {
                    assert(o[k - 1] == x);
                }
            }
            if o.contains(x) {
                let k = choose|k: int| 0 <= k < o.len() && o[k] == x;
                if k < i {
                    assert(n[k] == x);
                } else {
                    assert(n[k + 1] == x);
                }
            }
            if x == level {
                assert(n[i as int] == x);
            }
        }
        assert(n.to_set() =~= o.to_set().insert(level));
    }
}

/// Whether a level table holds a mapping for `level`.
pub fn has_mapping(mappings: &Vec<(ReasoningLevel, ReasoningMapping)>, level: ReasoningLevel) -> (r: bool)
    requires
        levels_wf(mappings@),
    ensures
        r == levels_map(mappings@).dom().contains(level),
{
    proof {
        lemma_levels_get_char(mappings@, level);
    }
    let mut i: usize = 0;
    while i < mappings.len()
        invariant
            i <= mappings@.len(),
            levels_wf(mappings@),
            forall|j: int| 0 <= j < i ==> #[trigger] mappings@[j].0 != level,
        decreases mappings.len() - i,
    {
        if mappings[i].0 == level {
            proof {
                lemma_levels_get_char(mappings@, level);
                assert(mappings@[i as int].0 == level);
            }
            return true;
        }
        i += 1;
    }
    false
}

pub fn add_reasoning_level(
    value: &str,
    protocol: ProviderProtocol,
    budget_tokens: Option<u32>,
    c: &mut Collected,
)
    requires
        old(c).wf(),
    ensures
        final(c).wf(),
        final(c).facts() == spec_add_level(old(c).facts(), value@, protocol, budget_tokens),
{
    let level = match normalize_reasoning_level(value) {
        Some(l) => l,
        None => {
            return;
        },
    };
    add_level_sorted(&mut c.levels, level);
    let mapping = reasoning_mapping(protocol, level, value, budget_tokens);
    if budget_tokens.is_some() || !has_mapping(&c.mappings, level) {
        insert_level(&mut c.mappings, level, mapping);
    }
}

pub fn parse_positive_u32(value: &JsonValue) -> (r: Option<u32>)
    ensures
        r == spec_positive_u32(value@),
{
    let n: Option<u64> = match value {
        JsonValue::Number(JsonNumber::Unsigned(u)) => Some(*u),
        JsonValue::Str(s) => {
            let chars = chars_of(s.as_str());
            let t = trim_chars(chars.as_slice());
            parse_unsigned_chars(t.as_slice(), u64::MAX)
        },
        _ => None,
    };
    match n {
        Some(x) => if 0 < x && x <= u32::MAX as u64 {
            Some(x as u32)
        } else {
            None
        },
        None => None,
    }
}

fn member_positive_value(v: &JsonValue, key: &str) -> (r: Option<u32>)
    ensures
        r == member_positive(v@, key@),
{
    match v.get(key) {
        Some(m) => parse_positive_u32(m),
        None => None,
    }
}

pub fn parse_reasoning_budget(value: &JsonValue) -> (r: Option<u32>)
    ensures
        r == spec_reasoning_budget(value@),
{
    if let Some(b) = parse_positive_u32(value) {
        return Some(b);
    }
    if !value.is_object() {
        return None;
    }
    if let Some(b) = member_positive_value(value, "budget_tokens") {
        return Some(b);
    }
    if let Some(b) = member_positive_value(value, "budgetTokens") {
        return Some(b);
    }
    if let Some(b) = member_positive_value(value, "thinking_budget") {
        return Some(b);
    }
    if let Some(b) = member_positive_value(value, "thinkingBudget") {
        return Some(b);
    }
    if let Some(b) = member_positive_value(value, "max_thinking_tokens") {
        return Some(b);
    }
    member_positive_value(value, "maxThinkingTokens")
}

fn collect_level_entries(entries: &Vec<(String, JsonValue)>, protocol: ProviderProtocol, c: &mut Collected)
    requires
        old(c).wf(),
    ensures
        final(c).wf(),
        final(c).facts() == level_entries(entries_view(entries@), protocol, old(c).facts()),
{
    let ghost es = entries_view(entries@);
    let ghost start = c.facts();
    proof {
        lemma_entries_view(entries@);
        assert(es.take(0) =~= Seq::<(Seq<char>, Json)>::empty());
    }
    let mut i: usize = 0;
    while i < entries.len()
        invariant
            i <= entries@.len(),
            es == entries_view(entries@),
            es.len() == entries@.len(),
            forall|j: int| 0 <= j < entries@.len() ==> #[trigger] es[j] == (entries@[j].0@, entries@[j].1@),
            c.wf(),
            c.facts() == level_entries(es.take(i as int), protocol, start),
        decreases entries.len() - i,
    {
        let key = entries[i].0.as_str();
        let value = &entries[i].1;
        assert(es.take(i as int + 1).drop_last() =~= es.take(i as int));
        assert(es.take(i as int + 1).last() == es[i as int]);
        if let Some(level) = normalize_reasoning_level(key) {
            if value.as_bool() != Some(false) {
                let budget = parse_reasoning_budget(value);
                add_reasoning_level(key, protocol, budget, c);
                if level != ReasoningLevel::Off {
                    c.supported = Some(true);
                }
            }
        }
        i += 1;
    }
    assert(es.take(i as int) =~= es);
}

fn flag_member_value(v: &JsonValue, key: &str, c: &mut Collected)
    requires
        old(c).wf(),
    ensures
        final(c).wf(),
        final(c).facts() == flag_member(v@, key@, old(c).facts()),
{
    match v.get(key) {
        Some(JsonValue::Bool(b)) => {
            c.supported = Some(*b);
        },
        _ => {},
    }
}

fn collect_member_value(obj: &JsonValue, key: &str, protocol: ProviderProtocol, c: &mut Collected)
    requires
        old(c).wf(),
        obj@ is Object,
    ensures
        final(c).wf(),
        final(c).facts() == collect_member(obj@->Object_0, key@, protocol, old(c).facts()),
    decreases weight(obj@), 0int,
{
    let ghost es = obj@->Object_0;
    proof {
        lemma_entries_get_index(es, key@);
    }
    match obj.get(key) {
        Some(m) => {
            proof {
                let k = entries_index(es, key@);
                lemma_weight_entries(es, k);
            }
            collect_value(m, protocol, c);
        },
        None => {},
    }
}

/// Reads the reasoning facts in one catalog value; see `collect`.
pub fn collect_value(value: &JsonValue, protocol: ProviderProtocol, c: &mut Collected)
    requires
        old(c).wf(),
    ensures
        final(c).wf(),
        final(c).facts() == collect(value@, protocol, old(c).facts()),
    decreases weight(value@), 1int,
{
    match value {
        JsonValue::Bool(b) => {
            c.supported = Some(*b);
        },
        JsonValue::Str(s) => {
            let chars = chars_of(s.as_str());
            let t = trim_chars(chars.as_slice());
            let n = to_lower(t.as_slice());
            let ns = n.as_slice();
            if chars_eq_str(ns, "enabled") || chars_eq_str(ns, "supported") || chars_eq_str(ns, "true")
                || chars_eq_str(ns, "on") {
                c.supported = Some(true);
            } else if chars_eq_str(ns, "disabled") || chars_eq_str(ns, "unsupported") || chars_eq_str(
                ns,
                "none",
            ) || chars_eq_str(ns, "false") || chars_eq_str(ns, "off") {
                c.supported = Some(false);
            } else {
                add_reasoning_level(s.as_str(), protocol, None, c);
            }
        },
        JsonValue::Number(JsonNumber::Unsigned(u)) => {
            if *u > 0 {
                c.supported = Some(true);
            }
        },
        JsonValue::Array(items) => {
            let ghost iv = items_view(items@);
            let ghost start = c.facts();
            proof {
                lemma_items_view(items@);
                assert(iv.subrange(0, 0) =~= Seq::<Json>::empty());
            }
            let mut i: usize = 0;
            while i < items.len()
                invariant
                    i <= items@.len(),
                    iv == items_view(items@),
                    iv.len() == items@.len(),
                    value@ == Json::Array(iv),
                    forall|j: int| 0 <= j < items@.len() ==> #[trigger] iv[j] == items@[j]@,
                    c.wf(),
                    c.facts() == collect_items(iv.subrange(0, i as int), protocol, start),
                decreases items.len() - i,
            {
                proof {
                    lemma_weight_items(iv, i as int);
                    let next = iv.subrange(0, i as int + 1);
                    assert(next.subrange(0, next.len() - 1) =~= iv.subrange(0, i as int));
                    assert(next[next.len() - 1] == iv[i as int]);
                }
                collect_value(&items[i], protocol, c);
                i += 1;
            }
            assert(iv.subrange(0, i as int) =~= iv);
        },
        JsonValue::Object(entries) => {
            collect_member_value(value, "levels", protocol, c);
            collect_member_value(value, "supported_levels", protocol, c);
            collect_member_value(value, "supportedLevels", protocol, c);
            collect_member_value(value, "reasoning_levels", protocol, c);
            collect_member_value(value, "reasoningLevels", protocol, c);
            collect_member_value(value, "effort", protocol, c);
            collect_member_value(value, "supported_efforts", protocol, c);
            collect_member_value(value, "supportedEfforts", protocol, c);
            collect_member_value(value, "modes", protocol, c);
            collect_member_value(value, "supported_modes", protocol, c);
            collect_member_value(value, "supportedModes", protocol, c);
            collect_member_value(value, "types", protocol, c);
            collect_level_entries(entries, protocol, c);
            flag_member_value(value, "supported", c);
            flag_member_value(value, "enabled", c);
            flag_member_value(value, "supports_reasoning", c);
            flag_member_value(value, "supportsReasoning", c);
            match value.get("type") {
                Some(JsonValue::Str(t)) => {
                    let chars = chars_of(t.as_str());
                    let n = to_lower(chars.as_slice());
                    let ns = n.as_slice();
                    if chars_eq_str(ns, "enabled") || chars_eq_str(ns, "adaptive") {
                        c.supported = Some(true);
                    } else if chars_eq_str(ns, "disabled") || chars_eq_str(ns, "none") {
                        c.supported = Some(false);
                    }
                },
                _ => {},
            }
        },
        _ => {},
    }
}

pub open spec fn mentions_reasoning(s: Seq<char>) -> bool {
    contains(lower(s), "reasoning"@) || contains(lower(s), "thinking"@)
}

/// Some string item of the array mentions reasoning or thinking.
pub open spec fn any_mentions_reasoning(items: Seq<Json>) -> bool {
    exists|i: int| 0 <= i < items.len() && ((#[trigger] items[i]).as_str() matches Some(s) && mentions_reasoning(s))
}

pub open spec fn type_member(v: Json, key: Seq<char>, st: ReasoningFacts) -> ReasoningFacts {
    match v.get(key) {
        Some(Json::Str(t)) => if mentions_reasoning(t) {
            with_support(st, true)
        } else {
            st
        },
        _ => st,
    }
}

/// `Value::as_i64`.
pub open spec fn json_i64(v: Json) -> Option<i64> {
    match v {
        Json::Number(JsonNum::Unsigned(u)) => if u <= i64::MAX {
            Some(u as i64)
        } else {
            None
        },
        Json::Number(JsonNum::Negative(i)) => Some(i),
        _ => None,
    }
}

pub open spec fn member_i64(v: Json, key: Seq<char>) -> Option<i64> {
    match v.get(key) {
        Some(m) => json_i64(m),
        None => None,
    }
}

/// The facts the top-level reasoning keys of a catalog entry give.
pub open spec fn top_level_facts(es: Seq<(Seq<char>, Json)>, p: ProviderProtocol) -> ReasoningFacts {
    let s1 = collect_member(es, "reasoning"@, p, no_facts());
    let s2 = collect_member(es, "thinking"@, p, s1);
    let s3 = collect_member(es, "reasoning_capability"@, p, s2);
    let s4 = collect_member(es, "reasoningCapability"@, p, s3);
    let s5 = collect_member(es, "supports_reasoning"@, p, s4);
    let s6 = collect_member(es, "supportsReasoning"@, p, s5);
    let s7 = collect_member(es, "reasoning_levels"@, p, s6);
    let s8 = collect_member(es, "reasoningLevels"@, p, s7);
    let s9 = collect_member(es, "supported_reasoning_levels"@, p, s8);
    let s10 = collect_member(es, "supportedReasoningLevels"@, p, s9);
    let s11 = collect_member(es, "thinking_levels"@, p, s10);
    let s12 = collect_member(es, "thinkingLevels"@, p, s11);
    let s13 = collect_member(es, "supported_thinking_levels"@, p, s12);
    let s14 = collect_member(es, "supportedThinkingLevels"@, p, s13);
    let s15 = collect_member(es, "reasoning_effort"@, p, s14);
    let s16 = collect_member(es, "reasoningEffort"@, p, s15);
    let s17 = collect_member(es, "effort"@, p, s16);
    let s18 = collect_member(es, "supported_efforts"@, p, s17);
    collect_member(es, "supportedEfforts"@, p, s18)
}

pub open spec fn capability_facts(caps: Option<Json>, p: ProviderProtocol, st: ReasoningFacts) -> ReasoningFacts {
    match caps {
        Some(Json::Object(ces)) => {
            let c1 = collect_member(ces, "reasoning"@, p, st);
            let c2 = collect_member(ces, "thinking"@, p, c1);
            let c3 = collect_member(ces, "reasoning_levels"@, p, c2);
            let c4 = collect_member(ces, "reasoningLevels"@, p, c3);
            let c5 = collect_member(ces, "effort"@, p, c4);
            let c6 = collect_member(ces, "supported_efforts"@, p, c5);
            collect_member(ces, "supportedEfforts"@, p, c6)
        },
        Some(Json::Array(items)) => if any_mentions_reasoning(items) {
            with_support(st, true)
        } else {
            st
        },
        _ => st,
    }
}

/// Everything a catalog entry says about reasoning, before the final
/// adjustments.
pub open spec fn entry_facts(item: Json, p: ProviderProtocol) -> ReasoningFacts {
    let es = item->Object_0;
    let t = top_level_facts(es, p);
    let t1 = type_member(item, "type"@, t);
    let t2 = type_member(item, "model_type"@, t1);
    let t3 = type_member(item, "modelType"@, t2);
    let c = capability_facts(item.get("capabilities"@), p, t3);
    let sp = match item.get("supported_parameters"@) {
        Some(Json::Array(ps)) => if any_mentions_reasoning(ps) {
            with_support(c, true)
        } else {
            c
        },
        _ => c,
    };
    let with_levels = if sp.levels != Set::<ReasoningLevel>::empty() || sp.mappings.dom()
        != Set::<ReasoningLevel>::empty() {
        with_support(sp, true)
    } else {
        sp
    };
    match item.get("supportsThinking"@) {
        Some(Json::Bool(b)) => with_support(with_levels, b),
        _ => with_levels,
    }
}

/// The reasoning metadata of a catalog entry; `None` where the entry is not
/// an object or says nothing about reasoning.
pub open spec fn spec_reasoning_metadata(item: Json, p: ProviderProtocol) -> Option<(ReasoningFacts, Option<i64>, Option<i64>)> {
    if !item.is_object() {
        None
    } else {
        let f = entry_facts(item, p);
        let tb = member_i64(item, "thinkingBudget"@);
        let mtb = member_i64(item, "minThinkingBudget"@);
        if f.supported is None && f.levels == Set::<ReasoningLevel>::empty() && f.mappings.dom()
            == Set::<ReasoningLevel>::empty() && tb is None && mtb is None {
            None
        } else {
            Some((f, tb, mtb))
        }
    }
}

fn mentions_reasoning_text(s: &str) -> (r: bool)
    ensures
        r == mentions_reasoning(s@),
{
    let chars = chars_of(s);
    let l = to_lower(chars.as_slice());
    contains_str(l.as_slice(), "reasoning") || contains_str(l.as_slice(), "thinking")
}

fn any_mentions_reasoning_value(items: &Vec<JsonValue>) -> (r: bool)
    ensures
        r == any_mentions_reasoning(items_view(items@)),
{
    let ghost iv = items_view(items@);
    proof {
        lemma_items_view(items@);
    }
    let mut i: usize = 0;
    while i < items.len()
        invariant
            i <= items@.len(),
            iv == items_view(items@),
            iv.len() == items@.len(),
            forall|j: int| 0 <= j < items@.len() ==> #[trigger] iv[j] == items@[j]@,
            forall|j: int| 0 <= j < i ==> !((#[trigger] iv[j]).as_str() matches Some(s) && mentions_reasoning(s)),
        decreases items.len() - i,
    {
        match items[i].as_str() {
            Some(s) => {
                if mentions_reasoning_text(s.as_str()) {
                    assert(iv[i as int].as_str() matches Some(x) && mentions_reasoning(x));
                    return true;
                }
            },
            None => {},
        }
        i += 1;
    }
    false
}

fn type_member_value(v: &JsonValue, key: &str, c: &mut Collected)
    requires
        old(c).wf(),
    ensures
        final(c).wf(),
        final(c).facts() == type_member(v@, key@, old(c).facts()),
{
    match v.get(key) {
        Some(JsonValue::Str(t)) => {
            if mentions_reasoning_text(t.as_str()) {
                c.supported = Some(true);
            }
        },
        _ => {},
    }
}

fn i64_member(v: &JsonValue, key: &str) -> (r: Option<i64>)
    ensures
        r == member_i64(v@, key@),
{
    match v.get(key) {
        Some(JsonValue::Number(JsonNumber::Unsigned(u))) => if *u <= i64::MAX as u64 {
            Some(*u as i64)
        } else {
            None
        },
        Some(JsonValue::Number(JsonNumber::Negative(i))) => Some(*i),
        _ => None,
    }
}

proof fn lemma_empty_levels(levels: Seq<ReasoningLevel>)
    ensures
        levels.len() == 0 <==> levels.to_set() == Set::<ReasoningLevel>::empty(),
{
    if levels.len() > 0 {
        assert(levels.to_set().contains(levels[0]));
    } else {
        assert(levels.to_set() =~= Set::<ReasoningLevel>::empty());
    }
}

proof fn lemma_empty_mappings(m: Seq<(ReasoningLevel, ReasoningMapping)>)
    requires
        levels_wf(m),
    ensures
        m.len() == 0 <==> levels_map(m).dom() == Set::<ReasoningLevel>::empty(),
{
    if m.len() > 0 {
        lemma_levels_get_char(m, m[0].0);
        assert(levels_map(m).dom().contains(m[0].0));
    } else {
        assert forall|l: ReasoningLevel| !levels_map(m).dom().contains(l) by {
            lemma_levels_get_char(m, l);
        }
        assert(levels_map(m).dom() =~= Set::<ReasoningLevel>::empty());
    }
}

/// The reasoning metadata of a catalog entry; see `spec_reasoning_metadata`.
pub fn parse_reasoning_metadata(item: &JsonValue, protocol: ProviderProtocol) -> (r: Option<ProviderCatalogReasoning>)
    ensures
        r is None <==> spec_reasoning_metadata(item@, protocol) is None,
        r matches Some(x) ==> x.wf() && spec_reasoning_metadata(item@, protocol) == Some(
            (
                ReasoningFacts {
                    supported: x.supported,
                    levels: x.level_set(),
                    mappings: x.mapping_map(),
                },
                x.thinking_budget,
                x.min_thinking_budget,
            ),
        ),
{
    if !item.is_object() {
        return None;
    }
    let mut c = Collected::new();
    collect_member_value(item, "reasoning", protocol, &mut c);
    collect_member_value(item, "thinking", protocol, &mut c);
    collect_member_value(item, "reasoning_capability", protocol, &mut c);
    collect_member_value(item, "reasoningCapability", protocol, &mut c);
    collect_member_value(item, "supports_reasoning", protocol, &mut c);
    collect_member_value(item, "supportsReasoning", protocol, &mut c);
    collect_member_value(item, "reasoning_levels", protocol, &mut c);
    collect_member_value(item, "reasoningLevels", protocol, &mut c);
    collect_member_value(item, "supported_reasoning_levels", protocol, &mut c);
    collect_member_value(item, "supportedReasoningLevels", protocol, &mut c);
    collect_member_value(item, "thinking_levels", protocol, &mut c);
    collect_member_value(item, "thinkingLevels", protocol, &mut c);
    collect_member_value(item, "supported_thinking_levels", protocol, &mut c);
    collect_member_value(item, "supportedThinkingLevels", protocol, &mut c);
    collect_member_value(item, "reasoning_effort", protocol, &mut c);
    collect_member_value(item, "reasoningEffort", protocol, &mut c);
    collect_member_value(item, "effort", protocol, &mut c);
    collect_member_value(item, "supported_efforts", protocol, &mut c);
    collect_member_value(item, "supportedEfforts", protocol, &mut c);
    assert(c.facts() == top_level_facts(item@->Object_0, protocol));
    type_member_value(item, "type", &mut c);
    type_member_value(item, "model_type", &mut c);
    type_member_value(item, "modelType", &mut c);
    match item.get("capabilities") {
        Some(caps) => match caps {
            JsonValue::Object(_) => {
                collect_member_value(caps, "reasoning", protocol, &mut c);
                collect_member_value(caps, "thinking", protocol, &mut c);
                collect_member_value(caps, "reasoning_levels", protocol, &mut c);
                collect_member_value(caps, "reasoningLevels", protocol, &mut c);
                collect_member_value(caps, "effort", protocol, &mut c);
                collect_member_value(caps, "supported_efforts", protocol, &mut c);
                collect_member_value(caps, "supportedEfforts", protocol, &mut c);
            },
            JsonValue::Array(items) => {
                if any_mentions_reasoning_value(items) {
                    c.supported = Some(true);
                }
            },
            _ => {},
        },
        None => {},
    }
    match item.get("supported_parameters") {
        Some(JsonValue::Array(ps)) => {
            if any_mentions_reasoning_value(ps) {
                c.supported = Some(true);
            }
        },
        _ => {},
    }
    proof {
        lemma_empty_levels(c.levels@);
        lemma_empty_mappings(c.mappings@);
    }
    if c.levels.len() > 0 || c.mappings.len() > 0 {
        c.supported = Some(true);
    }
    match item.get("supportsThinking") {
        Some(JsonValue::Bool(b)) => {
            c.supported = Some(*b);
        },
        _ => {},
    }
    assert(c.facts() == entry_facts(item@, protocol));
    let thinking_budget = i64_member(item, "thinkingBudget");
    let min_thinking_budget = i64_member(item, "minThinkingBudget");
    if c.supported.is_none() && c.levels.len() == 0 && c.mappings.len() == 0 && thinking_budget.is_none()
        && min_thinking_budget.is_none() {
        return None;
    }
    Some(
        ProviderCatalogReasoning {
            supported: c.supported,
            levels: c.levels,
            mappings: c.mappings,
            thinking_budget,
            min_thinking_budget,
        },
    )
}

} // verus!
