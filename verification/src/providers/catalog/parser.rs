//! Reading model catalogs: the model list, token limits, capabilities,
//! media support and checkpointer policies of each model.

use crate::domain::checkpoint::{policy_problem, CustomModelCheckpointRetryConfig, ModelCompressionPolicy};
use crate::domain::number::{float_text_class};
use crate::domain::provider::{find_key, ProviderProtocol};
use crate::providers::catalog::{ProviderCatalogModel, ProviderCatalogReasoning, UpstreamCompressionPolicy};
use crate::providers::catalog::reasoning::{member_positive, parse_reasoning_metadata, spec_reasoning_metadata, ReasoningFacts};
use crate::json::{
    entries_get, entries_index, entries_lookup, entries_view, items_view, json_view,
    lemma_entries_get_index, lemma_entries_view, lemma_items_view, lemma_weight_entries, weight,
    json_parse_result, parse_json, Json, JsonNum, JsonNumber, JsonValue, JsonRef,
};
use crate::providers::catalog::reasoning::{parse_positive_u32, spec_positive_u32};
use crate::text::{
    chars_of, contains, contains_any, contains_any_str, contains_str, lower, owned, sorted_insert, starts_with, starts_with_str,
    string_from_chars, string_set, strictly_sorted, strip_prefix, strip_prefix_str, to_lower,
    decimal, opt_view, parse_unsigned, parse_unsigned_chars, push_decimal, push_str,
    trim, trim_chars,
};
use vstd::prelude::*;

verus! {

/// The first of `keys` whose member is a positive `u32`.
pub open spec fn first_limit(v: Json, keys: Seq<&str>) -> Option<u32>
    decreases keys.len(),
{
    if keys.len() == 0 {
        None
    } else {
        let here = match v.get(keys[0]@) {
            Some(m) => spec_positive_u32(m),
            None => None,
        };
        if here is Some {
            here
        } else {
            first_limit(v, keys.drop_first())
        }
    }
}

pub open spec fn or_limit(a: Option<u32>, b: Option<u32>) -> Option<u32> {
    if a is Some {
        a
    } else {
        b
    }
}

/// A token limit under one of `keys`, on the object itself or inside its
/// `limits`, `metadata`, `capabilities`, `top_provider` or `topProvider`.
pub open spec fn find_limit(v: Json, keys: Seq<&str>) -> Option<u32>
    decreases v,
{
    match v {
        Json::Object(es) => or_limit(
            first_limit(v, keys),
            or_limit(
                nested_limit(es, "limits"@, keys),
                or_limit(
                    nested_limit(es, "metadata"@, keys),
                    or_limit(
                        nested_limit(es, "capabilities"@, keys),
                        or_limit(nested_limit(es, "top_provider"@, keys), nested_limit(es, "topProvider"@, keys)),
                    ),
                ),
            ),
        ),
        _ => None,
    }
}

pub open spec fn nested_limit(es: Seq<(Seq<char>, Json)>, key: Seq<char>, keys: Seq<&str>) -> Option<u32>
    decreases es,
{
    let k = entries_index(es, key);
    if 0 <= k < es.len() {
        find_limit(es[k].1, keys)
    } else {
        None
    }
}

fn first_limit_value(v: &JsonValue, keys: &[&str]) -> (r: Option<u32>)
    ensures
        r == first_limit(v@, keys@),
{
    let mut i: usize = 0;
    assert(keys@.skip(0) =~= keys@);
    while i < keys.len()
        invariant
            i <= keys@.len(),
            first_limit(v@, keys@) == first_limit(v@, keys@.skip(i as int)),
        decreases keys.len() - i,
    {
        assert(keys@.skip(i as int).drop_first() =~= keys@.skip(i as int + 1));
        assert(keys@.skip(i as int)[0] == keys@[i as int]);
        let here = match v.get(keys[i]) {
            Some(m) => parse_positive_u32(m),
            None => None,
        };
        if here.is_some() {
            return here;
        }
        i += 1;
    }
    None
}

fn nested_limit_value(obj: &JsonValue, key: &str, keys: &[&str]) -> (r: Option<u32>)
    requires
        obj@ is Object,
    ensures
        r == nested_limit(obj@->Object_0, key@, keys@),
    decreases weight(obj@), 0int,
{
    let ghost es = obj@->Object_0;
    proof {
        lemma_entries_get_index(es, key@);
    }
    match obj.get(key) {
        Some(m) => {
            proof {
                lemma_weight_entries(es, entries_index(es, key@));
            }
            find_limit_value(m, keys)
        },
        None => None,
    }
}

/// A token limit of a catalog entry; see `find_limit`.
pub fn find_limit_value(v: &JsonValue, keys: &[&str]) -> (r: Option<u32>)
    ensures
        r == find_limit(v@, keys@),
    decreases weight(v@), 1int,
{
    if !v.is_object() {
        return None;
    }
    if let Some(x) = first_limit_value(v, keys) {
        return Some(x);
    }
    if let Some(x) = nested_limit_value(v, "limits", keys) {
        return Some(x);
    }
    if let Some(x) = nested_limit_value(v, "metadata", keys) {
        return Some(x);
    }
    if let Some(x) = nested_limit_value(v, "capabilities", keys) {
        return Some(x);
    }
    if let Some(x) = nested_limit_value(v, "top_provider", keys) {
        return Some(x);
    }
    nested_limit_value(v, "topProvider", keys)
}

/// Model IDs are trimmed; Gemini IDs lose their `models/` prefix.
pub open spec fn spec_normalize_model_id(value: Seq<char>, p: ProviderProtocol) -> Seq<char> {
    let t = trim(value);
    if p == ProviderProtocol::GeminiGenerateContent {
        match strip_prefix(t, "models/"@) {
            Some(rest) => rest,
            None => t,
        }
    } else {
        t
    }
}

pub fn normalize_model_id(value: &str, protocol: ProviderProtocol) -> (r: String)
    ensures
        r@ == spec_normalize_model_id(value@, protocol),
{
    let chars = chars_of(value);
    let t = trim_chars(chars.as_slice());
    if protocol == ProviderProtocol::GeminiGenerateContent {
        match strip_prefix_str(t.as_slice(), "models/") {
            Some(rest) => string_from_chars(rest.as_slice()),
            None => string_from_chars(t.as_slice()),
        }
    } else {
        string_from_chars(t.as_slice())
    }
}

/// Catalog entries, each with the object key it was stored under (for
/// catalogs that map model IDs to metadata).
pub open spec fn items_of(v: Json) -> Option<Seq<(Json, Option<Seq<char>>)>> {
    match v {
        Json::Array(items) => Some(items.map_values(|x: Json| (x, None::<Seq<char>>))),
        Json::Object(es) => Some(es.map_values(|e: (Seq<char>, Json)| (e.1, Some(e.0)))),
        _ => None,
    }
}

pub open spec fn container_items(payload: Json, key: Seq<char>) -> Option<Seq<(Json, Option<Seq<char>>)>> {
    match payload.get(key) {
        Some(v) => items_of(v),
        None => None,
    }
}

/// The entries of a catalog: a top-level array, the array or object under
/// `data` or `models`, or a top-level object with an object member.
pub open spec fn spec_catalog_items(payload: Json) -> Seq<(Json, Option<Seq<char>>)> {
    match payload {
        Json::Array(items) => items.map_values(|x: Json| (x, None::<Seq<char>>)),
        _ => match container_items(payload, "data"@) {
            Some(x) => x,
            None => match container_items(payload, "models"@) {
                Some(x) => x,
                None => match payload {
                    Json::Object(es) => if exists|i: int| 0 <= i < es.len() && (#[trigger] es[i]).1.is_object() {
                        es.map_values(|e: (Seq<char>, Json)| (e.1, Some(e.0)))
                    } else {
                        Seq::empty()
                    },
                    _ => Seq::empty(),
                },
            },
        },
    }
}

pub open spec fn item_refs_view(v: Seq<(&JsonValue, Option<&String>)>) -> Seq<(Json, Option<Seq<char>>)> {
    v.map_values(
        |e: (&JsonValue, Option<&String>)|
            (
                e.0@,
                match e.1 {
                    Some(s) => Some(s@),
                    None => None,
                },
            ),
    )
}

fn array_refs(items: &Vec<JsonValue>) -> (r: Vec<(&JsonValue, Option<&String>)>)
    ensures
        item_refs_view(r@) == items_view(items@).map_values(|x: Json| (x, None::<Seq<char>>)),
{
    proof {
        lemma_items_view(items@);
    }
    let mut out: Vec<(&JsonValue, Option<&String>)> = Vec::new();
    let mut i: usize = 0;
    while i < items.len()
        invariant
            i <= items@.len(),
            items_view(items@).len() == items@.len(),
            forall|j: int| 0 <= j < items@.len() ==> #[trigger] items_view(items@)[j] == items@[j]@,
            item_refs_view(out@) =~= items_view(items@).take(i as int).map_values(
                |x: Json| (x, None::<Seq<char>>),
            ),
        decreases items.len() - i,
    {
        let ghost before = out@;
        out.push((&items[i], None));
        proof {
            let f = |x: Json| (x, None::<Seq<char>>);
            assert(item_refs_view(out@) =~= item_refs_view(before).push((items@[i as int]@, None::<Seq<char>>)));
            assert(items_view(items@).take(i as int + 1).map_values(f) =~= items_view(items@).take(
                i as int,
            ).map_values(f).push(f(items_view(items@)[i as int])));
        }
        i += 1;
    }
    assert(items_view(items@).take(i as int) =~= items_view(items@));
    out
}

fn entry_refs(entries: &Vec<(String, JsonValue)>) -> (r: Vec<(&JsonValue, Option<&String>)>)
    ensures
        item_refs_view(r@) == entries_view(entries@).map_values(|e: (Seq<char>, Json)| (e.1, Some(e.0))),
{
    proof {
        lemma_entries_view(entries@);
    }
    let mut out: Vec<(&JsonValue, Option<&String>)> = Vec::new();
    let mut i: usize = 0;
    while i < entries.len()
        invariant
            i <= entries@.len(),
            entries_view(entries@).len() == entries@.len(),
            forall|j: int| 0 <= j < entries@.len() ==> #[trigger] entries_view(entries@)[j] == (entries@[j].0@, entries@[j].1@),
            item_refs_view(out@) =~= entries_view(entries@).take(i as int).map_values(
                |e: (Seq<char>, Json)| (e.1, Some(e.0)),
            ),
        decreases entries.len() - i,
    {
        let ghost before = out@;
        out.push((&entries[i].1, Some(&entries[i].0)));
        proof {
            let f = |e: (Seq<char>, Json)| (e.1, Some(e.0));
            assert(item_refs_view(out@) =~= item_refs_view(before).push(
                (entries@[i as int].1@, Some(entries@[i as int].0@)),
            ));
            assert(entries_view(entries@).take(i as int + 1).map_values(f) =~= entries_view(entries@).take(
                i as int,
            ).map_values(f).push(f(entries_view(entries@)[i as int])));
        }
        i += 1;
    }
    assert(entries_view(entries@).take(i as int) =~= entries_view(entries@));
    out
}

fn container_refs<'a>(payload: &'a JsonValue, key: &str) -> (r: Option<Vec<(&'a JsonValue, Option<&'a String>)>>)
    ensures
        r matches Some(v) ==> container_items(payload@, key@) == Some(item_refs_view(v@)),
        r is None ==> container_items(payload@, key@) is None,
{
    match payload.get(key) {
        Some(v) => match v {
            JsonValue::Array(items) => Some(array_refs(items)),
            JsonValue::Object(entries) => Some(entry_refs(entries)),
            _ => None,
        },
        None => None,
    }
}

/// The entries of a catalog; see `spec_catalog_items`.
pub fn catalog_items(payload: &JsonValue) -> (r: Vec<(&JsonValue, Option<&String>)>)
    ensures
        item_refs_view(r@) == spec_catalog_items(payload@),
{
    if let JsonValue::Array(items) = payload {
        return array_refs(items);
    }
    if let Some(v) = container_refs(payload, "data") {
        return v;
    }
    if let Some(v) = container_refs(payload, "models") {
        return v;
    }
    match payload {
        JsonValue::Object(entries) => {
            proof {
                lemma_entries_view(entries@);
            }
            let mut i: usize = 0;
            while i < entries.len()
                invariant
                    i <= entries@.len(),
                    payload@ == Json::Object(entries_view(entries@)),
                    container_items(payload@, "data"@) is None,
                    container_items(payload@, "models"@) is None,
                    entries_view(entries@).len() == entries@.len(),
                    forall|j: int| 0 <= j < entries@.len() ==> #[trigger] entries_view(entries@)[j] == (entries@[j].0@, entries@[j].1@),
                    forall|j: int| 0 <= j < i ==> !(#[trigger] entries_view(entries@)[j]).1.is_object(),
                decreases entries.len() - i,
            {
                if entries[i].1.is_object() {
                    proof {
                        let es = entries_view(entries@);
                        assert(payload@ == Json::Object(es));
                        assert(es[i as int].1.is_object());
                        assert(exists|j: int| 0 <= j < es.len() && (#[trigger] es[j]).1.is_object());
                    }
                    return entry_refs(entries);
                }
                i += 1;
            }
            let out: Vec<(&JsonValue, Option<&String>)> = Vec::new();
            assert(item_refs_view(out@) =~= Seq::empty());
            out
        },
        _ => {
            let out: Vec<(&JsonValue, Option<&String>)> = Vec::new();
            assert(item_refs_view(out@) =~= Seq::empty());
            out
        },
    }
}

/// Top-level members copied into a model's capabilities where absent there.
pub open spec fn capability_copy_keys() -> Seq<&'static str> {
    seq![
        "inputModalities",
        "input_modalities",
        "supportedGenerationMethods",
        "supported_generation_methods",
        "supportedParameters",
        "supported_parameters",
        "experimentalSupportedTools",
        "experimental_supported_tools",
        "supportsImageInput",
        "supports_image_input",
        "supportsImages",
        "supports_images",
        "supportsVideo",
        "supports_video",
        "supportedMimeTypes",
        "supported_mime_types",
        "supportsParallelToolCalls",
        "supports_parallel_tool_calls",
        "supportsTools",
        "supports_tools",
        "vision",
        "tools",
    ]
}

pub open spec fn copy_missing(m: Seq<(Seq<char>, Json)>, item: Json, keys: Seq<&str>) -> Seq<(Seq<char>, Json)>
    decreases keys.len(),
{
    if keys.len() == 0 {
        m
    } else {
        let next = match item.get(keys[0]@) {
            Some(v) => if entries_index(m, keys[0]@) < 0 {
                m.push((keys[0]@, v))
            } else {
                m
            },
            None => m,
        };
        copy_missing(next, item, keys.drop_first())
    }
}

/// The first of `keys` whose capability is a boolean.
pub open spec fn caps_bool(m: Seq<(Seq<char>, Json)>, keys: Seq<&str>) -> Option<bool>
    decreases keys.len(),
{
    if keys.len() == 0 {
        None
    } else {
        match entries_get(m, keys[0]@) {
            Some(Json::Bool(b)) => Some(b),
            _ => caps_bool(m, keys.drop_first()),
        }
    }
}

pub open spec fn str_items_contain(items: Seq<Json>, frags: Seq<&str>) -> bool {
    exists|i: int| 0 <= i < items.len() && ((#[trigger] items[i]).as_str() matches Some(s) && contains_any(lower(s), frags))
}

/// For the first of `keys` whose capability is an array: whether a string
/// item of it contains one of `frags` (case-insensitively).
pub open spec fn caps_array_contains(m: Seq<(Seq<char>, Json)>, keys: Seq<&str>, frags: Seq<&str>) -> Option<bool>
    decreases keys.len(),
{
    if keys.len() == 0 {
        None
    } else {
        match entries_get(m, keys[0]@) {
            Some(Json::Array(items)) => Some(str_items_contain(items, frags)),
            _ => caps_array_contains(m, keys.drop_first(), frags),
        }
    }
}

/// For the first of `keys` whose capability is an array: whether it has items.
pub open spec fn caps_array_non_empty(m: Seq<(Seq<char>, Json)>, keys: Seq<&str>) -> Option<bool>
    decreases keys.len(),
{
    if keys.len() == 0 {
        None
    } else {
        match entries_get(m, keys[0]@) {
            Some(Json::Array(items)) => Some(items.len() > 0),
            _ => caps_array_non_empty(m, keys.drop_first()),
        }
    }
}

pub open spec fn only_true(o: Option<bool>) -> Option<bool> {
    if o == Some(true) {
        o
    } else {
        None
    }
}

pub open spec fn or_bool(a: Option<bool>, b: Option<bool>) -> Option<bool> {
    if a is Some {
        a
    } else {
        b
    }
}

pub open spec fn vision_keys() -> Seq<&'static str> {
    seq!["supportsImageInput", "supports_image_input", "supportsImages", "supports_images"]
}

pub open spec fn modality_keys() -> Seq<&'static str> {
    seq!["inputModalities", "input_modalities"]
}

pub open spec fn inferred_vision(m: Seq<(Seq<char>, Json)>) -> Option<bool> {
    or_bool(caps_bool(m, vision_keys()), caps_array_contains(m, modality_keys(), seq!["image"]))
}

pub open spec fn inferred_tools(m: Seq<(Seq<char>, Json)>) -> Option<bool> {
    or_bool(
        caps_bool(m, seq!["supportsTools", "supports_tools"]),
        or_bool(
            only_true(caps_bool(m, seq!["supportsParallelToolCalls", "supports_parallel_tool_calls"])),
            or_bool(
                only_true(caps_array_non_empty(m, seq!["experimentalSupportedTools", "experimental_supported_tools"])),
                only_true(
                    caps_array_contains(
                        m,
                        seq!["supportedGenerationMethods", "supported_generation_methods"],
                        seq!["tool", "function"],
                    ),
                ),
            ),
        ),
    )
}

pub open spec fn add_inferred(m: Seq<(Seq<char>, Json)>, key: Seq<char>, value: Option<bool>) -> Seq<(Seq<char>, Json)> {
    if entries_index(m, key) >= 0 {
        m
    } else {
        match value {
            Some(b) => m.push((key, Json::Bool(b))),
            None => m,
        }
    }
}

/// The capabilities of a catalog entry: its own `capabilities` object with
/// the capability members of the entry copied in where missing, and
/// `vision` and `tools` inferred where not stated. A `capabilities` member
/// that is not an object is kept as it is.
pub open spec fn spec_capabilities(item: Json) -> Option<Json> {
    match item {
        Json::Object(_) => match item.get("capabilities"@) {
            Some(c) => if !c.is_object() {
                Some(c)
            } else {
                let m1 = copy_missing(c->Object_0, item, capability_copy_keys());
                let m2 = add_inferred(m1, "vision"@, inferred_vision(m1));
                let m3 = add_inferred(m2, "tools"@, inferred_tools(m2));
                if m3.len() == 0 {
                    None
                } else {
                    Some(Json::Object(m3))
                }
            },
            None => {
                let m1 = copy_missing(Seq::empty(), item, capability_copy_keys());
                let m2 = add_inferred(m1, "vision"@, inferred_vision(m1));
                let m3 = add_inferred(m2, "tools"@, inferred_tools(m2));
                if m3.len() == 0 {
                    None
                } else {
                    Some(Json::Object(m3))
                }
            },
        },
        _ => None,
    }
}

fn copy_missing_value(m: &mut Vec<(String, JsonValue)>, item: &JsonValue, keys: &[&str])
    ensures
        entries_view(final(m)@) == copy_missing(entries_view(old(m)@), item@, keys@),
{
    let ghost start = entries_view(m@);
    let mut i: usize = 0;
    assert(keys@.skip(0) =~= keys@);
    while i < keys.len()
        invariant
            i <= keys@.len(),
            copy_missing(start, item@, keys@) == copy_missing(entries_view(m@), item@, keys@.skip(i as int)),
        decreases keys.len() - i,
    {
        assert(keys@.skip(i as int).drop_first() =~= keys@.skip(i as int + 1));
        assert(keys@.skip(i as int)[0] == keys@[i as int]);
        match item.get(keys[i]) {
            Some(v) => {
                if find_key(m, keys[i]).is_none() {
                    crate::json::push_entry(m, keys[i], v.deep_clone());
                }
            },
            None => {},
        }
        i += 1;
    }
}

fn caps_bool_value(m: &Vec<(String, JsonValue)>, keys: &[&str]) -> (r: Option<bool>)
    ensures
        r == caps_bool(entries_view(m@), keys@),
{
    let mut i: usize = 0;
    assert(keys@.skip(0) =~= keys@);
    while i < keys.len()
        invariant
            i <= keys@.len(),
            caps_bool(entries_view(m@), keys@) == caps_bool(entries_view(m@), keys@.skip(i as int)),
        decreases keys.len() - i,
    {
        assert(keys@.skip(i as int).drop_first() =~= keys@.skip(i as int + 1));
        assert(keys@.skip(i as int)[0] == keys@[i as int]);
        match entries_lookup(m, keys[i]) {
            Some(JsonValue::Bool(b)) => {
                return Some(*b);
            },
            _ => {},
        }
        i += 1;
    }
    None
}

fn str_items_contain_value(items: &Vec<JsonValue>, frags: &[&str]) -> (r: bool)
    ensures
        r == str_items_contain(items_view(items@), frags@),
{
    let ghost iv = items_view(items@);
    proof {
        lemma_items_view(items@);
    }
    let mut i: usize = 0;
    while i < items.len()
        invariant
            i <= items@.len(),
            iv == items_view(items@),
            iv.len() == items@.len(),
            forall|j: int| 0 <= j < items@.len() ==> #[trigger] iv[j] == items@[j]@,
            forall|j: int| 0 <= j < i ==> !((#[trigger] iv[j]).as_str() matches Some(s) && contains_any(lower(s), frags@)),
        decreases items.len() - i,
    {
        match items[i].as_str() {
            Some(s) => {
                let c = chars_of(s.as_str());
                let l = to_lower(c.as_slice());
                if contains_any_str(l.as_slice(), frags) {
                    assert(iv[i as int].as_str() matches Some(x) && contains_any(lower(x), frags@));
                    return true;
                }
            },
            None => {},
        }
        i += 1;
    }
    false
}

fn caps_array_contains_value(m: &Vec<(String, JsonValue)>, keys: &[&str], frags: &[&str]) -> (r: Option<bool>)
    ensures
        r == caps_array_contains(entries_view(m@), keys@, frags@),
{
    let mut i: usize = 0;
    assert(keys@.skip(0) =~= keys@);
    while i < keys.len()
        invariant
            i <= keys@.len(),
            caps_array_contains(entries_view(m@), keys@, frags@) == caps_array_contains(
                entries_view(m@),
                keys@.skip(i as int),
                frags@,
            ),
        decreases keys.len() - i,
    {
        assert(keys@.skip(i as int).drop_first() =~= keys@.skip(i as int + 1));
        assert(keys@.skip(i as int)[0] == keys@[i as int]);
        match entries_lookup(m, keys[i]) {
            Some(JsonValue::Array(items)) => {
                return Some(str_items_contain_value(items, frags));
            },
            _ => {},
        }
        i += 1;
    }
    None
}

fn caps_array_non_empty_value(m: &Vec<(String, JsonValue)>, keys: &[&str]) -> (r: Option<bool>)
    ensures
        r == caps_array_non_empty(entries_view(m@), keys@),
{
    let mut i: usize = 0;
    assert(keys@.skip(0) =~= keys@);
    while i < keys.len()
        invariant
            i <= keys@.len(),
            caps_array_non_empty(entries_view(m@), keys@) == caps_array_non_empty(
                entries_view(m@),
                keys@.skip(i as int),
            ),
        decreases keys.len() - i,
    {
        assert(keys@.skip(i as int).drop_first() =~= keys@.skip(i as int + 1));
        assert(keys@.skip(i as int)[0] == keys@[i as int]);
        match entries_lookup(m, keys[i]) {
            Some(JsonValue::Array(items)) => {
                proof {
                    lemma_items_view(items@);
                }
                return Some(items.len() > 0);
            },
            _ => {},
        }
        i += 1;
    }
    None
}

fn only_true_value(o: Option<bool>) -> (r: Option<bool>)
    ensures
        r == only_true(o),
{
    if o == Some(true) {
        o
    } else {
        None
    }
}

fn infer_capabilities(m: &mut Vec<(String, JsonValue)>)
    ensures
        ({
            let m1 = entries_view(old(m)@);
            let m2 = add_inferred(m1, "vision"@, inferred_vision(m1));
            entries_view(final(m)@) == add_inferred(m2, "tools"@, inferred_tools(m2))
        }),
{
    if find_key(m, "vision").is_none() {
        let vk: [&str; 4] = ["supportsImageInput", "supports_image_input", "supportsImages", "supports_images"];
        let mk: [&str; 2] = ["inputModalities", "input_modalities"];
        let fr: [&str; 1] = ["image"];
        assert(vk@ =~= vision_keys());
        assert(mk@ =~= modality_keys());
        assert(fr@ =~= seq!["image"]);
        let vision = match caps_bool_value(m, &vk) {
            Some(b) => Some(b),
            None => caps_array_contains_value(m, &mk, &fr),
        };
        if let Some(b) = vision {
            crate::json::push_entry(m, "vision", JsonValue::Bool(b));
        }
    }
    if find_key(m, "tools").is_none() {
        let tk: [&str; 2] = ["supportsTools", "supports_tools"];
        let pk: [&str; 2] = ["supportsParallelToolCalls", "supports_parallel_tool_calls"];
        let ek: [&str; 2] = ["experimentalSupportedTools", "experimental_supported_tools"];
        let gk: [&str; 2] = ["supportedGenerationMethods", "supported_generation_methods"];
        let gf: [&str; 2] = ["tool", "function"];
        assert(tk@ =~= seq!["supportsTools", "supports_tools"]);
        assert(pk@ =~= seq!["supportsParallelToolCalls", "supports_parallel_tool_calls"]);
        assert(ek@ =~= seq!["experimentalSupportedTools", "experimental_supported_tools"]);
        assert(gk@ =~= seq!["supportedGenerationMethods", "supported_generation_methods"]);
        assert(gf@ =~= seq!["tool", "function"]);
        let tools = match caps_bool_value(m, &tk) {
            Some(b) => Some(b),
            None => match only_true_value(caps_bool_value(m, &pk)) {
                Some(b) => Some(b),
                None => match only_true_value(caps_array_non_empty_value(m, &ek)) {
                    Some(b) => Some(b),
                    None => only_true_value(caps_array_contains_value(m, &gk, &gf)),
                },
            },
        };
        if let Some(b) = tools {
            crate::json::push_entry(m, "tools", JsonValue::Bool(b));
        }
    }
}

/// The capabilities of a catalog entry; see `spec_capabilities`.
pub fn extract_capabilities(item: &JsonValue) -> (r: Option<JsonValue>)
    ensures
        r matches Some(v) ==> spec_capabilities(item@) == Some(v@),
        r is None ==> spec_capabilities(item@) is None,
{
    if !item.is_object() {
        return None;
    }
    let mut caps: Vec<(String, JsonValue)> = match item.get("capabilities") {
        Some(c) => match c {
            JsonValue::Object(entries) => crate::domain::provider::clone_entries(entries),
            other => {
                return Some(other.deep_clone());
            },
        },
        None => {
            let e: Vec<(String, JsonValue)> = Vec::new();
            assert(entries_view(e@) =~= Seq::empty());
            e
        },
    };
    let keys: [&str; 22] = [
        "inputModalities",
        "input_modalities",
        "supportedGenerationMethods",
        "supported_generation_methods",
        "supportedParameters",
        "supported_parameters",
        "experimentalSupportedTools",
        "experimental_supported_tools",
        "supportsImageInput",
        "supports_image_input",
        "supportsImages",
        "supports_images",
        "supportsVideo",
        "supports_video",
        "supportedMimeTypes",
        "supported_mime_types",
        "supportsParallelToolCalls",
        "supports_parallel_tool_calls",
        "supportsTools",
        "supports_tools",
        "vision",
        "tools",
    ];
    assert(keys@ =~= capability_copy_keys());
    copy_missing_value(&mut caps, item, &keys);
    infer_capabilities(&mut caps);
    proof {
        lemma_entries_view(caps@);
    }
    if caps.len() == 0 {
        None
    } else {
        Some(JsonValue::Object(caps))
    }
}

/// The first of `keys` present on the object.
pub open spec fn first_present(v: Json, keys: Seq<&str>) -> Option<Json>
    decreases keys.len(),
{
    if keys.len() == 0 {
        None
    } else {
        match v.get(keys[0]@) {
            Some(m) => Some(m),
            None => first_present(v, keys.drop_first()),
        }
    }
}

/// A media field: on the entry itself, else in its `capabilities` object.
pub open spec fn media_field(item: Json, keys: Seq<&str>) -> Option<Json> {
    match first_present(item, keys) {
        Some(m) => Some(m),
        None => match item.get("capabilities"@) {
            Some(c) => if c.is_object() {
                first_present(c, keys)
            } else {
                None
            },
            None => None,
        },
    }
}

pub open spec fn array_mime(x: Json) -> Option<Seq<char>> {
    match x {
        Json::Str(s) => if trim(s).len() > 0 {
            Some(lower(trim(s)))
        } else {
            None
        },
        _ => None,
    }
}

pub open spec fn object_mime(e: (Seq<char>, Json)) -> Option<Seq<char>> {
    if e.1 == Json::Bool(true) && trim(e.0).len() > 0 {
        Some(lower(trim(e.0)))
    } else {
        None
    }
}

pub open spec fn array_mimes_upto(items: Seq<Json>, n: int) -> Set<Seq<char>> {
    Set::new(|m: Seq<char>| exists|j: int| 0 <= j < n && #[trigger] array_mime(items[j]) == Some(m))
}

pub open spec fn object_mimes_upto(es: Seq<(Seq<char>, Json)>, n: int) -> Set<Seq<char>> {
    Set::new(|m: Seq<char>| exists|j: int| 0 <= j < n && #[trigger] object_mime(es[j]) == Some(m))
}

/// Supported MIME types: the non-blank strings of an array, or the keys of
/// an object whose value is `true`; trimmed and lower-cased.
pub open spec fn mime_set(v: Json) -> Set<Seq<char>> {
    match v {
        Json::Array(items) => array_mimes_upto(items, items.len() as int),
        Json::Object(es) => object_mimes_upto(es, es.len() as int),
        _ => Set::empty(),
    }
}

pub open spec fn has_prefix_in(s: Set<Seq<char>>, prefix: Seq<char>) -> bool {
    exists|m: Seq<char>| s.contains(m) && #[trigger] starts_with(m, prefix)
}

pub struct MediaFacts {
    pub mime_types: Set<Seq<char>>,
    pub images: Option<bool>,
    pub video: Option<bool>,
}

pub open spec fn mime_keys() -> Seq<&'static str> {
    seq!["supportedMimeTypes", "supported_mime_types"]
}

pub open spec fn image_keys() -> Seq<&'static str> {
    seq![
        "supportsImages",
        "supports_images",
        "supportsVision",
        "supports_vision",
        "supportsImageInput",
        "supports_image_input",
    ]
}

pub open spec fn video_keys() -> Seq<&'static str> {
    seq!["supportsVideo", "supports_video"]
}

/// Media support of a catalog entry. Flags not stated are read off the MIME
/// types; a stated flag without a matching MIME type adds the common types.
pub open spec fn spec_media(item: Json) -> MediaFacts {
    let m0 = match media_field(item, mime_keys()) {
        Some(v) => mime_set(v),
        None => Set::empty(),
    };
    let i0 = match media_field(item, image_keys()) {
        Some(v) => v.as_bool(),
        None => None,
    };
    let v0 = match media_field(item, video_keys()) {
        Some(v) => v.as_bool(),
        None => None,
    };
    let listed = m0 != Set::<Seq<char>>::empty();
    let i1 = if listed && i0 is None {
        Some(has_prefix_in(m0, "image/"@))
    } else {
        i0
    };
    let v1 = if listed && v0 is None {
        Some(has_prefix_in(m0, "video/"@))
    } else {
        v0
    };
    let m1 = if i1 == Some(true) && !has_prefix_in(m0, "image/"@) {
        m0.insert("image/png"@).insert("image/jpeg"@).insert("image/webp"@)
    } else {
        m0
    };
    let m2 = if v1 == Some(true) && !has_prefix_in(m1, "video/"@) {
        m1.insert("video/mp4"@).insert("video/webm"@)
    } else {
        m1
    };
    MediaFacts { mime_types: m2, images: i1, video: v1 }
}

fn first_present_value<'a>(v: &'a JsonValue, keys: &[&str]) -> (r: Option<&'a JsonValue>)
    ensures
        r matches Some(m) ==> first_present(v@, keys@) == Some(m@),
        r is None ==> first_present(v@, keys@) is None,
{
    let mut i: usize = 0;
    assert(keys@.skip(0) =~= keys@);
    while i < keys.len()
        invariant
            i <= keys@.len(),
            first_present(v@, keys@) == first_present(v@, keys@.skip(i as int)),
        decreases keys.len() - i,
    {
        assert(keys@.skip(i as int).drop_first() =~= keys@.skip(i as int + 1));
        assert(keys@.skip(i as int)[0] == keys@[i as int]);
        if let Some(m) = v.get(keys[i]) {
            return Some(m);
        }
        i += 1;
    }
    None
}

fn media_field_value<'a>(item: &'a JsonValue, keys: &[&str]) -> (r: Option<&'a JsonValue>)
    ensures
        r matches Some(m) ==> media_field(item@, keys@) == Some(m@),
        r is None ==> media_field(item@, keys@) is None,
{
    if let Some(m) = first_present_value(item, keys) {
        return Some(m);
    }
    match item.get("capabilities") {
        Some(c) => if c.is_object() {
            first_present_value(c, keys)
        } else {
            None
        },
        None => None,
    }
}

proof fn lemma_string_set_empty(v: Seq<String>)
    ensures
        (v.len() == 0) <==> (string_set(v) == Set::<Seq<char>>::empty()),
{
    if v.len() > 0 {
        assert(string_set(v).contains(v[0]@));
    } else {
        assert(string_set(v) =~= Set::<Seq<char>>::empty());
    }
}

/// The supported MIME types a value lists, sorted, each once.
pub fn parse_supported_mime_types(value: &JsonValue) -> (r: Vec<String>)
    ensures
        strictly_sorted(r@),
        string_set(r@) == mime_set(value@),
{
    let mut out: Vec<String> = Vec::new();
    assert(string_set(out@) =~= Set::<Seq<char>>::empty());
    match value {
        JsonValue::Array(items) => {
            let ghost iv = items_view(items@);
            proof {
                lemma_items_view(items@);
                assert(array_mimes_upto(iv, 0) =~= Set::<Seq<char>>::empty());
            }
            let mut i: usize = 0;
            while i < items.len()
                invariant
                    i <= items@.len(),
                    iv == items_view(items@),
                    iv.len() == items@.len(),
                    forall|j: int| 0 <= j < items@.len() ==> #[trigger] iv[j] == items@[j]@,
                    strictly_sorted(out@),
                    string_set(out@) == array_mimes_upto(iv, i as int),
                decreases items.len() - i,
            {
                let ghost before = string_set(out@);
                match items[i].as_str() {
                    Some(s) => {
                        let c = chars_of(s.as_str());
                        let t = trim_chars(c.as_slice());
                        if t.len() > 0 {
                            let l = to_lower(t.as_slice());
                            sorted_insert(&mut out, string_from_chars(l.as_slice()));
                        }
                    },
                    None => {},
                }
                proof {
                    let next = array_mimes_upto(iv, i as int + 1);
                    assert forall|m: Seq<char>| next.contains(m) <==> (before.contains(m) || array_mime(iv[i as int]) == Some(m)) by {
                        if next.contains(m) {
                            let j = choose|j: int| 0 <= j < i as int + 1 && #[trigger] array_mime(iv[j]) == Some(m);
                            if j < i {
                                assert(array_mimes_upto(iv, i as int).contains(m));
                            }
                        }
                        if before.contains(m) {
                            let j = choose|j: int| 0 <= j < i as int && #[trigger] array_mime(iv[j]) == Some(m);
                            assert(next.contains(m));
                        }
                        if array_mime(iv[i as int]) == Some(m) {
                            assert(next.contains(m));
                        }
                    }
                    assert(string_set(out@) =~= next);
                }
                i += 1;
            }
            proof {
                assert(array_mimes_upto(iv, i as int) =~= mime_set(value@));
            }
        },
        JsonValue::Object(entries) => {
            let ghost es = entries_view(entries@);
            proof {
                lemma_entries_view(entries@);
                assert(object_mimes_upto(es, 0) =~= Set::<Seq<char>>::empty());
            }
            let mut i: usize = 0;
            while i < entries.len()
                invariant
                    i <= entries@.len(),
                    es == entries_view(entries@),
                    es.len() == entries@.len(),
                    forall|j: int| 0 <= j < entries@.len() ==> #[trigger] es[j] == (entries@[j].0@, entries@[j].1@),
                    strictly_sorted(out@),
                    string_set(out@) == object_mimes_upto(es, i as int),
                decreases entries.len() - i,
            {
                let ghost before = string_set(out@);
                if let JsonValue::Bool(true) = &entries[i].1 {
                    let c = chars_of(entries[i].0.as_str());
                    let t = trim_chars(c.as_slice());
                    if t.len() > 0 {
                        let l = to_lower(t.as_slice());
                        sorted_insert(&mut out, string_from_chars(l.as_slice()));
                    }
                }
                proof {
                    let next = object_mimes_upto(es, i as int + 1);
                    assert forall|m: Seq<char>| next.contains(m) <==> (before.contains(m) || object_mime(es[i as int]) == Some(m)) by {
                        if next.contains(m) {
                            let j = choose|j: int| 0 <= j < i as int + 1 && #[trigger] object_mime(es[j]) == Some(m);
                            if j < i {
                                assert(object_mimes_upto(es, i as int).contains(m));
                            }
                        }
                        if before.contains(m) {
                            let j = choose|j: int| 0 <= j < i as int && #[trigger] object_mime(es[j]) == Some(m);
                            assert(next.contains(m));
                        }
                        if object_mime(es[i as int]) == Some(m) {
                            assert(next.contains(m));
                        }
                    }
                    assert(string_set(out@) =~= next);
                }
                i += 1;
            }
            proof {
                assert(object_mimes_upto(es, i as int) =~= mime_set(value@));
            }
        },
        _ => {},
    }
    out
}

fn any_with_prefix(v: &Vec<String>, prefix: &str) -> (r: bool)
    ensures
        r == has_prefix_in(string_set(v@), prefix@),
{
    let mut i: usize = 0;
    while i < v.len()
        invariant
            i <= v@.len(),
            forall|j: int| 0 <= j < i ==> !starts_with(#[trigger] v@[j]@, prefix@),
        decreases v.len() - i,
    {
        let c = chars_of(v[i].as_str());
        if starts_with_str(c.as_slice(), prefix) {
            assert(string_set(v@).contains(v@[i as int]@));
            return true;
        }
        i += 1;
    }
    proof {
        assert forall|m: Seq<char>| !(string_set(v@).contains(m) && #[trigger] starts_with(m, prefix@)) by {
            if string_set(v@).contains(m) {
                let j = choose|j: int| 0 <= j < v@.len() && #[trigger] v@[j]@ == m;
            }
        }
    }
    false
}

fn bool_field(item: &JsonValue, keys: &[&str]) -> (r: Option<bool>)
    ensures
        r == match media_field(item@, keys@) {
            Some(v) => v.as_bool(),
            None => None,
        },
{
    match media_field_value(item, keys) {
        Some(v) => v.as_bool(),
        None => None,
    }
}

/// Media support of a catalog entry; see `spec_media`.
pub fn extract_media_metadata(item: &JsonValue) -> (r: (Option<Vec<String>>, Option<bool>, Option<bool>))
    ensures
        r.1 == spec_media(item@).images,
        r.2 == spec_media(item@).video,
        r.0 matches Some(v) ==> strictly_sorted(v@) && string_set(v@) == spec_media(item@).mime_types
            && spec_media(item@).mime_types != Set::<Seq<char>>::empty(),
        r.0 is None ==> spec_media(item@).mime_types == Set::<Seq<char>>::empty(),
{
    let mk: [&str; 2] = ["supportedMimeTypes", "supported_mime_types"];
    let ik: [&str; 6] = [
        "supportsImages",
        "supports_images",
        "supportsVision",
        "supports_vision",
        "supportsImageInput",
        "supports_image_input",
    ];
    let vk: [&str; 2] = ["supportsVideo", "supports_video"];
    assert(mk@ =~= mime_keys());
    assert(ik@ =~= image_keys());
    assert(vk@ =~= video_keys());
    let mut mimes: Vec<String> = match media_field_value(item, &mk) {
        Some(v) => parse_supported_mime_types(v),
        None => {
            let e: Vec<String> = Vec::new();
            assert(string_set(e@) =~= Set::<Seq<char>>::empty());
            e
        },
    };
    let ghost m0 = string_set(mimes@);
    proof {
        lemma_string_set_empty(mimes@);
    }
    let mut images = bool_field(item, &ik);
    let mut video = bool_field(item, &vk);
    let any_image = any_with_prefix(&mimes, "image/");
    let any_video = any_with_prefix(&mimes, "video/");
    if mimes.len() > 0 {
        if images.is_none() {
            images = Some(any_image);
        }
        if video.is_none() {
            video = Some(any_video);
        }
    }
    if images == Some(true) && !any_image {
        sorted_insert(&mut mimes, owned("image/png"));
        sorted_insert(&mut mimes, owned("image/jpeg"));
        sorted_insert(&mut mimes, owned("image/webp"));
    }
    let any_video_now = any_with_prefix(&mimes, "video/");
    if video == Some(true) && !any_video_now {
        sorted_insert(&mut mimes, owned("video/mp4"));
        sorted_insert(&mut mimes, owned("video/webm"));
    }
    proof {
        lemma_string_set_empty(mimes@);
    }
    if mimes.len() > 0 {
        (Some(mimes), images, video)
    } else {
        (None, images, video)
    }
}

/// The text of the checkpointer experiment of a catalog entry.
pub open spec fn checkpointer_text(item: Json) -> Option<Seq<char>> {
    item.at("modelExperiments"@).at("experiments"@).at("CASCADE_USE_EXPERIMENT_CHECKPOINTER"@).at(
        "stringValue"@,
    ).as_str()
}

pub open spec fn bool_ok(o: Json, key: Seq<char>) -> bool {
    match o.get(key) {
        None => true,
        Some(Json::Null) => true,
        Some(Json::Bool(_)) => true,
        _ => false,
    }
}

pub open spec fn string_ok(o: Json, key: Seq<char>) -> bool {
    match o.get(key) {
        None => true,
        Some(Json::Null) => true,
        Some(Json::Str(_)) => true,
        _ => false,
    }
}

/// The typed members of a checkpointer payload have their types (a member
/// of the wrong type makes the whole payload unreadable).
pub open spec fn checkpointer_ok(o: Json) -> bool {
    &&& o.is_object()
    &&& bool_ok(o, "enabled"@)
    &&& bool_ok(o, "use_last_planner_model"@)
    &&& bool_ok(o, "is_sync"@)
    &&& bool_ok(o, "include_last_user_message"@)
    &&& bool_ok(o, "include_conversation_log"@)
    &&& bool_ok(o, "include_running_task_snapshots"@)
    &&& bool_ok(o, "include_subagent_snapshots"@)
    &&& bool_ok(o, "include_artifact_snapshots"@)
    &&& string_ok(o, "checkpoint_model"@)
    &&& string_ok(o, "strategy"@)
    &&& match o.get("retry_config"@) {
        None => true,
        Some(Json::Null) => true,
        Some(r) => r.is_object() && bool_ok(r, "include_error_feedback"@),
    }
}

/// The checkpointer payload of a catalog entry, where it is readable.
pub open spec fn spec_checkpointer(item: Json) -> Option<Json> {
    match checkpointer_text(item) {
        Some(t) => match json_parse_result(t) {
            Ok(o) => if checkpointer_ok(o) {
                Some(o)
            } else {
                None
            },
            Err(_) => None,
        },
        None => None,
    }
}

/// An optional member: absent and `null` both count as missing.
pub open spec fn opt_field(o: Json, key: Seq<char>) -> Option<Json> {
    match o.get(key) {
        Some(Json::Null) => None,
        other => other,
    }
}

pub open spec fn opt_bool(o: Json, key: Seq<char>) -> Option<bool> {
    match opt_field(o, key) {
        Some(v) => v.as_bool(),
        None => None,
    }
}

pub open spec fn opt_str(o: Json, key: Seq<char>) -> Option<Seq<char>> {
    match opt_field(o, key) {
        Some(v) => v.as_str(),
        None => None,
    }
}

/// A stated count that must be positive; `None` inside where it is missing.
pub open spec fn positive_field(o: Json, key: Seq<char>) -> Option<Option<u32>> {
    match opt_field(o, key) {
        Some(v) => match spec_positive_u32(v) {
            Some(x) => Some(Some(x)),
            None => None,
        },
        None => Some(None),
    }
}

/// The upstream compression policy a checkpointer payload states.
pub struct UpstreamPolicyView {
    pub enabled: bool,
    pub token_threshold: u32,
    pub max_token_limit: u32,
    pub max_output_tokens: Option<u32>,
    pub checkpoint_model: Option<Seq<char>>,
    pub use_last_planner_model: Option<bool>,
}

pub open spec fn upstream_view(p: UpstreamCompressionPolicy) -> UpstreamPolicyView {
    UpstreamPolicyView {
        enabled: p.enabled,
        token_threshold: p.token_threshold,
        max_token_limit: p.max_token_limit,
        max_output_tokens: p.max_output_tokens,
        checkpoint_model: opt_view(p.checkpoint_model),
        use_last_planner_model: p.use_last_planner_model,
    }
}

/// Upstream compression: needs `enabled` and positive `token_threshold` and
/// `max_token_limit`; a stated `max_output_tokens` must be positive too.
pub open spec fn spec_upstream_compression(item: Json) -> Option<UpstreamPolicyView> {
    match spec_checkpointer(item) {
        Some(o) => match (
            opt_bool(o, "enabled"@),
            positive_field(o, "token_threshold"@),
            positive_field(o, "max_token_limit"@),
            positive_field(o, "max_output_tokens"@),
        ) {
            (Some(enabled), Some(Some(threshold)), Some(Some(limit)), Some(output)) => Some(
                UpstreamPolicyView {
                    enabled,
                    token_threshold: threshold,
                    max_token_limit: limit,
                    max_output_tokens: output,
                    checkpoint_model: opt_str(o, "checkpoint_model"@),
                    use_last_planner_model: opt_bool(o, "use_last_planner_model"@),
                },
            ),
            _ => None,
        },
        None => None,
    }
}

fn opt_field_value<'a>(o: &'a JsonValue, key: &str) -> (r: Option<&'a JsonValue>)
    ensures
        r matches Some(v) ==> opt_field(o@, key@) == Some(v@),
        r is None ==> opt_field(o@, key@) is None,
{
    match o.get(key) {
        Some(JsonValue::Null) => None,
        other => other,
    }
}

fn opt_bool_value(o: &JsonValue, key: &str) -> (r: Option<bool>)
    ensures
        r == opt_bool(o@, key@),
{
    match opt_field_value(o, key) {
        Some(v) => v.as_bool(),
        None => None,
    }
}

fn opt_str_value(o: &JsonValue, key: &str) -> (r: Option<String>)
    ensures
        opt_view(r) == opt_str(o@, key@),
{
    match opt_field_value(o, key) {
        Some(v) => match v.as_str() {
            Some(s) => Some(s.clone()),
            None => None,
        },
        None => None,
    }
}

fn positive_field_value(o: &JsonValue, key: &str) -> (r: Option<Option<u32>>)
    ensures
        r == positive_field(o@, key@),
{
    match opt_field_value(o, key) {
        Some(v) => match parse_positive_u32(v) {
            Some(x) => Some(Some(x)),
            None => None,
        },
        None => Some(None),
    }
}

fn bool_ok_value(o: &JsonValue, key: &str) -> (r: bool)
    ensures
        r == bool_ok(o@, key@),
{
    match o.get(key) {
        None => true,
        Some(JsonValue::Null) => true,
        Some(JsonValue::Bool(_)) => true,
        _ => false,
    }
}

fn string_ok_value(o: &JsonValue, key: &str) -> (r: bool)
    ensures
        r == string_ok(o@, key@),
{
    match o.get(key) {
        None => true,
        Some(JsonValue::Null) => true,
        Some(JsonValue::Str(_)) => true,
        _ => false,
    }
}

fn checkpointer_ok_value(o: &JsonValue) -> (r: bool)
    ensures
        r == checkpointer_ok(o@),
{
    let retry_ok = match o.get("retry_config") {
        None => true,
        Some(JsonValue::Null) => true,
        Some(r) => r.is_object() && bool_ok_value(r, "include_error_feedback"),
    };
    o.is_object() && bool_ok_value(o, "enabled") && bool_ok_value(o, "use_last_planner_model")
        && bool_ok_value(o, "is_sync") && bool_ok_value(o, "include_last_user_message")
        && bool_ok_value(o, "include_conversation_log") && bool_ok_value(
        o,
        "include_running_task_snapshots",
    ) && bool_ok_value(o, "include_subagent_snapshots") && bool_ok_value(
        o,
        "include_artifact_snapshots",
    ) && string_ok_value(o, "checkpoint_model") && string_ok_value(o, "strategy") && retry_ok
}

/// The readable checkpointer payload of a catalog entry; see `spec_checkpointer`.
pub fn checkpointer_payload(item: &JsonValue) -> (r: Option<JsonValue>)
    ensures
        r matches Some(o) ==> spec_checkpointer(item@) == Some(o@),
        r is None ==> spec_checkpointer(item@) is None,
{
    let ir = JsonRef::Found(item);
    let text = match ir.at("modelExperiments").at("experiments").at("CASCADE_USE_EXPERIMENT_CHECKPOINTER").at(
        "stringValue",
    ).as_str() {
        Some(t) => t,
        None => {
            return None;
        },
    };
    match parse_json(text.as_str()) {
        Ok(o) => if checkpointer_ok_value(&o) {
            Some(o)
        } else {
            None
        },
        Err(_) => None,
    }
}

/// The upstream compression policy of a catalog entry; see `spec_upstream_compression`.
pub fn extract_upstream_compression(item: &JsonValue) -> (r: Option<UpstreamCompressionPolicy>)
    ensures
        r matches Some(p) ==> spec_upstream_compression(item@) == Some(upstream_view(p)),
        r is None ==> spec_upstream_compression(item@) is None,
{
    let o = match checkpointer_payload(item) {
        Some(o) => o,
        None => {
            return None;
        },
    };
    let enabled = opt_bool_value(&o, "enabled");
    let threshold = positive_field_value(&o, "token_threshold");
    let limit = positive_field_value(&o, "max_token_limit");
    let output = positive_field_value(&o, "max_output_tokens");
    match (enabled, threshold, limit, output) {
        (Some(enabled), Some(Some(token_threshold)), Some(Some(max_token_limit)), Some(max_output_tokens)) => {
            Some(
                UpstreamCompressionPolicy {
                    enabled,
                    token_threshold,
                    max_token_limit,
                    max_output_tokens,
                    checkpoint_model: opt_str_value(&o, "checkpoint_model"),
                    use_last_planner_model: opt_bool_value(&o, "use_last_planner_model"),
                },
            )
        },
        _ => None,
    }
}

/// The text serde_json writes for a number.
pub open spec fn number_text(n: JsonNum) -> Seq<char> {
    match n {
        JsonNum::Unsigned(u) => decimal(u as nat),
        JsonNum::Negative(i) => if i < 0 {
            "-"@ + decimal((-i) as nat)
        } else {
            decimal(i as nat)
        },
        JsonNum::Decimal(s) => s,
    }
}

/// A number kept as text (trimmed string or the number's text) that parses
/// as a finite, non-negative float.
pub open spec fn number_string(v: Json) -> Option<Seq<char>> {
    let t = match v {
        Json::Str(s) => Some(trim(s)),
        Json::Number(n) => Some(number_text(n)),
        _ => None,
    };
    match t {
        Some(x) => if float_text_class(x) == Some(true) {
            Some(x)
        } else {
            None
        },
        None => None,
    }
}

/// A count that fits in `u32`, given as a number or a decimal string.
pub open spec fn spec_parse_u32(v: Json) -> Option<u32> {
    let n = match v {
        Json::Number(JsonNum::Unsigned(u)) => Some(u as nat),
        Json::Str(s) => parse_unsigned(trim(s), u64::MAX as nat),
        _ => None,
    };
    match n {
        Some(x) => if x <= u32::MAX {
            Some(x as u32)
        } else {
            None
        },
        None => None,
    }
}

pub open spec fn u32_field(o: Json, key: Seq<char>) -> Option<u32> {
    match opt_field(o, key) {
        Some(v) => spec_parse_u32(v),
        None => None,
    }
}

pub open spec fn number_field(o: Json, key: Seq<char>) -> Option<Seq<char>> {
    match opt_field(o, key) {
        Some(v) => number_string(v),
        None => None,
    }
}

pub open spec fn retry_of(o: Json) -> Json {
    opt_field(o, "retry_config"@)->0
}

/// A checkpointer payload states every member of a compression policy.
pub open spec fn policy_fields_present(o: Json) -> bool {
    let r = retry_of(o);
    &&& opt_field(o, "retry_config"@) is Some
    &&& opt_bool(o, "enabled"@) is Some
    &&& opt_str(o, "checkpoint_model"@) is Some
    &&& opt_str(o, "strategy"@) is Some
    &&& number_field(o, "max_overhead_ratio"@) is Some
    &&& number_field(o, "moving_window_size"@) is Some
    &&& opt_bool(o, "use_last_planner_model"@) is Some
    &&& opt_bool(o, "is_sync"@) is Some
    &&& u32_field(o, "max_user_requests"@) is Some
    &&& opt_bool(o, "include_last_user_message"@) is Some
    &&& opt_bool(o, "include_conversation_log"@) is Some
    &&& opt_bool(o, "include_running_task_snapshots"@) is Some
    &&& opt_bool(o, "include_subagent_snapshots"@) is Some
    &&& opt_bool(o, "include_artifact_snapshots"@) is Some
    &&& u32_field(r, "max_retries"@) is Some
    &&& u32_field(r, "initial_sleep_duration_ms"@) is Some
    &&& u32_field(r, "exponential_multiplier"@) is Some
    &&& opt_bool(r, "include_error_feedback"@) is Some
    &&& positive_field(o, "token_threshold"@) matches Some(Some(_))
    &&& positive_field(o, "max_token_limit"@) matches Some(Some(_))
    &&& positive_field(o, "max_output_tokens"@) matches Some(Some(_))
}

/// `p` holds exactly the members the payload states.
pub open spec fn policy_matches(p: ModelCompressionPolicy, o: Json) -> bool {
    let r = retry_of(o);
    &&& Some(p.enabled) == opt_bool(o, "enabled"@)
    &&& Some(p.checkpoint_model@) == opt_str(o, "checkpoint_model"@)
    &&& Some(p.strategy@) == opt_str(o, "strategy"@)
    &&& Some(p.max_overhead_ratio@) == number_field(o, "max_overhead_ratio"@)
    &&& Some(p.moving_window_size@) == number_field(o, "moving_window_size"@)
    &&& Some(p.use_last_planner_model) == opt_bool(o, "use_last_planner_model"@)
    &&& Some(p.is_sync) == opt_bool(o, "is_sync"@)
    &&& Some(p.max_user_requests) == u32_field(o, "max_user_requests"@)
    &&& Some(p.include_last_user_message) == opt_bool(o, "include_last_user_message"@)
    &&& Some(p.include_conversation_log) == opt_bool(o, "include_conversation_log"@)
    &&& Some(p.include_running_task_snapshots) == opt_bool(o, "include_running_task_snapshots"@)
    &&& Some(p.include_subagent_snapshots) == opt_bool(o, "include_subagent_snapshots"@)
    &&& Some(p.include_artifact_snapshots) == opt_bool(o, "include_artifact_snapshots"@)
    &&& Some(p.retry_config.max_retries) == u32_field(r, "max_retries"@)
    &&& Some(p.retry_config.initial_sleep_duration_ms) == u32_field(r, "initial_sleep_duration_ms"@)
    &&& Some(p.retry_config.exponential_multiplier) == u32_field(r, "exponential_multiplier"@)
    &&& Some(p.retry_config.include_error_feedback) == opt_bool(r, "include_error_feedback"@)
    &&& Some(Some(p.token_threshold)) == positive_field(o, "token_threshold"@)
    &&& Some(Some(p.max_token_limit)) == positive_field(o, "max_token_limit"@)
    &&& Some(Some(p.max_output_tokens)) == positive_field(o, "max_output_tokens"@)
}

fn number_text_of(n: &JsonNumber) -> (r: String)
    ensures
        r@ == number_text(crate::json::num_view(*n)),
{
    match n {
        JsonNumber::Unsigned(u) => {
            let mut buf: Vec<char> = Vec::new();
            push_decimal(&mut buf, *u);
            string_from_chars(buf.as_slice())
        },
        JsonNumber::Negative(i) => {
            let mut buf: Vec<char> = Vec::new();
            if *i < 0 {
                let wide: i128 = 0i128 - *i as i128;
                assert(0 < wide <= 0x8000_0000_0000_0000);
                push_str(&mut buf, "-");
                push_decimal(&mut buf, wide as u64);
            } else {
                push_decimal(&mut buf, *i as u64);
            }
            string_from_chars(buf.as_slice())
        },
        JsonNumber::Decimal(s) => s.clone(),
    }
}

fn number_string_value(v: &JsonValue) -> (r: Option<String>)
    ensures
        opt_view(r) == number_string(v@),
{
    let text: String = match v {
        JsonValue::Str(s) => {
            let c = chars_of(s.as_str());
            let t = trim_chars(c.as_slice());
            string_from_chars(t.as_slice())
        },
        JsonValue::Number(n) => number_text_of(n),
        _ => {
            return None;
        },
    };
    if crate::domain::number::parses_finite_non_negative(text.as_str()) {
        Some(text)
    } else {
        None
    }
}

fn parse_u32_value(v: &JsonValue) -> (r: Option<u32>)
    ensures
        r == spec_parse_u32(v@),
{
    let n: Option<u64> = match v {
        JsonValue::Number(JsonNumber::Unsigned(u)) => Some(*u),
        JsonValue::Str(s) => {
            let c = chars_of(s.as_str());
            let t = trim_chars(c.as_slice());
            parse_unsigned_chars(t.as_slice(), u64::MAX)
        },
        _ => None,
    };
    match n {
        Some(x) => if x <= u32::MAX as u64 {
            Some(x as u32)
        } else {
            None
        },
        None => None,
    }
}

fn u32_field_value(o: &JsonValue, key: &str) -> (r: Option<u32>)
    ensures
        r == u32_field(o@, key@),
{
    match opt_field_value(o, key) {
        Some(v) => parse_u32_value(v),
        None => None,
    }
}

fn number_field_value(o: &JsonValue, key: &str) -> (r: Option<String>)
    ensures
        opt_view(r) == number_field(o@, key@),
{
    match opt_field_value(o, key) {
        Some(v) => number_string_value(v),
        None => None,
    }
}

fn policy_from_payload(o: &JsonValue) -> (r: Option<ModelCompressionPolicy>)
    ensures
        r matches Some(p) ==> policy_fields_present(o@) && policy_matches(p, o@),
        r is None ==> !policy_fields_present(o@),
{
    let retry = match opt_field_value(o, "retry_config") {
        Some(r) => r,
        None => {
            return None;
        },
    };
    let enabled = opt_bool_value(o, "enabled");
    let checkpoint_model = opt_str_value(o, "checkpoint_model");
    let strategy = opt_str_value(o, "strategy");
    let max_overhead_ratio = number_field_value(o, "max_overhead_ratio");
    let moving_window_size = number_field_value(o, "moving_window_size");
    let use_last_planner_model = opt_bool_value(o, "use_last_planner_model");
    let is_sync = opt_bool_value(o, "is_sync");
    let max_user_requests = u32_field_value(o, "max_user_requests");
    let include_last_user_message = opt_bool_value(o, "include_last_user_message");
    let include_conversation_log = opt_bool_value(o, "include_conversation_log");
    let include_running_task_snapshots = opt_bool_value(o, "include_running_task_snapshots");
    let include_subagent_snapshots = opt_bool_value(o, "include_subagent_snapshots");
    let include_artifact_snapshots = opt_bool_value(o, "include_artifact_snapshots");
    let max_retries = u32_field_value(retry, "max_retries");
    let initial_sleep_duration_ms = u32_field_value(retry, "initial_sleep_duration_ms");
    let exponential_multiplier = u32_field_value(retry, "exponential_multiplier");
    let include_error_feedback = opt_bool_value(retry, "include_error_feedback");
    let token_threshold = positive_field_value(o, "token_threshold");
    let max_token_limit = positive_field_value(o, "max_token_limit");
    let max_output_tokens = positive_field_value(o, "max_output_tokens");
    if let (
        Some(enabled),
        Some(checkpoint_model),
        Some(strategy),
        Some(max_overhead_ratio),
        Some(moving_window_size),
        Some(use_last_planner_model),
        Some(is_sync),
        Some(max_user_requests),
    ) = (
        enabled,
        checkpoint_model,
        strategy,
        max_overhead_ratio,
        moving_window_size,
        use_last_planner_model,
        is_sync,
        max_user_requests,
    ) {
        if let (
            Some(include_last_user_message),
            Some(include_conversation_log),
            Some(include_running_task_snapshots),
            Some(include_subagent_snapshots),
            Some(include_artifact_snapshots),
            Some(max_retries),
            Some(initial_sleep_duration_ms),
            Some(exponential_multiplier),
        ) = (
            include_last_user_message,
            include_conversation_log,
            include_running_task_snapshots,
            include_subagent_snapshots,
            include_artifact_snapshots,
            max_retries,
            initial_sleep_duration_ms,
            exponential_multiplier,
        ) {
            if let (
                Some(include_error_feedback),
                Some(Some(token_threshold)),
                Some(Some(max_token_limit)),
                Some(Some(max_output_tokens)),
            ) = (include_error_feedback, token_threshold, max_token_limit, max_output_tokens) {
                return Some(
                    ModelCompressionPolicy {
                        enabled,
                        checkpoint_model,
                        strategy,
                        max_overhead_ratio,
                        moving_window_size,
                        use_last_planner_model,
                        is_sync,
                        max_user_requests,
                        include_last_user_message,
                        include_conversation_log,
                        include_running_task_snapshots,
                        include_subagent_snapshots,
                        include_artifact_snapshots,
                        retry_config: CustomModelCheckpointRetryConfig {
                            max_retries,
                            initial_sleep_duration_ms,
                            exponential_multiplier,
                            include_error_feedback,
                        },
                        token_threshold,
                        max_token_limit,
                        max_output_tokens,
                    },
                );
            }
        }
    }
    None
}

/// The compression policy a catalog entry states in full and that passes
/// validation.
pub fn extract_default_compression_policy(item: &JsonValue) -> (r: Option<ModelCompressionPolicy>)
    ensures
        r matches Some(p) ==> (spec_checkpointer(item@) matches Some(o) && policy_fields_present(o)
            && policy_matches(p, o)) && policy_problem(p) is None,
        r is None ==> match spec_checkpointer(item@) {
            Some(o) => policy_fields_present(o) ==> forall|p: ModelCompressionPolicy|
                #[trigger] policy_matches(p, o) ==> policy_problem(p) is Some,
            None => true,
        },
{
    let o = match checkpointer_payload(item) {
        Some(o) => o,
        None => {
            return None;
        },
    };
    let policy = match policy_from_payload(&o) {
        Some(p) => p,
        None => {
            return None;
        },
    };
    match policy.validate("catalog checkpointer") {
        Ok(()) => Some(policy),
        Err(_) => {
            proof {
                assert forall|p: ModelCompressionPolicy| #[trigger] policy_matches(p, o@) implies policy_problem(p) is Some by {
                    assert(p.checkpoint_model@ == policy.checkpoint_model@);
                    assert(p.strategy@ == policy.strategy@);
                    assert(p.max_overhead_ratio@ == policy.max_overhead_ratio@);
                    assert(p.moving_window_size@ == policy.moving_window_size@);
                    assert(p.token_threshold == policy.token_threshold);
                    assert(p.max_token_limit == policy.max_token_limit);
                    assert(p.max_output_tokens == policy.max_output_tokens);
                }
            }
            None
        },
    }
}

pub open spec fn opt_json(v: Option<JsonValue>) -> Option<Json> {
    match v {
        Some(x) => Some(x@),
        None => None,
    }
}

/// The relation `parse_reasoning_metadata` guarantees.
pub open spec fn reasoning_ok(r: Option<ProviderCatalogReasoning>, item: Json, p: ProviderProtocol) -> bool {
    match r {
        Some(x) => x.wf() && spec_reasoning_metadata(item, p) == Some(
            (
                ReasoningFacts { supported: x.supported, levels: x.level_set(), mappings: x.mapping_map() },
                x.thinking_budget,
                x.min_thinking_budget,
            ),
        ),
        None => spec_reasoning_metadata(item, p) is None,
    }
}

/// The MIME types of an entry: sorted, each once, and absent where none.
pub open spec fn mime_ok(mime: Option<Vec<String>>, item: Json) -> bool {
    let f = spec_media(item);
    match mime {
        Some(v) => strictly_sorted(v@) && string_set(v@) == f.mime_types && f.mime_types != Set::<Seq<char>>::empty(),
        None => f.mime_types == Set::<Seq<char>>::empty(),
    }
}

/// The relation `extract_media_metadata` guarantees.
pub open spec fn media_ok(mime: Option<Vec<String>>, images: Option<bool>, video: Option<bool>, item: Json) -> bool {
    let f = spec_media(item);
    &&& images == f.images
    &&& video == f.video
    &&& mime_ok(mime, item)
}

/// The relation `extract_default_compression_policy` guarantees.
pub open spec fn default_policy_ok(r: Option<ModelCompressionPolicy>, item: Json) -> bool {
    match r {
        Some(p) => (spec_checkpointer(item) matches Some(o) && policy_fields_present(o) && policy_matches(p, o))
            && policy_problem(p) is None,
        None => match spec_checkpointer(item) {
            Some(o) => policy_fields_present(o) ==> forall|p: ModelCompressionPolicy|
                #[trigger] policy_matches(p, o) ==> policy_problem(p) is Some,
            None => true,
        },
    }
}

pub open spec fn upstream_ok(r: Option<UpstreamCompressionPolicy>, item: Json) -> bool {
    match r {
        Some(u) => spec_upstream_compression(item) == Some(upstream_view(u)),
        None => spec_upstream_compression(item) is None,
    }
}

/// The first of `keys` whose member is a string.
pub open spec fn first_str(v: Json, keys: Seq<&str>) -> Option<Seq<char>>
    decreases keys.len(),
{
    if keys.len() == 0 {
        None
    } else {
        match v.get(keys[0]@) {
            Some(Json::Str(s)) => Some(s),
            _ => first_str(v, keys.drop_first()),
        }
    }
}

pub open spec fn id_keys() -> Seq<&'static str> {
    seq!["id", "name", "slug", "model", "model_id", "modelId"]
}

/// The raw ID of an entry: the entry itself when it is a string, its
/// object key, or its first ID member.
pub open spec fn raw_model_id(item: Json, key: Option<Seq<char>>) -> Option<Seq<char>> {
    match item.as_str() {
        Some(s) => Some(s),
        None => match key {
            Some(k) => Some(k),
            None => first_str(item, id_keys()),
        },
    }
}

pub open spec fn entry_id(item: Json, key: Option<Seq<char>>, p: ProviderProtocol) -> Option<Seq<char>> {
    match raw_model_id(item, key) {
        Some(raw) => Some(spec_normalize_model_id(raw, p)),
        None => None,
    }
}

/// The entries that become models (by position) and the IDs seen: each
/// entry with a non-blank ID not seen before.
pub open spec fn kept(items: Seq<(Json, Option<Seq<char>>)>, p: ProviderProtocol) -> (Seq<int>, Set<Seq<char>>)
    decreases items.len(),
{
    if items.len() == 0 {
        (Seq::empty(), Set::empty())
    } else {
        let prev = kept(items.drop_last(), p);
        let i = items.len() - 1;
        match entry_id(items[i].0, items[i].1, p) {
            Some(id) => if id.len() == 0 || prev.1.contains(id) {
                prev
            } else {
                (prev.0.push(i), prev.1.insert(id))
            },
            None => prev,
        }
    }
}

pub open spec fn str_or_id(item: Json, id: Seq<char>) -> Seq<char> {
    match item.get("display_name"@) {
        Some(Json::Str(s)) => s,
        _ => match item.get("displayName"@) {
            Some(Json::Str(s)) => s,
            _ => id,
        },
    }
}

pub open spec fn context_window_keys() -> Seq<&'static str> {
    seq!["contextWindow", "context_window"]
}

pub open spec fn max_context_window_keys() -> Seq<&'static str> {
    seq!["maxContextWindow", "max_context_window"]
}

pub open spec fn context_length_keys() -> Seq<&'static str> {
    seq!["contextLength", "context_length", "maxContextLength", "max_context_length"]
}

pub open spec fn input_limit_keys() -> Seq<&'static str> {
    seq![
        "inputTokenLimit",
        "input_token_limit",
        "maxInputTokens",
        "max_input_tokens",
        "maxPromptTokens",
        "max_prompt_tokens",
    ]
}

pub open spec fn output_limit_keys() -> Seq<&'static str> {
    seq![
        "outputTokenLimit",
        "output_token_limit",
        "maxOutputTokens",
        "max_output_tokens",
        "maxCompletionTokens",
        "max_completion_tokens",
    ]
}

/// `m` is the model a catalog entry with ID `id` describes. Without a stated
/// input limit, CPA catalogs use the context window (or length) and Gemini
/// catalogs `max_tokens`; without a stated output limit, Anthropic and CPA
/// catalogs use `max_tokens`.
#[verifier::opaque]
pub open spec fn model_from(
    m: ProviderCatalogModel,
    item: Json,
    id: Seq<char>,
    p: ProviderProtocol,
    cpa: bool,
) -> bool {
    let cw_exact = find_limit(item, context_window_keys());
    let max_cw = find_limit(item, max_context_window_keys());
    let cl = find_limit(item, context_length_keys());
    let cw = or_limit(cw_exact, max_cw);
    let mt = find_limit(item, seq!["maxTokens", "max_tokens"]);
    let fallback_input = if cpa {
        or_limit(cw, cl)
    } else if p == ProviderProtocol::GeminiGenerateContent {
        mt
    } else {
        None
    };
    let fallback_output = if p == ProviderProtocol::AnthropicMessages || cpa {
        mt
    } else {
        None
    };
    &&& m.id@ == id
    &&& m.display_name@ == str_or_id(item, id)
    &&& m.context_window == cw
    &&& m.max_context_window == max_cw
    &&& m.context_length == cl
    &&& m.auto_compact_token_limit == find_limit(item, seq!["autoCompactTokenLimit", "auto_compact_token_limit"])
    &&& m.max_tokens == mt
    &&& m.token_budget == find_limit(item, seq!["tokenBudget", "token_budget"])
    &&& m.input_token_limit == or_limit(find_limit(item, input_limit_keys()), fallback_input)
    &&& m.output_token_limit == or_limit(find_limit(item, output_limit_keys()), fallback_output)
    &&& opt_json(m.capabilities) == spec_capabilities(item)
    &&& media_ok(m.supported_mime_types, m.supports_images, m.supports_video, item)
    &&& opt_json(m.thinking) == item.get("thinking"@)
    &&& reasoning_ok(m.reasoning, item, p)
    &&& upstream_ok(m.upstream_compression, item)
    &&& default_policy_ok(m.default_compression_policy, item)
}

/// The `k`-th catalog entry describes `m`.
pub open spec fn model_at(
    m: ProviderCatalogModel,
    items: Seq<(Json, Option<Seq<char>>)>,
    k: int,
    p: ProviderProtocol,
    cpa: bool,
) -> bool {
    0 <= k < items.len() && (entry_id(items[k].0, items[k].1, p) matches Some(id) && model_from(
        m,
        items[k].0,
        id,
        p,
        cpa,
    ))
}

fn first_str_value<'a>(v: &'a JsonValue, keys: &[&str]) -> (r: Option<&'a String>)
    ensures
        r matches Some(s) ==> first_str(v@, keys@) == Some(s@),
        r is None ==> first_str(v@, keys@) is None,
{
    let mut i: usize = 0;
    assert(keys@.skip(0) =~= keys@);
    while i < keys.len()
        invariant
            i <= keys@.len(),
            first_str(v@, keys@) == first_str(v@, keys@.skip(i as int)),
        decreases keys.len() - i,
    {
        assert(keys@.skip(i as int).drop_first() =~= keys@.skip(i as int + 1));
        assert(keys@.skip(i as int)[0] == keys@[i as int]);
        match v.get(keys[i]) {
            Some(JsonValue::Str(s)) => {
                return Some(s);
            },
            _ => {},
        }
        i += 1;
    }
    None
}

fn display_name_of(item: &JsonValue, id: &String) -> (r: String)
    ensures
        r@ == str_or_id(item@, id@),
{
    match item.get("display_name") {
        Some(JsonValue::Str(s)) => s.clone(),
        _ => match item.get("displayName") {
            Some(JsonValue::Str(s)) => s.clone(),
            _ => id.clone(),
        },
    }
}

fn or_u32(a: Option<u32>, b: Option<u32>) -> (r: Option<u32>)
    ensures
        r == or_limit(a, b),
{
    match a {
        Some(x) => Some(x),
        None => b,
    }
}

fn build_model(item: &JsonValue, id: String, protocol: ProviderProtocol, is_cpa_catalog: bool) -> (r: ProviderCatalogModel)
    ensures
        model_from(r, item@, id@, protocol, is_cpa_catalog),
{
    let display_name = display_name_of(item, &id);
    let cwk: [&str; 2] = ["contextWindow", "context_window"];
    let mcwk: [&str; 2] = ["maxContextWindow", "max_context_window"];
    let clk: [&str; 4] = ["contextLength", "context_length", "maxContextLength", "max_context_length"];
    let ack: [&str; 2] = ["autoCompactTokenLimit", "auto_compact_token_limit"];
    let mtk: [&str; 2] = ["maxTokens", "max_tokens"];
    let tbk: [&str; 2] = ["tokenBudget", "token_budget"];
    let ink: [&str; 6] = [
        "inputTokenLimit",
        "input_token_limit",
        "maxInputTokens",
        "max_input_tokens",
        "maxPromptTokens",
        "max_prompt_tokens",
    ];
    let outk: [&str; 6] = [
        "outputTokenLimit",
        "output_token_limit",
        "maxOutputTokens",
        "max_output_tokens",
        "maxCompletionTokens",
        "max_completion_tokens",
    ];
    assert(cwk@ =~= context_window_keys());
    assert(mcwk@ =~= max_context_window_keys());
    assert(clk@ =~= context_length_keys());
    assert(ack@ =~= seq!["autoCompactTokenLimit", "auto_compact_token_limit"]);
    assert(mtk@ =~= seq!["maxTokens", "max_tokens"]);
    assert(tbk@ =~= seq!["tokenBudget", "token_budget"]);
    assert(ink@ =~= input_limit_keys());
    assert(outk@ =~= output_limit_keys());
    let exact_context_window = find_limit_value(item, &cwk);
    let max_context_window = find_limit_value(item, &mcwk);
    let context_length = find_limit_value(item, &clk);
    let context_window = or_u32(exact_context_window, max_context_window);
    let auto_compact_token_limit = find_limit_value(item, &ack);
    let max_tokens = find_limit_value(item, &mtk);
    let token_budget = find_limit_value(item, &tbk);
    let fallback_input = if is_cpa_catalog {
        or_u32(context_window, context_length)
    } else if protocol == ProviderProtocol::GeminiGenerateContent {
        max_tokens
    } else {
        None
    };
    let input_token_limit = or_u32(find_limit_value(item, &ink), fallback_input);
    let fallback_output = if protocol == ProviderProtocol::AnthropicMessages || is_cpa_catalog {
        max_tokens
    } else {
        None
    };
    let output_token_limit = or_u32(find_limit_value(item, &outk), fallback_output);
    let (supported_mime_types, supports_images, supports_video) = extract_media_metadata(item);
    let thinking = match item.get("thinking") {
        Some(t) => Some(t.deep_clone()),
        None => None,
    };
    let r = ProviderCatalogModel {
        id,
        display_name,
        context_window,
        max_context_window,
        context_length,
        auto_compact_token_limit,
        input_token_limit,
        output_token_limit,
        max_tokens,
        token_budget,
        capabilities: extract_capabilities(item),
        supported_mime_types,
        supports_images,
        supports_video,
        thinking,
        reasoning: parse_reasoning_metadata(item, protocol),
        upstream_compression: extract_upstream_compression(item),
        default_compression_policy: extract_default_compression_policy(item),
    };
    proof {
        reveal(model_from);
    }
    r
}

fn seen_contains(seen: &Vec<String>, id: &String) -> (r: bool)
    ensures
        r == string_set(seen@).contains(id@),
{
    let idc = chars_of(id.as_str());
    let mut i: usize = 0;
    while i < seen.len()
        invariant
            i <= seen@.len(),
            idc@ == id@,
            forall|j: int| 0 <= j < i ==> #[trigger] seen@[j]@ != id@,
        decreases seen.len() - i,
    {
        let c = chars_of(seen[i].as_str());
        if crate::text::chars_eq(c.as_slice(), idc.as_slice()) {
            assert(string_set(seen@).contains(seen@[i as int]@));
            return true;
        }
        i += 1;
    }
    false
}

/// The `j`-th model read from the first `n` entries is the one its kept
/// entry describes.
pub open spec fn model_slot(
    models: Seq<ProviderCatalogModel>,
    iv: Seq<(Json, Option<Seq<char>>)>,
    n: int,
    p: ProviderProtocol,
    cpa: bool,
    j: int,
) -> bool {
    kept(iv.take(n), p).0[j] < n && model_at(models[j], iv, kept(iv.take(n), p).0[j], p, cpa)
}

/// The models read from the first `n` entries are those `kept` names.
pub open spec fn models_ok(
    models: Seq<ProviderCatalogModel>,
    iv: Seq<(Json, Option<Seq<char>>)>,
    n: int,
    p: ProviderProtocol,
    cpa: bool,
) -> bool {
    &&& models.len() == kept(iv.take(n), p).0.len()
    &&& forall|j: int| 0 <= j < models.len() ==> #[trigger] model_slot(models, iv, n, p, cpa, j)
}

fn consider_entry(
    models: &mut Vec<ProviderCatalogModel>,
    seen: &mut Vec<String>,
    item: &JsonValue,
    key: Option<&String>,
    Ghost(iv): Ghost<Seq<(Json, Option<Seq<char>>)>>,
    i: usize,
    protocol: ProviderProtocol,
    is_cpa_catalog: bool,
)
    requires
        i < iv.len(),
        iv[i as int] == (item@, match key {
            Some(s) => Some(s@),
            None => None::<Seq<char>>,
        }),
        string_set(old(seen)@) == kept(iv.take(i as int), protocol).1,
        models_ok(old(models)@, iv, i as int, protocol, is_cpa_catalog),
    ensures
        string_set(final(seen)@) == kept(iv.take(i as int + 1), protocol).1,
        models_ok(final(models)@, iv, i as int + 1, protocol, is_cpa_catalog),
{
    let idk: [&str; 6] = ["id", "name", "slug", "model", "model_id", "modelId"];
    assert(idk@ =~= id_keys());
    let ghost prefix = iv.take(i as int + 1);
    let ghost kp = kept(iv.take(i as int), protocol);
    proof {
        assert(prefix.drop_last() =~= iv.take(i as int));
        assert(prefix[i as int] == iv[i as int]);
    }
    assert(kept(prefix, protocol) == {
        match entry_id(iv[i as int].0, iv[i as int].1, protocol) {
            Some(id) => if id.len() == 0 || kp.1.contains(id) {
                kp
            } else {
                (kp.0.push(i as int), kp.1.insert(id))
            },
            None => kp,
        }
    });
    let raw: Option<&String> = match item.as_str() {
        Some(s) => Some(s),
        None => match key {
            Some(k) => Some(k),
            None => first_str_value(item, &idk),
        },
    };
    let ghost old_models = models@;
    match raw {
        Some(raw) => {
            assert(raw_model_id(iv[i as int].0, iv[i as int].1) == Some(raw@));
            let id = normalize_model_id(raw.as_str(), protocol);
            assert(entry_id(iv[i as int].0, iv[i as int].1, protocol) == Some(id@));
            let idc = chars_of(id.as_str());
            if idc.len() > 0 && !seen_contains(seen, &id) {
                let ghost old_seen = seen@;
                seen.push(id.clone());
                proof {
                    assert(seen@[seen@.len() - 1]@ == id@);
                    assert forall|x: Seq<char>| string_set(seen@).contains(x) implies string_set(old_seen).insert(id@).contains(x) by {
                        let j = choose|j: int| 0 <= j < seen@.len() && #[trigger] seen@[j]@ == x;
                        if j < old_seen.len() {
                            assert(old_seen[j]@ == x);
                        }
                    }
                    assert forall|x: Seq<char>| string_set(old_seen).insert(id@).contains(x) implies string_set(seen@).contains(x) by {
                        if x != id@ {
                            let j = choose|j: int| 0 <= j < old_seen.len() && #[trigger] old_seen[j]@ == x;
                            assert(seen@[j]@ == x);
                        }
                    }
                    assert(string_set(seen@) =~= string_set(old_seen).insert(id@));
                }
                let m = build_model(item, id, protocol, is_cpa_catalog);
                assert(model_at(m, iv, i as int, protocol, is_cpa_catalog));
                let ghost gm = m;
                models.push(m);
                proof {
                    let kn = kept(iv.take(i as int + 1), protocol).0;
                    assert(prefix == iv.take(i as int + 1));
                    assert(kn == kp.0.push(i as int));
                    assert(old_models.len() == kp.0.len());
                    assert forall|j: int| 0 <= j < models@.len() implies #[trigger] model_slot(
                        models@,
                        iv,
                        i as int + 1,
                        protocol,
                        is_cpa_catalog,
                        j,
                    ) by {
                        if j < old_models.len() {
                            assert(models@[j] == old_models[j]);
                            assert(model_slot(old_models, iv, i as int, protocol, is_cpa_catalog, j));
                            assert(kn[j] == kp.0[j]);
                        } else {
                            assert(models@[j] == gm);
                            assert(kn[j] == i);
                        }
                    }
                    assert(models@.len() == kn.len());
                    assert(models_ok(models@, iv, i as int + 1, protocol, is_cpa_catalog));
                }
            } else {
                proof {
                    assert(kept(prefix, protocol) == kp);
                    assert forall|j: int| 0 <= j < models@.len() implies #[trigger] model_slot(
                        models@,
                        iv,
                        i as int + 1,
                        protocol,
                        is_cpa_catalog,
                        j,
                    ) by {
                        assert(prefix == iv.take(i as int + 1));
                        assert(model_slot(old_models, iv, i as int, protocol, is_cpa_catalog, j));
                    }
                    assert(models_ok(models@, iv, i as int + 1, protocol, is_cpa_catalog));
                }
            }
        },
        None => {
            proof {
                assert(raw_model_id(iv[i as int].0, iv[i as int].1) is None);
                assert(kept(prefix, protocol) == kp);
                assert forall|j: int| 0 <= j < models@.len() implies #[trigger] model_slot(
                    models@,
                    iv,
                    i as int + 1,
                    protocol,
                    is_cpa_catalog,
                    j,
                ) by {
                    assert(prefix == iv.take(i as int + 1));
                    assert(model_slot(old_models, iv, i as int, protocol, is_cpa_catalog, j));
                }
            }
        },
    }
}

/// Reads a provider's model catalog: one model per entry with a new,
/// non-blank ID, in catalog order; see `kept` and `model_from`.
pub fn parse_catalog_models_with_context(
    payload: &JsonValue,
    protocol: ProviderProtocol,
    is_cpa_catalog: bool,
) -> (r: Vec<ProviderCatalogModel>)
    ensures
        ({
            let items = spec_catalog_items(payload@);
            let k = kept(items, protocol).0;
            &&& r@.len() == k.len()
            &&& forall|j: int| 0 <= j < k.len() ==> model_at(#[trigger] r@[j], items, k[j], protocol, is_cpa_catalog)
        }),
{
    let items = catalog_items(payload);
    let ghost iv = item_refs_view(items@);
    let mut seen: Vec<String> = Vec::new();
    let mut models: Vec<ProviderCatalogModel> = Vec::new();
    proof {
        assert(iv.take(0) =~= Seq::<(Json, Option<Seq<char>>)>::empty());
        assert(string_set(seen@) =~= Set::<Seq<char>>::empty());
    }
    let mut i: usize = 0;
    while i < items.len()
        invariant
            i <= items@.len(),
            iv == item_refs_view(items@),
            iv.len() == items@.len(),
            string_set(seen@) == kept(iv.take(i as int), protocol).1,
            models_ok(models@, iv, i as int, protocol, is_cpa_catalog),
        decreases items.len() - i,
    {
        let (item, key) = items[i];
        consider_entry(&mut models, &mut seen, item, key, Ghost(iv), i, protocol, is_cpa_catalog);
        i += 1;
    }
    proof {
        assert(iv.take(i as int) =~= iv);
        assert forall|j: int| 0 <= j < models@.len() implies model_at(
            #[trigger] models@[j],
            iv,
            kept(iv, protocol).0[j],
            protocol,
            is_cpa_catalog,
        ) by {
            assert(model_slot(models@, iv, i as int, protocol, is_cpa_catalog, j));
        }
    }
    models
}

/// The models object of the host's own catalog (under `response` or at the top).
pub open spec fn official_entries(payload: Json) -> Seq<(Seq<char>, Json)> {
    let m = match payload.get("response"@) {
        Some(r) => match r.get("models"@) {
            Some(x) => Some(x),
            None => payload.get("models"@),
        },
        None => payload.get("models"@),
    };
    match m {
        Some(Json::Object(es)) => es,
        _ => Seq::empty(),
    }
}

pub open spec fn member_bool(v: Json, key: Seq<char>) -> Option<bool> {
    match v.get(key) {
        Some(m) => m.as_bool(),
        None => None,
    }
}

pub open spec fn min_of(a: Option<u32>, b: Option<u32>) -> Option<u32> {
    match (a, b) {
        (Some(x), Some(y)) => Some(if x <= y {
            x
        } else {
            y
        }),
        (Some(x), None) => Some(x),
        (None, y) => y,
    }
}

/// Vision support of an official entry: its media flag, else
/// `supportsVision`, else assumed.
pub open spec fn official_vision(item: Json) -> bool {
    match spec_media(item).images {
        Some(b) => b,
        None => match member_bool(item, "supportsVision"@) {
            Some(b) => b,
            None => true,
        },
    }
}

pub open spec fn official_capabilities(item: Json) -> Json {
    let base = seq![
        ("vision"@, Json::Bool(official_vision(item))),
        ("tools"@, Json::Bool(
            match member_bool(item, "supportsTools"@) {
                Some(b) => b,
                None => true,
            },
        )),
        ("raw_config"@, item),
    ];
    Json::Object(
        match member_bool(item, "supportsThinking"@) {
            Some(b) => base.push(("reasoning"@, Json::Bool(b))),
            None => base,
        },
    )
}

/// `m` is the model an entry `id: item` of the host's own catalog describes.
#[verifier::opaque]
pub open spec fn official_model_from(m: ProviderCatalogModel, id: Seq<char>, item: Json) -> bool {
    let mt = member_positive(item, "maxTokens"@);
    &&& m.id@ == id
    &&& m.display_name@ == match item.get("displayName"@) {
        Some(Json::Str(s)) => s,
        _ => id,
    }
    &&& m.context_window == member_positive(item, "contextWindow"@)
    &&& m.max_context_window is None
    &&& m.context_length is None
    &&& m.auto_compact_token_limit is None
    &&& m.input_token_limit == or_limit(member_positive(item, "inputTokenLimit"@), mt)
    &&& m.output_token_limit == min_of(
        member_positive(item, "maxOutputTokens"@),
        member_positive(item, "outputTokenLimit"@),
    )
    &&& m.max_tokens == mt
    &&& m.token_budget is None
    &&& opt_json(m.capabilities) == Some(official_capabilities(item))
    &&& mime_ok(m.supported_mime_types, item)
    &&& m.supports_images == Some(official_vision(item))
    &&& m.supports_video == spec_media(item).video
    &&& m.thinking is None
    &&& reasoning_ok(m.reasoning, item, ProviderProtocol::GeminiGenerateContent)
    &&& upstream_ok(m.upstream_compression, item)
    &&& default_policy_ok(m.default_compression_policy, item)
}

fn member_positive_of(v: &JsonValue, key: &str) -> (r: Option<u32>)
    ensures
        r == member_positive(v@, key@),
{
    match v.get(key) {
        Some(m) => parse_positive_u32(m),
        None => None,
    }
}

fn member_bool_of(v: &JsonValue, key: &str) -> (r: Option<bool>)
    ensures
        r == member_bool(v@, key@),
{
    match v.get(key) {
        Some(m) => m.as_bool(),
        None => None,
    }
}

fn build_official_model(id: &String, item: &JsonValue) -> (r: ProviderCatalogModel)
    ensures
        official_model_from(r, id@, item@),
{
    let max_tokens = member_positive_of(item, "maxTokens");
    let context_window = member_positive_of(item, "contextWindow");
    let input_token_limit = or_u32(member_positive_of(item, "inputTokenLimit"), max_tokens);
    let output_token_limit = match (member_positive_of(item, "maxOutputTokens"), member_positive_of(item, "outputTokenLimit")) {
        (Some(a), Some(b)) => Some(if a <= b {
            a
        } else {
            b
        }),
        (Some(a), None) => Some(a),
        (None, b) => b,
    };
    let stated_vision = match member_bool_of(item, "supportsVision") {
        Some(b) => b,
        None => true,
    };
    let supports_tools = match member_bool_of(item, "supportsTools") {
        Some(b) => b,
        None => true,
    };
    let supports_reasoning = member_bool_of(item, "supportsThinking");
    let (supported_mime_types, supports_images, supports_video) = extract_media_metadata(item);
    let supports_vision = match supports_images {
        Some(b) => b,
        None => stated_vision,
    };
    let mut caps: Vec<(String, JsonValue)> = Vec::new();
    assert(entries_view(caps@) =~= Seq::empty());
    crate::json::push_entry(&mut caps, "vision", JsonValue::Bool(supports_vision));
    crate::json::push_entry(&mut caps, "tools", JsonValue::Bool(supports_tools));
    crate::json::push_entry(&mut caps, "raw_config", item.deep_clone());
    let ghost base = entries_view(caps@);
    assert(supports_vision == official_vision(item@));
    assert(base =~= seq![
        ("vision"@, Json::Bool(official_vision(item@))),
        ("tools"@, Json::Bool(
            match member_bool(item@, "supportsTools"@) {
                Some(b) => b,
                None => true,
            },
        )),
        ("raw_config"@, item@),
    ]);
    if let Some(b) = supports_reasoning {
        crate::json::push_entry(&mut caps, "reasoning", JsonValue::Bool(b));
    }
    assert(entries_view(caps@) == match member_bool(item@, "supportsThinking"@) {
        Some(b) => base.push(("reasoning"@, Json::Bool(b))),
        None => base,
    });
    assert(JsonValue::Object(caps)@ == official_capabilities(item@));
    let display_name = match item.get("displayName") {
        Some(JsonValue::Str(s)) => s.clone(),
        _ => id.clone(),
    };
    let r = ProviderCatalogModel {
        id: id.clone(),
        display_name,
        context_window,
        max_context_window: None,
        context_length: None,
        auto_compact_token_limit: None,
        input_token_limit,
        output_token_limit,
        max_tokens,
        token_budget: None,
        capabilities: Some(JsonValue::Object(caps)),
        supported_mime_types,
        supports_images: Some(supports_vision),
        supports_video,
        thinking: None,
        reasoning: parse_reasoning_metadata(item, ProviderProtocol::GeminiGenerateContent),
        upstream_compression: extract_upstream_compression(item),
        default_compression_policy: extract_default_compression_policy(item),
    };
    proof {
        reveal(official_model_from);
    }
    r
}

/// Models in non-decreasing order of ID.
pub open spec fn sorted_by_id(ms: Seq<ProviderCatalogModel>) -> bool {
    forall|a: int, b: int| 0 <= a < b < ms.len() ==> !crate::text::seq_lt(#[trigger] ms[b].id@, #[trigger] ms[a].id@)
}

/// `perm` lists each of `0..n` exactly once.
pub open spec fn is_permutation(perm: Seq<int>, n: int) -> bool {
    &&& perm.len() == n
    &&& forall|j: int| 0 <= j < n ==> 0 <= #[trigger] perm[j] < n
    &&& forall|a: int, b: int| 0 <= a < b < n ==> #[trigger] perm[a] != #[trigger] perm[b]
}

/// Reads the host's own model catalog: one model per entry of its models
/// object, sorted by ID.
pub fn parse_official_catalog_models(payload: &JsonValue) -> (r: Vec<ProviderCatalogModel>)
    ensures
        ({
            let es = official_entries(payload@);
            &&& r@.len() == es.len()
            &&& sorted_by_id(r@)
            &&& exists|perm: Seq<int>|
                is_permutation(perm, es.len() as int) && forall|j: int|
                    0 <= j < r@.len() ==> #[trigger] official_model_from(r@[j], es[perm[j]].0, es[perm[j]].1)
        }),
{
    let m: Option<&JsonValue> = match payload.get("response") {
        Some(resp) => match resp.get("models") {
            Some(x) => Some(x),
            None => payload.get("models"),
        },
        None => payload.get("models"),
    };
    let empty: Vec<(String, JsonValue)> = Vec::new();
    let entries: &Vec<(String, JsonValue)> = match m {
        Some(JsonValue::Object(es)) => es,
        _ => &empty,
    };
    let ghost es = entries_view(entries@);
    proof {
        lemma_entries_view(entries@);
        if entries@.len() == 0 {
            assert(es =~= Seq::empty());
        }
        assert(es == official_entries(payload@));
    }
    let mut out: Vec<ProviderCatalogModel> = Vec::new();
    let ghost mut perm: Seq<int> = Seq::empty();
    let mut i: usize = 0;
    while i < entries.len()
        invariant
            i <= entries@.len(),
            es == entries_view(entries@),
            es.len() == entries@.len(),
            forall|j: int| 0 <= j < entries@.len() ==> #[trigger] es[j] == (entries@[j].0@, entries@[j].1@),
            sorted_by_id(out@),
            perm.len() == out@.len(),
            out@.len() == i,
            forall|j: int| 0 <= j < i ==> 0 <= #[trigger] perm[j] < i,
            forall|a: int, b: int| 0 <= a < b < i ==> #[trigger] perm[a] != #[trigger] perm[b],
            forall|j: int| 0 <= j < out@.len() ==> #[trigger] official_model_from(out@[j], es[perm[j]].0, es[perm[j]].1),
        decreases entries.len() - i,
    {
        let model = build_official_model(&entries[i].0, &entries[i].1);
        let mut k: usize = 0;
        while k < out.len() && !crate::text::str_lt(model.id.as_str(), out[k].id.as_str())
            invariant
                k <= out@.len(),
                forall|j: int| 0 <= j < k ==> !crate::text::seq_lt(model.id@, (#[trigger] out@[j]).id@),
            decreases out.len() - k,
        {
            k += 1;
        }
        let ghost old_out = out@;
        let ghost old_perm = perm;
        let ghost gm = model;
        out.insert(k, model);
        proof {
            perm = old_perm.insert(k as int, i as int);
            assert(out@ =~= old_out.insert(k as int, gm));
            assert forall|a: int, b: int| 0 <= a < b < out@.len() implies !crate::text::seq_lt(
                #[trigger] out@[b].id@,
                #[trigger] out@[a].id@,
            ) by {
                if b < k {
                    assert(out@[a] == old_out[a] && out@[b] == old_out[b]);
                } else if b == k {
                    assert(out@[a] == old_out[a]);
                } else if a < k {
                    assert(out@[a] == old_out[a] && out@[b] == old_out[b - 1]);
                    if b - 1 > k - 1 && k < old_out.len() {
                        assert(crate::text::seq_lt(gm.id@, old_out[k as int].id@));
                    }
                    if crate::text::seq_lt(old_out[b - 1].id@, old_out[a].id@) {
                        assert(false);
                    }
                } else if a == k {
                    assert(out@[b] == old_out[b - 1]);
                    assert(crate::text::seq_lt(gm.id@, old_out[k as int].id@));
                    if b - 1 > k {
                        assert(!crate::text::seq_lt(old_out[b - 1].id@, old_out[k as int].id@));
                        crate::text::lemma_seq_lt_trichotomy(old_out[b - 1].id@, old_out[k as int].id@);
                        if old_out[b - 1].id@ != old_out[k as int].id@ {
                            crate::text::lemma_seq_lt_transitive(gm.id@, old_out[k as int].id@, old_out[b - 1].id@);
                        }
                    }
                    if crate::text::seq_lt(old_out[b - 1].id@, gm.id@) {
                        if b - 1 == k {
                            crate::text::lemma_seq_lt_irreflexive(gm.id@);
                            crate::text::lemma_seq_lt_transitive(gm.id@, old_out[k as int].id@, gm.id@);
                        } else {
                            crate::text::lemma_seq_lt_transitive(gm.id@, old_out[b - 1].id@, gm.id@);
                            crate::text::lemma_seq_lt_irreflexive(gm.id@);
                        }
                    }
                } else {
                    assert(out@[a] == old_out[a - 1] && out@[b] == old_out[b - 1]);
                }
            }
            assert forall|j: int| 0 <= j < out@.len() implies #[trigger] official_model_from(
                out@[j],
                es[perm[j]].0,
                es[perm[j]].1,
            ) by {
                if j < k {
                    assert(out@[j] == old_out[j] && perm[j] == old_perm[j]);
                } else if j == k {
                    assert(perm[j] == i);
                } else {
                    assert(out@[j] == old_out[j - 1] && perm[j] == old_perm[j - 1]);
                }
            }
            assert forall|j: int| 0 <= j < i + 1 implies 0 <= #[trigger] perm[j] < i + 1 by {
                if j < k {
                    assert(perm[j] == old_perm[j]);
                } else if j > k {
                    assert(perm[j] == old_perm[j - 1]);
                }
            }
            assert forall|a: int, b: int| 0 <= a < b < i + 1 implies #[trigger] perm[a] != #[trigger] perm[b] by {
                let pa = if a < k { a } else if a == k { -1 } else { a - 1 };
                let pb = if b < k { b } else if b == k { -1 } else { b - 1 };
                if pa >= 0 {
                    assert(perm[a] == old_perm[pa]);
                }
                if pb >= 0 {
                    assert(perm[b] == old_perm[pb]);
                }
            }
        }
        i += 1;
    }
    proof {
        assert(is_permutation(perm, es.len() as int));
    }
    out
}

} // verus!
