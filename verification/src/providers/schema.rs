//! JSON Schema type names as OpenAI expects them.
//!
//! Tool schemas written for Gemini spell types in upper case (`"STRING"`);
//! OpenAI accepts only the lower-case JSON Schema names. Every `type`
//! member of the schema tree, a string or an array of strings, is lowered
//! where it names one of the seven JSON Schema types.

use crate::json::{
    entries_view, items_view, lemma_entries_view, lemma_items_view, lemma_weight_entries, lemma_weight_items,
    push_item, weight, Json, JsonValue,
};
use crate::text::{chars_eq_str, chars_of, lower, string_from_chars, to_lower};
use vstd::prelude::*;

verus! {

pub open spec fn is_schema_type(s: Seq<char>) -> bool {
    s == "NULL"@ || s == "BOOLEAN"@ || s == "OBJECT"@ || s == "ARRAY"@ || s == "NUMBER"@ || s == "INTEGER"@
        || s == "STRING"@
}

/// A schema tree with every `type` member normalized.
pub open spec fn norm_schema(v: Json) -> Json
    decreases v, 0int,
{
    match v {
        Json::Object(entries) => Json::Object(norm_entries(entries)),
        Json::Array(items) => Json::Array(norm_items(items)),
        _ => v,
    }
}

pub open spec fn norm_items(items: Seq<Json>) -> Seq<Json>
    decreases items, 0int,
{
    if items.len() == 0 {
        seq![]
    } else {
        norm_items(items.drop_last()).push(norm_schema(items.last()))
    }
}

pub open spec fn norm_entries(entries: Seq<(Seq<char>, Json)>) -> Seq<(Seq<char>, Json)>
    decreases entries, 0int,
{
    if entries.len() == 0 {
        seq![]
    } else {
        let e = entries.last();
        norm_entries(entries.drop_last()).push(
            (
                e.0,
                if e.0 == "type"@ {
                    norm_typed(e.1)
                } else {
                    norm_schema(e.1)
                },
            ),
        )
    }
}

/// A `type` member: an upper-case type name is lowered, an array has each
/// item treated so, and anything else is a schema tree in its own right.
pub open spec fn norm_typed(v: Json) -> Json
    decreases v, 1int,
{
    match v {
        Json::Str(s) => if is_schema_type(s) {
            Json::Str(lower(s))
        } else {
            v
        },
        Json::Array(items) => Json::Array(norm_typed_items(items)),
        _ => norm_schema(v),
    }
}

pub open spec fn norm_typed_items(items: Seq<Json>) -> Seq<Json>
    decreases items, 1int,
{
    if items.len() == 0 {
        seq![]
    } else {
        norm_typed_items(items.drop_last()).push(norm_typed(items.last()))
    }
}

fn is_schema_type_name(s: &String) -> (r: bool)
    ensures
        r == is_schema_type(s@),
{
    let c = chars_of(s.as_str());
    let t = c.as_slice();
    chars_eq_str(t, "NULL") || chars_eq_str(t, "BOOLEAN") || chars_eq_str(t, "OBJECT") || chars_eq_str(t, "ARRAY")
        || chars_eq_str(t, "NUMBER") || chars_eq_str(t, "INTEGER") || chars_eq_str(t, "STRING")
}

fn normalized_items(items: &Vec<JsonValue>, typed: bool) -> (r: Vec<JsonValue>)
    ensures
        items_view(r@) == if typed {
            norm_typed_items(items_view(items@))
        } else {
            norm_items(items_view(items@))
        },
    decreases crate::json::weight_items(items_view(items@)), 0nat,
{
    let ghost iv = items_view(items@);
    let mut out: Vec<JsonValue> = Vec::new();
    proof {
        lemma_items_view(items@);
        assert(items_view(out@) =~= seq![]);
        assert(iv.take(0) =~= seq![]);
    }
    let mut i: usize = 0;
    while i < items.len()
        invariant
            i <= items@.len(),
            iv == items_view(items@),
            iv.len() == items@.len(),
            forall|j: int| 0 <= j < items@.len() ==> #[trigger] iv[j] == items@[j]@,
            items_view(out@) == if typed {
                norm_typed_items(iv.take(i as int))
            } else {
                norm_items(iv.take(i as int))
            },
        decreases items.len() - i,
    {
        proof {
            lemma_weight_items(iv, i as int);
            assert(iv.take(i as int + 1).drop_last() =~= iv.take(i as int));
        }
        let x = if typed {
            normalized_typed(&items[i])
        } else {
            normalized_schema(&items[i])
        };
        push_item(&mut out, x);
        i += 1;
    }
    assert(iv.take(i as int) =~= iv);
    out
}

/// The schema tree with every `type` member normalized.
pub fn normalized_schema(v: &JsonValue) -> (r: JsonValue)
    ensures
        r@ == norm_schema(v@),
    decreases weight(v@), 1nat,
{
    match v {
        JsonValue::Object(entries) => {
            let ghost ev = entries_view(entries@);
            let mut out: Vec<(String, JsonValue)> = Vec::new();
            proof {
                lemma_entries_view(entries@);
                assert(entries_view(out@) =~= seq![]);
                assert(ev.take(0) =~= seq![]);
            }
            let mut i: usize = 0;
            while i < entries.len()
                invariant
                    i <= entries@.len(),
                    v@ == Json::Object(ev),
                    ev == entries_view(entries@),
                    ev.len() == entries@.len(),
                    forall|j: int| 0 <= j < entries@.len() ==> #[trigger] ev[j] == (entries@[j].0@, entries@[j].1@),
                    entries_view(out@) == norm_entries(ev.take(i as int)),
                decreases entries.len() - i,
            {
                proof {
                    lemma_weight_entries(ev, i as int);
                    assert(ev.take(i as int + 1).drop_last() =~= ev.take(i as int));
                }
                let k = entries[i].0.clone();
                let x = if chars_eq_str(chars_of(k.as_str()).as_slice(), "type") {
                    normalized_typed(&entries[i].1)
                } else {
                    normalized_schema(&entries[i].1)
                };
                let ghost before = out@;
                out.push((k, x));
                proof {
                    assert(out@.drop_last() =~= before);
                }
                i += 1;
            }
            assert(ev.take(i as int) =~= ev);
            JsonValue::Object(out)
        },
        JsonValue::Array(items) => {
            proof {
                lemma_items_view(items@);
            }
            JsonValue::Array(normalized_items(items, false))
        },
        _ => v.deep_clone(),
    }
}

/// A `type` member normalized; see `norm_typed`.
pub fn normalized_typed(v: &JsonValue) -> (r: JsonValue)
    ensures
        r@ == norm_typed(v@),
    decreases weight(v@), 2nat,
{
    match v {
        JsonValue::Str(s) => if is_schema_type_name(s) {
            let c = chars_of(s.as_str());
            let l = to_lower(c.as_slice());
            JsonValue::Str(string_from_chars(l.as_slice()))
        } else {
            JsonValue::Str(s.clone())
        },
        JsonValue::Array(items) => JsonValue::Array(normalized_items(items, true)),
        _ => normalized_schema(v),
    }
}

} // verus!
