//! The host's model catalog: reading it, and rewriting it to hide official
//! models, apply compression policies and add the configured models.
//!
//! A catalog payload holds its models under `models`, either at the top or
//! inside `response`; without such a member the payload itself is the model
//! collection. Models are an object keyed by catalog key, or an array.

pub mod checkpoint;
pub mod custom;

use crate::json::{entries_index, entries_view, lemma_entries_get_index, lemma_entries_view, set_member, Json, JsonValue};
use vstd::prelude::*;

verus! {

/// The operations on the host's model catalog.
pub struct AntigravityModelDescriptor;

/// `j` with member `k` set to `v`, where `j` is an object; otherwise `j`.
pub open spec fn obj_set(j: Json, k: Seq<char>, v: Json) -> Json {
    match j {
        Json::Object(es) => Json::Object(set_member(es, k, v)),
        _ => j,
    }
}

pub open spec fn has_models(j: Json) -> bool {
    j.get("models"@) is Some
}

/// Whether the catalog sits inside `response`.
pub open spec fn response_holds_catalog(p: Json) -> bool {
    !has_models(p) && (p.get("response"@) matches Some(r) && has_models(r))
}

/// The object that holds the catalog.
pub open spec fn catalog_container(p: Json) -> Json {
    if response_holds_catalog(p) {
        p.at("response"@)
    } else {
        p
    }
}

/// The model collection of a payload.
pub open spec fn catalog_models(p: Json) -> Json {
    let c = catalog_container(p);
    match c.get("models"@) {
        Some(m) => m,
        None => c,
    }
}

/// The payload with its catalog container replaced by `c`.
pub open spec fn with_container(p: Json, c: Json) -> Json {
    if response_holds_catalog(p) {
        obj_set(p, "response"@, c)
    } else {
        c
    }
}

/// A container with its model collection replaced by `m`.
pub open spec fn with_models(c: Json, m: Json) -> Json {
    if has_models(c) {
        obj_set(c, "models"@, m)
    } else {
        m
    }
}

pub open spec fn spec_model_count(p: Json) -> nat {
    match catalog_models(p) {
        Json::Object(es) => es.len(),
        Json::Array(items) => items.len(),
        _ => 0,
    }
}

/// Where a part was taken out of a JSON value: the whole value, or the
/// member at `index` of an object whose entries are kept.
pub enum Hole {
    Whole,
    Member { entries: Vec<(String, JsonValue)>, index: usize, key: String },
}

/// The value with `part` put back where it was taken from.
pub open spec fn plug(h: Hole, part: Json) -> Json {
    match h {
        Hole::Whole => part,
        Hole::Member { entries, index, key } => Json::Object(entries_view(entries@).update(index as int, (key@, part))),
    }
}

/// Puts `part` back into the hole.
pub fn fill(h: Hole, part: JsonValue) -> (r: JsonValue)
    requires
        h matches Hole::Member { entries, index, .. } ==> index < entries@.len(),
    ensures
        r@ == plug(h, part@),
{
    match h {
        Hole::Whole => part,
        Hole::Member { mut entries, index, key } => {
            let ghost before = entries@;
            let ghost pv = part@;
            let _ = entries.remove(index);
            entries.insert(index, (key, part));
            proof {
                lemma_entries_view(entries@);
                lemma_entries_view(before);
                assert(entries@ =~= before.update(index as int, (key, part)));
                assert(entries_view(entries@) =~= entries_view(before).update(index as int, (key@, pv)));
            }
            JsonValue::Object(entries)
        },
    }
}

/// Takes member `key` out of an object value that has it.
fn take_member(v: JsonValue, key: &str) -> (r: (JsonValue, Hole))
    requires
        v@.get(key@) is Some,
    ensures
        r.1 matches Hole::Member { entries, index, .. } && index < entries@.len(),
        Some(r.0@) == v@.get(key@),
        forall|part: Json| #[trigger] plug(r.1, part) == obj_set(v@, key@, part),
{
    match v {
        JsonValue::Object(mut entries) => {
            proof {
                lemma_entries_view(entries@);
                lemma_entries_get_index(entries_view(entries@), key@);
            }
            let i = crate::domain::provider::find_key(&entries, key).unwrap();
            let ghost before = entries@;
            let (k, value) = entries.remove(i);
            let hole_key = crate::text::owned(key);
            entries.insert(i, (k, JsonValue::Null));
            proof {
                assert(entries@ =~= before.update(i as int, (k, JsonValue::Null)));
                lemma_entries_view(entries@);
                lemma_entries_view(before);
                assert(before[i as int] == (k, value));
                assert(entries_view(before)[i as int] == (k@, value@));
                assert(k@ == key@);
                assert forall|part: Json| #[trigger] plug(Hole::Member { entries, index: i, key: hole_key }, part) == obj_set(
                    v@,
                    key@,
                    part,
                ) by {
                    assert(entries_view(entries@) =~= entries_view(before).update(i as int, (key@, Json::Null)));
                    assert(entries_view(entries@).update(i as int, (key@, part)) =~= entries_view(before).update(
                        i as int,
                        (key@, part),
                    ));
                }
            }
            (value, Hole::Member { entries, index: i, key: hole_key })
        },
        _ => {
            proof {
                assert(false);
            }
            (JsonValue::Null, Hole::Whole)
        },
    }
}

/// Takes member `key` out of an object value that has it.
pub fn take_member_value(v: JsonValue, key: &str) -> (r: (JsonValue, Hole))
    requires
        v@.get(key@) is Some,
    ensures
        r.1 matches Hole::Member { entries, index, .. } && index < entries@.len(),
        Some(r.0@) == v@.get(key@),
        forall|part: Json| #[trigger] plug(r.1, part) == obj_set(v@, key@, part),
{
    take_member(v, key)
}

/// `obj_set` on an executable value.
pub fn set_object_member(v: JsonValue, key: &str, value: JsonValue) -> (r: JsonValue)
    ensures
        r@ == obj_set(v@, key@, value@),
{
    match v {
        JsonValue::Object(mut es) => {
            crate::json::set_entry(&mut es, key, value);
            JsonValue::Object(es)
        },
        other => other,
    }
}

pub fn has_models_member(v: &JsonValue) -> (r: bool)
    ensures
        r == has_models(v@),
{
    v.get("models").is_some()
}

/// Splits a payload into its catalog container and the hole it leaves.
pub fn split_container(payload: JsonValue) -> (r: (JsonValue, Hole))
    ensures
        r.1 matches Hole::Member { entries, index, .. } ==> index < entries@.len(),
        r.0@ == catalog_container(payload@),
        forall|c: Json| #[trigger] plug(r.1, c) == with_container(payload@, c),
{
    if has_models_member(&payload) {
        return (payload, Hole::Whole);
    }
    let inner = match payload.get("response") {
        Some(r) => has_models_member(r),
        None => false,
    };
    if inner {
        take_member(payload, "response")
    } else {
        (payload, Hole::Whole)
    }
}

/// Splits a container into its model collection and the hole it leaves.
pub fn split_models(container: JsonValue) -> (r: (JsonValue, Hole))
    ensures
        r.1 matches Hole::Member { entries, index, .. } ==> index < entries@.len(),
        r.0@ == (match container@.get("models"@) {
            Some(m) => m,
            None => container@,
        }),
        forall|m: Json| #[trigger] plug(r.1, m) == with_models(container@, m),
{
    if has_models_member(&container) {
        take_member(container, "models")
    } else {
        (container, Hole::Whole)
    }
}

/// The model collection of a payload.
pub fn catalog_models_of(payload: &JsonValue) -> (r: &JsonValue)
    ensures
        r@ == catalog_models(payload@),
{
    let container: &JsonValue = if has_models_member(payload) {
        payload
    } else {
        match payload.get("response") {
            Some(r) => if has_models_member(r) {
                r
            } else {
                payload
            },
            None => payload,
        }
    };
    match container.get("models") {
        Some(m) => m,
        None => container,
    }
}

impl AntigravityModelDescriptor {
    /// The number of models in a catalog payload.
    pub fn model_count(payload: &JsonValue) -> (r: usize)
        ensures
            r == spec_model_count(payload@),
    {
        let models = catalog_models_of(payload);
        match models {
            JsonValue::Object(entries) => {
                proof {
                    lemma_entries_view(entries@);
                }
                entries.len()
            },
            JsonValue::Array(items) => {
                proof {
                    crate::json::lemma_items_view(items@);
                }
                items.len()
            },
            _ => 0,
        }
    }
}

} // verus!
