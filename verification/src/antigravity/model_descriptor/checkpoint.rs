//! Compression policies in the host catalog.
//!
//! An entry's Checkpointer settings live, as JSON text, under
//! `modelExperiments.experiments.CASCADE_USE_EXPERIMENT_CHECKPOINTER.stringValue`.
//! The settings name the worker model that writes checkpoints
//! (`checkpoint_model`); an official entry may also be that worker.

use crate::json::{
    entries_get, entries_lookup, entries_view, items_view, json_parse_result, lemma_entries_view, lemma_items_view,
    parse_json, Json, JsonNum, JsonValue,
};
use crate::domain::checkpoint::{min_u32, resolved_limits, ModelCompressionPolicy};
use crate::json::{juint, json_text, set_entry, set_member, to_json_text, uint_value};
use crate::text::{decimal, strip_prefix};
use super::{catalog_models, catalog_models_of, fill, split_container, split_models, take_member_value, AntigravityModelDescriptor};
use crate::text::{chars_of, lemma_seq_lt_irreflexive, lemma_seq_lt_trichotomy, parse_unsigned, seq_lt, string_from_chars, trim};
use vstd::prelude::*;

verus! {

pub const CHECKPOINTER_EXPERIMENT: &'static str = "CASCADE_USE_EXPERIMENT_CHECKPOINTER";

/// The smaller of two optional limits; a missing one does not count.
pub open spec fn opt_min(a: Option<u32>, b: Option<u32>) -> Option<u32> {
    match (a, b) {
        (Some(x), Some(y)) => Some(if x <= y {
            x
        } else {
            y
        }),
        (Some(x), None) => Some(x),
        (None, y) => y,
    }
}

/// A positive 32-bit count: an integer in range, or a string holding one.
pub open spec fn positive_u32(v: Json) -> Option<u32> {
    match v {
        Json::Number(JsonNum::Unsigned(u)) => if 0 < u && u <= 0xffff_ffff {
            Some(u as u32)
        } else {
            None
        },
        Json::Str(s) => match parse_unsigned(trim(s), 0xffff_ffff) {
            Some(n) => if n > 0 {
                Some(n as u32)
            } else {
                None
            },
            None => None,
        },
        _ => None,
    }
}

pub open spec fn field_positive(entry: Json, field: Seq<char>) -> Option<u32> {
    match entry.get(field) {
        Some(v) => positive_u32(v),
        None => None,
    }
}

/// The output limit an entry declares.
pub open spec fn output_limit(entry: Json) -> Option<u32> {
    opt_min(field_positive(entry, "maxOutputTokens"@), field_positive(entry, "outputTokenLimit"@))
}

/// The input capacity an entry declares.
pub open spec fn input_capacity(entry: Json) -> Option<u32> {
    opt_min(
        opt_min(field_positive(entry, "maxTokens"@), field_positive(entry, "inputTokenLimit"@)),
        field_positive(entry, "contextWindow"@),
    )
}

/// The Checkpointer settings text of an entry.
pub open spec fn settings_text(entry: Json) -> Option<Seq<char>> {
    match entry.get("modelExperiments"@) {
        Some(me) => match me.get("experiments"@) {
            Some(ex) => match ex.get(CHECKPOINTER_EXPERIMENT@) {
                Some(c) => match c.get("stringValue"@) {
                    Some(sv) => sv.as_str(),
                    None => None,
                },
                None => None,
            },
            None => None,
        },
        None => None,
    }
}

/// The Checkpointer settings of an entry, where its text is a JSON object.
pub open spec fn checkpoint_payload(entry: Json) -> Option<Seq<(Seq<char>, Json)>> {
    match settings_text(entry) {
        Some(raw) => match json_parse_result(raw) {
            Ok(Json::Object(es)) => Some(es),
            _ => None,
        },
        None => None,
    }
}

/// The worker named by an entry's Checkpointer settings, trimmed and non-empty.
pub open spec fn worker_id(entry: Json) -> Option<Seq<char>> {
    match checkpoint_payload(entry) {
        Some(es) => match entries_get(es, "checkpoint_model"@) {
            Some(Json::Str(s)) => if trim(s).len() > 0 {
                Some(trim(s))
            } else {
                None
            },
            _ => None,
        },
        None => None,
    }
}

/// The entries of a model collection with their catalog keys (arrays have none).
pub open spec fn model_items(models: Json) -> Seq<(Option<Seq<char>>, Json)> {
    match models {
        Json::Object(es) => Seq::new(es.len(), |i: int| (Some(es[i].0), es[i].1)),
        Json::Array(items) => Seq::new(items.len(), |i: int| (None::<Seq<char>>, items[i])),
        _ => Seq::empty(),
    }
}

pub open spec fn str_member_is(entry: Json, field: Seq<char>, w: Seq<char>) -> bool {
    entry.get(field) matches Some(Json::Str(s)) && s == w
}

/// Whether an item names worker `w` itself: by its catalog key, `id` or `model`.
pub open spec fn names_worker(key: Option<Seq<char>>, entry: Json, w: Seq<char>) -> bool {
    key == Some(w) || str_member_is(entry, "id"@, w) || str_member_is(entry, "model"@, w)
}

/// The least output limit among the first `n` items whose settings name worker `w`.
pub open spec fn referenced_limit(items: Seq<(Option<Seq<char>>, Json)>, w: Seq<char>, n: nat) -> Option<u32>
    decreases n,
{
    if n == 0 {
        None
    } else {
        let r = referenced_limit(items, w, (n - 1) as nat);
        let e = items[n - 1].1;
        if output_limit(e) is Some && worker_id(e) == Some(w) {
            opt_min(r, output_limit(e))
        } else {
            r
        }
    }
}

/// The least output limit among the first `n` items that are worker `w`
/// itself (by catalog key, `id` or `model`).
pub open spec fn direct_limit(items: Seq<(Option<Seq<char>>, Json)>, w: Seq<char>, n: nat) -> Option<u32>
    decreases n,
{
    if n == 0 {
        None
    } else {
        let r = direct_limit(items, w, (n - 1) as nat);
        let (key, e) = items[n - 1];
        if output_limit(e) is Some && names_worker(key, e, w) {
            opt_min(r, output_limit(e))
        } else {
            r
        }
    }
}

/// The output limit of a Checkpointer worker in an official catalog: where
/// the settings of some entry name it as their worker, the least limit
/// declared by the worker's own entries (or, without such an entry, the
/// least limit of the entries that reference it). An entry does not make
/// its own ID a worker.
pub open spec fn worker_limit(models: Json, w: Seq<char>) -> Option<u32> {
    let items = model_items(models);
    match referenced_limit(items, w, items.len()) {
        None => None,
        Some(r) => Some(
            match direct_limit(items, w, items.len()) {
                Some(d) => d,
                None => r,
            },
        ),
    }
}

/// First value stored under `w` in a table of worker limits.
pub open spec fn limit_lookup(s: Seq<(String, u32)>, w: Seq<char>) -> Option<u32>
    decreases s.len(),
{
    if s.len() == 0 {
        None
    } else {
        match limit_lookup(s.drop_last(), w) {
            Some(v) => Some(v),
            None => if s.last().0@ == w {
                Some(s.last().1)
            } else {
                None
            },
        }
    }
}

proof fn lemma_lookup_stable(s: Seq<(String, u32)>, w: Seq<char>, k: int)
    requires
        0 <= k <= s.len(),
        limit_lookup(s.take(k), w) is Some,
    ensures
        limit_lookup(s, w) == limit_lookup(s.take(k), w),
    decreases s.len() - k,
{
    if k < s.len() {
        assert(s.take(k + 1).drop_last() =~= s.take(k));
        lemma_lookup_stable(s, w, k + 1);
    } else {
        assert(s.take(k) =~= s);
    }
}

proof fn lemma_referenced_stable(items: Seq<(Option<Seq<char>>, Json)>, w: Seq<char>, k: nat, n: nat)
    requires
        k <= n,
        referenced_limit(items, w, k) is Some,
    ensures
        referenced_limit(items, w, n) is Some,
    decreases n - k,
{
    if k < n {
        lemma_referenced_stable(items, w, k, (n - 1) as nat);
    }
}

proof fn lemma_referenced_witness(items: Seq<(Option<Seq<char>>, Json)>, w: Seq<char>, n: nat)
    requires
        referenced_limit(items, w, n) is Some,
    ensures
        exists|j: int| 0 <= j < n && output_limit(#[trigger] items[j].1) is Some && worker_id(items[j].1) == Some(w),
    decreases n,
{
    let e = items[n - 1].1;
    if !(output_limit(e) is Some && worker_id(e) == Some(w)) {
        lemma_referenced_witness(items, w, (n - 1) as nat);
    }
}

fn positive_value(v: &JsonValue) -> (r: Option<u32>)
    ensures
        r == positive_u32(v@),
{
    match v {
        JsonValue::Number(crate::json::JsonNumber::Unsigned(u)) => if *u > 0 && *u <= 0xffff_ffff {
            Some(*u as u32)
        } else {
            None
        },
        JsonValue::Str(s) => {
            let cs = chars_of(s.as_str());
            let t = crate::text::trim_chars(cs.as_slice());
            match crate::text::parse_u32(t.as_slice()) {
                Some(n) => if n > 0 {
                    Some(n)
                } else {
                    None
                },
                None => None,
            }
        },
        _ => None,
    }
}

fn positive_field(entry: &JsonValue, field: &str) -> (r: Option<u32>)
    ensures
        r == field_positive(entry@, field@),
{
    match entry.get(field) {
        Some(v) => positive_value(v),
        None => None,
    }
}

fn min_of(a: Option<u32>, b: Option<u32>) -> (r: Option<u32>)
    ensures
        r == opt_min(a, b),
{
    match (a, b) {
        (Some(x), Some(y)) => Some(if x <= y {
            x
        } else {
            y
        }),
        (Some(x), None) => Some(x),
        (None, y) => y,
    }
}

pub fn entry_output_limit(entry: &JsonValue) -> (r: Option<u32>)
    ensures
        r == output_limit(entry@),
{
    min_of(positive_field(entry, "maxOutputTokens"), positive_field(entry, "outputTokenLimit"))
}

pub fn entry_input_capacity(entry: &JsonValue) -> (r: Option<u32>)
    ensures
        r == input_capacity(entry@),
{
    min_of(
        min_of(positive_field(entry, "maxTokens"), positive_field(entry, "inputTokenLimit")),
        positive_field(entry, "contextWindow"),
    )
}

/// The Checkpointer settings of an entry, where they parse as a JSON object.
pub fn existing_checkpoint_payload(entry: &JsonValue) -> (r: Option<Vec<(String, JsonValue)>>)
    ensures
        (match r {
            Some(es) => checkpoint_payload(entry@) == Some(entries_view(es@)),
            None => checkpoint_payload(entry@) is None,
        }),
{
    let me = match entry.get("modelExperiments") {
        Some(v) => v,
        None => {
            return None;
        },
    };
    let ex = match me.get("experiments") {
        Some(v) => v,
        None => {
            return None;
        },
    };
    let c = match ex.get(CHECKPOINTER_EXPERIMENT) {
        Some(v) => v,
        None => {
            return None;
        },
    };
    let sv = match c.get("stringValue") {
        Some(v) => v,
        None => {
            return None;
        },
    };
    let raw = match sv.as_str() {
        Some(s) => s,
        None => {
            return None;
        },
    };
    match parse_json(raw.as_str()) {
        Ok(JsonValue::Object(es)) => Some(es),
        _ => None,
    }
}

/// The worker named by an entry's Checkpointer settings.
pub fn checkpoint_worker_id(entry: &JsonValue) -> (r: Option<String>)
    ensures
        crate::text::opt_view(r) == worker_id(entry@),
{
    let es = match existing_checkpoint_payload(entry) {
        Some(es) => es,
        None => {
            return None;
        },
    };
    match entries_lookup(&es, "checkpoint_model") {
        Some(JsonValue::Str(s)) => {
            let cs = chars_of(s.as_str());
            let t = crate::text::trim_chars(cs.as_slice());
            if t.len() > 0 {
                Some(string_from_chars(t.as_slice()))
            } else {
                None
            }
        },
        _ => None,
    }
}

pub fn model_item_count(models: &JsonValue) -> (r: usize)
    ensures
        r == model_items(models@).len(),
{
    match models {
        JsonValue::Object(es) => {
            proof {
                lemma_entries_view(es@);
            }
            es.len()
        },
        JsonValue::Array(items) => {
            proof {
                lemma_items_view(items@);
            }
            items.len()
        },
        _ => 0,
    }
}

/// The `i`-th item of a model collection, with its catalog key.
pub fn model_item(models: &JsonValue, i: usize) -> (r: (Option<&String>, &JsonValue))
    requires
        i < model_items(models@).len(),
    ensures
        (match r.0 {
            Some(k) => model_items(models@)[i as int].0 == Some(k@),
            None => model_items(models@)[i as int].0 is None,
        }),
        r.1@ == model_items(models@)[i as int].1,
{
    match models {
        JsonValue::Object(es) => {
            proof {
                lemma_entries_view(es@);
            }
            (Some(&es[i].0), &es[i].1)
        },
        JsonValue::Array(items) => {
            proof {
                lemma_items_view(items@);
            }
            (None, &items[i])
        },
        _ => {
            proof {
                assert(false);
            }
            (None, models)
        },
    }
}

fn str_member_matches(entry: &JsonValue, field: &str, w: &str) -> (r: bool)
    ensures
        r == str_member_is(entry@, field@, w@),
{
    match entry.get(field) {
        Some(JsonValue::Str(s)) => crate::text::str_eq(s.as_str(), w),
        _ => false,
    }
}

/// `worker_limit` for one worker.
pub fn scan_worker_limit(models: &JsonValue, w: &str) -> (r: Option<u32>)
    ensures
        r == worker_limit(models@, w@),
{
    let ghost items = model_items(models@);
    let n = model_item_count(models);
    let mut referenced: Option<u32> = None;
    let mut direct: Option<u32> = None;
    let mut i: usize = 0;
    while i < n
        invariant
            n == items.len(),
            items == model_items(models@),
            i <= n,
            referenced == referenced_limit(items, w@, i as nat),
            direct == direct_limit(items, w@, i as nat),
        decreases n - i,
    {
        let (key, entry) = model_item(models, i);
        let out = entry_output_limit(entry);
        if out.is_some() {
            match checkpoint_worker_id(entry) {
                Some(id) => {
                    if crate::text::str_eq(id.as_str(), w) {
                        referenced = min_of(referenced, out);
                    }
                },
                None => {},
            }
            let by_key = match key {
                Some(k) => crate::text::str_eq(k.as_str(), w),
                None => false,
            };
            if by_key || str_member_matches(entry, "id", w) || str_member_matches(entry, "model", w) {
                direct = min_of(direct, out);
            }
        }
        i += 1;
    }
    match referenced {
        None => None,
        Some(r) => Some(
            match direct {
                Some(d) => d,
                None => r,
            },
        ),
    }
}

/// How many of the first `n` items name worker `w` in their Checkpointer settings.
pub open spec fn worker_count(items: Seq<(Option<Seq<char>>, Json)>, w: Seq<char>, n: nat) -> nat
    decreases n,
{
    if n == 0 {
        0
    } else {
        worker_count(items, w, (n - 1) as nat) + if worker_id(items[n - 1].1) == Some(w) {
            1nat
        } else {
            0nat
        }
    }
}

/// Worker `w` is at least as good a default as worker `v`: used by more
/// models, or by as many and not after `v` in ID order.
pub open spec fn not_worse(items: Seq<(Option<Seq<char>>, Json)>, w: Seq<char>, v: Seq<char>) -> bool {
    let cw = worker_count(items, w, items.len());
    let cv = worker_count(items, v, items.len());
    cv < cw || (cv == cw && !seq_lt(v, w))
}

/// The default Checkpointer worker of an official catalog: the worker the
/// most models name, the smallest ID among equals.
pub open spec fn default_worker(models: Json, w: Seq<char>) -> bool {
    let items = model_items(models);
    &&& exists|k: int| 0 <= k < items.len() && worker_id(#[trigger] items[k].1) == Some(w)
    &&& forall|k: int|
        0 <= k < items.len() ==> (worker_id(#[trigger] items[k].1) matches Some(v) ==> not_worse(items, w, v))
}

fn count_worker(models: &JsonValue, w: &str) -> (r: usize)
    ensures
        r == worker_count(model_items(models@), w@, model_items(models@).len()),
{
    let n = model_item_count(models);
    let ghost items = model_items(models@);
    let mut c: usize = 0;
    let mut k: usize = 0;
    while k < n
        invariant
            n == items.len(),
            items == model_items(models@),
            k <= n,
            c == worker_count(items, w@, k as nat),
            c <= k,
        decreases n - k,
    {
        let (_, entry) = model_item(models, k);
        match checkpoint_worker_id(entry) {
            Some(v) => {
                if crate::text::str_eq(v.as_str(), w) {
                    c = c + 1;
                }
            },
            None => {},
        }
        k = k + 1;
    }
    c
}

/// The Checkpointer worker most models of an official catalog use, if any
/// model names one.
pub fn official_default_checkpoint_model(models_json: &JsonValue) -> (r: Option<String>)
    ensures
        match r {
            Some(w) => default_worker(catalog_models(models_json@), w@),
            None => forall|k: int|
                0 <= k < model_items(catalog_models(models_json@)).len() ==> worker_id(
                    #[trigger] model_items(catalog_models(models_json@))[k].1,
                ) is None,
        },
{
    let models = catalog_models_of(models_json);
    let n = model_item_count(models);
    let ghost items = model_items(models@);
    let mut best: Option<(String, usize)> = None;
    let mut j: usize = 0;
    while j < n
        invariant
            n == items.len(),
            items == model_items(models@),
            j <= n,
            match best {
                None => forall|k: int| 0 <= k < j ==> worker_id(#[trigger] items[k].1) is None,
                Some((bw, bc)) => {
                    &&& bc == worker_count(items, bw@, items.len())
                    &&& exists|k: int| 0 <= k < j && worker_id(#[trigger] items[k].1) == Some(bw@)
                    &&& forall|k: int|
                        0 <= k < j ==> (worker_id(#[trigger] items[k].1) matches Some(v) ==> not_worse(items, bw@, v))
                },
            },
        decreases n - j,
    {
        let (_, entry) = model_item(models, j);
        match checkpoint_worker_id(entry) {
            Some(v) => {
                let c = count_worker(models, v.as_str());
                let take = match &best {
                    None => true,
                    Some((bw, bc)) => c > *bc || (c == *bc && crate::text::str_lt(v.as_str(), bw.as_str())),
                };
                let ghost gbest = best;
                proof {
                    let vs = v@;
                    assert(worker_id(items[j as int].1) == Some(vs));
                    match gbest {
                        None => {},
                        Some((bw, bc)) => {
                            let b = bw@;
                            if take {
                                assert forall|k: int| 0 <= k < j + 1 implies (worker_id(#[trigger] items[k].1) matches Some(u)
                                    ==> not_worse(items, vs, u)) by {
                                    if k < j {
                                        if let Some(u) = worker_id(items[k].1) {
                                            assert(not_worse(items, b, u));
                                            lemma_seq_lt_trichotomy(u, b);
                                            lemma_seq_lt_trichotomy(u, vs);
                                            lemma_seq_lt_trichotomy(vs, b);
                                            if seq_lt(u, vs) && !seq_lt(u, b) && seq_lt(vs, b) {
                                                crate::text::lemma_seq_lt_transitive(u, vs, b);
                                            }
                                        }
                                    } else {
                                        lemma_seq_lt_irreflexive(vs);
                                    }
                                }
                            } else {
                                assert(not_worse(items, b, vs)) by {
                                    lemma_seq_lt_trichotomy(vs, b);
                                }
                            }
                        },
                    }
                    if gbest is None {
                        lemma_seq_lt_irreflexive(vs);
                    }
                }
                if take {
                    best = Some((v, c));
                }
            },
            None => {},
        }
        j = j + 1;
    }
    match best {
        Some((bw, _)) => Some(bw),
        None => None,
    }
}

/// The limit stored for worker `w`.
pub fn lookup_worker_limit(limits: &Vec<(String, u32)>, w: &str) -> (r: Option<u32>)
    ensures
        r == limit_lookup(limits@, w@),
{
    lookup_limit(limits, w)
}

fn lookup_limit(limits: &Vec<(String, u32)>, w: &str) -> (r: Option<u32>)
    ensures
        r == limit_lookup(limits@, w@),
{
    let mut j: usize = 0;
    assert(limits@.take(0) =~= Seq::<(String, u32)>::empty());
    while j < limits.len()
        invariant
            j <= limits@.len(),
            limit_lookup(limits@.take(j as int), w@) is None,
        decreases limits.len() - j,
    {
        assert(limits@.take(j + 1).drop_last() =~= limits@.take(j as int));
        if crate::text::str_eq(limits[j].0.as_str(), w) {
            proof {
                lemma_lookup_stable(limits@, w@, j + 1);
            }
            return Some(limits[j].1);
        }
        j += 1;
    }
    assert(limits@.take(j as int) =~= limits@);
    None
}

/// The output limit of every Checkpointer worker that an official catalog
/// references, as a table from worker ID to limit.
pub fn official_checkpoint_worker_limits(payload: &JsonValue) -> (r: Vec<(String, u32)>)
    ensures
        forall|w: Seq<char>| #[trigger] limit_lookup(r@, w) == worker_limit(super::catalog_models(payload@), w),
{
    let models = super::catalog_models_of(payload);
    let ghost items = model_items(models@);
    let n = model_item_count(models);
    let mut out: Vec<(String, u32)> = Vec::new();
    let mut i: usize = 0;
    while i < n
        invariant
            n == items.len(),
            items == model_items(models@),
            i <= n,
            forall|w: Seq<char>| #[trigger] limit_lookup(out@, w) is Some ==> limit_lookup(out@, w) == worker_limit(models@, w),
            forall|j: int, w: Seq<char>|
                0 <= j < i && output_limit(#[trigger] items[j].1) is Some && worker_id(items[j].1) == Some(w)
                    ==> (#[trigger] limit_lookup(out@, w)) is Some,
        decreases n - i,
    {
        let (_, entry) = model_item(models, i);
        if entry_output_limit(entry).is_some() {
            match checkpoint_worker_id(entry) {
                Some(id) => {
                    if lookup_limit(&out, id.as_str()).is_none() {
                        proof {
                            assert(referenced_limit(items, id@, (i + 1) as nat) is Some);
                            lemma_referenced_stable(items, id@, (i + 1) as nat, items.len());
                        }
                        let limit = scan_worker_limit(models, id.as_str());
                        let ghost before = out@;
                        let ghost idv = id@;
                        out.push((id, limit.unwrap()));
                        proof {
                            assert(out@.drop_last() =~= before);
                            assert forall|w: Seq<char>| #[trigger] limit_lookup(out@, w) is Some implies limit_lookup(out@, w)
                                == worker_limit(models@, w) by {
                                if limit_lookup(before, w) is None {
                                    assert(w == idv);
                                }
                            }
                            assert forall|j: int, w: Seq<char>|
                                0 <= j < i + 1 && output_limit(#[trigger] items[j].1) is Some && worker_id(items[j].1) == Some(w)
                                implies (#[trigger] limit_lookup(out@, w)) is Some by {
                                if limit_lookup(before, w) is None {
                                    if j < i {
                                        assert(limit_lookup(before, w) is Some);
                                    }
                                    assert(w == idv);
                                }
                            }
                        }
                    }
                },
                None => {},
            }
        }
        i += 1;
    }
    proof {
        assert forall|w: Seq<char>| #[trigger] limit_lookup(out@, w) == worker_limit(models@, w) by {
            if limit_lookup(out@, w) is None && worker_limit(models@, w) is Some {
                lemma_referenced_witness(items, w, items.len());
                let j = choose|j: int| 0 <= j < items.len() && output_limit(#[trigger] items[j].1) is Some
                    && worker_id(items[j].1) == Some(w);
                assert(limit_lookup(out@, w) is Some);
            }
        }
    }
    out
}

// ---------------------------------------------------------------------------
// Deprecated model IDs.
// ---------------------------------------------------------------------------

/// A table of string pairs, as a sequence of views.
pub open spec fn table_view(t: Seq<(String, String)>) -> Seq<(Seq<char>, Seq<char>)> {
    Seq::new(t.len(), |i: int| (t[i].0@, t[i].1@))
}

/// `BTreeMap::insert` on a table in key order: the pair replaces the one
/// under the same key, or goes before the first greater key.
pub open spec fn table_insert(t: Seq<(Seq<char>, Seq<char>)>, k: Seq<char>, v: Seq<char>) -> Seq<(Seq<char>, Seq<char>)>
    decreases t.len(),
{
    if t.len() == 0 {
        seq![(k, v)]
    } else if t[0].0 == k {
        t.update(0, (k, v))
    } else if seq_lt(k, t[0].0) {
        seq![(k, v)] + t
    } else {
        seq![t[0]] + table_insert(t.drop_first(), k, v)
    }
}

/// First value stored under `k`.
pub open spec fn table_get(t: Seq<(Seq<char>, Seq<char>)>, k: Seq<char>) -> Option<Seq<char>>
    decreases t.len(),
{
    if t.len() == 0 {
        None
    } else {
        match table_get(t.drop_last(), k) {
            Some(v) => Some(v),
            None => if t.last().0 == k {
                Some(t.last().1)
            } else {
                None
            },
        }
    }
}

/// Where a catalog lists deprecated IDs: the payload, and `response` where it is an object.
pub open spec fn alias_sources(p: Json) -> Seq<Json> {
    match p.get("response"@) {
        Some(r) => if r.is_object() {
            seq![p, r]
        } else {
            seq![p]
        },
        None => seq![p],
    }
}

pub open spec fn deprecated_entries(c: Json) -> Seq<(Seq<char>, Json)> {
    match c.get("deprecatedModelIds"@) {
        Some(Json::Object(es)) => es,
        _ => Seq::empty(),
    }
}

/// The replacement an entry of `deprecatedModelIds` names, where both IDs are non-empty.
pub open spec fn replacement_of(e: (Seq<char>, Json)) -> Option<Seq<char>> {
    match e.1.get("newModelId"@) {
        Some(Json::Str(r)) => if e.0.len() > 0 && r.len() > 0 {
            Some(r)
        } else {
            None
        },
        _ => None,
    }
}

pub open spec fn fold_aliases(t: Seq<(Seq<char>, Seq<char>)>, es: Seq<(Seq<char>, Json)>) -> Seq<(Seq<char>, Seq<char>)>
    decreases es.len(),
{
    if es.len() == 0 {
        t
    } else {
        let t2 = fold_aliases(t, es.drop_last());
        match replacement_of(es.last()) {
            Some(r) => table_insert(t2, es.last().0, r),
            None => t2,
        }
    }
}

/// Deprecated model ID to replacement ID, in key order.
pub open spec fn alias_table(p: Json) -> Seq<(Seq<char>, Seq<char>)> {
    let srcs = alias_sources(p);
    let t0 = fold_aliases(Seq::empty(), deprecated_entries(srcs[0]));
    if srcs.len() > 1 {
        fold_aliases(t0, deprecated_entries(srcs[1]))
    } else {
        t0
    }
}

/// Follows replacements from `cur`, stopping at an ID without one or at
/// the first ID seen twice.
pub open spec fn canonical_walk(
    t: Seq<(Seq<char>, Seq<char>)>,
    cur: Seq<char>,
    visited: Seq<Seq<char>>,
    fuel: nat,
) -> Seq<char>
    decreases fuel,
{
    if fuel == 0 {
        cur
    } else {
        match table_get(t, cur) {
            None => cur,
            Some(next) => if visited.contains(cur) {
                cur
            } else {
                canonical_walk(t, next, visited.push(cur), (fuel - 1) as nat)
            },
        }
    }
}

/// The current ID of a model. The walk visits a new key of the table at
/// each step, so it ends within `t.len() + 1` steps.
pub open spec fn canonical(id: Seq<char>, t: Seq<(Seq<char>, Seq<char>)>) -> Seq<char> {
    canonical_walk(t, id, Seq::empty(), t.len() + 1)
}

proof fn lemma_table_insert_at(t: Seq<(Seq<char>, Seq<char>)>, k: Seq<char>, v: Seq<char>, i: int)
    requires
        0 <= i <= t.len(),
        forall|j: int| 0 <= j < i ==> seq_lt(#[trigger] t[j].0, k),
        i < t.len() ==> !seq_lt(t[i].0, k),
    ensures
        table_insert(t, k, v) == (if i < t.len() && t[i].0 == k {
            t.update(i, (k, v))
        } else {
            t.insert(i, (k, v))
        }),
    decreases i,
{
    if i == 0 {
        if t.len() > 0 {
            lemma_seq_lt_trichotomy(t[0].0, k);
            if t[0].0 != k {
                assert(seq![(k, v)] + t =~= t.insert(0, (k, v)));
            }
        } else {
            assert(seq![(k, v)] =~= t.insert(0, (k, v)));
        }
    } else {
        lemma_seq_lt_trichotomy(t[0].0, k);
        lemma_seq_lt_irreflexive(k);
        assert(seq_lt(t[0].0, k));
        let d = t.drop_first();
        assert forall|j: int| 0 <= j < i - 1 implies seq_lt(#[trigger] d[j].0, k) by {
            assert(d[j] == t[j + 1]);
        }
        lemma_table_insert_at(d, k, v, i - 1);
        if i < t.len() && t[i].0 == k {
            assert(seq![t[0]] + d.update(i - 1, (k, v)) =~= t.update(i, (k, v)));
        } else {
            assert(seq![t[0]] + d.insert(i - 1, (k, v)) =~= t.insert(i, (k, v)));
        }
    }
}

/// Inserts a pair into a table kept in key order (`BTreeMap::insert`).
fn table_put(t: &mut Vec<(String, String)>, k: String, v: String)
    ensures
        table_view(final(t)@) == table_insert(table_view(old(t)@), k@, v@),
{
    let ghost o = t@;
    let ghost ov = table_view(o);
    let mut i: usize = 0;
    while i < t.len() && crate::text::str_lt(t[i].0.as_str(), k.as_str())
        invariant
            i <= t@.len(),
            t@ == o,
            ov == table_view(o),
            forall|j: int| 0 <= j < i ==> seq_lt(#[trigger] ov[j].0, k@),
        decreases t.len() - i,
    {
        i += 1;
    }
    proof {
        lemma_table_insert_at(ov, k@, v@, i as int);
    }
    let ghost kv = k@;
    let ghost vv = v@;
    if i < t.len() && crate::text::str_eq(t[i].0.as_str(), k.as_str()) {
        t.set(i, (k, v));
        assert(table_view(t@) =~= ov.update(i as int, (kv, vv)));
    } else {
        t.insert(i, (k, v));
        assert(table_view(t@) =~= ov.insert(i as int, (kv, vv)));
    }
}

fn add_aliases(t: &mut Vec<(String, String)>, c: &JsonValue)
    ensures
        table_view(final(t)@) == fold_aliases(table_view(old(t)@), deprecated_entries(c@)),
{
    let ghost t0 = table_view(t@);
    match c.get("deprecatedModelIds") {
        Some(JsonValue::Object(es)) => {
            proof {
                lemma_entries_view(es@);
            }
            let ghost ev = entries_view(es@);
            let mut i: usize = 0;
            assert(ev.take(0) =~= Seq::<(Seq<char>, Json)>::empty());
            while i < es.len()
                invariant
                    i <= es@.len(),
                    ev == entries_view(es@),
                    ev.len() == es@.len(),
                    forall|j: int| 0 <= j < es@.len() ==> #[trigger] ev[j] == (es@[j].0@, es@[j].1@),
                    table_view(t@) == fold_aliases(t0, ev.take(i as int)),
                decreases es.len() - i,
            {
                assert(ev.take(i + 1).drop_last() =~= ev.take(i as int));
                assert(ev.take(i + 1).last() == ev[i as int]);
                let dep = &es[i].0;
                match es[i].1.get("newModelId") {
                    Some(JsonValue::Str(r)) => {
                        if chars_of(dep.as_str()).len() > 0 && chars_of(r.as_str()).len() > 0 {
                            table_put(t, dep.clone(), r.clone());
                        }
                    },
                    _ => {},
                }
                i += 1;
            }
            assert(ev.take(es@.len() as int) =~= ev);
        },
        _ => {},
    }
}

/// The deprecated model IDs of a catalog, each with its replacement, in key order.
pub fn official_model_aliases(payload: &JsonValue) -> (r: Vec<(String, String)>)
    ensures
        table_view(r@) == alias_table(payload@),
{
    let mut t: Vec<(String, String)> = Vec::new();
    assert(table_view(t@) =~= Seq::<(Seq<char>, Seq<char>)>::empty());
    add_aliases(&mut t, payload);
    match payload.get("response") {
        Some(r) => {
            if r.is_object() {
                add_aliases(&mut t, r);
            }
        },
        None => {},
    }
    t
}

proof fn lemma_table_get_stable(t: Seq<(Seq<char>, Seq<char>)>, k: Seq<char>, n: int)
    requires
        0 <= n <= t.len(),
        table_get(t.take(n), k) is Some,
    ensures
        table_get(t, k) == table_get(t.take(n), k),
    decreases t.len() - n,
{
    if n < t.len() {
        assert(t.take(n + 1).drop_last() =~= t.take(n));
        lemma_table_get_stable(t, k, n + 1);
    } else {
        assert(t.take(n) =~= t);
    }
}

fn table_lookup<'a>(t: &'a Vec<(String, String)>, k: &str) -> (r: Option<&'a String>)
    ensures
        crate::text::opt_view(match r {
            Some(s) => Some(*s),
            None => None,
        }) == table_get(table_view(t@), k@),
{
    let ghost tv = table_view(t@);
    let mut j: usize = 0;
    assert(tv.take(0) =~= Seq::<(Seq<char>, Seq<char>)>::empty());
    while j < t.len()
        invariant
            j <= t@.len(),
            tv == table_view(t@),
            table_get(tv.take(j as int), k@) is None,
        decreases t.len() - j,
    {
        assert(tv.take(j + 1).drop_last() =~= tv.take(j as int));
        if crate::text::str_eq(t[j].0.as_str(), k) {
            proof {
                lemma_table_get_stable(tv, k@, j + 1);
            }
            return Some(&t[j].1);
        }
        j += 1;
    }
    assert(tv.take(j as int) =~= tv);
    None
}

fn seen_before(visited: &Vec<String>, x: &str) -> (r: bool)
    ensures
        r == visited@.map_values(|s: String| s@).contains(x@),
{
    let ghost vs = visited@.map_values(|s: String| s@);
    let mut j: usize = 0;
    while j < visited.len()
        invariant
            j <= visited@.len(),
            vs == visited@.map_values(|s: String| s@),
            forall|i: int| 0 <= i < j ==> vs[i] != x@,
        decreases visited.len() - j,
    {
        if crate::text::str_eq(visited[j].as_str(), x) {
            assert(vs[j as int] == x@);
            return true;
        }
        j += 1;
    }
    false
}

/// The current ID of a model: replacements are followed until an ID without
/// one, or until an ID comes round again.
pub fn canonical_model_id(model_id: &str, aliases: &Vec<(String, String)>) -> (r: String)
    ensures
        r@ == canonical(model_id@, table_view(aliases@)),
{
    let ghost t = table_view(aliases@);
    let mut current = crate::text::owned(model_id);
    let mut visited: Vec<String> = Vec::new();
    let mut fuel: u128 = aliases.len() as u128 + 1;
    proof {
        assert(visited@.map_values(|s: String| s@) =~= Seq::<Seq<char>>::empty());
    }
    while fuel > 0
        invariant
            t == table_view(aliases@),
            canonical_walk(t, current@, visited@.map_values(|s: String| s@), fuel as nat) == canonical(model_id@, t),
        decreases fuel,
    {
        let next = match table_lookup(aliases, current.as_str()) {
            Some(n) => n,
            None => {
                return current;
            },
        };
        if seen_before(&visited, current.as_str()) {
            return current;
        }
        let ghost cv = current@;
        let ghost before = visited@;
        visited.push(current);
        proof {
            assert(visited@.map_values(|s: String| s@) =~= before.map_values(|s: String| s@).push(cv));
        }
        current = next.clone();
        fuel -= 1;
    }
    current
}

// ---------------------------------------------------------------------------
// Which policy applies to an official entry.
// ---------------------------------------------------------------------------

/// Position of the policy configured for model ID `k`.
pub open spec fn policy_index(ps: Seq<(String, ModelCompressionPolicy)>, k: Seq<char>) -> Option<int>
    decreases ps.len(),
{
    if ps.len() == 0 {
        None
    } else {
        match policy_index(ps.drop_last(), k) {
            Some(i) => Some(i),
            None => if ps.last().0@ == k {
                Some(ps.len() - 1)
            } else {
                None
            },
        }
    }
}

/// A policy configured for another ID of the same model: the first alias
/// pair (from position `j`, in key order) whose deprecated ID leads to
/// `canon`, by its deprecated ID, else its replacement ID.
pub open spec fn alias_policy(
    ps: Seq<(String, ModelCompressionPolicy)>,
    t: Seq<(Seq<char>, Seq<char>)>,
    canon: Seq<char>,
    j: int,
) -> Option<int>
    decreases t.len() - j,
{
    if j < 0 || j >= t.len() {
        None
    } else if canonical(t[j].0, t) != canon {
        alias_policy(ps, t, canon, j + 1)
    } else {
        match policy_index(ps, t[j].0) {
            Some(i) => Some(i),
            None => match policy_index(ps, t[j].1) {
                Some(i) => Some(i),
                None => alias_policy(ps, t, canon, j + 1),
            },
        }
    }
}

/// The policy for a catalog model ID: the one configured for its current
/// ID, else for the ID itself, else for another ID of the same model.
pub open spec fn effective_policy(
    model_id: Seq<char>,
    ps: Seq<(String, ModelCompressionPolicy)>,
    t: Seq<(Seq<char>, Seq<char>)>,
) -> Option<int> {
    let canon = canonical(model_id, t);
    match policy_index(ps, canon) {
        Some(i) => Some(i),
        None => match policy_index(ps, model_id) {
            Some(i) => Some(i),
            None => alias_policy(ps, t, canon, 0),
        },
    }
}

proof fn lemma_policy_index_stable(ps: Seq<(String, ModelCompressionPolicy)>, k: Seq<char>, n: int)
    requires
        0 <= n <= ps.len(),
        policy_index(ps.take(n), k) is Some,
    ensures
        policy_index(ps, k) == policy_index(ps.take(n), k),
    decreases ps.len() - n,
{
    if n < ps.len() {
        assert(ps.take(n + 1).drop_last() =~= ps.take(n));
        lemma_policy_index_stable(ps, k, n + 1);
    } else {
        assert(ps.take(n) =~= ps);
    }
}

proof fn lemma_policy_index_bound(ps: Seq<(String, ModelCompressionPolicy)>, k: Seq<char>)
    ensures
        policy_index(ps, k) matches Some(i) ==> 0 <= i < ps.len(),
    decreases ps.len(),
{
    if ps.len() > 0 {
        lemma_policy_index_bound(ps.drop_last(), k);
    }
}

pub fn find_policy(policies: &Vec<(String, ModelCompressionPolicy)>, k: &str) -> (r: Option<usize>)
    ensures
        (match r {
            Some(i) => policy_index(policies@, k@) == Some(i as int) && i < policies@.len(),
            None => policy_index(policies@, k@) is None,
        }),
{
    let mut j: usize = 0;
    assert(policies@.take(0) =~= Seq::<(String, ModelCompressionPolicy)>::empty());
    while j < policies.len()
        invariant
            j <= policies@.len(),
            policy_index(policies@.take(j as int), k@) is None,
        decreases policies.len() - j,
    {
        assert(policies@.take(j + 1).drop_last() =~= policies@.take(j as int));
        if crate::text::str_eq(policies[j].0.as_str(), k) {
            proof {
                lemma_policy_index_stable(policies@, k@, j + 1);
            }
            return Some(j);
        }
        j += 1;
    }
    assert(policies@.take(j as int) =~= policies@);
    None
}

/// The position of the policy that applies to a catalog model ID.
pub fn effective_policy_index(
    model_id: &str,
    policies: &Vec<(String, ModelCompressionPolicy)>,
    aliases: &Vec<(String, String)>,
) -> (r: Option<usize>)
    ensures
        (match r {
            Some(i) => effective_policy(model_id@, policies@, table_view(aliases@)) == Some(i as int) && i
                < policies@.len(),
            None => effective_policy(model_id@, policies@, table_view(aliases@)) is None,
        }),
{
    let ghost t = table_view(aliases@);
    let canon = canonical_model_id(model_id, aliases);
    match find_policy(policies, canon.as_str()) {
        Some(i) => {
            return Some(i);
        },
        None => {},
    }
    match find_policy(policies, model_id) {
        Some(i) => {
            return Some(i);
        },
        None => {},
    }
    let mut j: usize = 0;
    while j < aliases.len()
        invariant
            t == table_view(aliases@),
            j <= aliases@.len(),
            canon@ == canonical(model_id@, t),
            policy_index(policies@, canon@) is None,
            policy_index(policies@, model_id@) is None,
            alias_policy(policies@, t, canon@, 0) == alias_policy(policies@, t, canon@, j as int),
        decreases aliases.len() - j,
    {
        assert(t[j as int] == (aliases@[j as int].0@, aliases@[j as int].1@));
        let dep_canon = canonical_model_id(aliases[j].0.as_str(), aliases);
        if crate::text::str_eq(dep_canon.as_str(), canon.as_str()) {
            match find_policy(policies, aliases[j].0.as_str()) {
                Some(i) => {
                    return Some(i);
                },
                None => {},
            }
            match find_policy(policies, aliases[j].1.as_str()) {
                Some(i) => {
                    return Some(i);
                },
                None => {},
            }
        }
        j += 1;
    }
    None
}

// ---------------------------------------------------------------------------
// Writing a policy into an entry.
// ---------------------------------------------------------------------------

pub open spec fn jbool(b: bool) -> Json {
    Json::Bool(b)
}

/// A policy as serde writes it, member by member.
pub open spec fn policy_entries(p: ModelCompressionPolicy) -> Seq<(Seq<char>, Json)> {
    seq![
        ("enabled"@, jbool(p.enabled)),
        ("checkpoint_model"@, Json::Str(p.checkpoint_model@)),
        ("strategy"@, Json::Str(p.strategy@)),
        ("max_overhead_ratio"@, Json::Str(p.max_overhead_ratio@)),
        ("moving_window_size"@, Json::Str(p.moving_window_size@)),
        ("use_last_planner_model"@, jbool(p.use_last_planner_model)),
        ("is_sync"@, jbool(p.is_sync)),
        ("max_user_requests"@, juint(p.max_user_requests as int)),
        ("include_last_user_message"@, jbool(p.include_last_user_message)),
        ("include_conversation_log"@, jbool(p.include_conversation_log)),
        ("include_running_task_snapshots"@, jbool(p.include_running_task_snapshots)),
        ("include_subagent_snapshots"@, jbool(p.include_subagent_snapshots)),
        ("include_artifact_snapshots"@, jbool(p.include_artifact_snapshots)),
        ("retry_config"@, Json::Object(
            seq![
                ("max_retries"@, juint(p.retry_config.max_retries as int)),
                ("initial_sleep_duration_ms"@, juint(p.retry_config.initial_sleep_duration_ms as int)),
                ("exponential_multiplier"@, juint(p.retry_config.exponential_multiplier as int)),
                ("include_error_feedback"@, jbool(p.retry_config.include_error_feedback)),
            ],
        )),
        ("token_threshold"@, juint(p.token_threshold as int)),
        ("max_token_limit"@, juint(p.max_token_limit as int)),
        ("max_output_tokens"@, juint(p.max_output_tokens as int)),
    ]
}

/// Settings with the three token limits written as decimal strings.
pub open spec fn with_limit_texts(es: Seq<(Seq<char>, Json)>, t: u32, l: u32, o: u32) -> Seq<(Seq<char>, Json)> {
    set_member(
        set_member(
            set_member(es, "token_threshold"@, Json::Str(decimal(t as nat))),
            "max_token_limit"@,
            Json::Str(decimal(l as nat)),
        ),
        "max_output_tokens"@,
        Json::Str(decimal(o as nat)),
    )
}

/// The members of an object found under a key: none where it is missing,
/// nothing where it is not an object.
pub open spec fn nested_obj(j: Option<Json>) -> Option<Seq<(Seq<char>, Json)>> {
    match j {
        None => Some(Seq::empty()),
        Some(Json::Object(es)) => Some(es),
        Some(_) => None,
    }
}

/// An entry with its Checkpointer settings text set to `text`, creating the
/// objects on the way; unchanged where something on the way is not an object.
pub open spec fn store_settings(entry: Json, text: Seq<char>) -> Json {
    match entry {
        Json::Object(es) => match nested_obj(entries_get(es, "modelExperiments"@)) {
            Some(me) => match nested_obj(entries_get(me, "experiments"@)) {
                Some(ex) => match nested_obj(entries_get(ex, CHECKPOINTER_EXPERIMENT@)) {
                    Some(cp) => Json::Object(
                        set_member(
                            es,
                            "modelExperiments"@,
                            Json::Object(
                                set_member(
                                    me,
                                    "experiments"@,
                                    Json::Object(
                                        set_member(
                                            ex,
                                            CHECKPOINTER_EXPERIMENT@,
                                            Json::Object(set_member(cp, "stringValue"@, Json::Str(text))),
                                        ),
                                    ),
                                ),
                            ),
                        ),
                    ),
                    None => entry,
                },
                None => entry,
            },
            None => entry,
        },
        _ => entry,
    }
}

/// An entry with a policy fitted to `capacity` and `out`: its existing
/// settings (or, where it has none, those of `fallback`) take the fitted
/// token limits. Unchanged where the policy cannot fit or there are no settings.
pub open spec fn compressed_entry(
    entry: Json,
    policy: ModelCompressionPolicy,
    capacity: u32,
    out: u32,
    fallback: Option<ModelCompressionPolicy>,
) -> Json {
    match resolved_limits(policy.token_threshold, policy.max_token_limit, policy.max_output_tokens, Some(capacity), Some(out)) {
        None => entry,
        Some((t, l, o)) => {
            let base = match checkpoint_payload(entry) {
                Some(es) => Some(es),
                None => match fallback {
                    Some(f) => Some(policy_entries(f)),
                    None => None,
                },
            };
            match base {
                None => entry,
                Some(es) => store_settings(entry, json_text(Json::Object(with_limit_texts(es, t, l, o)))),
            }
        },
    }
}

/// An official entry with a policy applied within its own limits and those
/// of its Checkpointer worker (`lim`).
pub open spec fn limited_entry(entry: Json, policy: ModelCompressionPolicy, lim: spec_fn(Seq<char>) -> Option<u32>) -> Json {
    let capacity = match input_capacity(entry) {
        Some(c) => c,
        None => policy.max_token_limit,
    };
    let entry_out = match output_limit(entry) {
        Some(o) => o,
        None => policy.max_output_tokens,
    };
    let worker = match worker_id(entry) {
        Some(w) => w,
        None => policy.checkpoint_model@,
    };
    let out = match lim(worker) {
        Some(l) => min_u32(entry_out, l),
        None => entry_out,
    };
    compressed_entry(entry, policy, capacity, out, None)
}

#[verifier::rlimit(50)]
pub fn policy_value(p: &ModelCompressionPolicy) -> (r: JsonValue)
    ensures
        r@ == Json::Object(policy_entries(*p)),
{
    let mut retry: Vec<(String, JsonValue)> = Vec::new();
    crate::json::push_entry(&mut retry, "max_retries", uint_value(p.retry_config.max_retries as u64));
    crate::json::push_entry(&mut retry, "initial_sleep_duration_ms", uint_value(p.retry_config.initial_sleep_duration_ms as u64));
    crate::json::push_entry(&mut retry, "exponential_multiplier", uint_value(p.retry_config.exponential_multiplier as u64));
    crate::json::push_entry(&mut retry, "include_error_feedback", JsonValue::Bool(p.retry_config.include_error_feedback));
    assert(entries_view(retry@) =~= seq![
        ("max_retries"@, juint(p.retry_config.max_retries as int)),
        ("initial_sleep_duration_ms"@, juint(p.retry_config.initial_sleep_duration_ms as int)),
        ("exponential_multiplier"@, juint(p.retry_config.exponential_multiplier as int)),
        ("include_error_feedback"@, jbool(p.retry_config.include_error_feedback)),
    ]);
    let cm = p.checkpoint_model.clone();
    let st = p.strategy.clone();
    let mo = p.max_overhead_ratio.clone();
    let mw = p.moving_window_size.clone();
    assert(cm@ == p.checkpoint_model@ && st@ == p.strategy@ && mo@ == p.max_overhead_ratio@ && mw@ == p.moving_window_size@);
    let mut es: Vec<(String, JsonValue)> = Vec::new();
    crate::json::push_entry(&mut es, "enabled", JsonValue::Bool(p.enabled));
    crate::json::push_entry(&mut es, "checkpoint_model", JsonValue::Str(cm));
    crate::json::push_entry(&mut es, "strategy", JsonValue::Str(st));
    crate::json::push_entry(&mut es, "max_overhead_ratio", JsonValue::Str(mo));
    crate::json::push_entry(&mut es, "moving_window_size", JsonValue::Str(mw));
    crate::json::push_entry(&mut es, "use_last_planner_model", JsonValue::Bool(p.use_last_planner_model));
    crate::json::push_entry(&mut es, "is_sync", JsonValue::Bool(p.is_sync));
    crate::json::push_entry(&mut es, "max_user_requests", uint_value(p.max_user_requests as u64));
    crate::json::push_entry(&mut es, "include_last_user_message", JsonValue::Bool(p.include_last_user_message));
    crate::json::push_entry(&mut es, "include_conversation_log", JsonValue::Bool(p.include_conversation_log));
    crate::json::push_entry(&mut es, "include_running_task_snapshots", JsonValue::Bool(p.include_running_task_snapshots));
    crate::json::push_entry(&mut es, "include_subagent_snapshots", JsonValue::Bool(p.include_subagent_snapshots));
    crate::json::push_entry(&mut es, "include_artifact_snapshots", JsonValue::Bool(p.include_artifact_snapshots));
    crate::json::push_entry(&mut es, "retry_config", JsonValue::Object(retry));
    crate::json::push_entry(&mut es, "token_threshold", uint_value(p.token_threshold as u64));
    crate::json::push_entry(&mut es, "max_token_limit", uint_value(p.max_token_limit as u64));
    crate::json::push_entry(&mut es, "max_output_tokens", uint_value(p.max_output_tokens as u64));
    proof {
        assert(entries_view(es@) =~= policy_entries(*p));
    }
    JsonValue::Object(es)
}

fn decimal_value(n: u32) -> (r: JsonValue)
    ensures
        r@ == Json::Str(decimal(n as nat)),
{
    let mut b: Vec<char> = Vec::new();
    crate::text::push_decimal(&mut b, n as u64);
    assert(b@ =~= decimal(n as nat));
    JsonValue::Str(string_from_chars(b.as_slice()))
}

/// The members of the object under `key`, copied: none where the key is
/// missing, `None` where its value is not an object.
fn nested_entries(es: &Vec<(String, JsonValue)>, key: &str) -> (r: Option<Vec<(String, JsonValue)>>)
    ensures
        (match r {
            Some(v) => nested_obj(entries_get(entries_view(es@), key@)) == Some(entries_view(v@)),
            None => nested_obj(entries_get(entries_view(es@), key@)) is None,
        }),
{
    match entries_lookup(es, key) {
        None => {
            let v: Vec<(String, JsonValue)> = Vec::new();
            assert(entries_view(v@) =~= Seq::<(Seq<char>, Json)>::empty());
            Some(v)
        },
        Some(JsonValue::Object(inner)) => Some(crate::domain::provider::clone_entries(inner)),
        Some(_) => None,
    }
}

/// `store_settings`.
fn store_settings_text(entry: JsonValue, text: String) -> (r: JsonValue)
    ensures
        r@ == store_settings(entry@, text@),
{
    match entry {
        JsonValue::Object(mut es) => {
            let me = nested_entries(&es, "modelExperiments");
            let mut me = match me {
                Some(v) => v,
                None => {
                    return JsonValue::Object(es);
                },
            };
            let mut ex = match nested_entries(&me, "experiments") {
                Some(v) => v,
                None => {
                    return JsonValue::Object(es);
                },
            };
            let mut cp = match nested_entries(&ex, CHECKPOINTER_EXPERIMENT) {
                Some(v) => v,
                None => {
                    return JsonValue::Object(es);
                },
            };
            set_entry(&mut cp, "stringValue", JsonValue::Str(text));
            set_entry(&mut ex, CHECKPOINTER_EXPERIMENT, JsonValue::Object(cp));
            set_entry(&mut me, "experiments", JsonValue::Object(ex));
            set_entry(&mut es, "modelExperiments", JsonValue::Object(me));
            JsonValue::Object(es)
        },
        other => other,
    }
}

/// Fits `policy` to `capacity` and `out` and writes it into the entry's
/// Checkpointer settings; see `compressed_entry`.
pub fn apply_model_compression_policy(
    entry: JsonValue,
    policy: &ModelCompressionPolicy,
    capacity: u32,
    output_token_limit: u32,
    fallback_template: Option<&ModelCompressionPolicy>,
) -> (r: JsonValue)
    ensures
        r@ == compressed_entry(
            entry@,
            *policy,
            capacity,
            output_token_limit,
            match fallback_template {
                Some(f) => Some(*f),
                None => None,
            },
        ),
{
    let resolved = match policy.resolve_effective(Some(capacity), Some(output_token_limit)) {
        Some(r) => r,
        None => {
            return entry;
        },
    };
    let mut payload = match existing_checkpoint_payload(&entry) {
        Some(es) => es,
        None => match fallback_template {
            Some(f) => match policy_value(f) {
                JsonValue::Object(es) => es,
                _ => {
                    return entry;
                },
            },
            None => {
                return entry;
            },
        },
    };
    set_entry(&mut payload, "token_threshold", decimal_value(resolved.token_threshold));
    set_entry(&mut payload, "max_token_limit", decimal_value(resolved.max_token_limit));
    set_entry(&mut payload, "max_output_tokens", decimal_value(resolved.max_output_tokens));
    let text = to_json_text(&JsonValue::Object(payload));
    store_settings_text(entry, text)
}

/// Applies a policy to an official entry within its own limits and those of
/// its Checkpointer worker; see `limited_entry`.
pub fn apply_policy_with_entry_limits(
    entry: JsonValue,
    policy: &ModelCompressionPolicy,
    checkpoint_worker_limits: &Vec<(String, u32)>,
) -> (r: JsonValue)
    ensures
        r@ == limited_entry(entry@, *policy, |w: Seq<char>| limit_lookup(checkpoint_worker_limits@, w)),
{
    let capacity = match entry_input_capacity(&entry) {
        Some(c) => c,
        None => policy.max_token_limit,
    };
    let entry_out = match entry_output_limit(&entry) {
        Some(o) => o,
        None => policy.max_output_tokens,
    };
    let worker = match checkpoint_worker_id(&entry) {
        Some(w) => w,
        None => policy.checkpoint_model.clone(),
    };
    let out = match lookup_limit(checkpoint_worker_limits, worker.as_str()) {
        Some(l) => if entry_out <= l {
            entry_out
        } else {
            l
        },
        None => entry_out,
    };
    apply_model_compression_policy(entry, policy, capacity, out, None)
}

// ---------------------------------------------------------------------------
// Official entries.
// ---------------------------------------------------------------------------

/// An official entry after policies are applied: the entry's policy (by
/// catalog key, or by `id` in an array), where it is enabled, applied
/// within the entry's limits. Without such a policy the entry is unchanged.
pub open spec fn policy_applied(
    key: Option<Seq<char>>,
    entry: Json,
    ps: Seq<(String, ModelCompressionPolicy)>,
    t: Seq<(Seq<char>, Seq<char>)>,
    lim: spec_fn(Seq<char>) -> Option<u32>,
) -> Json {
    let id = match key {
        Some(k) => Some(k),
        None => match entry.get("id"@) {
            Some(Json::Str(s)) => Some(s),
            _ => None,
        },
    };
    match id {
        None => entry,
        Some(id) => match effective_policy(id, ps, t) {
            None => entry,
            Some(i) => if !ps[i].1.enabled {
                entry
            } else {
                limited_entry(entry, ps[i].1, lim)
            },
        },
    }
}

pub open spec fn policies_applied(
    models: Json,
    ps: Seq<(String, ModelCompressionPolicy)>,
    t: Seq<(Seq<char>, Seq<char>)>,
    lim: spec_fn(Seq<char>) -> Option<u32>,
) -> Json {
    match models {
        Json::Object(es) => Json::Object(
            Seq::new(es.len(), |i: int| (es[i].0, policy_applied(Some(es[i].0), es[i].1, ps, t, lim))),
        ),
        Json::Array(items) => Json::Array(Seq::new(items.len(), |i: int| policy_applied(None, items[i], ps, t, lim))),
        _ => models,
    }
}

/// A catalog after `apply_official_model_overrides`.
pub open spec fn official_overrides(p: Json, ps: Seq<(String, ModelCompressionPolicy)>) -> Json {
    let lim = |w: Seq<char>| worker_limit(super::catalog_models(p), w);
    super::with_container(
        p,
        super::with_models(super::catalog_container(p), policies_applied(super::catalog_models(p), ps, alias_table(p), lim)),
    )
}

fn applied_entry(
    key: Option<&String>,
    entry: JsonValue,
    policies: &Vec<(String, ModelCompressionPolicy)>,
    aliases: &Vec<(String, String)>,
    limits: &Vec<(String, u32)>,
) -> (r: JsonValue)
    ensures
        r@ == policy_applied(
            match key {
                Some(k) => Some(k@),
                None => None,
            },
            entry@,
            policies@,
            table_view(aliases@),
            |w: Seq<char>| limit_lookup(limits@, w),
        ),
{
    let id: String = match key {
        Some(k) => k.clone(),
        None => match entry.get("id") {
            Some(JsonValue::Str(s)) => s.clone(),
            _ => {
                return entry;
            },
        },
    };
    match effective_policy_index(id.as_str(), policies, aliases) {
        None => entry,
        Some(i) => {
            if !policies[i].1.enabled {
                entry
            } else {
                apply_policy_with_entry_limits(entry, &policies[i].1, limits)
            }
        },
    }
}

/// Applies the configured policies to the entries of an official model collection.
pub fn apply_official_policies(
    models: JsonValue,
    policies: &Vec<(String, ModelCompressionPolicy)>,
    aliases: &Vec<(String, String)>,
    limits: &Vec<(String, u32)>,
) -> (r: JsonValue)
    ensures
        r@ == policies_applied(models@, policies@, table_view(aliases@), |w: Seq<char>| limit_lookup(limits@, w)),
{
    let ghost t = table_view(aliases@);
    let ghost lim = |w: Seq<char>| limit_lookup(limits@, w);
    match models {
        JsonValue::Object(es) => {
            proof {
                lemma_entries_view(es@);
            }
            let ghost ev = entries_view(es@);
            let mut out: Vec<(String, JsonValue)> = Vec::new();
            let mut i: usize = 0;
            while i < es.len()
                invariant
                    i <= es@.len(),
                    ev == entries_view(es@),
                    ev.len() == es@.len(),
                    forall|j: int| 0 <= j < es@.len() ==> #[trigger] ev[j] == (es@[j].0@, es@[j].1@),
                    t == table_view(aliases@),
                    lim == (|w: Seq<char>| limit_lookup(limits@, w)),
                    entries_view(out@) == Seq::new(
                        i as nat,
                        |j: int| (ev[j].0, policy_applied(Some(ev[j].0), ev[j].1, policies@, t, lim)),
                    ),
                decreases es.len() - i,
            {
                let v = es[i].1.deep_clone();
                let e = applied_entry(Some(&es[i].0), v, policies, aliases, limits);
                let ghost before = out@;
                let k = es[i].0.clone();
                out.push((k, e));
                proof {
                    assert(out@.drop_last() =~= before);
                    assert(entries_view(out@) =~= Seq::new(
                        (i + 1) as nat,
                        |j: int| (ev[j].0, policy_applied(Some(ev[j].0), ev[j].1, policies@, t, lim)),
                    ));
                }
                i += 1;
            }
            JsonValue::Object(out)
        },
        JsonValue::Array(items) => {
            proof {
                lemma_items_view(items@);
            }
            let ghost iv = items_view(items@);
            let mut out: Vec<JsonValue> = Vec::new();
            let mut i: usize = 0;
            while i < items.len()
                invariant
                    i <= items@.len(),
                    iv == items_view(items@),
                    iv.len() == items@.len(),
                    forall|j: int| 0 <= j < items@.len() ==> #[trigger] iv[j] == items@[j]@,
                    t == table_view(aliases@),
                    lim == (|w: Seq<char>| limit_lookup(limits@, w)),
                    items_view(out@) == Seq::new(i as nat, |j: int| policy_applied(None, iv[j], policies@, t, lim)),
                decreases items.len() - i,
            {
                let v = items[i].deep_clone();
                let e = applied_entry(None, v, policies, aliases, limits);
                let ghost before = out@;
                out.push(e);
                proof {
                    lemma_items_view(out@);
                    lemma_items_view(before);
                    assert(out@.drop_last() =~= before);
                    assert(items_view(out@) =~= Seq::new((i + 1) as nat, |j: int| policy_applied(None, iv[j], policies@, t, lim)));
                }
                i += 1;
            }
            JsonValue::Array(out)
        },
        other => other,
    }
}

impl AntigravityModelDescriptor {
    /// Applies configured policies only to matching official catalog entries.
    /// Entries without a model-level policy remain unchanged.
    pub fn apply_official_model_overrides(
        models_json: &mut JsonValue,
        policies: &Vec<(String, ModelCompressionPolicy)>,
    )
        ensures
            final(models_json)@ == official_overrides(old(models_json)@, policies@),
    {
        let aliases = official_model_aliases(models_json);
        let limits = official_checkpoint_worker_limits(models_json);
        let ghost p0 = models_json@;
        let mut p = JsonValue::Null;
        std::mem::swap(&mut p, models_json);
        let (container, h1) = split_container(p);
        let (models, h2) = split_models(container);
        let new_models = apply_official_policies(models, policies, &aliases, &limits);
        proof {
            let l1 = |w: Seq<char>| limit_lookup(limits@, w);
            let l2 = |w: Seq<char>| worker_limit(super::catalog_models(p0), w);
            assert(l1 =~= l2);
        }
        let c2 = fill(h2, new_models);
        *models_json = fill(h1, c2);
    }
}

// ---------------------------------------------------------------------------
// Hiding official models.
// ---------------------------------------------------------------------------

pub open spec fn in_set(s: Seq<String>, x: Seq<char>) -> bool {
    exists|i: int| 0 <= i < s.len() && (#[trigger] s[i])@ == x
}

pub open spec fn clean_id(id: Seq<char>) -> Seq<char> {
    match strip_prefix(id, "models/"@) {
        Some(c) => c,
        None => id,
    }
}

/// A model ID stays unless it, its form without `models/`, or that form's
/// current ID is disabled.
pub open spec fn id_kept(id: Seq<char>, d: Seq<String>, t: Seq<(Seq<char>, Seq<char>)>) -> bool {
    !in_set(d, id) && !in_set(d, clean_id(id)) && !in_set(d, canonical(clean_id(id), t))
}

/// A catalog key stays unless it or its current ID is disabled.
pub open spec fn key_kept(key: Seq<char>, d: Seq<String>, t: Seq<(Seq<char>, Seq<char>)>) -> bool {
    !in_set(d, key) && !in_set(d, canonical(key, t))
}

/// The ID of an array entry: its `id` member (or, without one, `model`) where that is a string.
pub open spec fn item_id(item: Json) -> Option<Seq<char>> {
    match item.get("id"@) {
        Some(v) => v.as_str(),
        None => match item.get("model"@) {
            Some(v) => v.as_str(),
            None => None,
        },
    }
}

pub open spec fn item_kept(item: Json, d: Seq<String>, t: Seq<(Seq<char>, Seq<char>)>) -> bool {
    match item_id(item) {
        Some(id) => id_kept(id, d, t),
        None => true,
    }
}

pub open spec fn mid_kept(mid: Json, d: Seq<String>, t: Seq<(Seq<char>, Seq<char>)>) -> bool {
    match mid.as_str() {
        Some(id) => id_kept(id, d, t),
        None => true,
    }
}

pub open spec fn retain_entries(es: Seq<(Seq<char>, Json)>, d: Seq<String>, t: Seq<(Seq<char>, Seq<char>)>) -> Seq<(Seq<char>, Json)>
    decreases es.len(),
{
    if es.len() == 0 {
        es
    } else {
        let r = retain_entries(es.drop_last(), d, t);
        if key_kept(es.last().0, d, t) {
            r.push(es.last())
        } else {
            r
        }
    }
}

pub open spec fn retain_items(items: Seq<Json>, d: Seq<String>, t: Seq<(Seq<char>, Seq<char>)>) -> Seq<Json>
    decreases items.len(),
{
    if items.len() == 0 {
        items
    } else {
        let r = retain_items(items.drop_last(), d, t);
        if item_kept(items.last(), d, t) {
            r.push(items.last())
        } else {
            r
        }
    }
}

pub open spec fn retain_mids(items: Seq<Json>, d: Seq<String>, t: Seq<(Seq<char>, Seq<char>)>) -> Seq<Json>
    decreases items.len(),
{
    if items.len() == 0 {
        items
    } else {
        let r = retain_mids(items.drop_last(), d, t);
        if mid_kept(items.last(), d, t) {
            r.push(items.last())
        } else {
            r
        }
    }
}

pub open spec fn models_kept(models: Json, d: Seq<String>, t: Seq<(Seq<char>, Seq<char>)>) -> Json {
    match models {
        Json::Object(es) => Json::Object(retain_entries(es, d, t)),
        Json::Array(items) => Json::Array(retain_items(items, d, t)),
        _ => models,
    }
}

/// A member that holds an array, with `f` applied to the array's items.
pub open spec fn group_cleaned(g: Json, d: Seq<String>, t: Seq<(Seq<char>, Seq<char>)>) -> Json {
    match g {
        Json::Object(es) => match entries_get(es, "modelIds"@) {
            Some(Json::Array(ids)) => Json::Object(set_member(es, "modelIds"@, Json::Array(retain_mids(ids, d, t)))),
            _ => g,
        },
        _ => g,
    }
}

pub open spec fn sort_cleaned(s: Json, d: Seq<String>, t: Seq<(Seq<char>, Seq<char>)>) -> Json {
    match s {
        Json::Object(es) => match entries_get(es, "groups"@) {
            Some(Json::Array(groups)) => Json::Object(
                set_member(es, "groups"@, Json::Array(Seq::new(groups.len(), |j: int| group_cleaned(groups[j], d, t)))),
            ),
            _ => s,
        },
        _ => s,
    }
}

pub open spec fn sorts_cleaned(c: Json, d: Seq<String>, t: Seq<(Seq<char>, Seq<char>)>) -> Json {
    match c.get("agentModelSorts"@) {
        Some(Json::Array(sorts)) => super::obj_set(
            c,
            "agentModelSorts"@,
            Json::Array(Seq::new(sorts.len(), |i: int| sort_cleaned(sorts[i], d, t))),
        ),
        _ => c,
    }
}

/// A catalog without the disabled official models, in its model collection
/// and in the model sorts' groups.
pub open spec fn disabled_removed(p: Json, d: Seq<String>) -> Json {
    if d.len() == 0 {
        p
    } else {
        let t = alias_table(p);
        let c = super::catalog_container(p);
        match c.get("models"@) {
            None => p,
            Some(models) => super::with_container(p, sorts_cleaned(super::obj_set(c, "models"@, models_kept(models, d, t)), d, t)),
        }
    }
}

fn in_strings(s: &Vec<String>, x: &str) -> (r: bool)
    ensures
        r == in_set(s@, x@),
{
    let mut i: usize = 0;
    while i < s.len()
        invariant
            i <= s@.len(),
            forall|j: int| 0 <= j < i ==> (#[trigger] s@[j])@ != x@,
        decreases s.len() - i,
    {
        if crate::text::str_eq(s[i].as_str(), x) {
            return true;
        }
        i += 1;
    }
    false
}

fn keeps_id(id: &str, disabled: &Vec<String>, aliases: &Vec<(String, String)>) -> (r: bool)
    ensures
        r == id_kept(id@, disabled@, table_view(aliases@)),
{
    let cs = chars_of(id);
    let clean = match crate::text::strip_prefix_str(cs.as_slice(), "models/") {
        Some(c) => string_from_chars(c.as_slice()),
        None => crate::text::owned(id),
    };
    let canon = canonical_model_id(clean.as_str(), aliases);
    !in_strings(disabled, id) && !in_strings(disabled, clean.as_str()) && !in_strings(disabled, canon.as_str())
}

fn keeps_item(item: &JsonValue, disabled: &Vec<String>, aliases: &Vec<(String, String)>) -> (r: bool)
    ensures
        r == item_kept(item@, disabled@, table_view(aliases@)),
{
    let idv = match item.get("id") {
        Some(v) => Some(v),
        None => item.get("model"),
    };
    match idv {
        Some(v) => match v.as_str() {
            Some(id) => keeps_id(id.as_str(), disabled, aliases),
            None => true,
        },
        None => true,
    }
}

fn keeps_mid(mid: &JsonValue, disabled: &Vec<String>, aliases: &Vec<(String, String)>) -> (r: bool)
    ensures
        r == mid_kept(mid@, disabled@, table_view(aliases@)),
{
    match mid.as_str() {
        Some(id) => keeps_id(id.as_str(), disabled, aliases),
        None => true,
    }
}

fn kept_models(models: JsonValue, disabled: &Vec<String>, aliases: &Vec<(String, String)>) -> (r: JsonValue)
    ensures
        r@ == models_kept(models@, disabled@, table_view(aliases@)),
{
    let ghost t = table_view(aliases@);
    match models {
        JsonValue::Object(es) => {
            proof {
                lemma_entries_view(es@);
            }
            let ghost ev = entries_view(es@);
            let mut out: Vec<(String, JsonValue)> = Vec::new();
            let mut i: usize = 0;
            while i < es.len()
                invariant
                    i <= es@.len(),
                    ev == entries_view(es@),
                    ev.len() == es@.len(),
                    forall|j: int| 0 <= j < es@.len() ==> #[trigger] ev[j] == (es@[j].0@, es@[j].1@),
                    t == table_view(aliases@),
                    entries_view(out@) == retain_entries(ev.take(i as int), disabled@, t),
                decreases es.len() - i,
            {
                assert(ev.take(i + 1).drop_last() =~= ev.take(i as int));
                let key = es[i].0.as_str();
                let canon = canonical_model_id(key, aliases);
                if !in_strings(disabled, key) && !in_strings(disabled, canon.as_str()) {
                    let v = es[i].1.deep_clone();
                    let k = es[i].0.clone();
                    let ghost before = out@;
                    out.push((k, v));
                    proof {
                        assert(out@.drop_last() =~= before);
                        lemma_entries_view(out@);
                    }
                }
                i += 1;
            }
            assert(ev.take(es@.len() as int) =~= ev);
            JsonValue::Object(out)
        },
        JsonValue::Array(items) => {
            proof {
                lemma_items_view(items@);
            }
            let ghost iv = items_view(items@);
            let mut out: Vec<JsonValue> = Vec::new();
            let mut i: usize = 0;
            while i < items.len()
                invariant
                    i <= items@.len(),
                    iv == items_view(items@),
                    iv.len() == items@.len(),
                    forall|j: int| 0 <= j < items@.len() ==> #[trigger] iv[j] == items@[j]@,
                    t == table_view(aliases@),
                    items_view(out@) == retain_items(iv.take(i as int), disabled@, t),
                decreases items.len() - i,
            {
                assert(iv.take(i + 1).drop_last() =~= iv.take(i as int));
                if keeps_item(&items[i], disabled, aliases) {
                    let v = items[i].deep_clone();
                    let ghost before = out@;
                    out.push(v);
                    proof {
                        assert(out@.drop_last() =~= before);
                    }
                }
                i += 1;
            }
            assert(iv.take(items@.len() as int) =~= iv);
            JsonValue::Array(out)
        },
        other => other,
    }
}

fn kept_mids(ids: &Vec<JsonValue>, disabled: &Vec<String>, aliases: &Vec<(String, String)>) -> (r: Vec<JsonValue>)
    ensures
        items_view(r@) == retain_mids(items_view(ids@), disabled@, table_view(aliases@)),
{
    proof {
        lemma_items_view(ids@);
    }
    let ghost iv = items_view(ids@);
    let ghost t = table_view(aliases@);
    let mut out: Vec<JsonValue> = Vec::new();
    let mut i: usize = 0;
    while i < ids.len()
        invariant
            i <= ids@.len(),
            iv == items_view(ids@),
            iv.len() == ids@.len(),
            forall|j: int| 0 <= j < ids@.len() ==> #[trigger] iv[j] == ids@[j]@,
            t == table_view(aliases@),
            items_view(out@) == retain_mids(iv.take(i as int), disabled@, t),
        decreases ids.len() - i,
    {
        assert(iv.take(i + 1).drop_last() =~= iv.take(i as int));
        if keeps_mid(&ids[i], disabled, aliases) {
            let v = ids[i].deep_clone();
            let ghost before = out@;
            out.push(v);
            proof {
                assert(out@.drop_last() =~= before);
            }
        }
        i += 1;
    }
    assert(iv.take(ids@.len() as int) =~= iv);
    out
}

fn cleaned_group(g: &JsonValue, disabled: &Vec<String>, aliases: &Vec<(String, String)>) -> (r: JsonValue)
    ensures
        r@ == group_cleaned(g@, disabled@, table_view(aliases@)),
{
    match g {
        JsonValue::Object(es) => match entries_lookup(es, "modelIds") {
            Some(JsonValue::Array(ids)) => {
                let kept = kept_mids(ids, disabled, aliases);
                let mut out = crate::domain::provider::clone_entries(es);
                set_entry(&mut out, "modelIds", JsonValue::Array(kept));
                JsonValue::Object(out)
            },
            _ => g.deep_clone(),
        },
        _ => g.deep_clone(),
    }
}

fn cleaned_sort(s: &JsonValue, disabled: &Vec<String>, aliases: &Vec<(String, String)>) -> (r: JsonValue)
    ensures
        r@ == sort_cleaned(s@, disabled@, table_view(aliases@)),
{
    let ghost t = table_view(aliases@);
    match s {
        JsonValue::Object(es) => match entries_lookup(es, "groups") {
            Some(JsonValue::Array(groups)) => {
                proof {
                    lemma_items_view(groups@);
                }
                let ghost gv = items_view(groups@);
                let mut out_groups: Vec<JsonValue> = Vec::new();
                let mut i: usize = 0;
                while i < groups.len()
                    invariant
                        i <= groups@.len(),
                        gv == items_view(groups@),
                        gv.len() == groups@.len(),
                        forall|j: int| 0 <= j < groups@.len() ==> #[trigger] gv[j] == groups@[j]@,
                        t == table_view(aliases@),
                        items_view(out_groups@) == Seq::new(i as nat, |j: int| group_cleaned(gv[j], disabled@, t)),
                    decreases groups.len() - i,
                {
                    let g = cleaned_group(&groups[i], disabled, aliases);
                    let ghost before = out_groups@;
                    out_groups.push(g);
                    proof {
                        lemma_items_view(out_groups@);
                        lemma_items_view(before);
                        assert(out_groups@.drop_last() =~= before);
                        assert(items_view(out_groups@) =~= Seq::new((i + 1) as nat, |j: int| group_cleaned(gv[j], disabled@, t)));
                    }
                    i += 1;
                }
                let mut out = crate::domain::provider::clone_entries(es);
                set_entry(&mut out, "groups", JsonValue::Array(out_groups));
                JsonValue::Object(out)
            },
            _ => s.deep_clone(),
        },
        _ => s.deep_clone(),
    }
}

fn cleaned_sorts(c: JsonValue, disabled: &Vec<String>, aliases: &Vec<(String, String)>) -> (r: JsonValue)
    ensures
        r@ == sorts_cleaned(c@, disabled@, table_view(aliases@)),
{
    let ghost t = table_view(aliases@);
    let is_array = match c.get("agentModelSorts") {
        Some(JsonValue::Array(_)) => true,
        _ => false,
    };
    if !is_array {
        return c;
    }
    let (sorts, hole) = take_member_value(c, "agentModelSorts");
    match sorts {
        JsonValue::Array(items) => {
            proof {
                lemma_items_view(items@);
            }
            let ghost sv = items_view(items@);
            let mut out: Vec<JsonValue> = Vec::new();
            let mut i: usize = 0;
            while i < items.len()
                invariant
                    i <= items@.len(),
                    sv == items_view(items@),
                    sv.len() == items@.len(),
                    forall|j: int| 0 <= j < items@.len() ==> #[trigger] sv[j] == items@[j]@,
                    t == table_view(aliases@),
                    items_view(out@) == Seq::new(i as nat, |j: int| sort_cleaned(sv[j], disabled@, t)),
                decreases items.len() - i,
            {
                let s = cleaned_sort(&items[i], disabled, aliases);
                let ghost before = out@;
                out.push(s);
                proof {
                    lemma_items_view(out@);
                    lemma_items_view(before);
                    assert(out@.drop_last() =~= before);
                    assert(items_view(out@) =~= Seq::new((i + 1) as nat, |j: int| sort_cleaned(sv[j], disabled@, t)));
                }
                i += 1;
            }
            fill(hole, JsonValue::Array(out))
        },
        other => fill(hole, other),
    }
}

impl AntigravityModelDescriptor {
    /// Removes the disabled official models from a catalog: from its model
    /// collection and from the groups of its model sorts. A model is matched
    /// by its ID, its ID without `models/`, or its current ID.
    pub fn remove_disabled_official_models(models_json: &mut JsonValue, disabled_models: &Vec<String>)
        ensures
            final(models_json)@ == disabled_removed(old(models_json)@, disabled_models@),
    {
        if disabled_models.len() == 0 {
            return;
        }
        let aliases = official_model_aliases(models_json);
        let mut p = JsonValue::Null;
        std::mem::swap(&mut p, models_json);
        let (container, h1) = split_container(p);
        if !super::has_models_member(&container) {
            *models_json = fill(h1, container);
            return;
        }
        let (models, h2) = take_member_value(container, "models");
        let kept = kept_models(models, disabled_models, &aliases);
        let c2 = fill(h2, kept);
        let c3 = cleaned_sorts(c2, disabled_models, &aliases);
        *models_json = fill(h1, c3);
    }
}

// ---------------------------------------------------------------------------
// Laws.
// ---------------------------------------------------------------------------

/// Whether a catalog entry has no enabled policy.
pub open spec fn unpoliced(
    key: Option<Seq<char>>,
    entry: Json,
    ps: Seq<(String, ModelCompressionPolicy)>,
    t: Seq<(Seq<char>, Seq<char>)>,
) -> bool {
    let id = match key {
        Some(k) => Some(k),
        None => match entry.get("id"@) {
            Some(Json::Str(s)) => Some(s),
            _ => None,
        },
    };
    match id {
        None => true,
        Some(id) => match effective_policy(id, ps, t) {
            None => true,
            Some(i) => !ps[i].1.enabled,
        },
    }
}

/// Law: applying official policies keeps every entry in its place (and
/// under its key), and an entry without an enabled policy comes out
/// unchanged.
pub proof fn lemma_policies_keep_entries(
    models: Json,
    ps: Seq<(String, ModelCompressionPolicy)>,
    t: Seq<(Seq<char>, Seq<char>)>,
    lim: spec_fn(Seq<char>) -> Option<u32>,
)
    ensures
        models matches Json::Object(es) ==> (policies_applied(models, ps, t, lim) matches Json::Object(es2) && es2.len()
            == es.len() && forall|i: int|
            0 <= i < es.len() ==> (#[trigger] es2[i]).0 == es[i].0 && (unpoliced(Some(es[i].0), es[i].1, ps, t) ==> es2[i]
                == es[i])),
        models matches Json::Array(items) ==> (policies_applied(models, ps, t, lim) matches Json::Array(items2)
            && items2.len() == items.len() && forall|i: int|
            0 <= i < items.len() ==> (unpoliced(None, items[i], ps, t) ==> #[trigger] items2[i] == items[i])),
        !(models is Object) && !(models is Array) ==> policies_applied(models, ps, t, lim) == models,
{
}

/// Law: where a catalog holds its models under `models`, applying official
/// policies changes nothing but that model collection's entries.
pub proof fn lemma_overrides_rewrite_only_models(p: Json, ps: Seq<(String, ModelCompressionPolicy)>)
    requires
        super::has_models(super::catalog_container(p)),
    ensures
        super::catalog_models(official_overrides(p, ps)) == policies_applied(
            super::catalog_models(p),
            ps,
            alias_table(p),
            |w: Seq<char>| worker_limit(super::catalog_models(p), w),
        ),
{
    let x = policies_applied(super::catalog_models(p), ps, alias_table(p), |w: Seq<char>| worker_limit(super::catalog_models(p), w));
    reveal_strlit("models");
    reveal_strlit("response");
    assert("models"@ != "response"@) by {
        assert("models"@[0] != "response"@[0]);
    }
    if super::response_holds_catalog(p) {
        let r = p.at("response"@);
        match (p, r) {
            (Json::Object(es), Json::Object(res)) => {
                crate::json::lemma_set_member_get(res, "models"@, x, "models"@);
                let r2 = super::obj_set(r, "models"@, x);
                crate::json::lemma_set_member_get(es, "response"@, r2, "response"@);
                crate::json::lemma_set_member_get(es, "response"@, r2, "models"@);
            },
            _ => {},
        }
    } else {
        match p {
            Json::Object(es) => {
                crate::json::lemma_set_member_get(es, "models"@, x, "models"@);
            },
            _ => {},
        }
    }
}

proof fn lemma_retain_entries(es: Seq<(Seq<char>, Json)>, d: Seq<String>, t: Seq<(Seq<char>, Seq<char>)>)
    ensures
        forall|j: int|
            0 <= j < retain_entries(es, d, t).len() ==> key_kept((#[trigger] retain_entries(es, d, t)[j]).0, d, t)
                && es.contains(retain_entries(es, d, t)[j]),
        forall|i: int| 0 <= i < es.len() && key_kept((#[trigger] es[i]).0, d, t) ==> retain_entries(es, d, t).contains(es[i]),
    decreases es.len(),
{
    if es.len() > 0 {
        let p = es.drop_last();
        lemma_retain_entries(p, d, t);
        let r0 = retain_entries(p, d, t);
        let r = retain_entries(es, d, t);
        assert forall|j: int| 0 <= j < r.len() implies key_kept((#[trigger] r[j]).0, d, t) && es.contains(r[j]) by {
            if j < r0.len() {
                assert(r[j] == r0[j]);
                let i = choose|i: int| 0 <= i < p.len() && p[i] == r0[j];
                assert(es[i] == p[i]);
            } else {
                assert(r[j] == es.last());
                assert(es[es.len() - 1] == es.last());
            }
        }
        assert forall|i: int| 0 <= i < es.len() && key_kept((#[trigger] es[i]).0, d, t) implies r.contains(es[i]) by {
            if i < es.len() - 1 {
                assert(es[i] == p[i]);
                let j = choose|j: int| 0 <= j < r0.len() && r0[j] == p[i];
                assert(r[j] == r0[j]);
            } else {
                assert(r[r.len() - 1] == es[i]);
            }
        }
    }
}

/// Law: hiding official models from an object model collection keeps
/// exactly the entries that are not disabled (by key or current ID), and
/// adds none.
pub proof fn lemma_hidden_models_leave(es: Seq<(Seq<char>, Json)>, d: Seq<String>, t: Seq<(Seq<char>, Seq<char>)>)
    ensures
        models_kept(Json::Object(es), d, t) matches Json::Object(kept) && (forall|j: int|
            0 <= j < kept.len() ==> key_kept((#[trigger] kept[j]).0, d, t) && es.contains(kept[j])) && (forall|i: int|
            0 <= i < es.len() && key_kept((#[trigger] es[i]).0, d, t) ==> kept.contains(es[i])),
{
    lemma_retain_entries(es, d, t);
}

} // verus!
