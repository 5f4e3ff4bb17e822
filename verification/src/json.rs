//! JSON documents as the library sees them.
//!
//! `JsonValue` is the executable tree; its view `Json` is the mathematical
//! tree that contracts speak of. Text is turned into a tree by serde_json
//! (`parse_json`); everything else is ordinary verified code.

use crate::text::{chars_eq_str, chars_of, owned};
use vstd::prelude::*;

verus! {

/// A JSON number: a non-negative integer, a negative integer, or any other
/// number kept as its decimal text.
#[derive(Debug)]
pub enum JsonNumber {
    Unsigned(u64),
    Negative(i64),
    Decimal(String),
}

#[derive(Debug)]
pub enum JsonValue {
    Null,
    Bool(bool),
    Number(JsonNumber),
    Str(String),
    Array(Vec<JsonValue>),
    Object(Vec<(String, JsonValue)>),
}

/// Mathematical JSON number.
pub enum JsonNum {
    Unsigned(u64),
    Negative(i64),
    Decimal(Seq<char>),
}

/// Mathematical JSON tree; object entries keep their order.
pub enum Json {
    Null,
    Bool(bool),
    Number(JsonNum),
    Str(Seq<char>),
    Array(Seq<Json>),
    Object(Seq<(Seq<char>, Json)>),
}

pub open spec fn num_view(n: JsonNumber) -> JsonNum {
    match n {
        JsonNumber::Unsigned(u) => JsonNum::Unsigned(u),
        JsonNumber::Negative(i) => JsonNum::Negative(i),
        JsonNumber::Decimal(s) => JsonNum::Decimal(s@),
    }
}

pub open spec fn items_view(s: Seq<JsonValue>) -> Seq<Json>
    decreases s,
{
    if s.len() == 0 {
        seq![]
    } else {
        items_view(s.drop_last()).push(json_view(s.last()))
    }
}

pub open spec fn entries_view(s: Seq<(String, JsonValue)>) -> Seq<(Seq<char>, Json)>
    decreases s,
{
    if s.len() == 0 {
        seq![]
    } else {
        entries_view(s.drop_last()).push((s.last().0@, json_view(s.last().1)))
    }
}

pub open spec fn json_view(v: JsonValue) -> Json
    decreases v,
{
    match v {
        JsonValue::Null => Json::Null,
        JsonValue::Bool(b) => Json::Bool(b),
        JsonValue::Number(n) => Json::Number(num_view(n)),
        JsonValue::Str(s) => Json::Str(s@),
        JsonValue::Array(items) => Json::Array(items_view(items@)),
        JsonValue::Object(entries) => Json::Object(entries_view(entries@)),
    }
}

impl View for JsonValue {
    type V = Json;

    open spec fn view(&self) -> Json {
        json_view(*self)
    }
}

pub proof fn lemma_items_view(s: Seq<JsonValue>)
    ensures
        items_view(s).len() == s.len(),
        forall|i: int| 0 <= i < s.len() ==> #[trigger] items_view(s)[i] == json_view(s[i]),
    decreases s.len(),
{
    if s.len() > 0 {
        lemma_items_view(s.drop_last());
    }
}

/// The view of a concatenation is the concatenation of the views.
pub proof fn lemma_items_view_append(a: Seq<JsonValue>, b: Seq<JsonValue>)
    ensures
        items_view(a + b) == items_view(a) + items_view(b),
    decreases b.len(),
{
    if b.len() == 0 {
        assert(a + b =~= a);
        assert(items_view(a) + items_view(b) =~= items_view(a));
    } else {
        lemma_items_view_append(a, b.drop_last());
        assert((a + b).drop_last() =~= a + b.drop_last());
        assert(items_view(a) + items_view(b) =~= (items_view(a) + items_view(b.drop_last())).push(json_view(b.last())));
    }
}

pub proof fn lemma_entries_view(s: Seq<(String, JsonValue)>)
    ensures
        entries_view(s).len() == s.len(),
        forall|i: int|
            0 <= i < s.len() ==> #[trigger] entries_view(s)[i] == (s[i].0@, json_view(s[i].1)),
    decreases s.len(),
{
    if s.len() > 0 {
        lemma_entries_view(s.drop_last());
    }
}

/// First value stored under `key` among `entries`.
pub open spec fn entries_get(entries: Seq<(Seq<char>, Json)>, key: Seq<char>) -> Option<Json>
    decreases entries.len(),
{
    if entries.len() == 0 {
        None
    } else if entries[0].0 == key {
        Some(entries[0].1)
    } else {
        entries_get(entries.drop_first(), key)
    }
}

/// Index of the first entry stored under `key`.
pub open spec fn entries_index(entries: Seq<(Seq<char>, Json)>, key: Seq<char>) -> int
    decreases entries.len(),
{
    if entries.len() == 0 {
        -1
    } else if entries[0].0 == key {
        0
    } else {
        let r = entries_index(entries.drop_first(), key);
        if r < 0 {
            -1
        } else {
            r + 1
        }
    }
}

pub proof fn lemma_entries_get_index(entries: Seq<(Seq<char>, Json)>, key: Seq<char>)
    ensures
        entries_index(entries, key) < entries.len(),
        entries_index(entries, key) >= 0 ==> entries[entries_index(entries, key)].0 == key
            && entries_get(entries, key) == Some(entries[entries_index(entries, key)].1)
            && forall|j: int| 0 <= j < entries_index(entries, key) ==> #[trigger] entries[j].0 != key,
        entries_index(entries, key) < 0 ==> entries_get(entries, key) is None && forall|j: int|
            0 <= j < entries.len() ==> #[trigger] entries[j].0 != key,
    decreases entries.len(),
{
    if entries.len() > 0 && entries[0].0 != key {
        lemma_entries_get_index(entries.drop_first(), key);
        let r = entries_index(entries.drop_first(), key);
        assert forall|j: int| 0 <= j < entries.len() && (r < 0 || j < r + 1) implies #[trigger] entries[j].0 != key by {
            if j > 0 {
                assert(entries[j] == entries.drop_first()[j - 1]);
            }
        }
    }
}

impl Json {
    /// `Value::get` with a string key.
    pub open spec fn get(self, key: Seq<char>) -> Option<Json> {
        match self {
            Json::Object(entries) => entries_get(entries, key),
            _ => None,
        }
    }

    /// `value[key]`: the member, or `Null` where there is none.
    pub open spec fn at(self, key: Seq<char>) -> Json {
        match self.get(key) {
            Some(v) => v,
            None => Json::Null,
        }
    }

    pub open spec fn as_str(self) -> Option<Seq<char>> {
        match self {
            Json::Str(s) => Some(s),
            _ => None,
        }
    }

    pub open spec fn as_u64(self) -> Option<u64> {
        match self {
            Json::Number(JsonNum::Unsigned(u)) => Some(u),
            _ => None,
        }
    }

    pub open spec fn as_bool(self) -> Option<bool> {
        match self {
            Json::Bool(b) => Some(b),
            _ => None,
        }
    }

    pub open spec fn as_array(self) -> Option<Seq<Json>> {
        match self {
            Json::Array(items) => Some(items),
            _ => None,
        }
    }

    pub open spec fn is_object(self) -> bool {
        self is Object
    }

    /// `value[i]`: the array item, or `Null` where there is none.
    pub open spec fn item(self, i: int) -> Json {
        match self {
            Json::Array(items) => if 0 <= i < items.len() {
                items[i]
            } else {
                Json::Null
            },
            _ => Json::Null,
        }
    }

    pub open spec fn as_number(self) -> Option<JsonNum> {
        match self {
            Json::Number(n) => Some(n),
            _ => None,
        }
    }
}

/// What serde_json's parser yields for a text: the tree, or the text of
/// its error where the text is not a JSON document.
pub uninterp spec fn json_parse_result(text: Seq<char>) -> Result<Json, Seq<char>>;

/// Parses `text` with `serde_json::from_str::<serde_json::Value>` and copies
/// the tree into a `JsonValue`; on failure, the error's `Display` text. The
/// contract names the outcome (`json_parse_result`) and claims nothing more.
#[verifier::external_body]
pub(crate) fn parse_json(text: &str) -> (r: Result<JsonValue, String>)
    ensures
        r matches Ok(v) ==> (json_parse_result(text@) matches Ok(j) && j == v@),
        r matches Err(e) ==> (json_parse_result(text@) matches Err(m) && m == e@),
{
    match serde_json::from_str::<serde_json::Value>(text) {
        Ok(value) => Ok(json_value_from_serde(value)),
        Err(error) => Err(error.to_string()),
    }
}

/// The compact text that serde_json writes for a tree
/// (`serde_json::Value::to_string`, object members in key order).
pub uninterp spec fn json_text(v: Json) -> Seq<char>;

/// Serialises a tree: copies it into a `serde_json::Value` and calls
/// `to_string`. The contract names the text (`json_text`).
#[verifier::external_body]
pub(crate) fn to_json_text(v: &JsonValue) -> (r: String)
    ensures
        r@ == json_text(v@),
{
    json_value_to_serde(v).to_string()
}

/// serde_json's tree type, carried opaquely into the copy below.
#[verifier::external_type_specification]
#[verifier::external_body]
pub struct ExSerdeJsonValue(serde_json::Value);

/// One-for-one copy of a `serde_json::Value` into a `JsonValue`; used only
/// inside `parse_json`.
#[verifier::external_body]
fn json_value_from_serde(value: serde_json::Value) -> JsonValue {
    match value {
        serde_json::Value::Null => JsonValue::Null,
        serde_json::Value::Bool(b) => JsonValue::Bool(b),
        serde_json::Value::Number(n) => JsonValue::Number(match (n.as_u64(), n.as_i64()) {
            (Some(u), _) => JsonNumber::Unsigned(u),
            (None, Some(i)) => JsonNumber::Negative(i),
            (None, None) => JsonNumber::Decimal(n.to_string()),
        }),
        serde_json::Value::String(s) => JsonValue::Str(s),
        serde_json::Value::Array(a) => JsonValue::Array(a.into_iter().map(json_value_from_serde).collect()),
        serde_json::Value::Object(m) => JsonValue::Object(m.into_iter().map(|(k, v)| (k, json_value_from_serde(v))).collect()),
    }
}

/// One-for-one copy of a `JsonValue` into a `serde_json::Value`; used only
/// inside `to_json_text`.
#[verifier::external_body]
fn json_value_to_serde(value: &JsonValue) -> serde_json::Value {
    match value {
        JsonValue::Null => serde_json::Value::Null,
        JsonValue::Bool(b) => serde_json::Value::Bool(*b),
        JsonValue::Number(n) => number_to_serde(n),
        JsonValue::Str(s) => serde_json::Value::String(s.clone()),
        JsonValue::Array(a) => serde_json::Value::Array(a.iter().map(json_value_to_serde).collect()),
        JsonValue::Object(m) => serde_json::Value::Object(m.iter().map(|(k, v)| (k.clone(), json_value_to_serde(v))).collect()),
    }
}

/// One-for-one copy of a number; decimal text that serde_json does not
/// read as a number becomes `null`.
#[verifier::external_body]
fn number_to_serde(n: &JsonNumber) -> serde_json::Value {
    match n {
        JsonNumber::Unsigned(u) => serde_json::Value::from(*u),
        JsonNumber::Negative(i) => serde_json::Value::from(*i),
        JsonNumber::Decimal(d) => d.parse::<serde_json::Number>().map(serde_json::Value::Number).unwrap_or(serde_json::Value::Null),
    }
}

impl JsonValue {
    /// `Value::get` with a string key.
    pub fn get(&self, key: &str) -> (r: Option<&JsonValue>)
        ensures
            r matches Some(v) ==> self@.get(key@) == Some(v@),
            r is None ==> self@.get(key@) is None,
    {
        match self {
            JsonValue::Object(entries) => {
                let k = chars_of(key);
                let mut i: usize = 0;
                proof {
                    lemma_entries_view(entries@);
                    lemma_entries_get_index(entries_view(entries@), key@);
                }
                while i < entries.len()
                    invariant
                        i <= entries@.len(),
                        k@ == key@,
                        self@ == Json::Object(entries_view(entries@)),
                        entries_view(entries@).len() == entries@.len(),
                        forall|j: int|
                            0 <= j < entries@.len() ==> #[trigger] entries_view(entries@)[j] == (
                            entries@[j].0@,
                            json_view(entries@[j].1),
                        ),
                        forall|j: int| 0 <= j < i ==> #[trigger] entries@[j].0@ != key@,
                    decreases entries.len() - i,
                {
                    let ek = chars_of(entries[i].0.as_str());
                    if crate::text::chars_eq(ek.as_slice(), k.as_slice()) {
                        proof {
                            let es = entries_view(entries@);
                            lemma_entries_get_index(es, key@);
                            let idx = entries_index(es, key@);
                            assert(es[i as int].0 == key@);
                            if 0 <= idx < i {
                                assert(es[idx].0 == entries@[idx].0@);
                            }
                            assert(idx == i as int);
                            assert(self@ == Json::Object(es));
                            assert(es[i as int].1 == entries@[i as int].1@);
                        }
                        return Some(&entries[i].1);
                    }
                    i += 1;
                }
                proof {
                    let es = entries_view(entries@);
                    lemma_entries_get_index(es, key@);
                    let idx = entries_index(es, key@);
                    if idx >= 0 {
                        assert(es[idx].0 == entries@[idx].0@);
                    }
                    assert(self@ == Json::Object(es));
                }
                None
            },
            _ => None,
        }
    }

    pub fn as_str(&self) -> (r: Option<&String>)
        ensures
            r matches Some(s) ==> self@.as_str() == Some(s@),
            r is None ==> self@.as_str() is None,
    {
        match self {
            JsonValue::Str(s) => Some(s),
            _ => None,
        }
    }

    pub fn as_u64(&self) -> (r: Option<u64>)
        ensures
            r == self@.as_u64(),
    {
        match self {
            JsonValue::Number(JsonNumber::Unsigned(u)) => Some(*u),
            _ => None,
        }
    }

    pub fn as_bool(&self) -> (r: Option<bool>)
        ensures
            r == self@.as_bool(),
    {
        match self {
            JsonValue::Bool(b) => Some(*b),
            _ => None,
        }
    }

    pub fn as_array(&self) -> (r: Option<&Vec<JsonValue>>)
        ensures
            r matches Some(items) ==> self@.as_array() == Some(items_view(items@)),
            r is None ==> self@.as_array() is None,
    {
        match self {
            JsonValue::Array(items) => Some(items),
            _ => None,
        }
    }

    pub fn is_object(&self) -> (r: bool)
        ensures
            r == self@.is_object(),
    {
        match self {
            JsonValue::Object(_) => true,
            _ => false,
        }
    }

    /// `value[key]` for reading: the member, or `Null`.
    pub fn at(&self, key: &str) -> (r: JsonRef<'_>)
        ensures
            r.view() == self@.at(key@),
    {
        match self.get(key) {
            Some(v) => JsonRef::Found(v),
            None => JsonRef::Missing,
        }
    }
}

/// Result of `value[key]` on a borrowed tree.
pub enum JsonRef<'a> {
    Found(&'a JsonValue),
    Missing,
}

impl<'a> JsonRef<'a> {
    pub open spec fn view(&self) -> Json {
        match self {
            JsonRef::Found(v) => v@,
            JsonRef::Missing => Json::Null,
        }
    }

    /// `value[key]` on a borrowed member.
    pub fn at(&self, key: &str) -> (r: JsonRef<'a>)
        ensures
            r.view() == self.view().at(key@),
    {
        match self {
            JsonRef::Found(v) => v.at(key),
            JsonRef::Missing => JsonRef::Missing,
        }
    }

    /// `value[i]` on a borrowed member.
    pub fn item(&self, i: usize) -> (r: JsonRef<'a>)
        ensures
            r.view() == self.view().item(i as int),
    {
        match self {
            JsonRef::Found(v) => match v {
                JsonValue::Array(items) => {
                    proof {
                        lemma_items_view(items@);
                    }
                    if i < items.len() {
                        JsonRef::Found(&items[i])
                    } else {
                        JsonRef::Missing
                    }
                },
                _ => JsonRef::Missing,
            },
            JsonRef::Missing => JsonRef::Missing,
        }
    }

    pub fn as_str(&self) -> (r: Option<&'a String>)
        ensures
            r matches Some(s) ==> self.view().as_str() == Some(s@),
            r is None ==> self.view().as_str() is None,
    {
        match self {
            JsonRef::Found(v) => v.as_str(),
            JsonRef::Missing => None,
        }
    }

    pub fn as_bool(&self) -> (r: Option<bool>)
        ensures
            r == self.view().as_bool(),
    {
        match self {
            JsonRef::Found(v) => v.as_bool(),
            JsonRef::Missing => None,
        }
    }

    pub fn as_u64(&self) -> (r: Option<u64>)
        ensures
            r == self.view().as_u64(),
    {
        match self {
            JsonRef::Found(v) => v.as_u64(),
            JsonRef::Missing => None,
        }
    }

    pub fn as_array(&self) -> (r: Option<&'a Vec<JsonValue>>)
        ensures
            r matches Some(items) ==> self.view().as_array() == Some(items_view(items@)),
            r is None ==> self.view().as_array() is None,
    {
        match self {
            JsonRef::Found(v) => v.as_array(),
            JsonRef::Missing => None,
        }
    }

    pub fn as_number(&self) -> (r: Option<&'a JsonNumber>)
        ensures
            r matches Some(n) ==> self.view().as_number() == Some(num_view(*n)),
            r is None ==> self.view().as_number() is None,
    {
        match self {
            JsonRef::Found(v) => match v {
                JsonValue::Number(n) => Some(n),
                _ => None,
            },
            JsonRef::Missing => None,
        }
    }

    /// A copy of the member (`Null` where there is none).
    pub fn to_owned_value(&self) -> (r: JsonValue)
        ensures
            r@ == self.view(),
    {
        match self {
            JsonRef::Found(v) => v.deep_clone(),
            JsonRef::Missing => JsonValue::Null,
        }
    }
}

/// An object under construction; its view is the sequence of entries.
pub fn str_value(s: &str) -> (r: JsonValue)
    ensures
        r@ == Json::Str(s@),
{
    JsonValue::Str(owned(s))
}

/// Appends `(key, value)` to an object's entries.
pub fn push_entry(entries: &mut Vec<(String, JsonValue)>, key: &str, value: JsonValue)
    ensures
        entries_view(final(entries)@) == entries_view(old(entries)@).push((key@, value@)),
{
    let k = owned(key);
    entries.push((k, value));
    assert(final(entries)@.drop_last() =~= old(entries)@);
}

/// `entries` with `key` set to `value`: the first entry under `key` takes
/// the new value in place, or the pair is appended.
pub open spec fn set_member(entries: Seq<(Seq<char>, Json)>, key: Seq<char>, value: Json) -> Seq<(Seq<char>, Json)> {
    let i = entries_index(entries, key);
    if i >= 0 {
        entries.update(i, (key, value))
    } else {
        entries.push((key, value))
    }
}

/// `entries` without the first entry under `key`.
pub open spec fn remove_member(entries: Seq<(Seq<char>, Json)>, key: Seq<char>) -> Seq<(Seq<char>, Json)> {
    let i = entries_index(entries, key);
    if i >= 0 {
        entries.remove(i)
    } else {
        entries
    }
}

proof fn lemma_get_first(es: Seq<(Seq<char>, Json)>, k: Seq<char>, i: int)
    requires
        0 <= i < es.len(),
        es[i].0 == k,
        forall|j: int| 0 <= j < i ==> #[trigger] es[j].0 != k,
    ensures
        entries_get(es, k) == Some(es[i].1),
    decreases i,
{
    if i > 0 {
        assert forall|j: int| 0 <= j < i - 1 implies #[trigger] es.drop_first()[j].0 != k by {
            assert(es.drop_first()[j] == es[j + 1]);
        }
        lemma_get_first(es.drop_first(), k, i - 1);
    }
}

proof fn lemma_get_none(es: Seq<(Seq<char>, Json)>, k: Seq<char>)
    requires
        forall|j: int| 0 <= j < es.len() ==> #[trigger] es[j].0 != k,
    ensures
        entries_get(es, k) is None,
    decreases es.len(),
{
    if es.len() > 0 {
        assert forall|j: int| 0 <= j < es.len() - 1 implies #[trigger] es.drop_first()[j].0 != k by {
            assert(es.drop_first()[j] == es[j + 1]);
        }
        lemma_get_none(es.drop_first(), k);
    }
}

/// Reading a member after setting one.
pub proof fn lemma_set_member_get(es: Seq<(Seq<char>, Json)>, k: Seq<char>, v: Json, k2: Seq<char>)
    ensures
        entries_get(set_member(es, k, v), k2) == (if k2 == k {
            Some(v)
        } else {
            entries_get(es, k2)
        }),
{
    lemma_entries_get_index(es, k);
    lemma_entries_get_index(es, k2);
    let i = entries_index(es, k);
    let n = set_member(es, k, v);
    let i2 = entries_index(es, k2);
    if k2 == k {
        if i >= 0 {
            lemma_get_first(n, k, i);
        } else {
            lemma_get_first(n, k, es.len() as int);
        }
    } else {
        if i2 >= 0 {
            assert forall|j: int| 0 <= j < i2 implies #[trigger] n[j].0 != k2 by {
                if i >= 0 && j == i {
                } else if j < es.len() {
                    assert(n[j] == es[j]);
                }
            }
            if i >= 0 && i2 == i {
                assert(false);
            }
            assert(n[i2] == es[i2]);
            lemma_get_first(n, k2, i2);
        } else {
            assert forall|j: int| 0 <= j < n.len() implies #[trigger] n[j].0 != k2 by {
                if j < es.len() && !(i >= 0 && j == i) {
                    assert(n[j] == es[j]);
                }
            }
            lemma_get_none(n, k2);
        }
    }
}

/// Sets `key` to `value` among an object's entries (`Map::insert`).
pub fn set_entry(entries: &mut Vec<(String, JsonValue)>, key: &str, value: JsonValue)
    ensures
        entries_view(final(entries)@) == set_member(entries_view(old(entries)@), key@, value@),
{
    proof {
        lemma_entries_view(entries@);
        lemma_entries_get_index(entries_view(entries@), key@);
    }
    match crate::domain::provider::find_key(entries, key) {
        Some(i) => {
            let ghost g = value@;
            let ghost before = entries@;
            entries.set(i, (owned(key), value));
            proof {
                lemma_entries_view(entries@);
                assert(entries_view(entries@) =~= entries_view(before).update(i as int, (key@, g)));
            }
        },
        None => {
            push_entry(entries, key, value);
        },
    }
}

/// Removes the entry under `key` from an object's entries (`Map::remove`).
pub fn remove_entry(entries: &mut Vec<(String, JsonValue)>, key: &str)
    ensures
        entries_view(final(entries)@) == remove_member(entries_view(old(entries)@), key@),
{
    proof {
        lemma_entries_view(entries@);
    }
    match crate::domain::provider::find_key(entries, key) {
        Some(i) => {
            let ghost before = entries@;
            let _ = entries.remove(i);
            proof {
                lemma_entries_view(entries@);
                assert(entries_view(entries@) =~= entries_view(before).remove(i as int));
            }
        },
        None => {},
    }
}

/// Appends an item to an array's items.
pub fn push_item(items: &mut Vec<JsonValue>, value: JsonValue)
    ensures
        items_view(final(items)@) == items_view(old(items)@).push(value@),
{
    items.push(value);
    assert(final(items)@.drop_last() =~= old(items)@);
}

/// The value stored under `key` among `entries`.
pub fn entries_lookup<'a>(entries: &'a Vec<(String, JsonValue)>, key: &str) -> (r: Option<&'a JsonValue>)
    ensures
        r matches Some(v) ==> entries_get(entries_view(entries@), key@) == Some(v@),
        r is None ==> entries_get(entries_view(entries@), key@) is None,
{
    proof {
        lemma_entries_view(entries@);
        lemma_entries_get_index(entries_view(entries@), key@);
    }
    match crate::domain::provider::find_key(entries, key) {
        Some(k) => {
            assert(entries_view(entries@)[k as int] == (entries@[k as int].0@, entries@[k as int].1@));
            Some(&entries[k].1)
        },
        None => None,
    }
}

/// A copy of a number.
pub fn clone_number(n: &JsonNumber) -> (r: JsonNumber)
    ensures
        num_view(r) == num_view(*n),
{
    match n {
        JsonNumber::Unsigned(u) => JsonNumber::Unsigned(*u),
        JsonNumber::Negative(i) => JsonNumber::Negative(*i),
        JsonNumber::Decimal(s) => JsonNumber::Decimal(s.clone()),
    }
}

/// A one-member object.
pub open spec fn jobj1(k: Seq<char>, v: Json) -> Json {
    Json::Object(seq![(k, v)])
}

pub open spec fn jobj2(k1: Seq<char>, v1: Json, k2: Seq<char>, v2: Json) -> Json {
    Json::Object(seq![(k1, v1), (k2, v2)])
}

pub open spec fn jobj3(
    k1: Seq<char>,
    v1: Json,
    k2: Seq<char>,
    v2: Json,
    k3: Seq<char>,
    v3: Json,
) -> Json {
    Json::Object(seq![(k1, v1), (k2, v2), (k3, v3)])
}

pub open spec fn juint(n: int) -> Json {
    Json::Number(JsonNum::Unsigned(n as u64))
}

/// An unsigned JSON number.
pub fn uint_value(n: u64) -> (r: JsonValue)
    ensures
        r@ == juint(n as int),
{
    JsonValue::Number(JsonNumber::Unsigned(n))
}

/// An object with the given entries, in order.
pub fn object_value(entries: Vec<(String, JsonValue)>) -> (r: JsonValue)
    ensures
        r@ == Json::Object(entries_view(entries@)),
{
    JsonValue::Object(entries)
}

/// An array with the given items, in order.
pub fn array_value(items: Vec<JsonValue>) -> (r: JsonValue)
    ensures
        r@ == Json::Array(items_view(items@)),
{
    JsonValue::Array(items)
}

pub fn object1(k: &str, v: JsonValue) -> (r: JsonValue)
    ensures
        r@ == jobj1(k@, v@),
{
    let ghost g = v@;
    let mut e: Vec<(String, JsonValue)> = Vec::new();
    proof {
        assert(entries_view(e@) =~= seq![]);
    }
    push_entry(&mut e, k, v);
    assert(entries_view(e@) =~= seq![(k@, g)]);
    object_value(e)
}

pub fn object2(k1: &str, v1: JsonValue, k2: &str, v2: JsonValue) -> (r: JsonValue)
    ensures
        r@ == jobj2(k1@, v1@, k2@, v2@),
{
    let ghost g1 = v1@;
    let ghost g2 = v2@;
    let mut e: Vec<(String, JsonValue)> = Vec::new();
    proof {
        assert(entries_view(e@) =~= seq![]);
    }
    push_entry(&mut e, k1, v1);
    push_entry(&mut e, k2, v2);
    assert(entries_view(e@) =~= seq![(k1@, g1), (k2@, g2)]);
    object_value(e)
}

pub fn object3(k1: &str, v1: JsonValue, k2: &str, v2: JsonValue, k3: &str, v3: JsonValue) -> (r: JsonValue)
    ensures
        r@ == jobj3(k1@, v1@, k2@, v2@, k3@, v3@),
{
    let ghost g1 = v1@;
    let ghost g2 = v2@;
    let ghost g3 = v3@;
    let mut e: Vec<(String, JsonValue)> = Vec::new();
    proof {
        assert(entries_view(e@) =~= seq![]);
    }
    push_entry(&mut e, k1, v1);
    push_entry(&mut e, k2, v2);
    push_entry(&mut e, k3, v3);
    assert(entries_view(e@) =~= seq![(k1@, g1), (k2@, g2), (k3@, g3)]);
    object_value(e)
}

/// A one-item array.
pub fn array1(v: JsonValue) -> (r: JsonValue)
    ensures
        r@ == Json::Array(seq![v@]),
{
    let ghost g = v@;
    let mut items: Vec<JsonValue> = Vec::new();
    proof {
        assert(items_view(items@) =~= seq![]);
    }
    push_item(&mut items, v);
    assert(items_view(items@) =~= seq![g]);
    array_value(items)
}

/// Equality of a JSON string with a literal.
pub fn json_str_is(v: &JsonValue, s: &str) -> (r: bool)
    ensures
        r == (v@.as_str() == Some(s@)),
{
    match v.as_str() {
        Some(t) => {
            let tc = chars_of(t.as_str());
            chars_eq_str(tc.as_slice(), s)
        },
        None => false,
    }
}

/// Size of a tree, used as the termination measure of copies.
pub open spec fn weight(v: Json) -> nat
    decreases v,
{
    match v {
        Json::Array(items) => 1 + weight_items(items),
        Json::Object(entries) => 1 + weight_entries(entries),
        _ => 1,
    }
}

pub open spec fn weight_items(s: Seq<Json>) -> nat
    decreases s,
{
    if s.len() == 0 {
        0
    } else {
        weight_items(s.drop_last()) + weight(s.last()) + 1
    }
}

pub open spec fn weight_entries(s: Seq<(Seq<char>, Json)>) -> nat
    decreases s,
{
    if s.len() == 0 {
        0
    } else {
        weight_entries(s.drop_last()) + weight(s.last().1) + 1
    }
}

pub proof fn lemma_weight_items(s: Seq<Json>, i: int)
    requires
        0 <= i < s.len(),
    ensures
        weight(s[i]) < weight_items(s),
    decreases s.len(),
{
    if i < s.len() - 1 {
        lemma_weight_items(s.drop_last(), i);
    }
}

pub proof fn lemma_weight_entries(s: Seq<(Seq<char>, Json)>, i: int)
    requires
        0 <= i < s.len(),
    ensures
        weight(s[i].1) < weight_entries(s),
    decreases s.len(),
{
    if i < s.len() - 1 {
        lemma_weight_entries(s.drop_last(), i);
    }
}

impl JsonValue {
    /// A copy of the tree.
    pub fn deep_clone(&self) -> (r: JsonValue)
        ensures
            r@ == self@,
        decreases weight(self@),
    {
        match self {
            JsonValue::Null => JsonValue::Null,
            JsonValue::Bool(b) => JsonValue::Bool(*b),
            JsonValue::Number(n) => JsonValue::Number(
                match n {
                    JsonNumber::Unsigned(u) => JsonNumber::Unsigned(*u),
                    JsonNumber::Negative(i) => JsonNumber::Negative(*i),
                    JsonNumber::Decimal(s) => JsonNumber::Decimal(s.clone()),
                },
            ),
            JsonValue::Str(s) => JsonValue::Str(s.clone()),
            JsonValue::Array(items) => {
                let mut out: Vec<JsonValue> = Vec::new();
                let mut i: usize = 0;
                proof {
                    lemma_items_view(items@);
                }
                while i < items.len()
                    invariant
                        i <= items@.len(),
                        self@ == Json::Array(items_view(items@)),
                        items_view(items@).len() == items@.len(),
                        forall|j: int| 0 <= j < items@.len() ==> #[trigger] items_view(items@)[j] == json_view(items@[j]),
                        items_view(out@) == items_view(items@.take(i as int)),
                    decreases items.len() - i,
                {
                    proof {
                        lemma_weight_items(items_view(items@), i as int);
                        assert(items_view(items@)[i as int] == items@[i as int]@);
                    }
                    let c = items[i].deep_clone();
                    push_item(&mut out, c);
                    assert(items@.take(i as int + 1).drop_last() =~= items@.take(i as int));
                    i += 1;
                }
                assert(items@.take(items@.len() as int) =~= items@);
                JsonValue::Array(out)
            },
            JsonValue::Object(entries) => {
                let mut out: Vec<(String, JsonValue)> = Vec::new();
                let mut i: usize = 0;
                proof {
                    lemma_entries_view(entries@);
                }
                while i < entries.len()
                    invariant
                        i <= entries@.len(),
                        self@ == Json::Object(entries_view(entries@)),
                        entries_view(entries@).len() == entries@.len(),
                        forall|j: int| 0 <= j < entries@.len() ==> #[trigger] entries_view(entries@)[j] == (entries@[j].0@, json_view(entries@[j].1)),
                        entries_view(out@) == entries_view(entries@.take(i as int)),
                    decreases entries.len() - i,
                {
                    proof {
                        lemma_weight_entries(entries_view(entries@), i as int);
                        assert(entries_view(entries@)[i as int].1 == entries@[i as int].1@);
                    }
                    let c = entries[i].1.deep_clone();
                    let k = entries[i].0.clone();
                    let ghost old_out = out@;
                    out.push((k, c));
                    assert(out@.drop_last() =~= old_out);
                    assert(entries@.take(i as int + 1).drop_last() =~= entries@.take(i as int));
                    i += 1;
                }
                assert(entries@.take(entries@.len() as int) =~= entries@);
                JsonValue::Object(out)
            },
        }
    }
}

} // verus!
