//! Upstream providers, their protocols and parameter overrides.

use crate::json::{clone_number, 
    entries_get, entries_index, entries_view, json_view, lemma_entries_get_index,
    lemma_entries_view, weight, weight_entries, Json, JsonNumber, JsonValue,
};
use vstd::prelude::*;

verus! {

#[derive(Debug, Clone, Copy, PartialEq, Eq, Structural)]
pub enum ProviderProtocol {
    OpenaiChatCompletions,
    AnthropicMessages,
    GeminiGenerateContent,
    OpenaiResponses,
}

/// The variant name of a protocol, as `{:?}` writes it.
pub open spec fn spec_protocol_debug(p: ProviderProtocol) -> Seq<char> {
    match p {
        ProviderProtocol::OpenaiChatCompletions => "OpenaiChatCompletions"@,
        ProviderProtocol::AnthropicMessages => "AnthropicMessages"@,
        ProviderProtocol::GeminiGenerateContent => "GeminiGenerateContent"@,
        ProviderProtocol::OpenaiResponses => "OpenaiResponses"@,
    }
}

pub fn protocol_debug(p: ProviderProtocol) -> (r: &'static str)
    ensures
        r@ == spec_protocol_debug(p),
{
    match p {
        ProviderProtocol::OpenaiChatCompletions => "OpenaiChatCompletions",
        ProviderProtocol::AnthropicMessages => "AnthropicMessages",
        ProviderProtocol::GeminiGenerateContent => "GeminiGenerateContent",
        ProviderProtocol::OpenaiResponses => "OpenaiResponses",
    }
}

/// Generation parameters set on a provider, an upstream model or a virtual
/// model. Temperature and top-p keep the number exactly as configured.
#[derive(Debug)]
pub struct ParameterOverrides {
    pub temperature: Option<JsonNumber>,
    pub max_tokens: Option<u32>,
    pub top_p: Option<JsonNumber>,
    pub top_k: Option<u32>,
    /// Extra request-body members, by key.
    pub extra_body: Option<Vec<(String, JsonValue)>>,
}

/// Deep merge of two JSON values: objects merge member by member, anything
/// else is replaced by the child.
pub open spec fn merge_json(parent: Json, child: Json) -> Json
    decreases child,
{
    match (parent, child) {
        (Json::Object(pe), Json::Object(ce)) => Json::Object(merge_entries(pe, ce)),
        _ => child,
    }
}

/// Merges the child members, in order, into the parent members.
pub open spec fn merge_entries(pe: Seq<(Seq<char>, Json)>, ce: Seq<(Seq<char>, Json)>) -> Seq<(Seq<char>, Json)>
    decreases ce,
{
    if ce.len() == 0 {
        pe
    } else {
        let acc = merge_entries(pe, ce.drop_last());
        let k = ce.last().0;
        let idx = entries_index(acc, k);
        if idx >= 0 {
            acc.update(idx, (k, merge_json(acc[idx].1, ce.last().1)))
        } else {
            acc.push((k, ce.last().1))
        }
    }
}

pub open spec fn num_option_view(n: Option<JsonNumber>) -> Option<crate::json::JsonNum> {
    match n {
        Some(x) => Some(crate::json::num_view(x)),
        None => None,
    }
}

pub open spec fn extra_view(e: Option<Vec<(String, JsonValue)>>) -> Seq<(Seq<char>, Json)> {
    match e {
        Some(v) => entries_view(v@),
        None => Seq::empty(),
    }
}

pub open spec fn first_some<T>(child: Option<T>, parent: Option<T>) -> Option<T> {
    match child {
        Some(x) => Some(x),
        None => parent,
    }
}

fn first_number(child: &Option<JsonNumber>, parent: &Option<JsonNumber>) -> (r: Option<JsonNumber>)
    ensures
        num_option_view(r) == first_some(num_option_view(*child), num_option_view(*parent)),
{
    match child {
        Some(c) => Some(clone_number(c)),
        None => match parent {
            Some(p) => Some(clone_number(p)),
            None => None,
        },
    }
}

/// Merges `child` into `parent` (see `merge_json`).
pub fn merge_json_value(parent: JsonValue, child: &JsonValue) -> (r: JsonValue)
    ensures
        r@ == merge_json(parent@, child@),
    decreases weight(child@),
{
    match (parent, child) {
        (JsonValue::Object(pe), JsonValue::Object(ce)) => {
            proof {
                lemma_entries_view(ce@);
            }
            JsonValue::Object(merge_entry_vec(pe, ce))
        },
        (_, c) => c.deep_clone(),
    }
}

/// Merges child members into parent members.
pub fn merge_entry_vec(pe: Vec<(String, JsonValue)>, ce: &Vec<(String, JsonValue)>) -> (r: Vec<(String, JsonValue)>)
    ensures
        entries_view(r@) == merge_entries(entries_view(pe@), entries_view(ce@)),
    decreases weight_entries(entries_view(ce@)),
{
    let mut acc = pe;
    let ghost pv = entries_view(acc@);
    let mut i: usize = 0;
    proof {
        lemma_entries_view(ce@);
        assert(entries_view(ce@).take(0) =~= Seq::<(Seq<char>, Json)>::empty());
    }
    while i < ce.len()
        invariant
            i <= ce@.len(),
            entries_view(ce@).len() == ce@.len(),
            forall|j: int| 0 <= j < ce@.len() ==> #[trigger] entries_view(ce@)[j] == (ce@[j].0@, json_view(ce@[j].1)),
            entries_view(acc@) == merge_entries(pv, entries_view(ce@).take(i as int)),
        decreases ce.len() - i,
    {
        let ghost cv = entries_view(ce@);
        let ghost prefix = cv.take(i as int + 1);
        proof {
            assert(prefix.drop_last() =~= cv.take(i as int));
            assert(prefix.last() == cv[i as int]);
            crate::json::lemma_weight_entries(cv, i as int);
        }
        let key = ce[i].0.clone();
        let idx = find_key(&acc, key.as_str());
        let ghost av = entries_view(acc@);
        proof {
            lemma_entries_view(acc@);
        }
        match idx {
            Some(j) => {
                let (k, old) = acc.remove(j);
                let ghost removed = acc@;
                proof {
                    assert(old@ == av[j as int].1);
                    lemma_entries_get_index(av, key@);
                    assert(av[j as int].0 == key@);
                    assert(k@ == key@);
                }
                let merged = merge_json_value(old, &ce[i].1);
                acc.insert(j, (k, merged));
                proof {
                    lemma_entries_view(acc@);
                    assert(entries_view(acc@) =~= av.update(j as int, (ce@[i as int].0@, merge_json(av[j as int].1, json_view(ce@[i as int].1))))) by {
                        assert forall|t: int| 0 <= t < acc@.len() implies #[trigger] entries_view(acc@)[t] == av.update(j as int, (ce@[i as int].0@, merge_json(av[j as int].1, json_view(ce@[i as int].1))))[t] by {
                            if t < j {
                                assert(acc@[t] == removed[t]);
                            } else if t > j {
                                assert(acc@[t] == removed[t - 1]);
                            } else {
                                assert(acc@[t].1@ == merge_json(av[j as int].1, json_view(ce@[i as int].1)));
                                assert(acc@[t].0@ == ce@[i as int].0@);
                            }
                        }
                    }
                }
            },
            None => {
                let v = ce[i].1.deep_clone();
                let ghost before = acc@;
                acc.push((key, v));
                proof {
                    assert(acc@.drop_last() =~= before);
                }
            },
        }
        i += 1;
    }
    proof {
        assert(entries_view(ce@).take(ce@.len() as int) =~= entries_view(ce@));
    }
    acc
}

/// Position of the first entry stored under `key`.
pub fn find_key(entries: &Vec<(String, JsonValue)>, key: &str) -> (r: Option<usize>)
    ensures
        r matches Some(j) ==> j < entries@.len() && entries_index(entries_view(entries@), key@) == j as int,
        r is None ==> entries_index(entries_view(entries@), key@) < 0,
{
    proof {
        lemma_entries_view(entries@);
        lemma_entries_get_index(entries_view(entries@), key@);
    }
    let k = crate::text::chars_of(key);
    let mut i: usize = 0;
    while i < entries.len()
        invariant
            i <= entries@.len(),
            k@ == key@,
            entries_view(entries@).len() == entries@.len(),
            forall|j: int| 0 <= j < entries@.len() ==> #[trigger] entries_view(entries@)[j] == (entries@[j].0@, json_view(entries@[j].1)),
            forall|j: int| 0 <= j < i ==> #[trigger] entries@[j].0@ != key@,
        decreases entries.len() - i,
    {
        let ek = crate::text::chars_of(entries[i].0.as_str());
        if crate::text::chars_eq(ek.as_slice(), k.as_slice()) {
            proof {
                let es = entries_view(entries@);
                lemma_entries_get_index(es, key@);
                let idx = entries_index(es, key@);
                assert(es[i as int].0 == key@);
                if 0 <= idx < i {
                    assert(es[idx].0 == entries@[idx].0@);
                }
            }
            return Some(i);
        }
        i += 1;
    }
    proof {
        let es = entries_view(entries@);
        lemma_entries_get_index(es, key@);
        let idx = entries_index(es, key@);
        if idx >= 0 {
            assert(es[idx].0 == entries@[idx].0@);
        }
    }
    None
}

impl ParameterOverrides {
    pub open spec fn spec_extra(&self) -> Seq<(Seq<char>, Json)> {
        extra_view(self.extra_body)
    }

    /// Overrides layered over `self`: each field of `child` wins where set,
    /// and the extra body members merge deeply.
    pub fn merge_with(&self, child: &ParameterOverrides) -> (r: ParameterOverrides)
        ensures
            num_option_view(r.temperature) == first_some(num_option_view(child.temperature), num_option_view(self.temperature)),
            r.max_tokens == first_some(child.max_tokens, self.max_tokens),
            num_option_view(r.top_p) == first_some(num_option_view(child.top_p), num_option_view(self.top_p)),
            r.top_k == first_some(child.top_k, self.top_k),
            r.spec_extra() == merge_entries(self.spec_extra(), child.spec_extra()),
            r.extra_body is Some <==> merge_entries(self.spec_extra(), child.spec_extra()).len() > 0,
    {
        let base: Vec<(String, JsonValue)> = match &self.extra_body {
            Some(e) => {
                let c = JsonValue::Object(clone_entries(e));
                match c {
                    JsonValue::Object(v) => v,
                    _ => Vec::new(),
                }
            },
            None => Vec::new(),
        };
        let merged = match &child.extra_body {
            Some(ce) => merge_entry_vec(base, ce),
            None => base,
        };
        proof {
            if child.extra_body is None {
                assert(child.spec_extra() =~= Seq::<(Seq<char>, Json)>::empty());
            }
            if self.extra_body is None {
                assert(entries_view(Seq::<(String, JsonValue)>::empty()) =~= Seq::<(Seq<char>, Json)>::empty());
            }
            lemma_entries_view(merged@);
        }
        ParameterOverrides {
            temperature: first_number(&child.temperature, &self.temperature),
            max_tokens: match child.max_tokens {
                Some(v) => Some(v),
                None => self.max_tokens,
            },
            top_p: first_number(&child.top_p, &self.top_p),
            top_k: match child.top_k {
                Some(v) => Some(v),
                None => self.top_k,
            },
            extra_body: if merged.len() == 0 {
                None
            } else {
                Some(merged)
            },
        }
    }
}

/// A copy of a list of members.
pub fn clone_entries(e: &Vec<(String, JsonValue)>) -> (r: Vec<(String, JsonValue)>)
    ensures
        entries_view(r@) == entries_view(e@),
{
    let mut out: Vec<(String, JsonValue)> = Vec::new();
    let mut i: usize = 0;
    proof {
        lemma_entries_view(e@);
    }
    while i < e.len()
        invariant
            i <= e@.len(),
            entries_view(e@).len() == e@.len(),
            forall|j: int| 0 <= j < e@.len() ==> #[trigger] entries_view(e@)[j] == (e@[j].0@, json_view(e@[j].1)),
            entries_view(out@) == entries_view(e@.take(i as int)),
        decreases e.len() - i,
    {
        let v = e[i].1.deep_clone();
        let k = e[i].0.clone();
        let ghost before = out@;
        out.push((k, v));
        assert(out@.drop_last() =~= before);
        assert(e@.take(i as int + 1).drop_last() =~= e@.take(i as int));
        i += 1;
    }
    assert(e@.take(e@.len() as int) =~= e@);
    out
}

impl Default for ParameterOverrides {
    fn default() -> (r: Self)
        ensures
            r.temperature is None && r.max_tokens is None && r.top_p is None && r.top_k is None
                && r.extra_body is None,
    {
        ParameterOverrides { temperature: None, max_tokens: None, top_p: None, top_k: None, extra_body: None }
    }
}

#[derive(Debug)]
pub struct Provider {
    pub id: String,
    pub name: String,
    pub protocol: ProviderProtocol,
    pub models_endpoint: String,
    pub generate_endpoint: String,
    pub api_key: String,
    /// Extra request headers, by name.
    pub headers: Vec<(String, String)>,
    pub default_parameters: ParameterOverrides,
    pub connect_timeout_ms: u64,
    pub request_timeout_ms: u64,
    pub stream_idle_timeout_ms: u64,
    pub enabled: bool,
}

/// A list of header pairs as text.
pub open spec fn pairs_view(h: Seq<(String, String)>) -> Seq<(Seq<char>, Seq<char>)> {
    h.map_values(|p: (String, String)| (p.0@, p.1@))
}

/// Index of the first pair named `name`.
pub open spec fn pair_index(h: Seq<(Seq<char>, Seq<char>)>, name: Seq<char>) -> int
    decreases h.len(),
{
    if h.len() == 0 {
        -1
    } else if h.last().0 == name && pair_index(h.drop_last(), name) < 0 {
        h.len() - 1
    } else {
        pair_index(h.drop_last(), name)
    }
}

/// `h` with header `name` set to `value` (`HashMap::insert`): an existing
/// pair of that name takes the value, or the pair is appended.
pub open spec fn set_pair(h: Seq<(Seq<char>, Seq<char>)>, name: Seq<char>, value: Seq<char>) -> Seq<(Seq<char>, Seq<char>)> {
    let i = pair_index(h, name);
    if i >= 0 {
        h.update(i, (name, value))
    } else {
        h.push((name, value))
    }
}

/// `h` with each pair of `extra`, in order, set on it.
pub open spec fn set_pairs(h: Seq<(Seq<char>, Seq<char>)>, extra: Seq<(Seq<char>, Seq<char>)>) -> Seq<(Seq<char>, Seq<char>)>
    decreases extra.len(),
{
    if extra.len() == 0 {
        h
    } else {
        set_pair(set_pairs(h, extra.drop_last()), extra.last().0, extra.last().1)
    }
}

proof fn lemma_pair_index(h: Seq<(Seq<char>, Seq<char>)>, name: Seq<char>)
    ensures
        pair_index(h, name) < h.len(),
        pair_index(h, name) >= 0 ==> h[pair_index(h, name)].0 == name,
        pair_index(h, name) < 0 ==> forall|j: int| 0 <= j < h.len() ==> #[trigger] h[j].0 != name,
        pair_index(h, name) >= 0 ==> forall|j: int| 0 <= j < pair_index(h, name) ==> #[trigger] h[j].0 != name,
    decreases h.len(),
{
    if h.len() > 0 {
        lemma_pair_index(h.drop_last(), name);
        assert forall|j: int| 0 <= j < h.len() - 1 implies #[trigger] h[j] == h.drop_last()[j] by {}
    }
}

/// Sets header `name` to `value` among `headers`.
pub fn set_header(headers: &mut Vec<(String, String)>, name: &str, value: String)
    ensures
        pairs_view(final(headers)@) == set_pair(pairs_view(old(headers)@), name@, value@),
{
    let ghost hv = pairs_view(headers@);
    proof {
        lemma_pair_index(hv, name@);
    }
    let n = crate::text::chars_of(name);
    let mut i: usize = 0;
    while i < headers.len()
        invariant
            i <= headers@.len(),
            hv == pairs_view(headers@),
            headers@ == old(headers)@,
            hv.len() == headers@.len(),
            n@ == name@,
            forall|j: int| 0 <= j < i ==> #[trigger] hv[j].0 != name@,
        decreases headers.len() - i,
    {
        let k = crate::text::chars_of(headers[i].0.as_str());
        if crate::text::chars_eq(k.as_slice(), n.as_slice()) {
            proof {
                lemma_pair_index(hv, name@);
                let idx = pair_index(hv, name@);
                assert(hv[i as int].0 == name@);
                if idx < 0 {
                    assert(hv[i as int].0 != name@);
                }
                if idx < i {
                    assert(hv[idx].0 != name@);
                }
                if idx > i {
                    assert(hv[i as int].0 != name@);
                }
            }
            let ghost before = headers@;
            headers.set(i, (crate::text::owned(name), value));
            assert(pairs_view(headers@) =~= pairs_view(before).update(i as int, (name@, value@)));
            assert(pair_index(hv, name@) == i);
            return;
        }
        i += 1;
    }
    proof {
        let idx = pair_index(hv, name@);
        if idx >= 0 {
            assert(hv[idx].0 == name@);
        }
    }
    let ghost before = headers@;
    headers.push((crate::text::owned(name), value));
    assert(pairs_view(headers@) =~= pairs_view(before).push((name@, value@)));
}

/// Sets each of `extra`, in order, among `headers`.
pub fn set_headers(headers: &mut Vec<(String, String)>, extra: &Vec<(String, String)>)
    ensures
        pairs_view(final(headers)@) == set_pairs(pairs_view(old(headers)@), pairs_view(extra@)),
{
    let ghost base = pairs_view(headers@);
    let ghost xv = pairs_view(extra@);
    assert(xv.take(0) =~= seq![]);
    let mut i: usize = 0;
    while i < extra.len()
        invariant
            i <= extra@.len(),
            xv == pairs_view(extra@),
            xv.len() == extra@.len(),
            pairs_view(headers@) == set_pairs(base, xv.take(i as int)),
        decreases extra.len() - i,
    {
        set_header(headers, extra[i].0.as_str(), extra[i].1.clone());
        assert(xv.take(i as int + 1).drop_last() =~= xv.take(i as int));
        assert(xv[i as int] == (extra@[i as int].0@, extra@[i as int].1@));
        i += 1;
    }
    assert(xv.take(i as int) =~= xv);
}

} // verus!
