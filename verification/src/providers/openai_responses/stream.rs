//! Decoding OpenAI Responses server-sent events.

use crate::domain::error::{ErrorCategory, ProxyError};
use crate::domain::response::{events_view, Event, FinishReason, NeutralStreamEvent, UsageInfo};
use crate::json::{json_parse_result, parse_json, Json, JsonValue};
use crate::providers::anthropic::stream::{key_index, key_pos, keys_of, lemma_key_pos};
use crate::providers::gemini::stream::lemma_events_push;
use crate::providers::gemini::{token_member, token_of};
use crate::providers::openai::response::str_or;
use crate::providers::openai::stream::{arg_events, non_empty};
use crate::providers::openai_responses::response::raw_reason;
use crate::providers::openai_responses::{normalize_finish_reason, parse_usage, spec_finish_reason, spec_parse_usage};
use crate::text::{chars_eq_str, chars_of, decimal, owned, push_decimal, push_str, string_from_chars};
use vstd::prelude::*;

verus! {

/// What the decoder knows of one function call.
#[verifier::ext_equal]
pub struct CallView {
    pub id: Option<Seq<char>>,
    pub name: Option<Seq<char>>,
    /// Argument fragments received before the call could start.
    pub pending: Seq<Seq<char>>,
    pub started: bool,
    pub ended: bool,
    pub saw_delta: bool,
}

/// What a Responses stream decoder remembers between events.
#[verifier::ext_equal]
pub struct ResponsesState {
    pub model: Seq<char>,
    pub started: bool,
    pub ended: bool,
    pub finished: bool,
    /// Function calls by output index, in the order first seen.
    pub calls: Seq<(u32, CallView)>,
}

pub open spec fn fresh_call() -> CallView {
    CallView { id: None, name: None, pending: seq![], started: false, ended: false, saw_delta: false }
}

/// The calls with one under `index`, created where missing, and its position.
pub open spec fn with_call(calls: Seq<(u32, CallView)>, index: u32) -> (Seq<(u32, CallView)>, int) {
    let p = key_pos(keys_of(calls), index);
    if p >= 0 {
        (calls, p)
    } else {
        (calls.push((index, fresh_call())), calls.len() as int)
    }
}

pub open spec fn output_index(v: Json) -> u32 {
    match token_member(v, "output_index"@) {
        Some(i) => i,
        None => 0,
    }
}

pub open spec fn str_member(v: Json, key: Seq<char>) -> Option<Seq<char>> {
    match v.at(key) {
        Json::Str(s) => Some(s),
        _ => None,
    }
}

/// Records a call's ID (its `call_id`, else its `id`) and name where they
/// are not known yet.
pub open spec fn update_meta(calls: Seq<(u32, CallView)>, index: u32, item: Json) -> Seq<(u32, CallView)> {
    let (c, p) = with_call(calls, index);
    let t = c[p].1;
    let id = if t.id is None {
        match str_member(item, "call_id"@) {
            Some(x) => Some(x),
            None => str_member(item, "id"@),
        }
    } else {
        t.id
    };
    let name = if t.name is None {
        str_member(item, "name"@)
    } else {
        t.name
    };
    c.update(p, (index, CallView { id, name, ..t }))
}

/// Starts a call once its ID and name are known, sending the held-back
/// arguments.
pub open spec fn maybe_start(calls: Seq<(u32, CallView)>, index: u32, events: Seq<Event>) -> (Seq<(u32, CallView)>, Seq<Event>) {
    let (c, p) = with_call(calls, index);
    let t = c[p].1;
    if t.started || t.id is None || t.name is None {
        (c, events)
    } else {
        (
            c.update(p, (index, CallView { started: true, pending: seq![], ..t })),
            events.push(Event::ToolCallStart { choice_index: 0, tool_call_index: index, id: t.id->0, name: t.name->0 })
                + arg_events(0, index, t.pending),
        )
    }
}

pub open spec fn any_started(calls: Seq<(u32, CallView)>) -> bool {
    exists|i: int| 0 <= i < calls.len() && (#[trigger] calls[i]).1.started
}

pub open spec fn close_calls(calls: Seq<(u32, CallView)>) -> Seq<(u32, CallView)> {
    calls.map_values(
        |e: (u32, CallView)|
            if e.1.started && !e.1.ended {
                (e.0, CallView { ended: true, ..e.1 })
            } else {
                e
            },
    )
}

pub open spec fn close_events(calls: Seq<(u32, CallView)>) -> Seq<Event>
    decreases calls.len(),
{
    if calls.len() == 0 {
        seq![]
    } else {
        let e = calls.last();
        close_events(calls.drop_last()) + if e.1.started && !e.1.ended {
            seq![Event::ToolCallEnd { choice_index: 0, tool_call_index: e.0 }]
        } else {
            seq![]
        }
    }
}

pub type RStep = (ResponsesState, Result<Seq<Event>, Seq<char>>);

/// A function call item has arrived.
pub open spec fn item_added(s: ResponsesState, v: Json, events: Seq<Event>) -> RStep {
    let item = v.at("item"@);
    if item.at("type"@) != Json::Str("function_call"@) {
        (s, Ok(events))
    } else {
        let index = output_index(v);
        let (c, e) = maybe_start(update_meta(s.calls, index, item), index, events);
        (ResponsesState { calls: c, ..s }, Ok(e))
    }
}

/// A fragment of a call's arguments: sent at once if the call has started,
/// else held back.
pub open spec fn arguments_delta(s: ResponsesState, v: Json, events: Seq<Event>) -> RStep {
    let index = output_index(v);
    let delta = str_or(v.at("delta"@), seq![]);
    if delta.len() == 0 {
        (s, Ok(events))
    } else {
        let (c, p) = with_call(s.calls, index);
        let t = c[p].1;
        if t.started {
            (
                ResponsesState { calls: c.update(p, (index, CallView { saw_delta: true, ..t })), ..s },
                Ok(
                    events.push(
                        Event::ToolCallArgumentsDelta { choice_index: 0, tool_call_index: index, arguments_delta: delta },
                    ),
                ),
            )
        } else {
            let c1 = c.update(p, (index, CallView { saw_delta: true, pending: t.pending.push(delta), ..t }));
            let (c2, e) = maybe_start(c1, index, events);
            (ResponsesState { calls: c2, ..s }, Ok(e))
        }
    }
}

/// A function call item is complete: it must have started; its final
/// arguments are sent if no fragment came; then it ends.
pub open spec fn item_done(s: ResponsesState, v: Json, events: Seq<Event>) -> RStep {
    let item = v.at("item"@);
    if item.at("type"@) != Json::Str("function_call"@) {
        (s, Ok(events))
    } else {
        let index = output_index(v);
        let (c, e) = maybe_start(update_meta(s.calls, index, item), index, events);
        let p = key_pos(keys_of(c), index);
        let t = c[p].1;
        if !t.started {
            (
                ResponsesState { calls: c, ..s },
                Err("OpenAI Responses function call "@ + decimal(index as nat) + " ended without call_id and name"@),
            )
        } else {
            let e1 = match non_empty(item.at("arguments"@)) {
                Some(a) => if !t.saw_delta {
                    e.push(Event::ToolCallArgumentsDelta { choice_index: 0, tool_call_index: index, arguments_delta: a })
                } else {
                    e
                },
                None => e,
            };
            if t.ended {
                (ResponsesState { calls: c, ..s }, Ok(e1))
            } else {
                (
                    ResponsesState { calls: c.update(p, (index, CallView { ended: true, ..t })), ..s },
                    Ok(e1.push(Event::ToolCallEnd { choice_index: 0, tool_call_index: index })),
                )
            }
        }
    }
}

/// The response is complete: started calls end, the finish is sent once
/// (a tool call finish where any call started), then `ResponseEnd`.
pub open spec fn finish_response(s: ResponsesState, response: Json, events: Seq<Event>) -> RStep {
    let usage = spec_parse_usage(response.at("usage"@));
    let e1 = events + close_events(s.calls);
    let closed = close_calls(s.calls);
    let raw = raw_reason(response);
    let e2 = if s.finished {
        e1
    } else {
        e1.push(
            Event::Finish {
                choice_index: 0,
                reason: if any_started(s.calls) {
                    FinishReason::ToolCall
                } else {
                    spec_finish_reason(raw)
                },
                raw_finish_reason: Some(raw),
            },
        )
    };
    (
        ResponsesState { calls: closed, finished: true, ended: true, ..s },
        Ok(e2.push(Event::ResponseEnd { usage })),
    )
}

/// One `data:` payload: the next state and the events, or the message of
/// the error (`StreamInterrupted`, 502).
pub open spec fn decode_step(s: ResponsesState, data: Seq<char>) -> RStep {
    if s.ended {
        (s, Ok(seq![]))
    } else {
        match json_parse_result(data) {
            Err(m) => (s, Err("Failed to parse OpenAI Responses streaming JSON response: "@ + m)),
            Ok(v) => {
                let response = match v.get("response"@) {
                    Some(r) => r,
                    None => v,
                };
                let start = if s.started {
                    seq![]
                } else {
                    seq![
                        Event::ResponseStart {
                            response_id: str_member(response, "id"@),
                            model: str_or(response.at("model"@), s.model),
                        },
                    ]
                };
                let s1 = ResponsesState { started: true, ..s };
                let t = str_or(v.at("type"@), seq![]);
                if t == "response.output_text.delta"@ {
                    (
                        s1,
                        Ok(
                            match non_empty(v.at("delta"@)) {
                                Some(d) => start.push(Event::TextDelta { choice_index: 0, text: d }),
                                None => start,
                            },
                        ),
                    )
                } else if t == "response.reasoning_summary_text.delta"@ {
                    (
                        s1,
                        Ok(
                            match non_empty(v.at("delta"@)) {
                                Some(d) => start.push(Event::ThinkingDelta { choice_index: 0, text: d }),
                                None => start,
                            },
                        ),
                    )
                } else if t == "response.output_item.added"@ {
                    item_added(s1, v, start)
                } else if t == "response.function_call_arguments.delta"@ {
                    arguments_delta(s1, v, start)
                } else if t == "response.output_item.done"@ {
                    item_done(s1, v, start)
                } else if t == "response.completed"@ || t == "response.incomplete"@ {
                    finish_response(s1, response, start)
                } else if t == "response.failed"@ {
                    (s1, Err(str_or(v.at("response"@).at("error"@).at("message"@), "OpenAI Responses response failed"@)))
                } else {
                    (s1, Ok(start))
                }
            },
        }
    }
}

/// The end of input: started calls end, then `ResponseEnd` without usage.
pub open spec fn end_step(s: ResponsesState) -> RStep {
    if s.ended {
        (s, Ok(seq![]))
    } else {
        (
            ResponsesState { calls: close_calls(s.calls), ended: true, ..s },
            Ok(close_events(s.calls).push(Event::ResponseEnd { usage: None })),
        )
    }
}

proof fn lemma_with_call(calls: Seq<(u32, CallView)>, index: u32)
    ensures
        0 <= with_call(calls, index).1 < with_call(calls, index).0.len(),
        with_call(calls, index).0[with_call(calls, index).1].0 == index,
        key_pos(keys_of(with_call(calls, index).0), index) == with_call(calls, index).1,
        key_pos(keys_of(calls), index) >= 0 ==> with_call(calls, index).0 == calls,
{
    lemma_key_pos(keys_of(calls), index);
    let p = key_pos(keys_of(calls), index);
    if p >= 0 {
        assert(keys_of(calls)[p] == calls[p].0);
    } else {
        let c = calls.push((index, fresh_call()));
        assert(keys_of(c).drop_last() =~= keys_of(calls));
        assert(keys_of(c).last() == index);
    }
}

proof fn lemma_keys_update(c: Seq<(u32, CallView)>, p: int, x: CallView)
    requires
        0 <= p < c.len(),
    ensures
        keys_of(c.update(p, (c[p].0, x))) == keys_of(c),
{
    assert(keys_of(c.update(p, (c[p].0, x))) =~= keys_of(c));
}

#[derive(Debug)]
struct CallState {
    id: Option<String>,
    name: Option<String>,
    pending_arguments: Vec<String>,
    started: bool,
    ended: bool,
    saw_argument_delta: bool,
}

spec fn strings_view(v: Seq<String>) -> Seq<Seq<char>> {
    v.map_values(|s: String| s@)
}

spec fn call_view(t: CallState) -> CallView {
    CallView {
        id: crate::text::opt_view(t.id),
        name: crate::text::opt_view(t.name),
        pending: strings_view(t.pending_arguments@),
        started: t.started,
        ended: t.ended,
        saw_delta: t.saw_argument_delta,
    }
}

spec fn calls_view(v: Seq<(u32, CallState)>) -> Seq<(u32, CallView)> {
    v.map_values(|e: (u32, CallState)| (e.0, call_view(e.1)))
}

/// Decodes Responses stream events into neutral events.
#[derive(Debug)]
pub struct OpenAIResponsesStreamDecoder {
    fallback_model: String,
    response_started: bool,
    response_ended: bool,
    finished: bool,
    calls: Vec<(u32, CallState)>,
}

impl View for OpenAIResponsesStreamDecoder {
    type V = ResponsesState;

    closed spec fn view(&self) -> ResponsesState {
        ResponsesState {
            model: self.fallback_model@,
            started: self.response_started,
            ended: self.response_ended,
            finished: self.finished,
            calls: calls_view(self.calls@),
        }
    }
}

fn text_member(v: &JsonValue, key: &str) -> (r: Option<String>)
    ensures
        crate::text::opt_view(r) == str_member(v@, key@),
{
    match v.get(key) {
        Some(JsonValue::Str(s)) => Some(s.clone()),
        _ => None,
    }
}

fn str_or_text(v: &JsonValue, key: &str, default: &str) -> (r: String)
    ensures
        r@ == str_or(v@.at(key@), default@),
{
    match v.get(key) {
        Some(JsonValue::Str(s)) => s.clone(),
        _ => owned(default),
    }
}

fn output_index_of(v: &JsonValue) -> (r: u32)
    ensures
        r == output_index(v@),
{
    match token_of(v, "output_index") {
        Some(i) => i,
        None => 0,
    }
}

fn non_empty_member(v: &JsonValue, key: &str) -> (r: Option<String>)
    ensures
        crate::text::opt_view(r) == non_empty(v@.at(key@)),
{
    match v.get(key) {
        Some(JsonValue::Str(s)) => if chars_of(s.as_str()).len() > 0 {
            Some(s.clone())
        } else {
            None
        },
        _ => None,
    }
}

impl OpenAIResponsesStreamDecoder {
    pub fn new(fallback_model: String) -> (r: Self)
        ensures
            r@ == (ResponsesState { model: fallback_model@, started: false, ended: false, finished: false, calls: seq![] }),
    {
        let r = OpenAIResponsesStreamDecoder {
            fallback_model,
            response_started: false,
            response_ended: false,
            finished: false,
            calls: Vec::new(),
        };
        assert(calls_view(r.calls@) =~= seq![]);
        r
    }

    /// The position of the call under `index`, creating it where missing.
    fn call_position(&mut self, index: u32) -> (r: usize)
        ensures
            r < final(self).calls@.len(),
            final(self)@ == (ResponsesState { calls: with_call(old(self)@.calls, index).0, ..old(self)@ }),
            r as int == with_call(old(self)@.calls, index).1,
    {
        let ghost cv = self@.calls;
        proof {
            assert(keys_of(cv) =~= keys_of(self.calls@));
        }
        match key_index(&self.calls, index) {
            Some(p) => p,
            None => {
                let ghost before = self.calls@;
                self.calls.push(
                    (
                        index,
                        CallState {
                            id: None,
                            name: None,
                            pending_arguments: Vec::new(),
                            started: false,
                            ended: false,
                            saw_argument_delta: false,
                        },
                    ),
                );
                proof {
                    assert(strings_view(Seq::<String>::empty()) =~= seq![]);
                    assert(calls_view(self.calls@) =~= cv.push((index, fresh_call())));
                }
                self.calls.len() - 1
            },
        }
    }

    fn update_metadata(&mut self, index: u32, item: &JsonValue)
        ensures
            final(self)@ == (ResponsesState { calls: update_meta(old(self)@.calls, index, item@), ..old(self)@ }),
    {
        let p = self.call_position(index);
        let ghost c = self@.calls;
        let ghost e0 = self.calls@;
        let (k, state) = self.calls.remove(p);
        proof {
            assert(c[p as int] == (k, call_view(state)));
            let w = with_call(old(self)@.calls, index);
            lemma_key_pos(keys_of(old(self)@.calls), index);
            if key_pos(keys_of(old(self)@.calls), index) >= 0 {
                assert(keys_of(old(self)@.calls)[p as int] == old(self)@.calls[p as int].0);
            }
            assert(k == index);
        }
        let CallState { id, name, pending_arguments, started, ended, saw_argument_delta } = state;
        let id = match id {
            Some(x) => Some(x),
            None => match text_member(item, "call_id") {
                Some(x) => Some(x),
                None => text_member(item, "id"),
            },
        };
        let name = match name {
            Some(x) => Some(x),
            None => text_member(item, "name"),
        };
        let updated = CallState { id, name, pending_arguments, started, ended, saw_argument_delta };
        self.calls.insert(p, (k, updated));
        proof {
            assert(self.calls@ =~= e0.update(p as int, (k, updated)));
            assert(calls_view(self.calls@) =~= c.update(p as int, (k, call_view(updated))));
        }
    }

    fn start_call(&mut self, index: u32, events: &mut Vec<NeutralStreamEvent>)
        ensures
            final(self)@ == (ResponsesState { calls: maybe_start(old(self)@.calls, index, events_view(old(events)@)).0, ..old(self)@ }),
            events_view(final(events)@) == maybe_start(old(self)@.calls, index, events_view(old(events)@)).1,
    {
        let p = self.call_position(index);
        let ghost c = self@.calls;
        let ghost e0 = self.calls@;
        let (k, state) = self.calls.remove(p);
        proof {
            assert(c[p as int] == (k, call_view(state)));
            lemma_key_pos(keys_of(old(self)@.calls), index);
            if key_pos(keys_of(old(self)@.calls), index) >= 0 {
                assert(keys_of(old(self)@.calls)[p as int] == old(self)@.calls[p as int].0);
            }
            assert(k == index);
        }
        if state.started || state.id.is_none() || state.name.is_none() {
            self.calls.insert(p, (k, state));
            proof {
                assert(self.calls@ =~= e0);
            }
            return;
        }
        let CallState { id, name, pending_arguments, started, ended, saw_argument_delta } = state;
        let idv = id.unwrap();
        let namev = name.unwrap();
        let e = NeutralStreamEvent::ToolCallStart { choice_index: 0, tool_call_index: index, id: idv.clone(), name: namev.clone() };
        proof {
            lemma_events_push(events@, e);
        }
        events.push(e);
        let ghost base = events_view(events@);
        let ghost pv = strings_view(pending_arguments@);
        let mut j: usize = 0;
        while j < pending_arguments.len()
            invariant
                j <= pending_arguments@.len(),
                pv == strings_view(pending_arguments@),
                pv.len() == pending_arguments@.len(),
                events_view(events@) == base + arg_events(0, index, pv.take(j as int)),
            decreases pending_arguments.len() - j,
        {
            let e = NeutralStreamEvent::ToolCallArgumentsDelta {
                choice_index: 0,
                tool_call_index: index,
                arguments_delta: pending_arguments[j].clone(),
            };
            proof {
                lemma_events_push(events@, e);
                assert(pv[j as int] == pending_arguments@[j as int]@);
                assert(arg_events(0, index, pv.take(j as int + 1)) =~= arg_events(0, index, pv.take(j as int)).push(e@));
            }
            events.push(e);
            j += 1;
        }
        assert(pv.take(j as int) =~= pv);
        let done = CallState {
            id: Some(idv),
            name: Some(namev),
            pending_arguments: Vec::new(),
            started: true,
            ended,
            saw_argument_delta,
        };
        self.calls.insert(p, (k, done));
        proof {
            assert(self.calls@ =~= e0.update(p as int, (k, done)));
            assert(strings_view(Seq::<String>::empty()) =~= seq![]);
            assert(calls_view(self.calls@) =~= c.update(p as int, (k, call_view(done))));
        }
    }

    fn close_started(&mut self, events: &mut Vec<NeutralStreamEvent>)
        ensures
            final(self)@ == (ResponsesState { calls: close_calls(old(self)@.calls), ..old(self)@ }),
            events_view(final(events)@) == events_view(old(events)@) + close_events(old(self)@.calls),
    {
        let ghost cv = self@.calls;
        let ghost base = events_view(events@);
        assert(cv.take(0) =~= seq![]);
        let mut j: usize = 0;
        while j < self.calls.len()
            invariant
                j <= self.calls@.len(),
                cv.len() == self.calls@.len(),
                cv == old(self)@.calls,
                base == events_view(old(events)@),
                forall|k: int| 0 <= k < j ==> #[trigger] calls_view(self.calls@)[k] == close_calls(cv)[k],
                forall|k: int| j <= k < cv.len() ==> #[trigger] calls_view(self.calls@)[k] == cv[k],
                events_view(events@) == base + close_events(cv.take(j as int)),
                self.fallback_model@ == old(self)@.model,
                self.response_started == old(self)@.started,
                self.response_ended == old(self)@.ended,
                self.finished == old(self)@.finished,
            decreases self.calls.len() - j,
        {
            let ghost before = self.calls@;
            let (key, state) = self.calls.remove(j);
            proof {
                assert(calls_view(before)[j as int] == cv[j as int]);
                assert(cv[j as int] == (key, call_view(state)));
            }
            let close = state.started && !state.ended;
            if close {
                let e = NeutralStreamEvent::ToolCallEnd { choice_index: 0, tool_call_index: key };
                proof {
                    lemma_events_push(events@, e);
                }
                events.push(e);
            }
            let CallState { id, name, pending_arguments, started, ended, saw_argument_delta } = state;
            let new_state = CallState { id, name, pending_arguments, started, ended: ended || close, saw_argument_delta };
            self.calls.insert(j, (key, new_state));
            proof {
                assert(cv.take(j as int + 1).drop_last() =~= cv.take(j as int));
                assert(calls_view(self.calls@)[j as int] == close_calls(cv)[j as int]);
                assert forall|k: int| 0 <= k < self.calls@.len() && k != j implies #[trigger] calls_view(self.calls@)[k]
                    == calls_view(before)[k] by {
                    assert(self.calls@[k] == before[k]);
                }
            }
            j += 1;
        }
        proof {
            assert(cv.take(j as int) =~= cv);
            assert(calls_view(self.calls@) =~= close_calls(cv));
        }
    }

    fn any_call_started(&self) -> (r: bool)
        ensures
            r == any_started(self@.calls),
    {
        let ghost cv = self@.calls;
        let mut i: usize = 0;
        while i < self.calls.len()
            invariant
                i <= self.calls@.len(),
                cv == calls_view(self.calls@),
                cv.len() == self.calls@.len(),
                forall|j: int| 0 <= j < i ==> !(#[trigger] cv[j]).1.started,
            decreases self.calls.len() - i,
        {
            assert(cv[i as int] == (self.calls@[i as int].0, call_view(self.calls@[i as int].1)));
            if self.calls[i].1.started {
                return true;
            }
            i += 1;
        }
        false
    }

    fn item_added_of(&mut self, v: &JsonValue, events: &mut Vec<NeutralStreamEvent>)
        ensures
            final(self)@ == item_added(old(self)@, v@, events_view(old(events)@)).0,
            item_added(old(self)@, v@, events_view(old(events)@)).1 == Ok::<Seq<Event>, Seq<char>>(events_view(final(events)@)),
    {
        let null = JsonValue::Null;
        let item = match v.get("item") {
            Some(x) => x,
            None => &null,
        };
        let is_call = match item.get("type") {
            Some(t) => crate::json::json_str_is(t, "function_call"),
            None => false,
        };
        if !is_call {
            return;
        }
        let index = output_index_of(v);
        self.update_metadata(index, item);
        self.start_call(index, events);
    }

    fn arguments_delta_of(&mut self, v: &JsonValue, events: &mut Vec<NeutralStreamEvent>)
        ensures
            final(self)@ == arguments_delta(old(self)@, v@, events_view(old(events)@)).0,
            arguments_delta(old(self)@, v@, events_view(old(events)@)).1 == Ok::<Seq<Event>, Seq<char>>(
                events_view(final(events)@),
            ),
    {
        proof {
            reveal_strlit("");
            assert(""@ =~= Seq::<char>::empty());
        }
        let index = output_index_of(v);
        let delta = str_or_text(v, "delta", "");
        if chars_of(delta.as_str()).len() == 0 {
            return;
        }
        let p = self.call_position(index);
        let ghost c = self@.calls;
        let ghost e0 = self.calls@;
        let (k, state) = self.calls.remove(p);
        proof {
            assert(c[p as int] == (k, call_view(state)));
            lemma_key_pos(keys_of(old(self)@.calls), index);
            if key_pos(keys_of(old(self)@.calls), index) >= 0 {
                assert(keys_of(old(self)@.calls)[p as int] == old(self)@.calls[p as int].0);
            }
            assert(k == index);
        }
        let CallState { id, name, pending_arguments, started, ended, saw_argument_delta } = state;
        if started {
            let s2 = CallState { id, name, pending_arguments, started, ended, saw_argument_delta: true };
            self.calls.insert(p, (k, s2));
            proof {
                assert(self.calls@ =~= e0.update(p as int, (k, s2)));
                assert(calls_view(self.calls@) =~= c.update(p as int, (k, call_view(s2))));
            }
            let e = NeutralStreamEvent::ToolCallArgumentsDelta { choice_index: 0, tool_call_index: index, arguments_delta: delta };
            proof {
                lemma_events_push(events@, e);
            }
            events.push(e);
            return;
        }
        let mut pending = pending_arguments;
        let ghost pb = pending@;
        pending.push(delta);
        proof {
            assert(strings_view(pending@) =~= strings_view(pb).push(pending@.last()@));
        }
        let s2 = CallState { id, name, pending_arguments: pending, started, ended, saw_argument_delta: true };
        self.calls.insert(p, (k, s2));
        proof {
            assert(self.calls@ =~= e0.update(p as int, (k, s2)));
            assert(calls_view(self.calls@) =~= c.update(p as int, (k, call_view(s2))));
        }
        self.start_call(index, events);
    }

    fn item_done_of(&mut self, v: &JsonValue, events: &mut Vec<NeutralStreamEvent>) -> (r: Result<(), String>)
        ensures
            final(self)@ == item_done(old(self)@, v@, events_view(old(events)@)).0,
            match r {
                Ok(()) => item_done(old(self)@, v@, events_view(old(events)@)).1 == Ok::<Seq<Event>, Seq<char>>(
                    events_view(final(events)@),
                ),
                Err(m) => item_done(old(self)@, v@, events_view(old(events)@)).1 == Err::<Seq<Event>, Seq<char>>(m@),
            },
    {
        let null = JsonValue::Null;
        let item = match v.get("item") {
            Some(x) => x,
            None => &null,
        };
        let is_call = match item.get("type") {
            Some(t) => crate::json::json_str_is(t, "function_call"),
            None => false,
        };
        if !is_call {
            return Ok(());
        }
        let index = output_index_of(v);
        self.update_metadata(index, item);
        self.start_call(index, events);
        proof {
            let c0 = old(self)@.calls;
            lemma_with_call(c0, index);
            let w = with_call(c0, index);
            let c1 = update_meta(c0, index, item@);
            lemma_keys_update(w.0, w.1, c1[w.1].1);
            assert(c1 == w.0.update(w.1, (w.0[w.1].0, c1[w.1].1)));
            lemma_with_call(c1, index);
            let c2 = maybe_start(c1, index, events_view(old(events)@)).0;
            if c2 != c1 {
                lemma_keys_update(c1, w.1, c2[w.1].1);
                assert(c2 == c1.update(w.1, (c1[w.1].0, c2[w.1].1)));
            }
            lemma_with_call(c2, index);
        }
        let p = self.call_position(index);
        let ghost c = self@.calls;
        let ghost e0 = self.calls@;
        proof {
            lemma_key_pos(keys_of(c), index);
        }
        if !self.calls[p].1.started {
            let mut buf: Vec<char> = Vec::new();
            push_str(&mut buf, "OpenAI Responses function call ");
            push_decimal(&mut buf, index as u64);
            push_str(&mut buf, " ended without call_id and name");
            return Err(string_from_chars(buf.as_slice()));
        }
        if !self.calls[p].1.saw_argument_delta {
            match non_empty_member(item, "arguments") {
                Some(a) => {
                    let e = NeutralStreamEvent::ToolCallArgumentsDelta { choice_index: 0, tool_call_index: index, arguments_delta: a };
                    proof {
                        lemma_events_push(events@, e);
                    }
                    events.push(e);
                },
                None => {},
            }
        }
        if !self.calls[p].1.ended {
            let (k, state) = self.calls.remove(p);
            let CallState { id, name, pending_arguments, started, ended, saw_argument_delta } = state;
            let s2 = CallState { id, name, pending_arguments, started, ended: true, saw_argument_delta };
            self.calls.insert(p, (k, s2));
            proof {
                assert(self.calls@ =~= e0.update(p as int, (k, s2)));
                assert(calls_view(self.calls@) =~= c.update(p as int, (k, call_view(s2))));
            }
            let e = NeutralStreamEvent::ToolCallEnd { choice_index: 0, tool_call_index: index };
            proof {
                lemma_events_push(events@, e);
            }
            events.push(e);
        }
        Ok(())
    }

    fn finish_response_of(&mut self, response: &JsonValue, events: &mut Vec<NeutralStreamEvent>)
        ensures
            final(self)@ == finish_response(old(self)@, response@, events_view(old(events)@)).0,
            finish_response(old(self)@, response@, events_view(old(events)@)).1 == Ok::<Seq<Event>, Seq<char>>(
                events_view(final(events)@),
            ),
    {
        let usage = match response.get("usage") {
            Some(u) => parse_usage(u),
            None => parse_usage(&JsonValue::Null),
        };
        let started_any = self.any_call_started();
        self.close_started(events);
        if !self.finished {
            let status = str_or_text(response, "status", "completed");
            let raw = match response.get("incomplete_details") {
                Some(d) => match d.get("reason") {
                    Some(JsonValue::Str(r)) => r.clone(),
                    _ => status,
                },
                None => status,
            };
            let reason = if started_any {
                FinishReason::ToolCall
            } else {
                normalize_finish_reason(raw.as_str())
            };
            let e = NeutralStreamEvent::Finish { choice_index: 0, reason, raw_finish_reason: Some(raw) };
            proof {
                lemma_events_push(events@, e);
            }
            events.push(e);
            self.finished = true;
        }
        self.response_ended = true;
        let e = NeutralStreamEvent::ResponseEnd { usage };
        proof {
            lemma_events_push(events@, e);
        }
        events.push(e);
    }

    /// Decodes one `data:` payload; see `decode_step`.
    pub fn decode_data(&mut self, data: &str) -> (r: Result<Vec<NeutralStreamEvent>, ProxyError>)
        ensures
            final(self)@ == decode_step(old(self)@, data@).0,
            r matches Ok(events) ==> decode_step(old(self)@, data@).1 == Ok::<Seq<Event>, Seq<char>>(
                events_view(events@),
            ),
            r matches Err(e) ==> decode_step(old(self)@, data@).1 == Err::<Seq<Event>, Seq<char>>(e.message@)
                && e.category == ErrorCategory::StreamInterrupted && e.status_code == 502,
    {
        if self.response_ended {
            let v: Vec<NeutralStreamEvent> = Vec::new();
            assert(events_view(v@) =~= seq![]);
            return Ok(v);
        }
        let value = match parse_json(data) {
            Ok(v) => v,
            Err(m) => {
                let mut buf: Vec<char> = Vec::new();
                push_str(&mut buf, "Failed to parse OpenAI Responses streaming JSON response: ");
                push_str(&mut buf, m.as_str());
                let text = string_from_chars(buf.as_slice());
                return Err(ProxyError::new(ErrorCategory::StreamInterrupted, text.as_str(), 502));
            },
        };
        let response = match value.get("response") {
            Some(r) => r,
            None => &value,
        };
        let mut events: Vec<NeutralStreamEvent> = Vec::new();
        assert(events_view(events@) =~= seq![]);
        if !self.response_started {
            let model = str_or_text(response, "model", self.fallback_model.as_str());
            let e = NeutralStreamEvent::ResponseStart { response_id: text_member(response, "id"), model };
            proof {
                lemma_events_push(events@, e);
            }
            events.push(e);
        }
        self.response_started = true;
        proof {
            reveal_strlit("");
            assert(""@ =~= Seq::<char>::empty());
        }
        let t = str_or_text(&value, "type", "");
        let tc = chars_of(t.as_str());
        let ts = tc.as_slice();
        if chars_eq_str(ts, "response.output_text.delta") {
            match non_empty_member(&value, "delta") {
                Some(d) => {
                    let e = NeutralStreamEvent::TextDelta { choice_index: 0, text: d };
                    proof {
                        lemma_events_push(events@, e);
                    }
                    events.push(e);
                },
                None => {},
            }
        } else if chars_eq_str(ts, "response.reasoning_summary_text.delta") {
            match non_empty_member(&value, "delta") {
                Some(d) => {
                    let e = NeutralStreamEvent::ThinkingDelta { choice_index: 0, text: d };
                    proof {
                        lemma_events_push(events@, e);
                    }
                    events.push(e);
                },
                None => {},
            }
        } else if chars_eq_str(ts, "response.output_item.added") {
            self.item_added_of(&value, &mut events);
        } else if chars_eq_str(ts, "response.function_call_arguments.delta") {
            self.arguments_delta_of(&value, &mut events);
        } else if chars_eq_str(ts, "response.output_item.done") {
            match self.item_done_of(&value, &mut events) {
                Ok(()) => {},
                Err(m) => {
                    return Err(ProxyError::new(ErrorCategory::StreamInterrupted, m.as_str(), 502));
                },
            }
        } else if chars_eq_str(ts, "response.completed") || chars_eq_str(ts, "response.incomplete") {
            self.finish_response_of(response, &mut events);
        } else if chars_eq_str(ts, "response.failed") {
            let null = JsonValue::Null;
            let resp = match value.get("response") {
                Some(r) => r,
                None => &null,
            };
            let err = match resp.get("error") {
                Some(e) => e,
                None => &null,
            };
            let m = str_or_text(err, "message", "OpenAI Responses response failed");
            return Err(ProxyError::new(ErrorCategory::StreamInterrupted, m.as_str(), 502));
        }
        Ok(events)
    }

    /// Ends the stream at end of input.
    pub fn finish(&mut self) -> (r: Vec<NeutralStreamEvent>)
        ensures
            final(self)@ == end_step(old(self)@).0,
            end_step(old(self)@).1 == Ok::<Seq<Event>, Seq<char>>(events_view(r@)),
    {
        let mut events: Vec<NeutralStreamEvent> = Vec::new();
        assert(events_view(events@) =~= seq![]);
        if self.response_ended {
            return events;
        }
        self.close_started(&mut events);
        self.response_ended = true;
        let e = NeutralStreamEvent::ResponseEnd { usage: None };
        proof {
            lemma_events_push(events@, e);
        }
        events.push(e);
        events
    }
}

/// Law: once the response has ended, the decoder stays ended and sends
/// nothing more, whatever arrives.
pub proof fn lemma_responses_end_is_final(s: ResponsesState, data: Seq<char>)
    requires
        s.ended,
    ensures
        decode_step(s, data) == (s, Ok::<Seq<Event>, Seq<char>>(Seq::<Event>::empty())),
        end_step(s) == (s, Ok::<Seq<Event>, Seq<char>>(Seq::<Event>::empty())),
{
}

/// Law: the end of input closes every started call and ends with exactly
/// one `ResponseEnd`; ending again sends nothing.
pub proof fn lemma_responses_end_once(s: ResponsesState, later: Seq<char>)
    requires
        !s.ended,
    ensures
        end_step(s).0.ended,
        end_step(s).1 == Ok::<Seq<Event>, Seq<char>>(close_events(s.calls).push(Event::ResponseEnd { usage: None })),
        decode_step(end_step(s).0, later).1 == Ok::<Seq<Event>, Seq<char>>(Seq::<Event>::empty()),
        end_step(end_step(s).0).1 == Ok::<Seq<Event>, Seq<char>>(Seq::<Event>::empty()),
{
}

} // verus!
