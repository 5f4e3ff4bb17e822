//! Decoding OpenAI Chat Completions server-sent events.

use crate::domain::error::{ErrorCategory, ProxyError};
use crate::domain::response::{events_view, Event, NeutralStreamEvent, UsageInfo};
use crate::json::{items_view, json_parse_result, lemma_items_view, parse_json, Json, JsonValue};
use crate::providers::gemini::stream::{contains_u32, lemma_events_push, lemma_push_to_set};
use crate::providers::openai::{normalize_finish_reason, parse_index, parse_usage, spec_finish_reason, spec_index, spec_parse_usage};
use crate::text::{chars_eq_str, chars_of, decimal, push_decimal, push_str, string_from_chars, trim, trim_chars};
use vstd::prelude::*;

verus! {

/// What the decoder knows of one tool call.
#[verifier::ext_equal]
pub struct ToolView {
    pub id: Option<Seq<char>>,
    pub name: Option<Seq<char>>,
    /// Argument fragments received before the call could start.
    pub pending: Seq<Seq<char>>,
    pub started: bool,
    pub ended: bool,
}

/// What an OpenAI stream decoder remembers between chunks.
#[verifier::ext_equal]
pub struct OpenAIState {
    pub model: Seq<char>,
    pub started: bool,
    pub ended: bool,
    /// Tool calls by (choice, tool call index), in the order first seen.
    pub tools: Seq<((u32, u32), ToolView)>,
    pub finished: Set<u32>,
    pub usage: Option<UsageInfo>,
}

/// A chunk being decoded: the state, the events so far, the finish reasons
/// seen (sent after the content), and the error that stopped it, if any.
#[verifier::ext_equal]
pub struct Acc {
    pub st: OpenAIState,
    pub events: Seq<Event>,
    pub finishes: Seq<(u32, Seq<char>)>,
    pub error: Option<Seq<char>>,
}

pub open spec fn fresh_tool() -> ToolView {
    ToolView { id: None, name: None, pending: seq![], started: false, ended: false }
}

/// Position of the first tool call under `key`, or -1.
pub open spec fn tool_pos(tools: Seq<((u32, u32), ToolView)>, key: (u32, u32)) -> int
    decreases tools.len(),
{
    if tools.len() == 0 {
        -1
    } else if tool_pos(tools.drop_last(), key) >= 0 {
        tool_pos(tools.drop_last(), key)
    } else if tools.last().0 == key {
        tools.len() - 1
    } else {
        -1
    }
}

/// A non-empty string value.
pub open spec fn non_empty(v: Json) -> Option<Seq<char>> {
    match v {
        Json::Str(s) => if s.len() > 0 {
            Some(s)
        } else {
            None
        },
        _ => None,
    }
}

pub open spec fn tool_message(ci: u32, ti: u32, tail: Seq<char>) -> Seq<char> {
    "OpenAI tool call choice "@ + decimal(ci as nat) + " index "@ + decimal(ti as nat) + tail
}

pub open spec fn arg_events(ci: u32, ti: u32, pending: Seq<Seq<char>>) -> Seq<Event> {
    pending.map_values(|a: Seq<char>| Event::ToolCallArgumentsDelta { choice_index: ci, tool_call_index: ti, arguments_delta: a })
}

/// One tool-call delta: the call is recorded the first time it is seen; its
/// id and name are taken until it starts; it starts once both are known,
/// sending the arguments held back; later arguments are sent as they come.
/// Data for an ended call is an error.
pub open spec fn tool_delta(a: Acc, ci: u32, ti: u32, tc: Json) -> Acc {
    let key = (ci, ti);
    let p = tool_pos(a.st.tools, key);
    let tools = if p >= 0 {
        a.st.tools
    } else {
        a.st.tools.push((key, fresh_tool()))
    };
    let i = if p >= 0 {
        p
    } else {
        a.st.tools.len() as int
    };
    let t = tools[i].1;
    let args = match tc.at("function"@).at("arguments"@) {
        Json::Str(s) => Some(s),
        _ => None,
    };
    if t.ended {
        Acc {
            st: OpenAIState { tools, ..a.st },
            error: Some(tool_message(ci, ti, " received data after it ended"@)),
            ..a
        }
    } else if t.started {
        Acc {
            st: OpenAIState { tools, ..a.st },
            events: match args {
                Some(s) => a.events.push(
                    Event::ToolCallArgumentsDelta { choice_index: ci, tool_call_index: ti, arguments_delta: s },
                ),
                None => a.events,
            },
            ..a
        }
    } else {
        let t1 = ToolView {
            id: match non_empty(tc.at("id"@)) {
                Some(x) => Some(x),
                None => t.id,
            },
            name: match non_empty(tc.at("function"@).at("name"@)) {
                Some(x) => Some(x),
                None => t.name,
            },
            pending: match args {
                Some(s) => t.pending.push(s),
                None => t.pending,
            },
            ..t
        };
        if t1.id is Some && t1.name is Some {
            Acc {
                st: OpenAIState {
                    tools: tools.update(i, (key, ToolView { started: true, pending: seq![], ..t1 })),
                    ..a.st
                },
                events: a.events.push(
                    Event::ToolCallStart { choice_index: ci, tool_call_index: ti, id: t1.id->0, name: t1.name->0 },
                ) + arg_events(ci, ti, t1.pending),
                ..a
            }
        } else {
            Acc { st: OpenAIState { tools: tools.update(i, (key, t1)), ..a.st }, ..a }
        }
    }
}

pub open spec fn tool_calls_fold(a: Acc, calls: Seq<Json>, ci: u32) -> Acc
    decreases calls.len(),
{
    if calls.len() == 0 {
        a
    } else {
        let b = tool_calls_fold(a, calls.drop_last(), ci);
        if b.error is Some {
            b
        } else {
            tool_delta(b, ci, spec_index(calls.last(), calls.len() - 1), calls.last())
        }
    }
}

pub open spec fn array_at(v: Json) -> Seq<Json> {
    match v {
        Json::Array(items) => items,
        _ => seq![],
    }
}

/// One choice of a chunk: its text, its reasoning, its tool calls, and its
/// finish reason (held for the end of the chunk).
pub open spec fn choice_step(a: Acc, choice: Json, position: int) -> Acc {
    let ci = spec_index(choice, position);
    let delta = choice.at("delta"@);
    let e1 = match non_empty(delta.at("content"@)) {
        Some(t) => a.events.push(Event::TextDelta { choice_index: ci, text: t }),
        None => a.events,
    };
    let e2 = match non_empty(delta.at("reasoning_content"@)) {
        Some(t) => e1.push(Event::ThinkingDelta { choice_index: ci, text: t }),
        None => e1,
    };
    let b = tool_calls_fold(Acc { events: e2, ..a }, array_at(delta.at("tool_calls"@)), ci);
    if b.error is Some {
        b
    } else {
        match choice.at("finish_reason"@) {
            Json::Str(r) => Acc { finishes: b.finishes.push((ci, r)), ..b },
            _ => b,
        }
    }
}

pub open spec fn choices_fold(a: Acc, choices: Seq<Json>) -> Acc
    decreases choices.len(),
{
    if choices.len() == 0 {
        a
    } else {
        let b = choices_fold(a, choices.drop_last());
        if b.error is Some {
            b
        } else {
            choice_step(b, choices.last(), choices.len() - 1)
        }
    }
}

pub open spec fn selected(sel: Option<u32>, key: (u32, u32)) -> bool {
    match sel {
        Some(c) => key.0 == c,
        None => true,
    }
}

/// Position of the first selected call that is open but never started, or -1.
pub open spec fn first_unstarted(tools: Seq<((u32, u32), ToolView)>, sel: Option<u32>) -> int
    decreases tools.len(),
{
    if tools.len() == 0 {
        -1
    } else if first_unstarted(tools.drop_last(), sel) >= 0 {
        first_unstarted(tools.drop_last(), sel)
    } else if selected(sel, tools.last().0) && !tools.last().1.ended && !tools.last().1.started {
        tools.len() - 1
    } else {
        -1
    }
}

pub open spec fn closed(e: ((u32, u32), ToolView), sel: Option<u32>) -> ((u32, u32), ToolView) {
    if selected(sel, e.0) {
        (e.0, ToolView { ended: true, ..e.1 })
    } else {
        e
    }
}

pub open spec fn close_all(tools: Seq<((u32, u32), ToolView)>, sel: Option<u32>) -> Seq<((u32, u32), ToolView)> {
    tools.map_values(|e: ((u32, u32), ToolView)| closed(e, sel))
}

pub open spec fn end_events(tools: Seq<((u32, u32), ToolView)>, sel: Option<u32>) -> Seq<Event>
    decreases tools.len(),
{
    if tools.len() == 0 {
        seq![]
    } else {
        let e = tools.last();
        end_events(tools.drop_last(), sel) + if selected(sel, e.0) && !e.1.ended {
            seq![Event::ToolCallEnd { choice_index: e.0.0, tool_call_index: e.0.1 }]
        } else {
            seq![]
        }
    }
}

/// Ends the selected calls (one choice, or all): an error, changing
/// nothing, if one of them never started; else each open one ends.
pub open spec fn close_step(a: Acc, sel: Option<u32>) -> Acc {
    let bad = first_unstarted(a.st.tools, sel);
    if bad >= 0 {
        let key = a.st.tools[bad].0;
        Acc { error: Some(tool_message(key.0, key.1, " ended without both id and name"@)), ..a }
    } else {
        Acc {
            st: OpenAIState { tools: close_all(a.st.tools, sel), ..a.st },
            events: a.events + end_events(a.st.tools, sel),
            ..a
        }
    }
}

/// A finish reason: the choice's calls end, then the finish is sent once
/// per choice.
pub open spec fn finish_step(a: Acc, ci: u32, reason: Seq<char>) -> Acc {
    let b = close_step(a, Some(ci));
    if b.error is Some || b.st.finished.contains(ci) {
        b
    } else {
        Acc {
            st: OpenAIState { finished: b.st.finished.insert(ci), ..b.st },
            events: b.events.push(
                Event::Finish { choice_index: ci, reason: spec_finish_reason(reason), raw_finish_reason: Some(reason) },
            ),
            ..b
        }
    }
}

pub open spec fn finishes_fold(a: Acc, f: Seq<(u32, Seq<char>)>) -> Acc
    decreases f.len(),
{
    if f.len() == 0 {
        a
    } else {
        let b = finishes_fold(a, f.drop_last());
        if b.error is Some {
            b
        } else {
            finish_step(b, f.last().0, f.last().1)
        }
    }
}

/// The end of the response, once: every call ends, then `ResponseEnd`
/// carries the usage.
pub open spec fn end_step(s: OpenAIState) -> (OpenAIState, Result<Seq<Event>, Seq<char>>) {
    if s.ended {
        (s, Ok(seq![]))
    } else {
        let b = close_step(Acc { st: s, events: seq![], finishes: seq![], error: None }, None);
        match b.error {
            Some(m) => (s, Err(m)),
            None => (OpenAIState { ended: true, ..b.st }, Ok(b.events.push(Event::ResponseEnd { usage: s.usage }))),
        }
    }
}

/// One parsed chunk: the response starts, the choices are decoded, the
/// usage is kept, then the held finishes are sent.
pub open spec fn value_step(s: OpenAIState, v: Json) -> (OpenAIState, Result<Seq<Event>, Seq<char>>) {
    let start = if s.started {
        seq![]
    } else {
        seq![
            Event::ResponseStart {
                response_id: match v.at("id"@) {
                    Json::Str(id) => Some(id),
                    _ => None,
                },
                model: match v.at("model"@) {
                    Json::Str(m) => m,
                    _ => s.model,
                },
            },
        ]
    };
    let a0 = Acc { st: OpenAIState { started: true, ..s }, events: start, finishes: seq![], error: None };
    let a1 = choices_fold(a0, array_at(v.at("choices"@)));
    match a1.error {
        Some(m) => (a1.st, Err(m)),
        None => {
            let usage = match spec_parse_usage(v.at("usage"@)) {
                Some(u) => Some(u),
                None => a1.st.usage,
            };
            let a2 = finishes_fold(Acc { st: OpenAIState { usage, ..a1.st }, finishes: seq![], ..a1 }, a1.finishes);
            match a2.error {
                Some(m) => (a2.st, Err(m)),
                None => (a2.st, Ok(a2.events)),
            }
        },
    }
}

/// One `data:` payload: the next state and the events, or the message of
/// the error (`StreamInterrupted`, 502).
pub open spec fn decode_step(s: OpenAIState, data: Seq<char>) -> (OpenAIState, Result<Seq<Event>, Seq<char>>) {
    if s.ended {
        (s, Ok(seq![]))
    } else if trim(data) == "[DONE]"@ {
        end_step(s)
    } else {
        match json_parse_result(data) {
            Err(m) => (s, Err("Failed to parse OpenAI streaming JSON response: "@ + m)),
            Ok(v) => value_step(s, v),
        }
    }
}

#[derive(Debug)]
struct ToolCallState {
    id: Option<String>,
    name: Option<String>,
    pending_arguments: Vec<String>,
    started: bool,
    ended: bool,
}

spec fn strings_view(v: Seq<String>) -> Seq<Seq<char>> {
    v.map_values(|s: String| s@)
}

spec fn opt_view(o: Option<String>) -> Option<Seq<char>> {
    match o {
        Some(s) => Some(s@),
        None => None,
    }
}

spec fn tool_view(t: ToolCallState) -> ToolView {
    ToolView {
        id: opt_view(t.id),
        name: opt_view(t.name),
        pending: strings_view(t.pending_arguments@),
        started: t.started,
        ended: t.ended,
    }
}

spec fn tools_view(v: Seq<((u32, u32), ToolCallState)>) -> Seq<((u32, u32), ToolView)> {
    v.map_values(|e: ((u32, u32), ToolCallState)| (e.0, tool_view(e.1)))
}

spec fn finishes_view(v: Seq<(u32, String)>) -> Seq<(u32, Seq<char>)> {
    v.map_values(|e: (u32, String)| (e.0, e.1@))
}

/// Decodes OpenAI stream chunks into neutral events.
#[derive(Debug)]
pub struct OpenAIStreamDecoder {
    fallback_model: String,
    response_started: bool,
    response_ended: bool,
    tools: Vec<((u32, u32), ToolCallState)>,
    finished_choices: Vec<u32>,
    usage: Option<UsageInfo>,
}

impl View for OpenAIStreamDecoder {
    type V = OpenAIState;

    closed spec fn view(&self) -> OpenAIState {
        OpenAIState {
            model: self.fallback_model@,
            started: self.response_started,
            ended: self.response_ended,
            tools: tools_view(self.tools@),
            finished: self.finished_choices@.to_set(),
            usage: self.usage,
        }
    }
}

spec fn acc_of(st: OpenAIState, events: Seq<NeutralStreamEvent>, finishes: Seq<(u32, String)>, error: Option<Seq<char>>) -> Acc {
    Acc { st, events: events_view(events), finishes: finishes_view(finishes), error }
}

spec fn err_view(r: Result<(), String>) -> Option<Seq<char>> {
    match r {
        Ok(_) => None,
        Err(m) => Some(m@),
    }
}

proof fn lemma_tool_pos(tools: Seq<((u32, u32), ToolView)>, key: (u32, u32))
    ensures
        tool_pos(tools, key) < tools.len(),
        tool_pos(tools, key) >= 0 ==> tools[tool_pos(tools, key)].0 == key,
        tool_pos(tools, key) >= 0 ==> forall|j: int| 0 <= j < tool_pos(tools, key) ==> #[trigger] tools[j].0 != key,
        tool_pos(tools, key) < 0 ==> forall|j: int| 0 <= j < tools.len() ==> #[trigger] tools[j].0 != key,
    decreases tools.len(),
{
    if tools.len() > 0 {
        lemma_tool_pos(tools.drop_last(), key);
        assert forall|j: int| 0 <= j < tools.len() - 1 implies #[trigger] tools[j] == tools.drop_last()[j] by {}
    }
}

proof fn lemma_first_unstarted(tools: Seq<((u32, u32), ToolView)>, sel: Option<u32>)
    ensures
        first_unstarted(tools, sel) < tools.len(),
        first_unstarted(tools, sel) >= 0 ==> ({
            let e = tools[first_unstarted(tools, sel)];
            selected(sel, e.0) && !e.1.ended && !e.1.started
        }),
        first_unstarted(tools, sel) >= 0 ==> forall|j: int|
            0 <= j < first_unstarted(tools, sel) ==> !(selected(sel, #[trigger] tools[j].0) && !tools[j].1.ended
                && !tools[j].1.started),
        first_unstarted(tools, sel) < 0 ==> forall|j: int|
            0 <= j < tools.len() ==> !(selected(sel, #[trigger] tools[j].0) && !tools[j].1.ended
                && !tools[j].1.started),
    decreases tools.len(),
{
    if tools.len() > 0 {
        lemma_first_unstarted(tools.drop_last(), sel);
        assert forall|j: int| 0 <= j < tools.len() - 1 implies #[trigger] tools[j] == tools.drop_last()[j] by {}
    }
}

fn message_for(ci: u32, ti: u32, tail: &str) -> (r: String)
    ensures
        r@ == tool_message(ci, ti, tail@),
{
    let mut buf: Vec<char> = Vec::new();
    push_str(&mut buf, "OpenAI tool call choice ");
    push_decimal(&mut buf, ci as u64);
    push_str(&mut buf, " index ");
    push_decimal(&mut buf, ti as u64);
    push_str(&mut buf, tail);
    string_from_chars(buf.as_slice())
}

fn clone_opt(o: &Option<String>) -> (r: Option<String>)
    ensures
        opt_view(r) == opt_view(*o),
{
    match o {
        Some(s) => Some(s.clone()),
        None => None,
    }
}

fn non_empty_text(v: &JsonValue) -> (r: Option<String>)
    ensures
        opt_view(r) == non_empty(v@),
{
    match v {
        JsonValue::Str(s) => if chars_of(s.as_str()).len() > 0 {
            Some(s.clone())
        } else {
            None
        },
        _ => None,
    }
}

fn json_at<'a>(v: &'a JsonValue, key: &str) -> (r: Option<&'a JsonValue>)
    ensures
        r matches Some(x) ==> v@.at(key@) == x@,
        r is None ==> v@.at(key@) == Json::Null,
{
    match v.get(key) {
        Some(x) => Some(x),
        None => None,
    }
}

impl OpenAIStreamDecoder {
    pub fn new(fallback_model: String) -> (r: Self)
        ensures
            r@ == (OpenAIState {
                model: fallback_model@,
                started: false,
                ended: false,
                tools: seq![],
                finished: Set::empty(),
                usage: None,
            }),
    {
        let r = OpenAIStreamDecoder {
            fallback_model,
            response_started: false,
            response_ended: false,
            tools: Vec::new(),
            finished_choices: Vec::new(),
            usage: None,
        };
        proof {
            assert(r.finished_choices@.to_set() =~= Set::<u32>::empty());
            assert(tools_view(r.tools@) =~= seq![]);
        }
        r
    }

    fn find_tool(&self, key: (u32, u32)) -> (r: Option<usize>)
        ensures
            r matches Some(i) ==> i < self.tools@.len() && tool_pos(self@.tools, key) == i,
            r is None ==> tool_pos(self@.tools, key) < 0,
    {
        let ghost tv = self@.tools;
        proof {
            lemma_tool_pos(tv, key);
        }
        let mut i: usize = 0;
        while i < self.tools.len()
            invariant
                i <= self.tools@.len(),
                tv == tools_view(self.tools@),
                tv.len() == self.tools@.len(),
                forall|j: int| 0 <= j < i ==> #[trigger] tv[j].0 != key,
            decreases self.tools.len() - i,
        {
            if self.tools[i].0.0 == key.0 && self.tools[i].0.1 == key.1 {
                proof {
                    lemma_tool_pos(tv, key);
                    assert(tv[i as int].0 == key);
                    let p = tool_pos(tv, key);
                    if p < 0 {
                        assert(tv[i as int].0 != key);
                    } else if p > i {
                        assert(tv[i as int].0 != key);
                    } else if p < i {
                        assert(tv[p].0 != key);
                    }
                }
                return Some(i);
            }
            assert(tv[i as int] == (self.tools@[i as int].0, tool_view(self.tools@[i as int].1)));
            i += 1;
        }
        None
    }

    /// One tool-call delta; see `tool_delta`.
    fn decode_tool_delta(
        &mut self,
        ci: u32,
        ti: u32,
        tc: &JsonValue,
        events: &mut Vec<NeutralStreamEvent>,
        finishes: &Vec<(u32, String)>,
    ) -> (r: Result<(), String>)
        ensures
            acc_of(final(self)@, final(events)@, finishes@, err_view(r)) == tool_delta(
                acc_of(old(self)@, old(events)@, finishes@, None),
                ci,
                ti,
                tc@,
            ),
    {
        let ghost a = acc_of(self@, events@, finishes@, None);
        let key = (ci, ti);
        let i = match self.find_tool(key) {
            Some(i) => i,
            None => {
                let ghost before = self.tools@;
                self.tools.push(
                    (key, ToolCallState { id: None, name: None, pending_arguments: Vec::new(), started: false, ended: false }),
                );
                proof {
                    assert(strings_view(Seq::<String>::empty()) =~= seq![]);
                    assert(tools_view(self.tools@) =~= tools_view(before).push((key, fresh_tool())));
                }
                self.tools.len() - 1
            },
        };
        let ghost tools1 = self@.tools;
        let ghost t = tools1[i as int].1;
        let ghost exec1 = self.tools@;
        proof {
            lemma_tool_pos(a.st.tools, key);
            if tool_pos(a.st.tools, key) >= 0 {
                assert(tools1 == a.st.tools);
            }
            assert(tools1[i as int].0 == key);
        }
        let (k, state) = self.tools.remove(i);
        proof {
            assert(tools1[i as int] == (k, tool_view(state)));
            assert(k == key);
        }
        let args: Option<String> = match json_at(tc, "function") {
            Some(f) => match json_at(f, "arguments") {
                Some(JsonValue::Str(s)) => Some(s.clone()),
                _ => None,
            },
            None => None,
        };
        if state.ended {
            self.tools.insert(i, (k, state));
            proof {
                assert(tools_view(self.tools@) =~= tools1);
            }
            let m = message_for(ci, ti, " received data after it ended");
            assert(acc_of(self@, events@, finishes@, Some(m@)) =~= tool_delta(a, ci, ti, tc@));
            return Err(m);
        }
        if state.started {
            self.tools.insert(i, (k, state));
            proof {
                assert(tools_view(self.tools@) =~= tools1);
            }
            match args {
                Some(s) => {
                    let e = NeutralStreamEvent::ToolCallArgumentsDelta { choice_index: ci, tool_call_index: ti, arguments_delta: s };
                    proof {
                        lemma_events_push(events@, e);
                    }
                    events.push(e);
                },
                None => {},
            }
            assert(acc_of(self@, events@, finishes@, None) =~= tool_delta(a, ci, ti, tc@));
            return Ok(());
        }
        let ToolCallState { id, name, pending_arguments, started, ended } = state;
        let id = match json_at(tc, "id") {
            Some(x) => match non_empty_text(x) {
                Some(v) => Some(v),
                None => id,
            },
            None => id,
        };
        let name = match json_at(tc, "function") {
            Some(f) => match json_at(f, "name") {
                Some(x) => match non_empty_text(x) {
                    Some(v) => Some(v),
                    None => name,
                },
                None => name,
            },
            None => name,
        };
        let mut pending = pending_arguments;
        match args {
            Some(s) => {
                let ghost pb = pending@;
                pending.push(s);
                proof {
                    assert(strings_view(pending@) =~= strings_view(pb).push(pending@.last()@));
                }
            },
            None => {},
        }
        let ghost t1 = ToolView { id: opt_view(id), name: opt_view(name), pending: strings_view(pending@), started, ended };
        match (&id, &name) {
            (Some(idv), Some(namev)) => {
                let e = NeutralStreamEvent::ToolCallStart {
                    choice_index: ci,
                    tool_call_index: ti,
                    id: idv.clone(),
                    name: namev.clone(),
                };
                proof {
                    lemma_events_push(events@, e);
                }
                events.push(e);
                let ghost base = events_view(events@);
                let ghost pv = strings_view(pending@);
                let mut j: usize = 0;
                while j < pending.len()
                    invariant
                        j <= pending@.len(),
                        pv == strings_view(pending@),
                        pv.len() == pending@.len(),
                        events_view(events@) == base + arg_events(ci, ti, pv.take(j as int)),
                    decreases pending.len() - j,
                {
                    let e = NeutralStreamEvent::ToolCallArgumentsDelta {
                        choice_index: ci,
                        tool_call_index: ti,
                        arguments_delta: pending[j].clone(),
                    };
                    proof {
                        lemma_events_push(events@, e);
                        assert(pv[j as int] == pending@[j as int]@);
                        assert(arg_events(ci, ti, pv.take(j as int + 1)) =~= arg_events(ci, ti, pv.take(j as int)).push(
                            e@,
                        ));
                    }
                    events.push(e);
                    j += 1;
                }
                assert(pv.take(j as int) =~= pv);
                let done = ToolCallState { id, name, pending_arguments: Vec::new(), started: true, ended };
                let ghost before = self.tools@;
                self.tools.insert(i, (k, done));
                proof {
                    assert(self.tools@ =~= exec1.update(i as int, (k, done)));
                    assert(strings_view(Seq::<String>::empty()) =~= seq![]);
                    assert(tools_view(self.tools@) =~= tools1.update(
                        i as int,
                        (key, ToolView { started: true, pending: seq![], ..t1 }),
                    ));
                }
            },
            _ => {
                let open = ToolCallState { id, name, pending_arguments: pending, started, ended };
                self.tools.insert(i, (k, open));
                proof {
                    assert(self.tools@ =~= exec1.update(i as int, (k, open)));
                    assert(tools_view(self.tools@) =~= tools1.update(i as int, (key, t1)));
                }
            },
        }
        assert(acc_of(self@, events@, finishes@, None) =~= tool_delta(a, ci, ti, tc@));
        Ok(())
    }

    /// Ends the selected calls; see `close_step`.
    #[verifier::loop_isolation(false)]
    fn close_tools(&mut self, sel: Option<u32>, events: &mut Vec<NeutralStreamEvent>, finishes: &Vec<(u32, String)>) -> (r: Result<(), String>)
        ensures
            acc_of(final(self)@, final(events)@, finishes@, err_view(r)) == close_step(
                acc_of(old(self)@, old(events)@, finishes@, None),
                sel,
            ),
    {
        let ghost a = acc_of(self@, events@, finishes@, None);
        let ghost tv = self@.tools;
        proof {
            lemma_first_unstarted(tv, sel);
        }
        let mut i: usize = 0;
        while i < self.tools.len()
            invariant
                i <= self.tools@.len(),
                tv == tools_view(self.tools@),
                tv.len() == self.tools@.len(),
                forall|j: int|
                    0 <= j < i ==> !(selected(sel, #[trigger] tv[j].0) && !tv[j].1.ended && !tv[j].1.started),
                self@ == a.st,
                events_view(events@) == a.events,
            decreases self.tools.len() - i,
        {
            let key = self.tools[i].0;
            let sel_here = match sel {
                Some(c) => key.0 == c,
                None => true,
            };
            assert(tv[i as int] == (self.tools@[i as int].0, tool_view(self.tools@[i as int].1)));
            if sel_here && !self.tools[i].1.ended && !self.tools[i].1.started {
                proof {
                    lemma_first_unstarted(tv, sel);
                    let b = first_unstarted(tv, sel);
                    if b < 0 || b > i {
                        assert(!(selected(sel, tv[i as int].0) && !tv[i as int].1.ended && !tv[i as int].1.started));
                    } else if b < i {
                        assert(!(selected(sel, tv[b].0) && !tv[b].1.ended && !tv[b].1.started));
                    }
                }
                let m = message_for(key.0, key.1, " ended without both id and name");
                proof {
                    lemma_first_unstarted(tv, sel);
                    assert(first_unstarted(tv, sel) == i);
                    assert(tv[i as int].0 == key);
                }
                assert(acc_of(self@, events@, finishes@, Some(m@)) =~= close_step(a, sel));
                return Err(m);
            }
            i += 1;
        }
        proof {
            lemma_first_unstarted(tv, sel);
            let b = first_unstarted(tv, sel);
            if b >= 0 {
                assert(!(selected(sel, tv[b].0) && !tv[b].1.ended && !tv[b].1.started));
            }
        }
        let ghost base = events_view(events@);
        assert(tv.take(0) =~= seq![]);
        let mut j: usize = 0;
        while j < self.tools.len()
            invariant
                j <= self.tools@.len(),
                tv.len() == self.tools@.len(),
                forall|k: int| 0 <= k < j ==> #[trigger] tools_view(self.tools@)[k] == closed(tv[k], sel),
                forall|k: int| j <= k < tv.len() ==> #[trigger] tools_view(self.tools@)[k] == tv[k],
                events_view(events@) == base + end_events(tv.take(j as int), sel),
                self.fallback_model@ == a.st.model,
                self.response_started == a.st.started,
                self.response_ended == a.st.ended,
                self.finished_choices@.to_set() == a.st.finished,
                self.usage == a.st.usage,
            decreases self.tools.len() - j,
        {
            let ghost before = self.tools@;
            let (key, state) = self.tools.remove(j);
            proof {
                assert(tools_view(before)[j as int] == tv[j as int]);
                assert(tv[j as int] == (key, tool_view(state)));
            }
            let sel_here = match sel {
                Some(c) => key.0 == c,
                None => true,
            };
            if sel_here && !state.ended {
                let e = NeutralStreamEvent::ToolCallEnd { choice_index: key.0, tool_call_index: key.1 };
                proof {
                    lemma_events_push(events@, e);
                }
                events.push(e);
            }
            let ToolCallState { id, name, pending_arguments, started, ended } = state;
            let new_state = ToolCallState { id, name, pending_arguments, started, ended: ended || sel_here };
            self.tools.insert(j, (key, new_state));
            proof {
                assert(tv.take(j as int + 1).drop_last() =~= tv.take(j as int));
                assert(tools_view(self.tools@)[j as int] == closed(tv[j as int], sel));
                assert forall|k: int| 0 <= k < self.tools@.len() && k != j implies #[trigger] tools_view(self.tools@)[k]
                    == tools_view(before)[k] by {
                    assert(self.tools@[k] == before[k]);
                }
            }
            j += 1;
        }
        proof {
            assert(tv.take(j as int) =~= tv);
            assert(tools_view(self.tools@) =~= close_all(tv, sel));
        }
        assert(acc_of(self@, events@, finishes@, None) =~= close_step(a, sel));
        Ok(())
    }

    fn end_response(&mut self) -> (r: Result<Vec<NeutralStreamEvent>, String>)
        ensures
            final(self)@ == end_step(old(self)@).0,
            match r {
                Ok(ev) => end_step(old(self)@).1 == Ok::<Seq<Event>, Seq<char>>(events_view(ev@)),
                Err(m) => end_step(old(self)@).1 == Err::<Seq<Event>, Seq<char>>(m@),
            },
    {
        let mut events: Vec<NeutralStreamEvent> = Vec::new();
        if self.response_ended {
            assert(events_view(events@) =~= seq![]);
            return Ok(events);
        }
        let finishes: Vec<(u32, String)> = Vec::new();
        proof {
            assert(events_view(events@) =~= seq![]);
            assert(finishes_view(finishes@) =~= seq![]);
        }
        match self.close_tools(None, &mut events, &finishes) {
            Ok(()) => {},
            Err(m) => {
                return Err(m);
            },
        }
        self.response_ended = true;
        let e = NeutralStreamEvent::ResponseEnd { usage: self.usage };
        proof {
            lemma_events_push(events@, e);
        }
        events.push(e);
        Ok(events)
    }

    #[verifier::loop_isolation(false)]
    fn decode_choice(
        &mut self,
        choice: &JsonValue,
        position: usize,
        events: &mut Vec<NeutralStreamEvent>,
        finishes: &mut Vec<(u32, String)>,
    ) -> (r: Result<(), String>)
        ensures
            acc_of(final(self)@, final(events)@, final(finishes)@, err_view(r)) == choice_step(
                acc_of(old(self)@, old(events)@, old(finishes)@, None),
                choice@,
                position as int,
            ),
    {
        let ghost a = acc_of(self@, events@, finishes@, None);
        let ci = parse_index(choice, position);
        let null = JsonValue::Null;
        let delta = match json_at(choice, "delta") {
            Some(d) => d,
            None => &null,
        };
        match json_at(delta, "content") {
            Some(c) => match non_empty_text(c) {
                Some(t) => {
                    let e = NeutralStreamEvent::TextDelta { choice_index: ci, text: t };
                    proof {
                        lemma_events_push(events@, e);
                    }
                    events.push(e);
                },
                None => {},
            },
            None => {},
        }
        match json_at(delta, "reasoning_content") {
            Some(c) => match non_empty_text(c) {
                Some(t) => {
                    let e = NeutralStreamEvent::ThinkingDelta { choice_index: ci, text: t };
                    proof {
                        lemma_events_push(events@, e);
                    }
                    events.push(e);
                },
                None => {},
            },
            None => {},
        }
        let ghost a1 = acc_of(self@, events@, finishes@, None);
        let empty: Vec<JsonValue> = Vec::new();
        let calls: &Vec<JsonValue> = match json_at(delta, "tool_calls") {
            Some(JsonValue::Array(c)) => c,
            _ => &empty,
        };
        let ghost cv = items_view(calls@);
        proof {
            lemma_items_view(calls@);
            assert(cv == array_at(delta@.at("tool_calls"@))) by {
                if calls@.len() == 0 {
                    assert(cv =~= seq![]);
                }
            }
            assert(cv.take(0) =~= seq![]);
        }
        let mut q: usize = 0;
        while q < calls.len()
            invariant
                q <= calls@.len(),
                cv == items_view(calls@),
                cv.len() == calls@.len(),
                forall|j: int| 0 <= j < calls@.len() ==> #[trigger] cv[j] == calls@[j]@,
                acc_of(self@, events@, finishes@, None) == tool_calls_fold(a1, cv.take(q as int), ci),
            decreases calls.len() - q,
        {
            let ti = parse_index(&calls[q], q);
            let res = self.decode_tool_delta(ci, ti, &calls[q], events, finishes);
            proof {
                assert(cv.take(q as int + 1).drop_last() =~= cv.take(q as int));
            }
            match res {
                Ok(()) => {},
                Err(m) => {
                    proof {
                        assert(acc_of(self@, events@, finishes@, Some(m@)) == tool_calls_fold(a1, cv.take(q as int + 1), ci));
                        lemma_fold_error_stays(a1, cv, ci, q as int + 1);
                        assert(a1 == Acc { events: a1.events, ..a });
                        assert(tool_calls_fold(a1, cv, ci).error is Some);
                    }
                    return Err(m);
                },
            }
            q += 1;
        }
        proof {
            assert(cv.take(q as int) =~= cv);
        }
        match json_at(choice, "finish_reason") {
            Some(JsonValue::Str(r)) => {
                let ghost fb = finishes@;
                finishes.push((ci, r.clone()));
                assert(finishes_view(finishes@) =~= finishes_view(fb).push((ci, r@)));
            },
            _ => {},
        }
        assert(acc_of(self@, events@, finishes@, None) =~= choice_step(a, choice@, position as int));
        Ok(())
    }

    fn decode_choices(
        &mut self,
        choices: &Vec<JsonValue>,
        events: &mut Vec<NeutralStreamEvent>,
        finishes: &mut Vec<(u32, String)>,
    ) -> (r: Result<(), String>)
        ensures
            acc_of(final(self)@, final(events)@, final(finishes)@, err_view(r)) == choices_fold(
                acc_of(old(self)@, old(events)@, old(finishes)@, None),
                items_view(choices@),
            ),
    {
        let ghost a0 = acc_of(self@, events@, finishes@, None);
        let ghost cv = items_view(choices@);
        proof {
            lemma_items_view(choices@);
            assert(cv.take(0) =~= seq![]);
        }
        let mut p: usize = 0;
        while p < choices.len()
            invariant
                p <= choices@.len(),
                cv == items_view(choices@),
                cv.len() == choices@.len(),
                forall|j: int| 0 <= j < choices@.len() ==> #[trigger] cv[j] == choices@[j]@,
                a0 == acc_of(old(self)@, old(events)@, old(finishes)@, None),
                acc_of(self@, events@, finishes@, None) == choices_fold(a0, cv.take(p as int)),
            decreases choices.len() - p,
        {
            let res = self.decode_choice(&choices[p], p, events, finishes);
            proof {
                assert(cv.take(p as int + 1).drop_last() =~= cv.take(p as int));
            }
            match res {
                Ok(()) => {},
                Err(m) => {
                    proof {
                        assert(acc_of(self@, events@, finishes@, Some(m@)) == choices_fold(a0, cv.take(p as int + 1)));
                        lemma_choices_error_stays(a0, cv, p as int + 1);
                    }
                    return Err(m);
                },
            }
            p += 1;
        }
        proof {
            assert(cv.take(p as int) =~= cv);
        }
        Ok(())
    }

    fn emit_finishes(&mut self, held: &Vec<(u32, String)>, events: &mut Vec<NeutralStreamEvent>) -> (r: Result<(), String>)
        ensures
            acc_of(final(self)@, final(events)@, seq![], err_view(r)) == finishes_fold(
                acc_of(old(self)@, old(events)@, seq![], None),
                finishes_view(held@),
            ),
    {
        let finishes: Vec<(u32, String)> = Vec::new();
        let ghost hv = finishes_view(held@);
        proof {
            assert(finishes_view(finishes@) =~= seq![]);
            assert(hv.take(0) =~= seq![]);
        }
        let ghost a1 = acc_of(self@, events@, finishes@, None);
        let mut k: usize = 0;
        while k < held.len()
            invariant
                k <= held@.len(),
                hv == finishes_view(held@),
                hv.len() == held@.len(),
                finishes@ == Seq::<(u32, String)>::empty(),
                a1 == acc_of(old(self)@, old(events)@, seq![], None),
                acc_of(self@, events@, finishes@, None) == finishes_fold(a1, hv.take(k as int)),
            decreases held.len() - k,
        {
            let ci = held[k].0;
            let res = self.close_tools(Some(ci), events, &finishes);
            proof {
                assert(hv.take(k as int + 1).drop_last() =~= hv.take(k as int));
                assert(hv[k as int] == (held@[k as int].0, held@[k as int].1@));
            }
            match res {
                Ok(()) => {},
                Err(m) => {
                    proof {
                        assert(acc_of(self@, events@, finishes@, Some(m@)) == finishes_fold(a1, hv.take(k as int + 1)));
                        lemma_finishes_error_stays(a1, hv, k as int + 1);
                    }
                    return Err(m);
                },
            }
            if !contains_u32(&self.finished_choices, ci) {
                proof {
                    lemma_push_to_set(self.finished_choices@, ci);
                }
                self.finished_choices.push(ci);
                let e = NeutralStreamEvent::Finish {
                    choice_index: ci,
                    reason: normalize_finish_reason(held[k].1.as_str()),
                    raw_finish_reason: Some(held[k].1.clone()),
                };
                proof {
                    lemma_events_push(events@, e);
                }
                events.push(e);
            }
            k += 1;
        }
        proof {
            assert(hv.take(k as int) =~= hv);
        }
        Ok(())
    }

    /// Decodes one `data:` payload; see `decode_step`.
    pub fn decode_data(&mut self, data: &str) -> (r: Result<Vec<NeutralStreamEvent>, ProxyError>)
        ensures
            final(self)@ == decode_step(old(self)@, data@).0,
            r matches Ok(events) ==> decode_step(old(self)@, data@).1 == Ok::<Seq<Event>, Seq<char>>(
                events_view(events@),
            ),
            r matches Err(e) ==> decode_step(old(self)@, data@).1 == Err::<Seq<Event>, Seq<char>>(e.message@)
                && e.category == ErrorCategory::StreamInterrupted && e.status_code == 502,
    {
        let ghost s0 = self@;
        if self.response_ended {
            let v: Vec<NeutralStreamEvent> = Vec::new();
            assert(events_view(v@) =~= seq![]);
            return Ok(v);
        }
        let dc = chars_of(data);
        let dt = trim_chars(dc.as_slice());
        if chars_eq_str(dt.as_slice(), "[DONE]") {
            return match self.end_response() {
                Ok(v) => Ok(v),
                Err(m) => Err(ProxyError::new(ErrorCategory::StreamInterrupted, m.as_str(), 502)),
            };
        }
        let value = match parse_json(data) {
            Ok(v) => v,
            Err(m) => {
                let mut buf: Vec<char> = Vec::new();
                push_str(&mut buf, "Failed to parse OpenAI streaming JSON response: ");
                push_str(&mut buf, m.as_str());
                let text = string_from_chars(buf.as_slice());
                return Err(ProxyError::new(ErrorCategory::StreamInterrupted, text.as_str(), 502));
            },
        };
        match self.decode_value(&value) {
            Ok(v) => Ok(v),
            Err(m) => Err(ProxyError::new(ErrorCategory::StreamInterrupted, m.as_str(), 502)),
        }
    }

    fn decode_value(&mut self, value: &JsonValue) -> (r: Result<Vec<NeutralStreamEvent>, String>)
        requires
            !old(self)@.ended,
        ensures
            final(self)@ == value_step(old(self)@, value@).0,
            match r {
                Ok(ev) => value_step(old(self)@, value@).1 == Ok::<Seq<Event>, Seq<char>>(events_view(ev@)),
                Err(m) => value_step(old(self)@, value@).1 == Err::<Seq<Event>, Seq<char>>(m@),
            },
    {
        let mut events: Vec<NeutralStreamEvent> = Vec::new();
        let mut finishes: Vec<(u32, String)> = Vec::new();
        if !self.response_started {
            let response_id = match json_at(value, "id") {
                Some(JsonValue::Str(id)) => Some(id.clone()),
                _ => None,
            };
            let model = match json_at(value, "model") {
                Some(JsonValue::Str(m)) => m.clone(),
                _ => self.fallback_model.clone(),
            };
            let e = NeutralStreamEvent::ResponseStart { response_id, model };
            proof {
                lemma_events_push(events@, e);
            }
            events.push(e);
        }
        self.response_started = true;
        proof {
            assert(events_view(Seq::<NeutralStreamEvent>::empty()) =~= seq![]);
            assert(finishes_view(finishes@) =~= seq![]);
        }
        let empty: Vec<JsonValue> = Vec::new();
        let choices: &Vec<JsonValue> = match json_at(value, "choices") {
            Some(JsonValue::Array(c)) => c,
            _ => &empty,
        };
        proof {
            lemma_items_view(choices@);
            if choices@.len() == 0 {
                assert(items_view(choices@) =~= seq![]);
            }
            assert(items_view(choices@) == array_at(value@.at("choices"@)));
        }
        match self.decode_choices(choices, &mut events, &mut finishes) {
            Ok(()) => {},
            Err(m) => {
                return Err(m);
            },
        }
        let usage_value = match json_at(value, "usage") {
            Some(u) => parse_usage(u),
            None => parse_usage(&JsonValue::Null),
        };
        match usage_value {
            Some(u) => {
                self.usage = Some(u);
            },
            None => {},
        }
        match self.emit_finishes(&finishes, &mut events) {
            Ok(()) => {},
            Err(m) => {
                return Err(m);
            },
        }
        Ok(events)
    }

    /// Ends the stream at end of input.
    pub fn finish(&mut self) -> (r: Result<Vec<NeutralStreamEvent>, ProxyError>)
        ensures
            final(self)@ == end_step(old(self)@).0,
            r matches Ok(ev) ==> end_step(old(self)@).1 == Ok::<Seq<Event>, Seq<char>>(events_view(ev@)),
            r matches Err(e) ==> end_step(old(self)@).1 == Err::<Seq<Event>, Seq<char>>(e.message@)
                && e.category == ErrorCategory::StreamInterrupted && e.status_code == 502,
    {
        match self.end_response() {
            Ok(v) => Ok(v),
            Err(m) => Err(ProxyError::new(ErrorCategory::StreamInterrupted, m.as_str(), 502)),
        }
    }
}

proof fn lemma_fold_error_stays(a: Acc, calls: Seq<Json>, ci: u32, n: int)
    requires
        0 <= n <= calls.len(),
        tool_calls_fold(a, calls.take(n), ci).error is Some,
    ensures
        tool_calls_fold(a, calls, ci) == tool_calls_fold(a, calls.take(n), ci),
    decreases calls.len() - n,
{
    if n < calls.len() {
        assert(calls.take(n + 1).drop_last() =~= calls.take(n));
        lemma_fold_error_stays(a, calls, ci, n + 1);
    } else {
        assert(calls.take(n) =~= calls);
    }
}

proof fn lemma_choices_error_stays(a: Acc, choices: Seq<Json>, n: int)
    requires
        0 <= n <= choices.len(),
        choices_fold(a, choices.take(n)).error is Some,
    ensures
        choices_fold(a, choices) == choices_fold(a, choices.take(n)),
    decreases choices.len() - n,
{
    if n < choices.len() {
        assert(choices.take(n + 1).drop_last() =~= choices.take(n));
        lemma_choices_error_stays(a, choices, n + 1);
    } else {
        assert(choices.take(n) =~= choices);
    }
}

proof fn lemma_finishes_error_stays(a: Acc, f: Seq<(u32, Seq<char>)>, n: int)
    requires
        0 <= n <= f.len(),
        finishes_fold(a, f.take(n)).error is Some,
    ensures
        finishes_fold(a, f) == finishes_fold(a, f.take(n)),
    decreases f.len() - n,
{
    if n < f.len() {
        assert(f.take(n + 1).drop_last() =~= f.take(n));
        lemma_finishes_error_stays(a, f, n + 1);
    } else {
        assert(f.take(n) =~= f);
    }
}

/// Law: once the response has ended, the decoder stays ended and sends
/// nothing more, whatever arrives.
pub proof fn lemma_openai_end_is_final(s: OpenAIState, data: Seq<char>)
    requires
        s.ended,
    ensures
        decode_step(s, data) == (s, Ok::<Seq<Event>, Seq<char>>(Seq::<Event>::empty())),
        end_step(s) == (s, Ok::<Seq<Event>, Seq<char>>(Seq::<Event>::empty())),
{
}

/// Law: ending a live response sends `ResponseEnd` with the usage seen so
/// far as its last event; ending again sends nothing.
pub proof fn lemma_openai_end_once(s: OpenAIState, later: Seq<char>)
    requires
        !s.ended,
        (end_step(s).1 is Ok),
    ensures
        end_step(s).0.ended,
        end_step(s).1->Ok_0.len() > 0,
        end_step(s).1->Ok_0.last() == (Event::ResponseEnd { usage: s.usage }),
        decode_step(end_step(s).0, later).1 == Ok::<Seq<Event>, Seq<char>>(Seq::<Event>::empty()),
        end_step(end_step(s).0).1 == Ok::<Seq<Event>, Seq<char>>(Seq::<Event>::empty()),
{
}

} // verus!
