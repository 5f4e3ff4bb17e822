//! Decoding Gemini `streamGenerateContent` server-sent events.

use crate::domain::error::{ErrorCategory, ProxyError};
use crate::domain::response::{events_view, Event, FinishReason, NeutralStreamEvent, UsageInfo};
use crate::json::{json_parse_result, json_text, parse_json, to_json_text, Json, JsonNum, JsonNumber, JsonValue};
use crate::providers::gemini::{normalize_finish_reason, parse_usage, spec_finish_reason, spec_parse_usage};
use crate::text::{chars_eq_str, chars_of, decimal, opt_view, owned, push_decimal, push_str, string_from_chars, trim, trim_chars};
use vstd::prelude::*;

verus! {

/// What a Gemini stream decoder remembers between chunks.
#[verifier::ext_equal]
pub struct GeminiState {
    pub model: Seq<char>,
    pub started: bool,
    pub ended: bool,
    /// (choice, part) positions whose function call was already sent.
    pub tool_calls: Set<(u32, u32)>,
    /// (choice, part) positions whose thought signature was already sent.
    pub signatures: Set<(u32, u32)>,
    /// Choices whose finish was already sent.
    pub finished: Set<u32>,
    pub usage: Option<UsageInfo>,
}

/// A chunk being decoded: the state, the content events and the finish
/// events (sent after the content of the chunk).
#[verifier::ext_equal]
pub struct ChunkAcc {
    pub st: GeminiState,
    pub events: Seq<Event>,
    pub finishes: Seq<Event>,
}

pub open spec fn inline_member(part: Json) -> Option<Json> {
    match part.get("inlineData"@) {
        Some(x) => Some(x),
        None => part.get("inline_data"@),
    }
}

/// The MIME type of inline data: `mimeType`, else `mime_type`; PNG where the
/// first present member is not a string.
pub open spec fn inline_mime(inline: Json) -> Seq<char> {
    let m = match inline.get("mimeType"@) {
        Some(x) => Some(x),
        None => inline.get("mime_type"@),
    };
    match m {
        Some(Json::Str(s)) => s,
        _ => "image/png"@,
    }
}

pub open spec fn call_id(ci: u32, q: u32) -> Seq<char> {
    "call_"@ + decimal(ci as nat) + "_"@ + decimal(q as nat)
}

pub open spec fn str_member_or(v: Json, key: Seq<char>, default: Seq<char>) -> Seq<char> {
    match v.get(key) {
        Some(Json::Str(s)) => s,
        _ => default,
    }
}

/// One part of a candidate: thoughts (and their signature, once per
/// position), text, inline data (when it has data) and function calls (once
/// per position, as start, arguments and end).
pub open spec fn part_step(a: ChunkAcc, part: Json, ci: u32, q: u32) -> ChunkAcc {
    if part.get("thought"@) == Some(Json::Bool(true)) {
        let e1 = match part.get("text"@) {
            Some(Json::Str(t)) => a.events.push(Event::ThinkingDelta { choice_index: ci, text: t }),
            _ => a.events,
        };
        match part.get("thoughtSignature"@) {
            Some(Json::Str(sig)) => if sig.len() > 0 && !a.st.signatures.contains((ci, q)) {
                ChunkAcc {
                    st: GeminiState { signatures: a.st.signatures.insert((ci, q)), ..a.st },
                    events: e1.push(Event::ThinkingSignature { choice_index: ci, signature: sig }),
                    ..a
                }
            } else {
                ChunkAcc { events: e1, ..a }
            },
            _ => ChunkAcc { events: e1, ..a },
        }
    } else if part.get("text"@) matches Some(Json::Str(t)) {
        ChunkAcc { events: a.events.push(Event::TextDelta { choice_index: ci, text: part.get("text"@)->0->Str_0 }), ..a }
    } else if inline_member(part) is Some {
        let inline = inline_member(part)->0;
        let data = str_member_or(inline, "data"@, Seq::empty());
        if data.len() > 0 {
            ChunkAcc {
                events: a.events.push(
                    Event::InlineData { choice_index: ci, mime_type: inline_mime(inline), data_base64: data },
                ),
                ..a
            }
        } else {
            a
        }
    } else if part.get("functionCall"@) is Some {
        let fc = part.get("functionCall"@)->0;
        if a.st.tool_calls.contains((ci, q)) {
            a
        } else {
            let name = str_member_or(fc, "name"@, Seq::empty());
            let args = json_text(
                match fc.get("args"@) {
                    Some(v) => v,
                    None => Json::Null,
                },
            );
            let id = match fc.get("id"@) {
                Some(Json::Str(s)) => if s.len() > 0 {
                    s
                } else {
                    call_id(ci, q)
                },
                _ => call_id(ci, q),
            };
            ChunkAcc {
                st: GeminiState { tool_calls: a.st.tool_calls.insert((ci, q)), ..a.st },
                events: a.events.push(Event::ToolCallStart { choice_index: ci, tool_call_index: q, id, name }).push(
                    Event::ToolCallArgumentsDelta { choice_index: ci, tool_call_index: q, arguments_delta: args },
                ).push(Event::ToolCallEnd { choice_index: ci, tool_call_index: q }),
                ..a
            }
        }
    } else {
        a
    }
}

pub open spec fn parts_fold(a: ChunkAcc, parts: Seq<Json>, ci: u32) -> ChunkAcc
    decreases parts.len(),
{
    if parts.len() == 0 {
        a
    } else {
        part_step(parts_fold(a, parts.drop_last(), ci), parts.last(), ci, (parts.len() - 1) as u32)
    }
}

/// The choice a candidate answers: its `index`, else its position.
pub open spec fn choice_index(candidate: Json, position: int) -> u32 {
    match candidate.get("index"@) {
        Some(Json::Number(JsonNum::Unsigned(u))) => if u <= u32::MAX {
            u as u32
        } else {
            position as u32
        },
        _ => position as u32,
    }
}

pub open spec fn candidate_parts(candidate: Json) -> Seq<Json> {
    match candidate.get("content"@) {
        Some(c) => match c.get("parts"@) {
            Some(Json::Array(parts)) => parts,
            _ => Seq::empty(),
        },
        None => Seq::empty(),
    }
}

pub open spec fn finish_of(a: ChunkAcc, ci: u32, reason: Seq<char>) -> ChunkAcc {
    if a.st.finished.contains(ci) {
        a
    } else {
        ChunkAcc {
            st: GeminiState { finished: a.st.finished.insert(ci), ..a.st },
            finishes: a.finishes.push(
                Event::Finish { choice_index: ci, reason: spec_finish_reason(reason), raw_finish_reason: Some(reason) },
            ),
            ..a
        }
    }
}

pub open spec fn candidate_step(a: ChunkAcc, candidate: Json, position: int) -> ChunkAcc {
    let ci = choice_index(candidate, position);
    let b = parts_fold(a, candidate_parts(candidate), ci);
    match candidate.get("finishReason"@) {
        Some(Json::Str(reason)) => finish_of(b, ci, reason),
        _ => b,
    }
}

pub open spec fn candidates_fold(a: ChunkAcc, cands: Seq<Json>) -> ChunkAcc
    decreases cands.len(),
{
    if cands.len() == 0 {
        a
    } else {
        candidate_step(candidates_fold(a, cands.drop_last()), cands.last(), cands.len() - 1)
    }
}

pub open spec fn chunk_candidates(v: Json) -> Seq<Json> {
    match v.get("candidates"@) {
        Some(Json::Array(c)) => c,
        _ => Seq::empty(),
    }
}

/// The blocked-prompt reason of a chunk without candidates.
pub open spec fn block_reason(v: Json) -> Option<Seq<char>> {
    match v.get("promptFeedback"@) {
        Some(f) => match f.get("blockReason"@) {
            Some(Json::Str(r)) => Some(r),
            _ => None,
        },
        None => None,
    }
}

/// The end of the response, once.
pub open spec fn end_step(s: GeminiState) -> (GeminiState, Seq<Event>) {
    if s.ended {
        (s, Seq::empty())
    } else {
        (GeminiState { ended: true, ..s }, seq![Event::ResponseEnd { usage: s.usage }])
    }
}

/// One `data:` payload of the stream: the next state and the events, or
/// the message of the error.
pub open spec fn decode_step(s: GeminiState, data: Seq<char>) -> (GeminiState, Result<Seq<Event>, Seq<char>>) {
    if s.ended {
        (s, Ok(Seq::empty()))
    } else if trim(data) == "[DONE]"@ {
        (end_step(s).0, Ok(end_step(s).1))
    } else {
        match json_parse_result(data) {
            Err(m) => (s, Err("Failed to parse Gemini stream data: "@ + m)),
            Ok(v) => {
                let start = if s.started {
                    Seq::empty()
                } else {
                    seq![
                        Event::ResponseStart {
                            response_id: match v.get("responseId"@) {
                                Some(Json::Str(id)) => Some(id),
                                _ => None,
                            },
                            model: s.model,
                        },
                    ]
                };
                let a0 = ChunkAcc {
                    st: GeminiState { started: true, ..s },
                    events: start,
                    finishes: Seq::empty(),
                };
                let a1 = candidates_fold(a0, chunk_candidates(v));
                let a2 = if chunk_candidates(v).len() == 0 && block_reason(v) is Some {
                    finish_of(a1, 0, block_reason(v)->0)
                } else {
                    a1
                };
                let usage = match v.get("usageMetadata"@) {
                    Some(u) => match spec_parse_usage(u, a2.st.usage) {
                        Some(x) => Some(x),
                        None => a2.st.usage,
                    },
                    None => a2.st.usage,
                };
                (GeminiState { usage, ..a2.st }, Ok(a2.events + a2.finishes))
            },
        }
    }
}

/// Decodes Gemini stream chunks into neutral events.
#[derive(Debug)]
pub struct GeminiStreamDecoder {
    model: String,
    response_started: bool,
    response_ended: bool,
    emitted_tool_calls: Vec<(u32, u32)>,
    emitted_thinking_signatures: Vec<(u32, u32)>,
    finished_choices: Vec<u32>,
    usage: Option<UsageInfo>,
}

impl View for GeminiStreamDecoder {
    type V = GeminiState;

    closed spec fn view(&self) -> GeminiState {
        GeminiState {
            model: self.model@,
            started: self.response_started,
            ended: self.response_ended,
            tool_calls: self.emitted_tool_calls@.to_set(),
            signatures: self.emitted_thinking_signatures@.to_set(),
            finished: self.finished_choices@.to_set(),
            usage: self.usage,
        }
    }
}

fn contains_pair(v: &Vec<(u32, u32)>, key: (u32, u32)) -> (r: bool)
    ensures
        r == v@.to_set().contains(key),
{
    let mut i: usize = 0;
    while i < v.len()
        invariant
            i <= v@.len(),
            forall|j: int| 0 <= j < i ==> #[trigger] v@[j] != key,
        decreases v.len() - i,
    {
        if v[i].0 == key.0 && v[i].1 == key.1 {
            assert(v@.contains(v@[i as int]));
            return true;
        }
        i += 1;
    }
    false
}

pub fn contains_u32(v: &Vec<u32>, key: u32) -> (r: bool)
    ensures
        r == v@.to_set().contains(key),
{
    let mut i: usize = 0;
    while i < v.len()
        invariant
            i <= v@.len(),
            forall|j: int| 0 <= j < i ==> #[trigger] v@[j] != key,
        decreases v.len() - i,
    {
        if v[i] == key {
            assert(v@.contains(v@[i as int]));
            return true;
        }
        i += 1;
    }
    false
}

pub proof fn lemma_push_to_set<T>(s: Seq<T>, x: T)
    ensures
        s.push(x).to_set() == s.to_set().insert(x),
{
    assert forall|y: T| s.push(x).to_set().contains(y) <==> s.to_set().insert(x).contains(y) by {
        if s.push(x).contains(y) {
            let k = choose|k: int| 0 <= k < s.push(x).len() && s.push(x)[k] == y;
            if k < s.len() {
                assert(s.contains(y));
            }
        }
        if s.contains(y) {
            let k = choose|k: int| 0 <= k < s.len() && s[k] == y;
            assert(s.push(x)[k] == y);
        }
        if y == x {
            assert(s.push(x)[s.len() as int] == y);
        }
    }
    assert(s.push(x).to_set() =~= s.to_set().insert(x));
}

pub open spec fn acc_of(
    st: GeminiState,
    events: Seq<NeutralStreamEvent>,
    finishes: Seq<NeutralStreamEvent>,
) -> ChunkAcc {
    ChunkAcc { st, events: events_view(events), finishes: events_view(finishes) }
}

pub proof fn lemma_events_push(v: Seq<NeutralStreamEvent>, e: NeutralStreamEvent)
    ensures
        events_view(v.push(e)) == events_view(v).push(e@),
{
    assert(events_view(v.push(e)) =~= events_view(v).push(e@));
}

fn call_id_text(ci: u32, q: u32) -> (r: String)
    ensures
        r@ == call_id(ci, q),
{
    let mut buf: Vec<char> = Vec::new();
    push_str(&mut buf, "call_");
    push_decimal(&mut buf, ci as u64);
    push_str(&mut buf, "_");
    push_decimal(&mut buf, q as u64);
    string_from_chars(buf.as_slice())
}

fn str_member_or_text(v: &JsonValue, key: &str, default: &str) -> (r: String)
    ensures
        r@ == str_member_or(v@, key@, default@),
{
    match v.get(key) {
        Some(JsonValue::Str(s)) => s.clone(),
        _ => owned(default),
    }
}

impl GeminiStreamDecoder {
    pub fn new(model: String) -> (r: Self)
        ensures
            r@ == (GeminiState {
                model: model@,
                started: false,
                ended: false,
                tool_calls: Set::empty(),
                signatures: Set::empty(),
                finished: Set::empty(),
                usage: None,
            }),
    {
        let r = GeminiStreamDecoder {
            model,
            response_started: false,
            response_ended: false,
            emitted_tool_calls: Vec::new(),
            emitted_thinking_signatures: Vec::new(),
            finished_choices: Vec::new(),
            usage: None,
        };
        proof {
            assert(r.emitted_tool_calls@.to_set() =~= Set::<(u32, u32)>::empty());
            assert(r.emitted_thinking_signatures@.to_set() =~= Set::<(u32, u32)>::empty());
            assert(r.finished_choices@.to_set() =~= Set::<u32>::empty());
        }
        r
    }

    fn response_end(&mut self) -> (r: Vec<NeutralStreamEvent>)
        ensures
            final(self)@ == end_step(old(self)@).0,
            events_view(r@) == end_step(old(self)@).1,
    {
        if self.response_ended {
            let v: Vec<NeutralStreamEvent> = Vec::new();
            assert(events_view(v@) =~= Seq::empty());
            v
        } else {
            self.response_ended = true;
            let v = vec![NeutralStreamEvent::ResponseEnd { usage: self.usage }];
            assert(events_view(v@) =~= seq![Event::ResponseEnd { usage: self.usage }]);
            v
        }
    }

    fn decode_part(
        &mut self,
        part: &JsonValue,
        ci: u32,
        q: u32,
        events: &mut Vec<NeutralStreamEvent>,
        finishes: &Vec<NeutralStreamEvent>,
    )
        ensures
            acc_of(final(self)@, final(events)@, finishes@) == part_step(acc_of(old(self)@, old(events)@, finishes@), part@, ci, q),
    {
        let ghost a = acc_of(self@, events@, finishes@);
        proof {
            reveal_strlit("");
            assert(""@ =~= Seq::<char>::empty());
        }
        match part.get("thought") {
            Some(JsonValue::Bool(true)) => {
                let ghost ev0 = events@;
                if let Some(JsonValue::Str(t)) = part.get("text") {
                    let e = NeutralStreamEvent::ThinkingDelta { choice_index: ci, text: t.clone() };
                    proof {
                        lemma_events_push(events@, e);
                    }
                    events.push(e);
                }
                let ghost e1 = events_view(events@);
                if let Some(JsonValue::Str(sig)) = part.get("thoughtSignature") {
                    let non_empty = chars_of(sig.as_str()).len() > 0;
                    if non_empty && !contains_pair(&self.emitted_thinking_signatures, (ci, q)) {
                        proof {
                            lemma_push_to_set(self.emitted_thinking_signatures@, (ci, q));
                        }
                        self.emitted_thinking_signatures.push((ci, q));
                        let e = NeutralStreamEvent::ThinkingSignature { choice_index: ci, signature: sig.clone() };
                        proof {
                            lemma_events_push(events@, e);
                        }
                        events.push(e);
                    }
                }
                assert(acc_of(self@, events@, finishes@) =~= part_step(a, part@, ci, q));
                return;
            },
            _ => {},
        }
        if let Some(JsonValue::Str(t)) = part.get("text") {
            let e = NeutralStreamEvent::TextDelta { choice_index: ci, text: t.clone() };
            proof {
                lemma_events_push(events@, e);
            }
            events.push(e);
            assert(acc_of(self@, events@, finishes@) =~= part_step(a, part@, ci, q));
            return;
        }
        let inline = match part.get("inlineData") {
            Some(x) => Some(x),
            None => part.get("inline_data"),
        };
        if let Some(inl) = inline {
            let data = str_member_or_text(inl, "data", "");
            if chars_of(data.as_str()).len() > 0 {
                let m = match inl.get("mimeType") {
                    Some(x) => Some(x),
                    None => inl.get("mime_type"),
                };
                let mime_type = match m {
                    Some(JsonValue::Str(s)) => s.clone(),
                    _ => owned("image/png"),
                };
                let e = NeutralStreamEvent::InlineData { choice_index: ci, mime_type, data_base64: data };
                proof {
                    lemma_events_push(events@, e);
                }
                events.push(e);
            }
            assert(acc_of(self@, events@, finishes@) =~= part_step(a, part@, ci, q));
            return;
        }
        if let Some(fc) = part.get("functionCall") {
            if !contains_pair(&self.emitted_tool_calls, (ci, q)) {
                proof {
                    lemma_push_to_set(self.emitted_tool_calls@, (ci, q));
                }
                self.emitted_tool_calls.push((ci, q));
                let name = str_member_or_text(fc, "name", "");
                let arguments_delta = match fc.get("args") {
                    Some(v) => to_json_text(v),
                    None => to_json_text(&JsonValue::Null),
                };
                let id = match fc.get("id") {
                    Some(JsonValue::Str(s)) => if chars_of(s.as_str()).len() > 0 {
                        s.clone()
                    } else {
                        call_id_text(ci, q)
                    },
                    _ => call_id_text(ci, q),
                };
                let e1 = NeutralStreamEvent::ToolCallStart { choice_index: ci, tool_call_index: q, id, name };
                proof {
                    lemma_events_push(events@, e1);
                }
                events.push(e1);
                let e2 = NeutralStreamEvent::ToolCallArgumentsDelta {
                    choice_index: ci,
                    tool_call_index: q,
                    arguments_delta,
                };
                proof {
                    lemma_events_push(events@, e2);
                }
                events.push(e2);
                let e3 = NeutralStreamEvent::ToolCallEnd { choice_index: ci, tool_call_index: q };
                proof {
                    lemma_events_push(events@, e3);
                }
                events.push(e3);
            }
        }
        assert(acc_of(self@, events@, finishes@) =~= part_step(a, part@, ci, q));
    }

    fn finish_choice(&mut self, ci: u32, reason: &String, finishes: &mut Vec<NeutralStreamEvent>, events: &Vec<NeutralStreamEvent>)
        ensures
            acc_of(final(self)@, events@, final(finishes)@) == finish_of(acc_of(old(self)@, events@, old(finishes)@), ci, reason@),
    {
        let ghost a = acc_of(self@, events@, finishes@);
        if !contains_u32(&self.finished_choices, ci) {
            proof {
                lemma_push_to_set(self.finished_choices@, ci);
            }
            self.finished_choices.push(ci);
            let e = NeutralStreamEvent::Finish {
                choice_index: ci,
                reason: normalize_finish_reason(reason.as_str()),
                raw_finish_reason: Some(reason.clone()),
            };
            proof {
                lemma_events_push(finishes@, e);
            }
            finishes.push(e);
        }
        assert(acc_of(self@, events@, finishes@) =~= finish_of(a, ci, reason@));
    }

    fn decode_candidate(
        &mut self,
        candidate: &JsonValue,
        position: usize,
        events: &mut Vec<NeutralStreamEvent>,
        finishes: &mut Vec<NeutralStreamEvent>,
    )
        ensures
            acc_of(final(self)@, final(events)@, final(finishes)@) == candidate_step(
                acc_of(old(self)@, old(events)@, old(finishes)@),
                candidate@,
                position as int,
            ),
    {
        let ghost a = acc_of(self@, events@, finishes@);
        let ci: u32 = match candidate.get("index") {
            Some(JsonValue::Number(JsonNumber::Unsigned(u))) => if *u <= u32::MAX as u64 {
                *u as u32
            } else {
                position as u32
            },
            _ => position as u32,
        };
        assert(ci == choice_index(candidate@, position as int));
        let empty: Vec<JsonValue> = Vec::new();
        let parts: &Vec<JsonValue> = match candidate.get("content") {
            Some(c) => match c.get("parts") {
                Some(JsonValue::Array(p)) => p,
                _ => &empty,
            },
            None => &empty,
        };
        let ghost pv = crate::json::items_view(parts@);
        proof {
            crate::json::lemma_items_view(parts@);
            assert(pv == candidate_parts(candidate@)) by {
                if parts@.len() == 0 {
                    assert(pv =~= Seq::<Json>::empty());
                }
            }
            assert(pv.take(0) =~= Seq::<Json>::empty());
        }
        let mut q: usize = 0;
        while q < parts.len()
            invariant
                q <= parts@.len(),
                pv == crate::json::items_view(parts@),
                pv.len() == parts@.len(),
                forall|j: int| 0 <= j < parts@.len() ==> #[trigger] pv[j] == parts@[j]@,
                acc_of(self@, events@, finishes@) == parts_fold(a, pv.take(q as int), ci),
            decreases parts.len() - q,
        {
            self.decode_part(&parts[q], ci, q as u32, events, finishes);
            proof {
                assert(pv.take(q as int + 1).drop_last() =~= pv.take(q as int));
            }
            q += 1;
        }
        proof {
            assert(pv.take(q as int) =~= pv);
        }
        match candidate.get("finishReason") {
            Some(JsonValue::Str(reason)) => {
                self.finish_choice(ci, reason, finishes, events);
            },
            _ => {},
        }
    }

    /// Decodes one `data:` payload; see `decode_step`.
    pub fn decode_data(&mut self, data: &str) -> (r: Result<Vec<NeutralStreamEvent>, ProxyError>)
        ensures
            final(self)@ == decode_step(old(self)@, data@).0,
            r matches Ok(events) ==> decode_step(old(self)@, data@).1 == Ok::<Seq<Event>, Seq<char>>(
                events_view(events@),
            ),
            r matches Err(e) ==> decode_step(old(self)@, data@).1 == Err::<Seq<Event>, Seq<char>>(e.message@)
                && e.category == ErrorCategory::StreamInterrupted && e.status_code == 502,
    {
        let ghost s0 = self@;
        if self.response_ended {
            let v: Vec<NeutralStreamEvent> = Vec::new();
            assert(events_view(v@) =~= Seq::empty());
            return Ok(v);
        }
        let dc = chars_of(data);
        let dt = trim_chars(dc.as_slice());
        if chars_eq_str(dt.as_slice(), "[DONE]") {
            return Ok(self.response_end());
        }
        let value = match parse_json(data) {
            Ok(v) => v,
            Err(m) => {
                let mut buf: Vec<char> = Vec::new();
                push_str(&mut buf, "Failed to parse Gemini stream data: ");
                push_str(&mut buf, m.as_str());
                let text = string_from_chars(buf.as_slice());
                return Err(ProxyError::new(ErrorCategory::StreamInterrupted, text.as_str(), 502));
            },
        };
        let mut events: Vec<NeutralStreamEvent> = Vec::new();
        let mut finishes: Vec<NeutralStreamEvent> = Vec::new();
        if !self.response_started {
            let response_id = match value.get("responseId") {
                Some(JsonValue::Str(id)) => Some(id.clone()),
                _ => None,
            };
            let e = NeutralStreamEvent::ResponseStart { response_id, model: self.model.clone() };
            proof {
                lemma_events_push(events@, e);
            }
            events.push(e);
        }
        self.response_started = true;
        proof {
            assert(events_view(finishes@) =~= Seq::empty());
            assert(events_view(Seq::<NeutralStreamEvent>::empty()) =~= Seq::empty());
        }
        let ghost a0 = acc_of(self@, events@, finishes@);
        let empty: Vec<JsonValue> = Vec::new();
        let cands: &Vec<JsonValue> = match value.get("candidates") {
            Some(JsonValue::Array(c)) => c,
            _ => &empty,
        };
        let ghost cv = crate::json::items_view(cands@);
        proof {
            crate::json::lemma_items_view(cands@);
            assert(cv == chunk_candidates(value@)) by {
                if cands@.len() == 0 {
                    assert(cv =~= Seq::<Json>::empty());
                }
            }
            assert(cv.take(0) =~= Seq::<Json>::empty());
        }
        let mut p: usize = 0;
        while p < cands.len()
            invariant
                p <= cands@.len(),
                cv == crate::json::items_view(cands@),
                cv.len() == cands@.len(),
                forall|j: int| 0 <= j < cands@.len() ==> #[trigger] cv[j] == cands@[j]@,
                acc_of(self@, events@, finishes@) == candidates_fold(a0, cv.take(p as int)),
            decreases cands.len() - p,
        {
            self.decode_candidate(&cands[p], p, &mut events, &mut finishes);
            proof {
                assert(cv.take(p as int + 1).drop_last() =~= cv.take(p as int));
            }
            p += 1;
        }
        proof {
            assert(cv.take(p as int) =~= cv);
        }
        if cands.len() == 0 {
            match value.get("promptFeedback") {
                Some(f) => match f.get("blockReason") {
                    Some(JsonValue::Str(reason)) => {
                        self.finish_choice(0, reason, &mut finishes, &events);
                    },
                    _ => {},
                },
                None => {},
            }
        }
        match value.get("usageMetadata") {
            Some(u) => {
                let current = self.usage;
                match current {
                    Some(c) => {
                        if let Some(x) = parse_usage(u, Some(&c)) {
                            self.usage = Some(x);
                        }
                    },
                    None => {
                        if let Some(x) = parse_usage(u, None) {
                            self.usage = Some(x);
                        }
                    },
                }
            },
            None => {},
        }
        let ghost ev = events@;
        let ghost fv = finishes@;
        let mut out = events;
        out.append(&mut finishes);
        proof {
            assert(out@ == ev + fv);
            assert(events_view(out@) =~= events_view(ev) + events_view(fv));
        }
        Ok(out)
    }

    /// Ends the stream at end of input.
    pub fn finish(&mut self) -> (r: Vec<NeutralStreamEvent>)
        ensures
            final(self)@ == end_step(old(self)@).0,
            events_view(r@) == end_step(old(self)@).1,
    {
        self.response_end()
    }
}

/// Law: once the response has ended, the decoder stays ended and sends
/// nothing more, whatever arrives.
pub proof fn lemma_gemini_end_is_final(s: GeminiState, data: Seq<char>)
    requires
        s.ended,
    ensures
        decode_step(s, data) == (s, Ok::<Seq<Event>, Seq<char>>(Seq::<Event>::empty())),
        end_step(s) == (s, Seq::<Event>::empty()),
{
}

/// Law: the `[DONE]` marker ends a live response with exactly one
/// `ResponseEnd`, carrying the usage seen so far; ending again sends nothing.
pub proof fn lemma_gemini_done_ends_once(s: GeminiState, data: Seq<char>, later: Seq<char>)
    requires
        !s.ended,
        trim(data) == "[DONE]"@,
    ensures
        decode_step(s, data).1 == Ok::<Seq<Event>, Seq<char>>(seq![Event::ResponseEnd { usage: s.usage }]),
        decode_step(s, data).0.ended,
        decode_step(decode_step(s, data).0, later).1 == Ok::<Seq<Event>, Seq<char>>(Seq::<Event>::empty()),
        end_step(decode_step(s, data).0).1 == Seq::<Event>::empty(),
{
}

} // verus!
