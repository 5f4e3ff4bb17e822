//! Decoding Anthropic Messages server-sent events.
//!
//! Each `data:` payload is one typed event; the decoder checks that the
//! events arrive in a valid order (a message starts once, deltas refer to
//! open blocks of the right kind) and reports any violation as a stream
//! error without changing its state.

use crate::domain::error::{ErrorCategory, ProxyError};
use crate::domain::response::{events_view, Event, NeutralStreamEvent, UsageInfo};
use crate::json::{entries_get, json_parse_result, json_text, parse_json, to_json_text, Json, JsonValue};
use crate::providers::anthropic::{normalize_finish_reason, spec_finish_reason};
use crate::providers::gemini::stream::lemma_events_push;
use crate::text::{chars_eq_str, chars_of, decimal, push_decimal, push_str, string_from_chars};
use vstd::prelude::*;

verus! {

#[derive(Debug, Clone, Copy, PartialEq, Eq, Structural)]
pub enum BlockKind {
    Text,
    Thinking,
    ToolUse,
    Other,
}

/// What an Anthropic stream decoder remembers between events. Open blocks
/// and pending thinking signatures are kept in ascending index order.
#[verifier::ext_equal]
pub struct AnthropicState {
    pub model: Seq<char>,
    pub started: bool,
    pub finish_emitted: bool,
    pub ended: bool,
    pub usage: Option<UsageInfo>,
    pub open: Seq<(u32, BlockKind)>,
    pub signatures: Seq<(u32, Seq<char>)>,
}

pub open spec fn keys_of<V>(s: Seq<(u32, V)>) -> Seq<u32> {
    s.map_values(|e: (u32, V)| e.0)
}

pub open spec fn keys_sorted(k: Seq<u32>) -> bool {
    forall|i: int, j: int| 0 <= i < j < k.len() ==> #[trigger] k[i] < #[trigger] k[j]
}

impl AnthropicState {
    pub open spec fn wf(self) -> bool {
        keys_sorted(keys_of(self.open)) && keys_sorted(keys_of(self.signatures))
    }
}

/// Position of key `k`, or -1.
pub open spec fn key_pos(keys: Seq<u32>, k: u32) -> int
    decreases keys.len(),
{
    if keys.len() == 0 {
        -1
    } else if key_pos(keys.drop_last(), k) >= 0 {
        key_pos(keys.drop_last(), k)
    } else if keys.last() == k {
        keys.len() - 1
    } else {
        -1
    }
}

pub open spec fn lookup<V>(s: Seq<(u32, V)>, k: u32) -> Option<V> {
    let p = key_pos(keys_of(s), k);
    if p >= 0 {
        Some(s[p].1)
    } else {
        None
    }
}

/// Where `k` goes among sorted keys: after every smaller key.
pub open spec fn insert_pos(keys: Seq<u32>, k: u32) -> int
    decreases keys.len(),
{
    if keys.len() == 0 {
        0
    } else if keys.last() < k {
        keys.len() as int
    } else {
        insert_pos(keys.drop_last(), k)
    }
}

pub open spec fn insert_sorted<V>(s: Seq<(u32, V)>, k: u32, v: V) -> Seq<(u32, V)> {
    s.insert(insert_pos(keys_of(s), k), (k, v))
}

pub open spec fn remove_key<V>(s: Seq<(u32, V)>, k: u32) -> Seq<(u32, V)> {
    let p = key_pos(keys_of(s), k);
    if p >= 0 {
        s.remove(p)
    } else {
        s
    }
}

/// `s` with the value under `k` replaced by `v`, or `(k, v)` inserted in order.
pub open spec fn upsert<V>(s: Seq<(u32, V)>, k: u32, v: V) -> Seq<(u32, V)> {
    let p = key_pos(keys_of(s), k);
    if p >= 0 {
        s.update(p, (k, v))
    } else {
        insert_sorted(s, k, v)
    }
}

pub open spec fn msg(event_type: Seq<char>, tail: Seq<char>) -> Seq<char> {
    "Anthropic "@ + event_type + tail
}

/// The error for an event that needs a started, unfinished message.
pub open spec fn inactive_error(s: AnthropicState, event_type: Seq<char>) -> Option<Seq<char>> {
    if s.ended {
        Some(msg(event_type, " received after response end"@))
    } else if !s.started {
        Some(msg(event_type, " received before message_start"@))
    } else {
        None
    }
}

pub open spec fn required_index(v: Json, event_type: Seq<char>) -> Result<u32, Seq<char>> {
    match v.get("index"@) {
        Some(Json::Number(crate::json::JsonNum::Unsigned(u))) => if u <= u32::MAX {
            Ok(u as u32)
        } else {
            Err(msg(event_type, " index exceeds the supported range"@))
        },
        _ => Err(msg(event_type, " is missing integer field index"@)),
    }
}

pub open spec fn required_object(v: Json, field: Seq<char>, event_type: Seq<char>) -> Result<Json, Seq<char>> {
    match v.get(field) {
        Some(Json::Object(e)) => Ok(Json::Object(e)),
        _ => Err(msg(event_type, " is missing object field "@ + field)),
    }
}

/// A usage count: absent, or a non-negative integer that fits in `u32`.
pub open spec fn usage_token(usage: Json, field: Seq<char>, event_type: Seq<char>) -> Result<Option<u32>, Seq<char>> {
    match usage.get(field) {
        None => Ok(None),
        Some(Json::Number(crate::json::JsonNum::Unsigned(u))) => if u <= u32::MAX {
            Ok(Some(u as u32))
        } else {
            Err(msg(event_type, " usage."@ + field + " exceeds the supported range"@))
        },
        Some(_) => Err(msg(event_type, " usage."@ + field + " must be a non-negative integer"@)),
    }
}

/// Usage reported by an event: input and output counts, each keeping its
/// earlier value where the event leaves it out; their sum must fit in `u32`.
pub open spec fn event_usage(value: Option<Json>, current: Option<UsageInfo>, event_type: Seq<char>) -> Result<Option<UsageInfo>, Seq<char>> {
    match value {
        None => Ok(None),
        Some(Json::Null) => Ok(None),
        Some(Json::Object(e)) => {
            let u = Json::Object(e);
            let cur_in: u32 = match current {
                Some(c) => c.input_tokens,
                None => 0,
            };
            let cur_out: u32 = match current {
                Some(c) => c.output_tokens,
                None => 0,
            };
            match usage_token(u, "input_tokens"@, event_type) {
                Err(m) => Err(m),
                Ok(i) => match usage_token(u, "output_tokens"@, event_type) {
                    Err(m) => Err(m),
                    Ok(o) => {
                        let input = match i {
                            Some(x) => x,
                            None => cur_in,
                        };
                        let output = match o {
                            Some(x) => x,
                            None => cur_out,
                        };
                        if input + output > u32::MAX {
                            Err(msg(event_type, " usage token total exceeds the supported range"@))
                        } else {
                            Ok(
                                Some(
                                    UsageInfo {
                                        input_tokens: input,
                                        output_tokens: output,
                                        cache_read_tokens: None,
                                        cache_write_tokens: None,
                                        reasoning_tokens: None,
                                        total_tokens: (input + output) as u32,
                                    },
                                ),
                            )
                        }
                    },
                },
            }
        },
        Some(_) => Err(msg(event_type, " usage must be a JSON object"@)),
    }
}

pub type Step = (AnthropicState, Result<Seq<Event>, Seq<char>>);

pub open spec fn fail(s: AnthropicState, m: Seq<char>) -> Step {
    (s, Err(m))
}

pub open spec fn message_start(s: AnthropicState, v: Json) -> Step {
    if s.ended {
        fail(s, "Anthropic message_start received after response end"@)
    } else if s.started {
        fail(s, "Anthropic stream contains multiple message_start events"@)
    } else {
        match required_object(v, "message"@, "message_start"@) {
            Err(m) => fail(s, m),
            Ok(message) => match message.get("id"@) {
                Some(Json::Str(_)) | Some(Json::Null) | None => match message.get("model"@) {
                    Some(Json::Str(_)) | Some(Json::Null) | None => match event_usage(
                        message.get("usage"@),
                        s.usage,
                        "message_start"@,
                    ) {
                        Err(m) => fail(s, m),
                        Ok(u) => (
                            AnthropicState {
                                started: true,
                                usage: match u {
                                    Some(x) => Some(x),
                                    None => s.usage,
                                },
                                ..s
                            },
                            Ok(
                                seq![
                                    Event::ResponseStart {
                                        response_id: match message.get("id"@) {
                                            Some(Json::Str(id)) => Some(id),
                                            _ => None,
                                        },
                                        model: match message.get("model"@) {
                                            Some(Json::Str(m)) => m,
                                            _ => s.model,
                                        },
                                    },
                                ],
                            ),
                        ),
                    },
                    _ => fail(s, "Anthropic message_start message.model must be a string"@),
                },
                _ => fail(s, "Anthropic message_start message.id must be a string"@),
            },
        }
    }
}

/// The arguments sent with a tool call as it starts: its `input` object
/// where it has members.
pub open spec fn initial_arguments(block: Json) -> Result<Option<Seq<char>>, Seq<char>> {
    match block.get("input"@) {
        None | Some(Json::Null) => Ok(None),
        Some(Json::Object(e)) => if e.len() == 0 {
            Ok(None)
        } else {
            Ok(Some(json_text(Json::Object(e))))
        },
        Some(_) => Err("Anthropic tool_use content block input must be a JSON object"@),
    }
}

pub open spec fn block_start(s: AnthropicState, v: Json) -> Step {
    let et = "content_block_start"@;
    match inactive_error(s, et) {
        Some(m) => fail(s, m),
        None => match required_index(v, et) {
            Err(m) => fail(s, m),
            Ok(index) => if lookup(s.open, index) is Some {
                fail(s, "Anthropic content block "@ + decimal(index as nat) + " was started more than once"@)
            } else {
                match required_object(v, "content_block"@, et) {
                    Err(m) => fail(s, m),
                    Ok(block) => match block.get("type"@) {
                        Some(Json::Str(t)) => if t == "tool_use"@ {
                            match block.get("id"@) {
                                Some(Json::Str(id)) => match block.get("name"@) {
                                    Some(Json::Str(name)) => match initial_arguments(block) {
                                        Err(m) => fail(s, m),
                                        Ok(args) => (
                                            AnthropicState { open: insert_sorted(s.open, index, BlockKind::ToolUse), ..s },
                                            Ok(
                                                seq![
                                                    Event::ToolCallStart {
                                                        choice_index: 0,
                                                        tool_call_index: index,
                                                        id,
                                                        name,
                                                    },
                                                ] + match args {
                                                    Some(a) => seq![
                                                        Event::ToolCallArgumentsDelta {
                                                            choice_index: 0,
                                                            tool_call_index: index,
                                                            arguments_delta: a,
                                                        },
                                                    ],
                                                    None => seq![],
                                                },
                                            ),
                                        ),
                                    },
                                    _ => fail(s, "Anthropic tool_use content block is missing string field name"@),
                                },
                                _ => fail(s, "Anthropic tool_use content block is missing string field id"@),
                            }
                        } else if t == "text"@ {
                            (AnthropicState { open: insert_sorted(s.open, index, BlockKind::Text), ..s }, Ok(seq![]))
                        } else if t == "thinking"@ {
                            let signature = match block.get("signature"@) {
                                Some(Json::Str(sig)) => sig,
                                _ => seq![],
                            };
                            (
                                AnthropicState {
                                    open: insert_sorted(s.open, index, BlockKind::Thinking),
                                    signatures: upsert(s.signatures, index, signature),
                                    ..s
                                },
                                Ok(seq![]),
                            )
                        } else {
                            (AnthropicState { open: insert_sorted(s.open, index, BlockKind::Other), ..s }, Ok(seq![]))
                        },
                        _ => fail(s, "Anthropic content_block_start is missing string field content_block.type"@),
                    },
                }
            },
        },
    }
}

/// Checks that block `index` is open with the kind a delta needs.
pub open spec fn kind_error(s: AnthropicState, index: u32, expected: BlockKind, delta_type: Seq<char>) -> Option<Seq<char>> {
    match lookup(s.open, index) {
        Some(k) => if k == expected {
            None
        } else {
            Some(msg(delta_type, " does not match content block "@ + decimal(index as nat)))
        },
        None => Some(msg(delta_type, " references unopened content block "@ + decimal(index as nat))),
    }
}

/// A delta that carries one string field for an open block of one kind.
pub open spec fn checked_delta(s: AnthropicState, v: Json, delta: Json, delta_type: Seq<char>, kind: BlockKind, field: Seq<char>) -> Result<(u32, Seq<char>), Seq<char>> {
    match required_index(v, "content_block_delta"@) {
        Err(m) => Err(m),
        Ok(index) => match kind_error(s, index, kind, delta_type) {
            Some(m) => Err(m),
            None => match delta.get(field) {
                Some(Json::Str(x)) => Ok((index, x)),
                _ => Err(msg(delta_type, " is missing string field "@ + field)),
            },
        },
    }
}

pub open spec fn block_delta(s: AnthropicState, v: Json) -> Step {
    let et = "content_block_delta"@;
    match inactive_error(s, et) {
        Some(m) => fail(s, m),
        None => match required_object(v, "delta"@, et) {
            Err(m) => fail(s, m),
            Ok(delta) => match delta.get("type"@) {
                Some(Json::Str(dt)) => if dt == "text_delta"@ {
                    match checked_delta(s, v, delta, dt, BlockKind::Text, "text"@) {
                        Err(m) => fail(s, m),
                        Ok(r) => (s, Ok(seq![Event::TextDelta { choice_index: 0, text: r.1 }])),
                    }
                } else if dt == "thinking_delta"@ {
                    match checked_delta(s, v, delta, dt, BlockKind::Thinking, "thinking"@) {
                        Err(m) => fail(s, m),
                        Ok(r) => (s, Ok(seq![Event::ThinkingDelta { choice_index: 0, text: r.1 }])),
                    }
                } else if dt == "signature_delta"@ {
                    match checked_delta(s, v, delta, dt, BlockKind::Thinking, "signature"@) {
                        Err(m) => fail(s, m),
                        Ok(r) => (
                            AnthropicState {
                                signatures: upsert(
                                    s.signatures,
                                    r.0,
                                    match lookup(s.signatures, r.0) {
                                        Some(old) => old + r.1,
                                        None => r.1,
                                    },
                                ),
                                ..s
                            },
                            Ok(seq![]),
                        ),
                    }
                } else if dt == "input_json_delta"@ {
                    match checked_delta(s, v, delta, dt, BlockKind::ToolUse, "partial_json"@) {
                        Err(m) => fail(s, m),
                        Ok(r) => (
                            s,
                            Ok(
                                seq![
                                    Event::ToolCallArgumentsDelta {
                                        choice_index: 0,
                                        tool_call_index: r.0,
                                        arguments_delta: r.1,
                                    },
                                ],
                            ),
                        ),
                    }
                } else {
                    (s, Ok(seq![]))
                },
                _ => fail(s, "Anthropic content_block_delta is missing string field delta.type"@),
            },
        },
    }
}

pub open spec fn block_stop(s: AnthropicState, v: Json) -> Step {
    let et = "content_block_stop"@;
    match inactive_error(s, et) {
        Some(m) => fail(s, m),
        None => match required_index(v, et) {
            Err(m) => fail(s, m),
            Ok(index) => match lookup(s.open, index) {
                None => fail(s, "Anthropic content_block_stop references unopened content block "@ + decimal(index as nat)),
                Some(kind) => {
                    let s1 = AnthropicState { open: remove_key(s.open, index), ..s };
                    if kind == BlockKind::ToolUse {
                        (s1, Ok(seq![Event::ToolCallEnd { choice_index: 0, tool_call_index: index }]))
                    } else if kind == BlockKind::Thinking {
                        let sig = match lookup(s.signatures, index) {
                            Some(x) => x,
                            None => seq![],
                        };
                        (
                            AnthropicState { signatures: remove_key(s.signatures, index), ..s1 },
                            Ok(
                                if sig.len() == 0 {
                                    seq![]
                                } else {
                                    seq![Event::ThinkingSignature { choice_index: 0, signature: sig }]
                                },
                            ),
                        )
                    } else {
                        (s1, Ok(seq![]))
                    }
                },
            },
        },
    }
}

pub open spec fn message_delta(s: AnthropicState, v: Json) -> Step {
    let et = "message_delta"@;
    match inactive_error(s, et) {
        Some(m) => fail(s, m),
        None => match event_usage(v.get("usage"@), s.usage, et) {
            Err(m) => fail(s, m),
            Ok(u) => match required_object(v, "delta"@, et) {
                Err(m) => fail(s, m),
                Ok(delta) => match delta.get("stop_reason"@) {
                    Some(Json::Str(_)) | Some(Json::Null) | None => {
                        let usage = match u {
                            Some(x) => Some(x),
                            None => s.usage,
                        };
                        match delta.get("stop_reason"@) {
                            Some(Json::Str(r)) => if !s.finish_emitted {
                                (
                                    AnthropicState { usage, finish_emitted: true, ..s },
                                    Ok(
                                        seq![
                                            Event::Finish {
                                                choice_index: 0,
                                                reason: spec_finish_reason(r),
                                                raw_finish_reason: Some(r),
                                            },
                                        ],
                                    ),
                                )
                            } else {
                                (AnthropicState { usage, ..s }, Ok(seq![]))
                            },
                            _ => (AnthropicState { usage, ..s }, Ok(seq![])),
                        }
                    },
                    _ => fail(s, "Anthropic message_delta delta.stop_reason must be a string"@),
                },
            },
        },
    }
}

pub open spec fn tool_ends(open: Seq<(u32, BlockKind)>) -> Seq<Event>
    decreases open.len(),
{
    if open.len() == 0 {
        seq![]
    } else {
        tool_ends(open.drop_last()) + if open.last().1 == BlockKind::ToolUse {
            seq![Event::ToolCallEnd { choice_index: 0, tool_call_index: open.last().0 }]
        } else {
            seq![]
        }
    }
}

pub open spec fn signature_events(sigs: Seq<(u32, Seq<char>)>) -> Seq<Event>
    decreases sigs.len(),
{
    if sigs.len() == 0 {
        seq![]
    } else {
        signature_events(sigs.drop_last()) + if sigs.last().1.len() > 0 {
            seq![Event::ThinkingSignature { choice_index: 0, signature: sigs.last().1 }]
        } else {
            seq![]
        }
    }
}

/// The end of the response, once: open tool calls end and pending
/// signatures are sent, in index order, then `ResponseEnd` with the usage.
pub open spec fn close_step(s: AnthropicState) -> Step {
    if s.ended {
        (s, Ok(seq![]))
    } else {
        (
            AnthropicState { open: seq![], signatures: seq![], ended: true, ..s },
            Ok(tool_ends(s.open) + signature_events(s.signatures) + seq![Event::ResponseEnd { usage: s.usage }]),
        )
    }
}

pub open spec fn message_stop(s: AnthropicState) -> Step {
    if s.ended {
        (s, Ok(seq![]))
    } else if !s.started {
        fail(s, "Anthropic message_stop received before message_start"@)
    } else {
        close_step(s)
    }
}

/// One `data:` payload: the next state and the events, or the message of
/// the error (`StreamInterrupted`, 502), which leaves the state unchanged.
pub open spec fn decode_step(s: AnthropicState, data: Seq<char>) -> Step {
    match json_parse_result(data) {
        Err(m) => fail(s, "Failed to parse Anthropic stream event JSON: "@ + m),
        Ok(v) => match v.get("type"@) {
            Some(Json::Str(t)) => if t == "message_start"@ {
                message_start(s, v)
            } else if t == "content_block_start"@ {
                block_start(s, v)
            } else if t == "content_block_delta"@ {
                block_delta(s, v)
            } else if t == "content_block_stop"@ {
                block_stop(s, v)
            } else if t == "message_delta"@ {
                message_delta(s, v)
            } else if t == "message_stop"@ {
                message_stop(s)
            } else {
                (s, Ok(seq![]))
            },
            _ => fail(s, "Anthropic stream event is missing string field type"@),
        },
    }
}

pub open spec fn sigs_view(v: Seq<(u32, String)>) -> Seq<(u32, Seq<char>)> {
    v.map_values(|e: (u32, String)| (e.0, e.1@))
}

/// Decodes Anthropic stream events into neutral events.
#[derive(Debug)]
pub struct AnthropicStreamDecoder {
    fallback_model: String,
    message_started: bool,
    finish_emitted: bool,
    response_ended: bool,
    usage: Option<UsageInfo>,
    open_blocks: Vec<(u32, BlockKind)>,
    thinking_signatures: Vec<(u32, String)>,
}

impl View for AnthropicStreamDecoder {
    type V = AnthropicState;

    closed spec fn view(&self) -> AnthropicState {
        AnthropicState {
            model: self.fallback_model@,
            started: self.message_started,
            finish_emitted: self.finish_emitted,
            ended: self.response_ended,
            usage: self.usage,
            open: self.open_blocks@,
            signatures: sigs_view(self.thinking_signatures@),
        }
    }
}

pub proof fn lemma_key_pos(keys: Seq<u32>, k: u32)
    ensures
        key_pos(keys, k) < keys.len(),
        key_pos(keys, k) >= 0 ==> keys[key_pos(keys, k)] == k,
        key_pos(keys, k) >= 0 ==> forall|j: int| 0 <= j < key_pos(keys, k) ==> #[trigger] keys[j] != k,
        key_pos(keys, k) < 0 ==> forall|j: int| 0 <= j < keys.len() ==> #[trigger] keys[j] != k,
    decreases keys.len(),
{
    if keys.len() > 0 {
        lemma_key_pos(keys.drop_last(), k);
        assert forall|j: int| 0 <= j < keys.len() - 1 implies #[trigger] keys[j] == keys.drop_last()[j] by {}
    }
}

proof fn lemma_insert_pos(keys: Seq<u32>, k: u32, i: int)
    requires
        keys_sorted(keys),
        0 <= i <= keys.len(),
        forall|j: int| 0 <= j < i ==> #[trigger] keys[j] < k,
        i < keys.len() ==> keys[i] > k,
    ensures
        insert_pos(keys, k) == i,
    decreases keys.len(),
{
    if keys.len() > 0 {
        let n = keys.len() - 1;
        if keys.last() < k {
            if i < keys.len() {
                assert(keys[i] <= keys[n]);
            }
        } else {
            if i == keys.len() {
                assert(keys[n] < k);
            }
            let d = keys.drop_last();
            assert forall|a: int, b: int| 0 <= a < b < d.len() implies #[trigger] d[a] < #[trigger] d[b] by {
                assert(d[a] == keys[a] && d[b] == keys[b]);
            }
            assert forall|j: int| 0 <= j < i implies #[trigger] d[j] < k by {
                assert(d[j] == keys[j]);
            }
            if i < d.len() {
                assert(d[i] == keys[i]);
            }
            lemma_insert_pos(d, k, i);
        }
    }
}

proof fn lemma_keys_insert<V>(s: Seq<(u32, V)>, i: int, k: u32, v: V)
    requires
        0 <= i <= s.len(),
    ensures
        keys_of(s.insert(i, (k, v))) == keys_of(s).insert(i, k),
{
    assert(keys_of(s.insert(i, (k, v))) =~= keys_of(s).insert(i, k));
}

proof fn lemma_keys_remove<V>(s: Seq<(u32, V)>, i: int)
    requires
        0 <= i < s.len(),
    ensures
        keys_of(s.remove(i)) == keys_of(s).remove(i),
{
    assert(keys_of(s.remove(i)) =~= keys_of(s).remove(i));
}

proof fn lemma_sorted_insert(keys: Seq<u32>, i: int, k: u32)
    requires
        keys_sorted(keys),
        0 <= i <= keys.len(),
        forall|j: int| 0 <= j < i ==> #[trigger] keys[j] < k,
        i < keys.len() ==> keys[i] > k,
    ensures
        keys_sorted(keys.insert(i, k)),
{
    let n = keys.insert(i, k);
    assert forall|a: int, b: int| 0 <= a < b < n.len() implies #[trigger] n[a] < #[trigger] n[b] by {
        if b < i {
            assert(n[a] == keys[a] && n[b] == keys[b]);
        } else if b == i {
            assert(n[a] == keys[a]);
        } else if a < i {
            assert(n[a] == keys[a] && n[b] == keys[b - 1]);
            assert(keys[i] <= keys[b - 1]);
        } else if a == i {
            assert(n[b] == keys[b - 1]);
            assert(keys[i] <= keys[b - 1]);
        } else {
            assert(n[a] == keys[a - 1] && n[b] == keys[b - 1]);
        }
    }
}

proof fn lemma_sorted_remove(keys: Seq<u32>, i: int)
    requires
        keys_sorted(keys),
        0 <= i < keys.len(),
    ensures
        keys_sorted(keys.remove(i)),
{
    let n = keys.remove(i);
    assert forall|a: int, b: int| 0 <= a < b < n.len() implies #[trigger] n[a] < #[trigger] n[b] by {
        if b < i {
            assert(n[a] == keys[a] && n[b] == keys[b]);
        } else if a < i {
            assert(n[a] == keys[a] && n[b] == keys[b + 1]);
        } else {
            assert(n[a] == keys[a + 1] && n[b] == keys[b + 1]);
        }
    }
}

pub fn key_index<V>(v: &Vec<(u32, V)>, k: u32) -> (r: Option<usize>)
    ensures
        r matches Some(i) ==> i < v@.len() && key_pos(keys_of(v@), k) == i as int,
        r is None ==> key_pos(keys_of(v@), k) < 0,
{
    let ghost ks = keys_of(v@);
    proof {
        lemma_key_pos(ks, k);
    }
    let mut i: usize = 0;
    while i < v.len()
        invariant
            i <= v@.len(),
            ks == keys_of(v@),
            ks.len() == v@.len(),
            forall|j: int| 0 <= j < i ==> #[trigger] ks[j] != k,
        decreases v.len() - i,
    {
        assert(ks[i as int] == v@[i as int].0);
        if v[i].0 == k {
            proof {
                lemma_key_pos(ks, k);
                let p = key_pos(ks, k);
                if p < 0 || p > i {
                    assert(ks[i as int] != k);
                } else if p < i {
                    assert(ks[p] != k);
                }
            }
            return Some(i);
        }
        i += 1;
    }
    None
}

/// Where key `k` goes among the sorted keys of `v`.
fn insert_index<V>(v: &Vec<(u32, V)>, k: u32) -> (r: usize)
    requires
        keys_sorted(keys_of(v@)),
        key_pos(keys_of(v@), k) < 0,
    ensures
        r <= v@.len(),
        r == insert_pos(keys_of(v@), k),
        keys_sorted(keys_of(v@).insert(r as int, k)),
{
    let ghost ks = keys_of(v@);
    proof {
        lemma_key_pos(ks, k);
    }
    let mut i: usize = 0;
    while i < v.len() && v[i].0 < k
        invariant
            i <= v@.len(),
            ks == keys_of(v@),
            ks.len() == v@.len(),
            forall|j: int| 0 <= j < i ==> #[trigger] ks[j] < k,
        decreases v.len() - i,
    {
        assert(ks[i as int] == v@[i as int].0);
        i += 1;
    }
    proof {
        lemma_key_pos(ks, k);
        if i < v@.len() {
            assert(ks[i as int] == v@[i as int].0);
            assert(ks[i as int] != k);
        }
        lemma_insert_pos(ks, k, i as int);
        lemma_sorted_insert(ks, i as int, k);
    }
    i
}

fn msg_text(event_type: &str, tail: &str) -> (r: String)
    ensures
        r@ == msg(event_type@, tail@),
{
    let mut buf: Vec<char> = Vec::new();
    push_str(&mut buf, "Anthropic ");
    push_str(&mut buf, event_type);
    push_str(&mut buf, tail);
    string_from_chars(buf.as_slice())
}

fn msg_index(head: &str, tail: &str, index: u32) -> (r: String)
    ensures
        r@ == head@ + tail@ + decimal(index as nat),
{
    let mut buf: Vec<char> = Vec::new();
    push_str(&mut buf, head);
    push_str(&mut buf, tail);
    push_decimal(&mut buf, index as u64);
    string_from_chars(buf.as_slice())
}

fn msg_around(head: &str, index: u32, tail: &str) -> (r: String)
    ensures
        r@ == head@ + decimal(index as nat) + tail@,
{
    let mut buf: Vec<char> = Vec::new();
    push_str(&mut buf, head);
    push_decimal(&mut buf, index as u64);
    push_str(&mut buf, tail);
    string_from_chars(buf.as_slice())
}

fn get<'a>(v: &'a JsonValue, key: &str) -> (r: Option<&'a JsonValue>)
    ensures
        r matches Some(x) ==> v@.get(key@) == Some(x@),
        r is None ==> v@.get(key@) is None,
{
    v.get(key)
}

fn required_index_of(v: &JsonValue, event_type: &str) -> (r: Result<u32, String>)
    ensures
        match r {
            Ok(i) => required_index(v@, event_type@) == Ok::<u32, Seq<char>>(i),
            Err(m) => required_index(v@, event_type@) == Err::<u32, Seq<char>>(m@),
        },
{
    match get(v, "index") {
        Some(JsonValue::Number(crate::json::JsonNumber::Unsigned(u))) => if *u <= u32::MAX as u64 {
            Ok(*u as u32)
        } else {
            Err(msg_text(event_type, " index exceeds the supported range"))
        },
        _ => Err(msg_text(event_type, " is missing integer field index")),
    }
}

fn required_object_of<'a>(v: &'a JsonValue, field: &str, event_type: &str) -> (r: Result<&'a JsonValue, String>)
    ensures
        match r {
            Ok(o) => required_object(v@, field@, event_type@) == Ok::<Json, Seq<char>>(o@) && o@ is Object,
            Err(m) => required_object(v@, field@, event_type@) == Err::<Json, Seq<char>>(m@),
        },
{
    match get(v, field) {
        Some(o) => if o.is_object() {
            Ok(o)
        } else {
            let mut buf: Vec<char> = Vec::new();
            push_str(&mut buf, " is missing object field ");
            push_str(&mut buf, field);
            let tail = string_from_chars(buf.as_slice());
            Err(msg_text(event_type, tail.as_str()))
        },
        None => {
            let mut buf: Vec<char> = Vec::new();
            push_str(&mut buf, " is missing object field ");
            push_str(&mut buf, field);
            let tail = string_from_chars(buf.as_slice());
            Err(msg_text(event_type, tail.as_str()))
        },
    }
}

fn usage_token_of(usage: &JsonValue, field: &str, event_type: &str) -> (r: Result<Option<u32>, String>)
    ensures
        match r {
            Ok(t) => usage_token(usage@, field@, event_type@) == Ok::<Option<u32>, Seq<char>>(t),
            Err(m) => usage_token(usage@, field@, event_type@) == Err::<Option<u32>, Seq<char>>(m@),
        },
{
    match get(usage, field) {
        None => Ok(None),
        Some(JsonValue::Number(crate::json::JsonNumber::Unsigned(u))) => if *u <= u32::MAX as u64 {
            Ok(Some(*u as u32))
        } else {
            let mut buf: Vec<char> = Vec::new();
            push_str(&mut buf, " usage.");
            push_str(&mut buf, field);
            push_str(&mut buf, " exceeds the supported range");
            let tail = string_from_chars(buf.as_slice());
            Err(msg_text(event_type, tail.as_str()))
        },
        Some(_) => {
            let mut buf: Vec<char> = Vec::new();
            push_str(&mut buf, " usage.");
            push_str(&mut buf, field);
            push_str(&mut buf, " must be a non-negative integer");
            let tail = string_from_chars(buf.as_slice());
            Err(msg_text(event_type, tail.as_str()))
        },
    }
}

fn event_usage_of(value: Option<&JsonValue>, current: Option<UsageInfo>, event_type: &str) -> (r: Result<Option<UsageInfo>, String>)
    ensures
        match r {
            Ok(u) => event_usage(
                match value {
                    Some(x) => Some(x@),
                    None => None,
                },
                current,
                event_type@,
            ) == Ok::<Option<UsageInfo>, Seq<char>>(u),
            Err(m) => event_usage(
                match value {
                    Some(x) => Some(x@),
                    None => None,
                },
                current,
                event_type@,
            ) == Err::<Option<UsageInfo>, Seq<char>>(m@),
        },
{
    let u = match value {
        None => return Ok(None),
        Some(JsonValue::Null) => return Ok(None),
        Some(x) => x,
    };
    if !u.is_object() {
        return Err(msg_text(event_type, " usage must be a JSON object"));
    }
    let cur_in: u32 = match current {
        Some(c) => c.input_tokens,
        None => 0,
    };
    let cur_out: u32 = match current {
        Some(c) => c.output_tokens,
        None => 0,
    };
    let i = match usage_token_of(u, "input_tokens", event_type) {
        Ok(t) => t,
        Err(m) => return Err(m),
    };
    let o = match usage_token_of(u, "output_tokens", event_type) {
        Ok(t) => t,
        Err(m) => return Err(m),
    };
    let input = match i {
        Some(x) => x,
        None => cur_in,
    };
    let output = match o {
        Some(x) => x,
        None => cur_out,
    };
    if input as u64 + output as u64 > u32::MAX as u64 {
        return Err(msg_text(event_type, " usage token total exceeds the supported range"));
    }
    Ok(
        Some(
            UsageInfo {
                input_tokens: input,
                output_tokens: output,
                cache_read_tokens: None,
                cache_write_tokens: None,
                reasoning_tokens: None,
                total_tokens: input + output,
            },
        ),
    )
}

spec fn step_ok(r: Result<Vec<NeutralStreamEvent>, String>, expected: Result<Seq<Event>, Seq<char>>) -> bool {
    match r {
        Ok(ev) => expected == Ok::<Seq<Event>, Seq<char>>(events_view(ev@)),
        Err(m) => expected == Err::<Seq<Event>, Seq<char>>(m@),
    }
}

fn no_events() -> (r: Vec<NeutralStreamEvent>)
    ensures
        events_view(r@) == Seq::<Event>::empty(),
{
    let v: Vec<NeutralStreamEvent> = Vec::new();
    assert(events_view(v@) =~= seq![]);
    v
}

fn one_event(e: NeutralStreamEvent) -> (r: Vec<NeutralStreamEvent>)
    ensures
        events_view(r@) == seq![e@],
{
    let mut v: Vec<NeutralStreamEvent> = Vec::new();
    proof {
        lemma_events_push(v@, e);
        assert(events_view(v@) =~= seq![]);
    }
    v.push(e);
    v
}

impl AnthropicStreamDecoder {
    pub fn new(fallback_model: String) -> (r: Self)
        ensures
            r@ == (AnthropicState {
                model: fallback_model@,
                started: false,
                finish_emitted: false,
                ended: false,
                usage: None,
                open: seq![],
                signatures: seq![],
            }),
            r@.wf(),
    {
        let r = AnthropicStreamDecoder {
            fallback_model,
            message_started: false,
            finish_emitted: false,
            response_ended: false,
            usage: None,
            open_blocks: Vec::new(),
            thinking_signatures: Vec::new(),
        };
        assert(sigs_view(r.thinking_signatures@) =~= seq![]);
        assert(keys_of(r.open_blocks@) =~= seq![]);
        assert(keys_of(sigs_view(r.thinking_signatures@)) =~= seq![]);
        r
    }

    fn inactive(&self, event_type: &str) -> (r: Option<String>)
        ensures
            match r {
                Some(m) => inactive_error(self@, event_type@) == Some(m@),
                None => inactive_error(self@, event_type@) is None,
            },
    {
        if self.response_ended {
            return Some(msg_text(event_type, " received after response end"));
        }
        if !self.message_started {
            return Some(msg_text(event_type, " received before message_start"));
        }
        None
    }

    /// Sets the signature held for block `index`.
    fn put_signature(&mut self, index: u32, signature: String)
        requires
            old(self)@.wf(),
        ensures
            final(self)@ == (AnthropicState { signatures: upsert(old(self)@.signatures, index, signature@), ..old(self)@ }),
            final(self)@.wf(),
    {
        let ghost sv = self@.signatures;
        proof {
            assert(keys_of(sv) =~= keys_of(self.thinking_signatures@));
        }
        match key_index(&self.thinking_signatures, index) {
            Some(p) => {
                let ghost before = self.thinking_signatures@;
                self.thinking_signatures.set(p, (index, signature));
                proof {
                    assert(sigs_view(self.thinking_signatures@) =~= sv.update(p as int, (index, signature@)));
                    lemma_key_pos(keys_of(sv), index);
                    assert(keys_of(sigs_view(self.thinking_signatures@)) =~= keys_of(sv));
                }
            },
            None => {
                let i = insert_index(&self.thinking_signatures, index);
                let ghost before = self.thinking_signatures@;
                self.thinking_signatures.insert(i, (index, signature));
                proof {
                    assert(sigs_view(self.thinking_signatures@) =~= sv.insert(i as int, (index, signature@)));
                    lemma_keys_insert(sv, i as int, index, signature@);
                }
            },
        }
    }

    fn open_block(&mut self, index: u32, kind: BlockKind)
        requires
            old(self)@.wf(),
            lookup(old(self)@.open, index) is None,
        ensures
            final(self)@ == (AnthropicState { open: insert_sorted(old(self)@.open, index, kind), ..old(self)@ }),
            final(self)@.wf(),
    {
        let i = insert_index(&self.open_blocks, index);
        self.open_blocks.insert(i, (index, kind));
        proof {
            lemma_keys_insert(old(self)@.open, i as int, index, kind);
        }
    }

    fn decode_message_start(&mut self, value: &JsonValue) -> (r: Result<Vec<NeutralStreamEvent>, String>)
        requires
            old(self)@.wf(),
        ensures
            final(self)@ == message_start(old(self)@, value@).0,
            step_ok(r, message_start(old(self)@, value@).1),
            final(self)@.wf(),
    {
        if self.response_ended {
            return Err(crate::text::owned("Anthropic message_start received after response end"));
        }
        if self.message_started {
            return Err(crate::text::owned("Anthropic stream contains multiple message_start events"));
        }
        let message = match required_object_of(value, "message", "message_start") {
            Ok(m) => m,
            Err(m) => return Err(m),
        };
        let response_id = match get(message, "id") {
            None | Some(JsonValue::Null) => None,
            Some(JsonValue::Str(id)) => Some(id.clone()),
            Some(_) => return Err(crate::text::owned("Anthropic message_start message.id must be a string")),
        };
        let model = match get(message, "model") {
            None | Some(JsonValue::Null) => self.fallback_model.clone(),
            Some(JsonValue::Str(m)) => m.clone(),
            Some(_) => return Err(crate::text::owned("Anthropic message_start message.model must be a string")),
        };
        let usage = match event_usage_of(get(message, "usage"), self.usage, "message_start") {
            Ok(u) => u,
            Err(m) => return Err(m),
        };
        match usage {
            Some(u) => {
                self.usage = Some(u);
            },
            None => {},
        }
        self.message_started = true;
        Ok(one_event(NeutralStreamEvent::ResponseStart { response_id, model }))
    }

    fn decode_content_block_start(&mut self, value: &JsonValue) -> (r: Result<Vec<NeutralStreamEvent>, String>)
        requires
            old(self)@.wf(),
        ensures
            final(self)@ == block_start(old(self)@, value@).0,
            step_ok(r, block_start(old(self)@, value@).1),
            final(self)@.wf(),
    {
        match self.inactive("content_block_start") {
            Some(m) => return Err(m),
            None => {},
        }
        let index = match required_index_of(value, "content_block_start") {
            Ok(i) => i,
            Err(m) => return Err(m),
        };
        if key_index(&self.open_blocks, index).is_some() {
            return Err(msg_around("Anthropic content block ", index, " was started more than once"));
        }
        let block = match required_object_of(value, "content_block", "content_block_start") {
            Ok(b) => b,
            Err(m) => return Err(m),
        };
        let block_type = match get(block, "type") {
            Some(JsonValue::Str(t)) => t,
            _ => {
                return Err(crate::text::owned("Anthropic content_block_start is missing string field content_block.type"));
            },
        };
        let bt = chars_of(block_type.as_str());
        if chars_eq_str(bt.as_slice(), "tool_use") {
            let id = match get(block, "id") {
                Some(JsonValue::Str(id)) => id.clone(),
                _ => return Err(crate::text::owned("Anthropic tool_use content block is missing string field id")),
            };
            let name = match get(block, "name") {
                Some(JsonValue::Str(n)) => n.clone(),
                _ => return Err(crate::text::owned("Anthropic tool_use content block is missing string field name")),
            };
            let initial = match get(block, "input") {
                None | Some(JsonValue::Null) => None,
                Some(input) => match input {
                    JsonValue::Object(e) => {
                        proof {
                            crate::json::lemma_entries_view(e@);
                        }
                        if e.len() == 0 {
                            None
                        } else {
                            Some(to_json_text(input))
                        }
                    },
                    _ => return Err(crate::text::owned("Anthropic tool_use content block input must be a JSON object")),
                },
            };
            assert(initial_arguments(block@) == Ok::<Option<Seq<char>>, Seq<char>>(crate::text::opt_view(initial)));
            self.open_block(index, BlockKind::ToolUse);
            let start = NeutralStreamEvent::ToolCallStart { choice_index: 0, tool_call_index: index, id, name };
            let ghost start_view = start@;
            let mut events = one_event(start);
            match initial {
                Some(a) => {
                    let e = NeutralStreamEvent::ToolCallArgumentsDelta { choice_index: 0, tool_call_index: index, arguments_delta: a };
                    proof {
                        lemma_events_push(events@, e);
                    }
                    events.push(e);
                    assert(events_view(events@) =~= seq![start_view] + seq![e@]);
                },
                None => {
                    assert(events_view(events@) =~= seq![start_view] + Seq::<Event>::empty());
                },
            }
            return Ok(events);
        }
        if chars_eq_str(bt.as_slice(), "text") {
            self.open_block(index, BlockKind::Text);
            return Ok(no_events());
        }
        if chars_eq_str(bt.as_slice(), "thinking") {
            self.open_block(index, BlockKind::Thinking);
            let signature = match get(block, "signature") {
                Some(JsonValue::Str(sig)) => sig.clone(),
                _ => {
                    let e = crate::text::owned("");
                    proof {
                        reveal_strlit("");
                        assert(""@ =~= Seq::<char>::empty());
                    }
                    e
                },
            };
            self.put_signature(index, signature);
            return Ok(no_events());
        }
        self.open_block(index, BlockKind::Other);
        Ok(no_events())
    }

    fn kind_check(&self, index: u32, expected: BlockKind, delta_type: &str) -> (r: Option<String>)
        ensures
            match r {
                Some(m) => kind_error(self@, index, expected, delta_type@) == Some(m@),
                None => kind_error(self@, index, expected, delta_type@) is None,
            },
    {
        match key_index(&self.open_blocks, index) {
            Some(p) => {
                if self.open_blocks[p].1 == expected {
                    None
                } else {
                    let mut buf: Vec<char> = Vec::new();
                    push_str(&mut buf, " does not match content block ");
                    push_decimal(&mut buf, index as u64);
                    let tail = string_from_chars(buf.as_slice());
                    Some(msg_text(delta_type, tail.as_str()))
                }
            },
            None => {
                let mut buf: Vec<char> = Vec::new();
                push_str(&mut buf, " references unopened content block ");
                push_decimal(&mut buf, index as u64);
                let tail = string_from_chars(buf.as_slice());
                Some(msg_text(delta_type, tail.as_str()))
            },
        }
    }

    fn checked(&self, value: &JsonValue, delta: &JsonValue, delta_type: &str, kind: BlockKind, field: &str) -> (r: Result<(u32, String), String>)
        ensures
            match r {
                Ok(x) => checked_delta(self@, value@, delta@, delta_type@, kind, field@) == Ok::<(u32, Seq<char>), Seq<char>>(
                    (x.0, x.1@),
                ),
                Err(m) => checked_delta(self@, value@, delta@, delta_type@, kind, field@) == Err::<(u32, Seq<char>), Seq<char>>(
                    m@,
                ),
            },
    {
        let index = match required_index_of(value, "content_block_delta") {
            Ok(i) => i,
            Err(m) => return Err(m),
        };
        match self.kind_check(index, kind, delta_type) {
            Some(m) => return Err(m),
            None => {},
        }
        match get(delta, field) {
            Some(JsonValue::Str(x)) => Ok((index, x.clone())),
            _ => {
                let mut buf: Vec<char> = Vec::new();
                push_str(&mut buf, " is missing string field ");
                push_str(&mut buf, field);
                let tail = string_from_chars(buf.as_slice());
                Err(msg_text(delta_type, tail.as_str()))
            },
        }
    }

    fn decode_content_block_delta(&mut self, value: &JsonValue) -> (r: Result<Vec<NeutralStreamEvent>, String>)
        requires
            old(self)@.wf(),
        ensures
            final(self)@ == block_delta(old(self)@, value@).0,
            step_ok(r, block_delta(old(self)@, value@).1),
            final(self)@.wf(),
    {
        match self.inactive("content_block_delta") {
            Some(m) => return Err(m),
            None => {},
        }
        let delta = match required_object_of(value, "delta", "content_block_delta") {
            Ok(d) => d,
            Err(m) => return Err(m),
        };
        let delta_type = match get(delta, "type") {
            Some(JsonValue::Str(t)) => t,
            _ => return Err(crate::text::owned("Anthropic content_block_delta is missing string field delta.type")),
        };
        let dt = chars_of(delta_type.as_str());
        if chars_eq_str(dt.as_slice(), "text_delta") {
            return match self.checked(value, delta, delta_type.as_str(), BlockKind::Text, "text") {
                Ok(x) => Ok(one_event(NeutralStreamEvent::TextDelta { choice_index: 0, text: x.1 })),
                Err(m) => Err(m),
            };
        }
        if chars_eq_str(dt.as_slice(), "thinking_delta") {
            return match self.checked(value, delta, delta_type.as_str(), BlockKind::Thinking, "thinking") {
                Ok(x) => Ok(one_event(NeutralStreamEvent::ThinkingDelta { choice_index: 0, text: x.1 })),
                Err(m) => Err(m),
            };
        }
        if chars_eq_str(dt.as_slice(), "signature_delta") {
            return match self.checked(value, delta, delta_type.as_str(), BlockKind::Thinking, "signature") {
                Ok(x) => {
                    let (index, sig) = x;
                    let combined = match key_index(&self.thinking_signatures, index) {
                        Some(p) => {
                            let mut buf = chars_of(self.thinking_signatures[p].1.as_str());
                            push_str(&mut buf, sig.as_str());
                            proof {
                                lemma_key_pos(keys_of(self.thinking_signatures@), index);
                                assert(keys_of(self.thinking_signatures@)[p as int] == self.thinking_signatures@[p as int].0);
                                assert(self@.signatures[p as int] == (index, self.thinking_signatures@[p as int].1@));
                                assert(keys_of(self@.signatures) =~= keys_of(self.thinking_signatures@));
                            }
                            string_from_chars(buf.as_slice())
                        },
                        None => {
                            proof {
                                assert(keys_of(self@.signatures) =~= keys_of(self.thinking_signatures@));
                            }
                            sig
                        },
                    };
                    self.put_signature(index, combined);
                    Ok(no_events())
                },
                Err(m) => Err(m),
            };
        }
        if chars_eq_str(dt.as_slice(), "input_json_delta") {
            return match self.checked(value, delta, delta_type.as_str(), BlockKind::ToolUse, "partial_json") {
                Ok(x) => Ok(
                    one_event(
                        NeutralStreamEvent::ToolCallArgumentsDelta { choice_index: 0, tool_call_index: x.0, arguments_delta: x.1 },
                    ),
                ),
                Err(m) => Err(m),
            };
        }
        Ok(no_events())
    }

    fn decode_content_block_stop(&mut self, value: &JsonValue) -> (r: Result<Vec<NeutralStreamEvent>, String>)
        requires
            old(self)@.wf(),
        ensures
            final(self)@ == block_stop(old(self)@, value@).0,
            step_ok(r, block_stop(old(self)@, value@).1),
            final(self)@.wf(),
    {
        match self.inactive("content_block_stop") {
            Some(m) => return Err(m),
            None => {},
        }
        let index = match required_index_of(value, "content_block_stop") {
            Ok(i) => i,
            Err(m) => return Err(m),
        };
        let p = match key_index(&self.open_blocks, index) {
            Some(p) => p,
            None => {
                proof {
                    reveal_strlit("");
                    assert(""@ =~= Seq::<char>::empty());
                }
                let m = msg_around("Anthropic content_block_stop references unopened content block ", index, "");
                assert(m@ =~= "Anthropic content_block_stop references unopened content block "@ + decimal(index as nat));
                return Err(m);
            },
        };
        let ghost s0 = self@;
        let (_, kind) = self.open_blocks.remove(p);
        proof {
            lemma_keys_remove(s0.open, p as int);
            lemma_sorted_remove(keys_of(s0.open), p as int);
        }
        match kind {
            BlockKind::ToolUse => Ok(one_event(NeutralStreamEvent::ToolCallEnd { choice_index: 0, tool_call_index: index })),
            BlockKind::Thinking => {
                proof {
                    assert(keys_of(s0.signatures) =~= keys_of(self.thinking_signatures@));
                }
                let sig = match key_index(&self.thinking_signatures, index) {
                    Some(q) => {
                        let (_, sig) = self.thinking_signatures.remove(q);
                        proof {
                            assert(sigs_view(self.thinking_signatures@) =~= s0.signatures.remove(q as int));
                            lemma_keys_remove(s0.signatures, q as int);
                            lemma_sorted_remove(keys_of(s0.signatures), q as int);
                        }
                        sig
                    },
                    None => {
                        let e = crate::text::owned("");
                        proof {
                            reveal_strlit("");
                            assert(""@ =~= Seq::<char>::empty());
                        }
                        e
                    },
                };
                if chars_of(sig.as_str()).len() == 0 {
                    Ok(no_events())
                } else {
                    Ok(one_event(NeutralStreamEvent::ThinkingSignature { choice_index: 0, signature: sig }))
                }
            },
            _ => Ok(no_events()),
        }
    }

    fn decode_message_delta(&mut self, value: &JsonValue) -> (r: Result<Vec<NeutralStreamEvent>, String>)
        requires
            old(self)@.wf(),
        ensures
            final(self)@ == message_delta(old(self)@, value@).0,
            step_ok(r, message_delta(old(self)@, value@).1),
            final(self)@.wf(),
    {
        match self.inactive("message_delta") {
            Some(m) => return Err(m),
            None => {},
        }
        let usage = match event_usage_of(get(value, "usage"), self.usage, "message_delta") {
            Ok(u) => u,
            Err(m) => return Err(m),
        };
        let delta = match required_object_of(value, "delta", "message_delta") {
            Ok(d) => d,
            Err(m) => return Err(m),
        };
        let stop_reason = match get(delta, "stop_reason") {
            None | Some(JsonValue::Null) => None,
            Some(JsonValue::Str(r)) => Some(r.clone()),
            Some(_) => return Err(crate::text::owned("Anthropic message_delta delta.stop_reason must be a string")),
        };
        match usage {
            Some(u) => {
                self.usage = Some(u);
            },
            None => {},
        }
        match stop_reason {
            Some(raw) => {
                if !self.finish_emitted {
                    self.finish_emitted = true;
                    let reason = normalize_finish_reason(raw.as_str());
                    return Ok(one_event(NeutralStreamEvent::Finish { choice_index: 0, reason, raw_finish_reason: Some(raw) }));
                }
                Ok(no_events())
            },
            None => Ok(no_events()),
        }
    }

    fn close_response(&mut self) -> (r: Vec<NeutralStreamEvent>)
        requires
            old(self)@.wf(),
        ensures
            final(self)@ == close_step(old(self)@).0,
            close_step(old(self)@).1 == Ok::<Seq<Event>, Seq<char>>(events_view(r@)),
            final(self)@.wf(),
    {
        if self.response_ended {
            return no_events();
        }
        let ghost s0 = self@;
        let mut events: Vec<NeutralStreamEvent> = Vec::new();
        assert(events_view(events@) =~= tool_ends(s0.open.take(0)));
        let mut i: usize = 0;
        while i < self.open_blocks.len()
            invariant
                i <= self.open_blocks@.len(),
                self@ == s0,
                events_view(events@) == tool_ends(s0.open.take(i as int)),
            decreases self.open_blocks.len() - i,
        {
            proof {
                assert(s0.open.take(i as int + 1).drop_last() =~= s0.open.take(i as int));
            }
            if self.open_blocks[i].1 == BlockKind::ToolUse {
                let e = NeutralStreamEvent::ToolCallEnd { choice_index: 0, tool_call_index: self.open_blocks[i].0 };
                proof {
                    lemma_events_push(events@, e);
                }
                events.push(e);
            } else {
                assert(events_view(events@) =~= events_view(events@) + Seq::<Event>::empty());
            }
            i += 1;
        }
        assert(s0.open.take(i as int) =~= s0.open);
        let ghost head = events_view(events@);
        assert(s0.signatures.take(0) =~= seq![]);
        let mut j: usize = 0;
        while j < self.thinking_signatures.len()
            invariant
                j <= self.thinking_signatures@.len(),
                self@ == s0,
                events_view(events@) == head + signature_events(s0.signatures.take(j as int)),
            decreases self.thinking_signatures.len() - j,
        {
            proof {
                assert(s0.signatures.take(j as int + 1).drop_last() =~= s0.signatures.take(j as int));
                assert(s0.signatures[j as int] == (self.thinking_signatures@[j as int].0, self.thinking_signatures@[j as int].1@));
            }
            if chars_of(self.thinking_signatures[j].1.as_str()).len() > 0 {
                let e = NeutralStreamEvent::ThinkingSignature { choice_index: 0, signature: self.thinking_signatures[j].1.clone() };
                proof {
                    lemma_events_push(events@, e);
                }
                events.push(e);
            }
            j += 1;
        }
        assert(s0.signatures.take(j as int) =~= s0.signatures);
        self.open_blocks = Vec::new();
        self.thinking_signatures = Vec::new();
        self.response_ended = true;
        let e = NeutralStreamEvent::ResponseEnd { usage: self.usage };
        proof {
            lemma_events_push(events@, e);
            assert(sigs_view(self.thinking_signatures@) =~= seq![]);
            assert(keys_of(self.open_blocks@) =~= seq![]);
            assert(keys_of(sigs_view(self.thinking_signatures@)) =~= seq![]);
        }
        events.push(e);
        assert(events_view(events@) =~= tool_ends(s0.open) + signature_events(s0.signatures) + seq![e@]);
        events
    }

    /// Decodes one `data:` payload; see `decode_step`.
    pub fn decode_data(&mut self, data: &str) -> (r: Result<Vec<NeutralStreamEvent>, ProxyError>)
        requires
            old(self)@.wf(),
        ensures
            final(self)@.wf(),
            final(self)@ == decode_step(old(self)@, data@).0,
            r matches Ok(events) ==> decode_step(old(self)@, data@).1 == Ok::<Seq<Event>, Seq<char>>(
                events_view(events@),
            ),
            r matches Err(e) ==> decode_step(old(self)@, data@).1 == Err::<Seq<Event>, Seq<char>>(e.message@)
                && e.category == ErrorCategory::StreamInterrupted && e.status_code == 502,
    {
        let value = match parse_json(data) {
            Ok(v) => v,
            Err(m) => {
                let mut buf: Vec<char> = Vec::new();
                push_str(&mut buf, "Failed to parse Anthropic stream event JSON: ");
                push_str(&mut buf, m.as_str());
                let text = string_from_chars(buf.as_slice());
                return Err(ProxyError::new(ErrorCategory::StreamInterrupted, text.as_str(), 502));
            },
        };
        let event_type = match get(&value, "type") {
            Some(JsonValue::Str(t)) => chars_of(t.as_str()),
            _ => {
                return Err(
                    ProxyError::new(ErrorCategory::StreamInterrupted, "Anthropic stream event is missing string field type", 502),
                );
            },
        };
        let t = event_type.as_slice();
        let r = if chars_eq_str(t, "message_start") {
            self.decode_message_start(&value)
        } else if chars_eq_str(t, "content_block_start") {
            self.decode_content_block_start(&value)
        } else if chars_eq_str(t, "content_block_delta") {
            self.decode_content_block_delta(&value)
        } else if chars_eq_str(t, "content_block_stop") {
            self.decode_content_block_stop(&value)
        } else if chars_eq_str(t, "message_delta") {
            self.decode_message_delta(&value)
        } else if chars_eq_str(t, "message_stop") {
            if self.response_ended {
                Ok(no_events())
            } else if !self.message_started {
                Err(crate::text::owned("Anthropic message_stop received before message_start"))
            } else {
                Ok(self.close_response())
            }
        } else {
            Ok(no_events())
        };
        match r {
            Ok(v) => Ok(v),
            Err(m) => Err(ProxyError::new(ErrorCategory::StreamInterrupted, m.as_str(), 502)),
        }
    }

    /// Ends the stream at end of input.
    pub fn finish(&mut self) -> (r: Vec<NeutralStreamEvent>)
        requires
            old(self)@.wf(),
        ensures
            final(self)@.wf(),
            final(self)@ == close_step(old(self)@).0,
            close_step(old(self)@).1 == Ok::<Seq<Event>, Seq<char>>(events_view(r@)),
    {
        self.close_response()
    }
}

/// Law: closing a response sends the pending tool ends and signatures, then
/// exactly one `ResponseEnd` with the usage; closing again, or a later
/// `message_stop`, sends nothing.
pub proof fn lemma_anthropic_close_once(s: AnthropicState)
    requires
        !s.ended,
    ensures
        close_step(s).0.ended,
        close_step(s).1 == Ok::<Seq<Event>, Seq<char>>(
            tool_ends(s.open) + signature_events(s.signatures) + seq![Event::ResponseEnd { usage: s.usage }],
        ),
        close_step(close_step(s).0) == (close_step(s).0, Ok::<Seq<Event>, Seq<char>>(Seq::<Event>::empty())),
        message_stop(close_step(s).0) == (close_step(s).0, Ok::<Seq<Event>, Seq<char>>(Seq::<Event>::empty())),
{
}

} // verus!
