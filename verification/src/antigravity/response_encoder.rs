//! Encoding neutral responses and stream events as Antigravity (Gemini
//! `generateContent`) JSON and server-sent-event frames.

use crate::domain::error::{ErrorCategory, ProxyError};
use crate::domain::request::NeutralContentBlock;
use crate::domain::response::{
    FinishReason, NeutralChatResponse, NeutralChoice, NeutralStreamEvent, UsageInfo,
};
use crate::json::{
    array1, array_value, entries_view, items_view, jobj1, jobj2, jobj3, json_parse_result,
    json_text, juint, object1, object2, object3, object_value, parse_json, push_entry, push_item,
    str_value, to_json_text, uint_value, Json, JsonValue,
};
use crate::text::{chars_of, concat2, decimal, push_decimal, push_str, string_from_chars, trim, trim_chars};
use vstd::prelude::*;

verus! {

/// The Gemini name of a finish reason.
pub open spec fn finish_reason_name(r: FinishReason) -> Seq<char> {
    match r {
        FinishReason::Stop => "STOP"@,
        FinishReason::MaxTokens => "MAX_TOKENS"@,
        FinishReason::ToolCall => "TOOL_CALL"@,
        FinishReason::ContentFilter => "SAFETY"@,
        FinishReason::Other => "OTHER"@,
    }
}

pub open spec fn model_content(parts: Seq<Json>) -> Json {
    jobj2("role"@, Json::Str("model"@), "parts"@, Json::Array(parts))
}

pub open spec fn candidate(index: u32, parts: Seq<Json>) -> Json {
    jobj2("index"@, juint(index as int), "content"@, model_content(parts))
}

pub open spec fn candidates_payload(candidates: Seq<Json>) -> Json {
    jobj1("candidates"@, Json::Array(candidates))
}

pub open spec fn text_part(t: Seq<char>) -> Json {
    jobj1("text"@, Json::Str(t))
}

pub open spec fn inline_part(mime_type: Seq<char>, data: Seq<char>) -> Json {
    jobj1("inlineData"@, jobj2("mimeType"@, Json::Str(mime_type), "data"@, Json::Str(data)))
}

pub open spec fn thought_part(t: Seq<char>) -> Json {
    jobj2("thought"@, Json::Bool(true), "text"@, Json::Str(t))
}

pub open spec fn signed_thought_part(t: Seq<char>, signature: Seq<char>) -> Json {
    jobj3("thought"@, Json::Bool(true), "text"@, Json::Str(t), "thoughtSignature"@, Json::Str(signature))
}

pub open spec fn signature_part(signature: Seq<char>) -> Json {
    jobj2("thought"@, Json::Bool(true), "thoughtSignature"@, Json::Str(signature))
}

pub open spec fn function_call_part(id: Seq<char>, name: Seq<char>, args: Json) -> Json {
    jobj1("functionCall"@, jobj3("id"@, Json::Str(id), "name"@, Json::Str(name), "args"@, args))
}

/// The closing candidate that carries a finish reason.
pub open spec fn finish_candidate(index: u32, reason: FinishReason) -> Json {
    jobj3(
        "index"@,
        juint(index as int),
        "content"@,
        model_content(seq![text_part(Seq::empty())]),
        "finishReason"@,
        Json::Str(finish_reason_name(reason)),
    )
}

pub open spec fn error_payload(code: u16, message: Seq<char>) -> Json {
    jobj1("error"@, jobj2("code"@, juint(code as int), "message"@, Json::Str(message)))
}

/// `usageMetadata`: prompt tokens include cached ones; cache and reasoning
/// counts appear only where they were reported.
pub open spec fn usage_metadata(u: UsageInfo) -> Json {
    let base = seq![
        ("promptTokenCount"@, juint(u.spec_prompt_tokens() as int)),
        ("candidatesTokenCount"@, juint(u.output_tokens as int)),
        ("totalTokenCount"@, juint(u.total_tokens as int)),
    ];
    let with_cache = match u.cache_read_tokens {
        Some(t) => base.push(("cachedContentTokenCount"@, juint(t as int))),
        None => base,
    };
    Json::Object(
        match u.reasoning_tokens {
            Some(t) => with_cache.push(("thoughtsTokenCount"@, juint(t as int))),
            None => with_cache,
        },
    )
}

/// Tool-call arguments as a tree; text that is not JSON becomes `{}`.
pub open spec fn tool_call_args(arguments: Seq<char>) -> Json {
    match json_parse_result(arguments) {
        Ok(v) => v,
        Err(_) => Json::Object(Seq::empty()),
    }
}

/// The Gemini part for one block, if it has one (tool results have none).
pub open spec fn block_part(b: NeutralContentBlock) -> Option<Json> {
    match b {
        NeutralContentBlock::Text(t) => Some(text_part(t@)),
        NeutralContentBlock::InlineData { mime_type, data_base64 } => Some(
            inline_part(mime_type@, data_base64@),
        ),
        NeutralContentBlock::Thinking { text, signature } => Some(
            match signature {
                Some(s) => signed_thought_part(text@, s@),
                None => thought_part(text@),
            },
        ),
        NeutralContentBlock::ToolCall { id, name, arguments_json } => Some(
            function_call_part(id@, name@, tool_call_args(arguments_json@)),
        ),
        NeutralContentBlock::ToolResult { .. } => None,
    }
}

pub open spec fn block_parts(blocks: Seq<NeutralContentBlock>) -> Seq<Json>
    decreases blocks.len(),
{
    if blocks.len() == 0 {
        Seq::empty()
    } else {
        let rest = block_parts(blocks.drop_last());
        match block_part(blocks.last()) {
            Some(p) => rest.push(p),
            None => rest,
        }
    }
}

pub open spec fn response_candidate(c: NeutralChoice) -> Json {
    let base = seq![
        ("index"@, juint(c.index as int)),
        ("content"@, model_content(block_parts(c.blocks@))),
    ];
    Json::Object(
        match c.finish_reason {
            Some(r) => base.push(("finishReason"@, Json::Str(finish_reason_name(r)))),
            None => base,
        },
    )
}

/// The non-streaming response body.
pub open spec fn response_payload(resp: NeutralChatResponse) -> Json {
    let base = seq![
        ("candidates"@, Json::Array(resp.choices@.map_values(|c: NeutralChoice| response_candidate(c)))),
        ("modelVersion"@, Json::Str(resp.model@)),
    ];
    Json::Object(
        match resp.usage {
            Some(u) => base.push(("usageMetadata"@, usage_metadata(u))),
            None => base,
        },
    )
}

pub struct AntigravityResponseEncoder;

fn finish_reason_value(reason: FinishReason) -> (r: &'static str)
    ensures
        r@ == finish_reason_name(reason),
{
    match reason {
        FinishReason::Stop => "STOP",
        FinishReason::MaxTokens => "MAX_TOKENS",
        FinishReason::ToolCall => "TOOL_CALL",
        FinishReason::ContentFilter => "SAFETY",
        FinishReason::Other => "OTHER",
    }
}

fn model_content_value(parts: Vec<JsonValue>) -> (r: JsonValue)
    ensures
        r@ == model_content(items_view(parts@)),
{
    object2("role", str_value("model"), "parts", array_value(parts))
}

fn text_part_value(t: &str) -> (r: JsonValue)
    ensures
        r@ == text_part(t@),
{
    object1("text", str_value(t))
}

fn inline_part_value(mime_type: &str, data: &str) -> (r: JsonValue)
    ensures
        r@ == inline_part(mime_type@, data@),
{
    object1("inlineData", object2("mimeType", str_value(mime_type), "data", str_value(data)))
}

fn function_call_part_value(id: &str, name: &str, args: JsonValue) -> (r: JsonValue)
    ensures
        r@ == function_call_part(id@, name@, args@),
{
    object1("functionCall", object3("id", str_value(id), "name", str_value(name), "args", args))
}

fn finish_candidate_value(index: u32, reason: FinishReason) -> (r: JsonValue)
    ensures
        r@ == finish_candidate(index, reason),
{
    proof {
        reveal_strlit("");
        assert(""@ =~= Seq::<char>::empty());
    }
    let parts = array1(text_part_value(""));
    let content = object2("role", str_value("model"), "parts", parts);
    object3(
        "index",
        uint_value(index as u64),
        "content",
        content,
        "finishReason",
        str_value(finish_reason_value(reason)),
    )
}

fn usage_metadata_value(usage: &UsageInfo) -> (r: JsonValue)
    ensures
        r@ == usage_metadata(*usage),
{
    let mut e: Vec<(String, JsonValue)> = Vec::new();
    proof {
        assert(entries_view(e@) =~= Seq::empty());
    }
    push_entry(&mut e, "promptTokenCount", uint_value(usage.prompt_tokens() as u64));
    push_entry(&mut e, "candidatesTokenCount", uint_value(usage.output_tokens as u64));
    push_entry(&mut e, "totalTokenCount", uint_value(usage.total_tokens as u64));
    let ghost base = entries_view(e@);
    assert(base =~= seq![
        ("promptTokenCount"@, juint(usage.spec_prompt_tokens() as int)),
        ("candidatesTokenCount"@, juint(usage.output_tokens as int)),
        ("totalTokenCount"@, juint(usage.total_tokens as int)),
    ]);
    if let Some(t) = usage.cache_read_tokens {
        push_entry(&mut e, "cachedContentTokenCount", uint_value(t as u64));
    }
    let ghost with_cache = entries_view(e@);
    assert(with_cache == match usage.cache_read_tokens {
        Some(t) => base.push(("cachedContentTokenCount"@, juint(t as int))),
        None => base,
    });
    if let Some(t) = usage.reasoning_tokens {
        push_entry(&mut e, "thoughtsTokenCount", uint_value(t as u64));
    }
    assert(entries_view(e@) == match usage.reasoning_tokens {
        Some(t) => with_cache.push(("thoughtsTokenCount"@, juint(t as int))),
        None => with_cache,
    });
    object_value(e)
}

fn tool_call_args_value(arguments: &str) -> (r: JsonValue)
    ensures
        r@ == tool_call_args(arguments@),
{
    match parse_json(arguments) {
        Ok(v) => v,
        Err(_) => {
            let e: Vec<(String, JsonValue)> = Vec::new();
            proof {
                assert(entries_view(e@) =~= Seq::empty());
            }
            object_value(e)
        },
    }
}

fn block_part_value(b: &NeutralContentBlock) -> (r: Option<JsonValue>)
    ensures
        r matches Some(v) ==> block_part(*b) == Some(v@),
        r is None ==> block_part(*b) is None,
{
    match b {
        NeutralContentBlock::Text(t) => Some(text_part_value(t.as_str())),
        NeutralContentBlock::InlineData { mime_type, data_base64 } => Some(
            inline_part_value(mime_type.as_str(), data_base64.as_str()),
        ),
        NeutralContentBlock::Thinking { text, signature } => match signature {
            Some(s) => Some(
                object3(
                    "thought",
                    JsonValue::Bool(true),
                    "text",
                    str_value(text.as_str()),
                    "thoughtSignature",
                    str_value(s.as_str()),
                ),
            ),
            None => Some(object2("thought", JsonValue::Bool(true), "text", str_value(text.as_str()))),
        },
        NeutralContentBlock::ToolCall { id, name, arguments_json } => Some(
            function_call_part_value(
                id.as_str(),
                name.as_str(),
                tool_call_args_value(arguments_json.as_str()),
            ),
        ),
        NeutralContentBlock::ToolResult { .. } => None,
    }
}

fn encode_blocks(blocks: &Vec<NeutralContentBlock>) -> (r: Vec<JsonValue>)
    ensures
        items_view(r@) == block_parts(blocks@),
{
    let mut parts: Vec<JsonValue> = Vec::new();
    let mut i: usize = 0;
    proof {
        assert(blocks@.take(0) =~= Seq::<NeutralContentBlock>::empty());
        assert(items_view(parts@) =~= Seq::empty());
    }
    while i < blocks.len()
        invariant
            i <= blocks@.len(),
            items_view(parts@) == block_parts(blocks@.take(i as int)),
        decreases blocks.len() - i,
    {
        proof {
            assert(blocks@.take(i as int + 1).drop_last() =~= blocks@.take(i as int));
        }
        match block_part_value(&blocks[i]) {
            Some(p) => push_item(&mut parts, p),
            None => {},
        }
        i += 1;
    }
    proof {
        assert(blocks@.take(i as int) =~= blocks@);
    }
    parts
}

fn response_candidate_value(choice: &NeutralChoice) -> (r: JsonValue)
    ensures
        r@ == response_candidate(*choice),
{
    let parts = encode_blocks(&choice.blocks);
    let mut e: Vec<(String, JsonValue)> = Vec::new();
    proof {
        assert(entries_view(e@) =~= Seq::empty());
    }
    push_entry(&mut e, "index", uint_value(choice.index as u64));
    push_entry(&mut e, "content", model_content_value(parts));
    let ghost base = entries_view(e@);
    assert(base =~= seq![
        ("index"@, juint(choice.index as int)),
        ("content"@, model_content(block_parts(choice.blocks@))),
    ]);
    if let Some(reason) = choice.finish_reason {
        push_entry(&mut e, "finishReason", str_value(finish_reason_value(reason)));
    }
    assert(entries_view(e@) == match choice.finish_reason {
        Some(r) => base.push(("finishReason"@, Json::Str(finish_reason_name(r)))),
        None => base,
    });
    object_value(e)
}

impl AntigravityResponseEncoder {
    /// The non-streaming response as compact JSON text.
    pub fn encode_response(resp: &NeutralChatResponse) -> (r: String)
        ensures
            r@ == json_text(response_payload(*resp)),
    {
        let mut candidates: Vec<JsonValue> = Vec::new();
        let mut i: usize = 0;
        while i < resp.choices.len()
            invariant
                i <= resp.choices@.len(),
                items_view(candidates@) =~= resp.choices@.take(i as int).map_values(
                    |c: NeutralChoice| response_candidate(c),
                ),
            decreases resp.choices.len() - i,
        {
            let c = response_candidate_value(&resp.choices[i]);
            push_item(&mut candidates, c);
            i += 1;
            proof {
                assert(resp.choices@.take(i as int).map_values(|c: NeutralChoice| response_candidate(c))
                    =~= resp.choices@.take(i as int - 1).map_values(
                    |c: NeutralChoice| response_candidate(c),
                ).push(response_candidate(resp.choices@[i as int - 1])));
            }
        }
        proof {
            assert(resp.choices@.take(i as int) =~= resp.choices@);
        }
        let mut e: Vec<(String, JsonValue)> = Vec::new();
        proof {
            assert(entries_view(e@) =~= Seq::empty());
        }
        push_entry(&mut e, "candidates", array_value(candidates));
        push_entry(&mut e, "modelVersion", str_value(resp.model.as_str()));
        let ghost base = entries_view(e@);
        assert(base =~= seq![
            ("candidates"@, Json::Array(resp.choices@.map_values(|c: NeutralChoice| response_candidate(c)))),
            ("modelVersion"@, Json::Str(resp.model@)),
        ]);
        if let Some(usage) = &resp.usage {
            push_entry(&mut e, "usageMetadata", usage_metadata_value(usage));
        }
        assert(entries_view(e@) == match resp.usage {
            Some(u) => base.push(("usageMetadata"@, usage_metadata(u))),
            None => base,
        });
        let payload = object_value(e);
        to_json_text(&payload)
    }
}


/// A tool call whose arguments are still arriving.
pub struct ToolCallDraft {
    pub choice_index: u32,
    pub tool_call_index: u32,
    pub id: Seq<char>,
    pub name: Seq<char>,
    pub arguments: Seq<char>,
}

/// What a stream encoder holds between events.
pub struct EncoderState {
    pub pending: Seq<ToolCallDraft>,
    pub finishes: Seq<(u32, FinishReason)>,
    pub model_version: Option<Seq<char>>,
    pub ended: bool,
}

/// A fresh encoder: nothing open, nothing finished, no model version.
pub open spec fn initial_encoder_state() -> EncoderState {
    EncoderState {
        pending: Seq::empty(),
        finishes: Seq::empty(),
        model_version: None,
        ended: false,
    }
}

/// At most one open tool call per (choice, tool-call index).
pub open spec fn encoder_keys_unique(s: EncoderState) -> bool {
    forall|i: int, j: int|
        0 <= i < j < s.pending.len() ==> !(#[trigger] s.pending[i].choice_index
            == #[trigger] s.pending[j].choice_index && s.pending[i].tool_call_index
            == s.pending[j].tool_call_index)
}

/// The payload with the model version added, where there is one.
pub open spec fn with_model_version(payload: Json, mv: Option<Seq<char>>) -> Json {
    match (payload, mv) {
        (Json::Object(es), Some(m)) => Json::Object(es.push(("modelVersion"@, Json::Str(m)))),
        _ => payload,
    }
}

/// One server-sent event carrying `payload`.
pub open spec fn sse_frame(mv: Option<Seq<char>>, payload: Json) -> Seq<char> {
    "data: "@ + json_text(with_model_version(payload, mv)) + "\n\n"@
}

pub open spec fn done_frame() -> Seq<char> {
    "data: [DONE]\n\n"@
}

/// Position of the open tool call with this key, or -1.
pub open spec fn pending_index(p: Seq<ToolCallDraft>, c: u32, t: u32) -> int
    decreases p.len(),
{
    if p.len() == 0 {
        -1
    } else if p.last().choice_index == c && p.last().tool_call_index == t {
        p.len() - 1
    } else {
        pending_index(p.drop_last(), c, t)
    }
}

/// The closing frame: one candidate per recorded finish (or a synthesized
/// `OTHER` candidate when asked for and none was recorded), with usage.
pub open spec fn final_frame(s: EncoderState, usage: Option<UsageInfo>, synthesize: bool) -> Option<Seq<char>> {
    let recorded = s.finishes.map_values(|f: (u32, FinishReason)| finish_candidate(f.0, f.1));
    let candidates = if recorded.len() == 0 && synthesize {
        seq![finish_candidate(0, FinishReason::Other)]
    } else {
        recorded
    };
    if candidates.len() == 0 {
        None
    } else {
        let base = seq![("candidates"@, Json::Array(candidates))];
        let payload = Json::Object(
            match usage {
                Some(u) => base.push(("usageMetadata"@, usage_metadata(u))),
                None => base,
            },
        );
        Some(sse_frame(s.model_version, payload))
    }
}

pub open spec fn opt_frame(f: Option<Seq<char>>) -> Seq<Seq<char>> {
    match f {
        Some(x) => seq![x],
        None => Seq::empty(),
    }
}

pub open spec fn key_text(prefix: Seq<char>, c: u32, t: u32) -> Seq<char> {
    prefix + decimal(c as nat) + " index "@ + decimal(t as nat)
}

pub open spec fn single_candidate(mv: Option<Seq<char>>, index: u32, part: Json) -> Seq<Seq<char>> {
    seq![sse_frame(mv, candidates_payload(seq![candidate(index, seq![part])]))]
}

/// One step of the stream encoder: the next state, and the frames to send
/// or the message of the error.
pub open spec fn encode_step(s: EncoderState, e: NeutralStreamEvent) -> (EncoderState, Result<Seq<Seq<char>>, Seq<char>>) {
    if s.ended {
        match e {
            NeutralStreamEvent::ResponseEnd { .. } => (s, Ok(Seq::empty())),
            _ => (s, Err("Received stream event after response end"@)),
        }
    } else {
        match e {
            NeutralStreamEvent::ResponseStart { model, .. } => (
                if trim(model@).len() > 0 {
                    EncoderState { model_version: Some(model@), ..s }
                } else {
                    s
                },
                Ok(Seq::empty()),
            ),
            NeutralStreamEvent::TextDelta { choice_index, text } => (
                s,
                Ok(single_candidate(s.model_version, choice_index, text_part(text@))),
            ),
            NeutralStreamEvent::InlineData { choice_index, mime_type, data_base64 } => (
                s,
                Ok(single_candidate(s.model_version, choice_index, inline_part(mime_type@, data_base64@))),
            ),
            NeutralStreamEvent::ThinkingDelta { choice_index, text } => (
                s,
                Ok(single_candidate(s.model_version, choice_index, thought_part(text@))),
            ),
            NeutralStreamEvent::ThinkingSignature { choice_index, signature } => (
                s,
                Ok(single_candidate(s.model_version, choice_index, signature_part(signature@))),
            ),
            NeutralStreamEvent::ToolCallStart { choice_index, tool_call_index, id, name } => {
                if pending_index(s.pending, choice_index, tool_call_index) >= 0 {
                    (
                        s,
                        Err(key_text("Tool call choice "@, choice_index, tool_call_index) + " started more than once"@),
                    )
                } else {
                    (
                        EncoderState {
                            pending: s.pending.push(
                                ToolCallDraft {
                                    choice_index,
                                    tool_call_index,
                                    id: id@,
                                    name: name@,
                                    arguments: Seq::empty(),
                                },
                            ),
                            ..s
                        },
                        Ok(Seq::empty()),
                    )
                }
            },
            NeutralStreamEvent::ToolCallArgumentsDelta { choice_index, tool_call_index, arguments_delta } => {
                let i = pending_index(s.pending, choice_index, tool_call_index);
                if i < 0 {
                    (
                        s,
                        Err(key_text("Tool arguments reference unopened choice "@, choice_index, tool_call_index)),
                    )
                } else {
                    let d = s.pending[i];
                    (
                        EncoderState {
                            pending: s.pending.update(
                                i,
                                ToolCallDraft { arguments: d.arguments + arguments_delta@, ..d },
                            ),
                            ..s
                        },
                        Ok(Seq::empty()),
                    )
                }
            },
            NeutralStreamEvent::ToolCallEnd { choice_index, tool_call_index } => {
                let i = pending_index(s.pending, choice_index, tool_call_index);
                if i < 0 {
                    (
                        s,
                        Err(key_text("Tool end references unopened choice "@, choice_index, tool_call_index)),
                    )
                } else {
                    let d = s.pending[i];
                    let next = EncoderState { pending: s.pending.remove(i), ..s };
                    let args = if d.arguments.len() == 0 {
                        Ok(Json::Object(Seq::empty()))
                    } else {
                        json_parse_result(d.arguments)
                    };
                    match args {
                        Ok(a) => (
                            next,
                            Ok(single_candidate(s.model_version, choice_index, function_call_part(d.id, d.name, a))),
                        ),
                        Err(m) => (
                            next,
                            Err(key_text("Invalid tool arguments JSON for choice "@, choice_index, tool_call_index) + ": "@ + m),
                        ),
                    }
                }
            },
            NeutralStreamEvent::Finish { choice_index, reason, .. } => (
                EncoderState { finishes: s.finishes.push((choice_index, reason)), ..s },
                Ok(Seq::empty()),
            ),
            NeutralStreamEvent::ResponseEnd { usage } => {
                if s.pending.len() > 0 {
                    (s, Err("Response ended while tool calls were still open"@))
                } else {
                    (
                        EncoderState { finishes: Seq::empty(), ended: true, ..s },
                        Ok(opt_frame(final_frame(s, usage, usage is Some)).push(done_frame())),
                    )
                }
            },
            NeutralStreamEvent::Error { message, code } => (
                s,
                Ok(seq![sse_frame(s.model_version, error_payload(code, message@))]),
            ),
        }
    }
}

/// What `abort` does: close the stream with the recorded finishes, unless it
/// already ended or a tool call is still open.
pub open spec fn abort_step(s: EncoderState) -> (EncoderState, Seq<Seq<char>>) {
    if s.ended || s.pending.len() > 0 {
        (s, Seq::empty())
    } else {
        (
            EncoderState { finishes: Seq::empty(), ended: true, ..s },
            opt_frame(final_frame(s, None, false)),
        )
    }
}

pub open spec fn strings_view(v: Seq<String>) -> Seq<Seq<char>> {
    v.map_values(|x: String| x@)
}

#[derive(Debug)]
struct PendingToolCall {
    choice_index: u32,
    tool_call_index: u32,
    id: String,
    name: String,
    arguments: String,
}

spec fn draft_of(p: PendingToolCall) -> ToolCallDraft {
    ToolCallDraft {
        choice_index: p.choice_index,
        tool_call_index: p.tool_call_index,
        id: p.id@,
        name: p.name@,
        arguments: p.arguments@,
    }
}

spec fn drafts(v: Seq<PendingToolCall>) -> Seq<ToolCallDraft> {
    v.map_values(|p: PendingToolCall| draft_of(p))
}

spec fn opt_string_view(o: Option<String>) -> Option<Seq<char>> {
    match o {
        Some(s) => Some(s@),
        None => None,
    }
}

/// Re-encodes neutral stream events as Antigravity server-sent events,
/// holding tool calls until their arguments are complete and finish reasons
/// until the response ends.
#[derive(Debug)]
pub struct AntigravityStreamEncoder {
    pending_tool_calls: Vec<PendingToolCall>,
    pending_finishes: Vec<(u32, FinishReason)>,
    model_version: Option<String>,
    response_ended: bool,
}

impl View for AntigravityStreamEncoder {
    type V = EncoderState;

    closed spec fn view(&self) -> EncoderState {
        EncoderState {
            pending: drafts(self.pending_tool_calls@),
            finishes: self.pending_finishes@,
            model_version: opt_string_view(self.model_version),
            ended: self.response_ended,
        }
    }
}

proof fn lemma_pending_index_prefix(p: Seq<ToolCallDraft>, c: u32, t: u32, i: int)
    requires
        0 <= i <= p.len(),
        forall|j: int| i <= j < p.len() ==> !(#[trigger] p[j].choice_index == c && p[j].tool_call_index == t),
    ensures
        pending_index(p, c, t) == pending_index(p.take(i), c, t),
    decreases p.len() - i,
{
    if i < p.len() {
        assert(p.drop_last().take(i) =~= p.take(i));
        lemma_pending_index_prefix(p.drop_last(), c, t, i);
    } else {
        assert(p.take(i) =~= p);
    }
}

proof fn lemma_pending_index_bounds(p: Seq<ToolCallDraft>, c: u32, t: u32)
    ensures
        -1 <= pending_index(p, c, t) < p.len(),
        pending_index(p, c, t) >= 0 ==> p[pending_index(p, c, t)].choice_index == c
            && p[pending_index(p, c, t)].tool_call_index == t,
        pending_index(p, c, t) < 0 ==> forall|j: int|
            0 <= j < p.len() ==> !(#[trigger] p[j].choice_index == c && p[j].tool_call_index == t),
    decreases p.len(),
{
    if p.len() > 0 {
        lemma_pending_index_bounds(p.drop_last(), c, t);
        if pending_index(p, c, t) < 0 {
            assert forall|j: int| 0 <= j < p.len() implies !(#[trigger] p[j].choice_index == c
                && p[j].tool_call_index == t) by {
                if j < p.len() - 1 {
                    assert(p.drop_last()[j] == p[j]);
                }
            }
        }
    }
}

fn stream_error(message: &str) -> (r: ProxyError)
    ensures
        r.category == ErrorCategory::StreamInterrupted,
        r.message@ == message@,
        r.status_code == 502,
        r.upstream_body is None,
{
    ProxyError::new(ErrorCategory::StreamInterrupted, message, 502)
}

fn key_message(prefix: &str, c: u32, t: u32) -> (r: Vec<char>)
    ensures
        r@ == key_text(prefix@, c, t),
{
    let mut buf: Vec<char> = Vec::new();
    push_str(&mut buf, prefix);
    push_decimal(&mut buf, c as u64);
    push_str(&mut buf, " index ");
    push_decimal(&mut buf, t as u64);
    buf
}

fn frame_text(payload_text: &str) -> (r: String)
    ensures
        r@ == "data: "@ + payload_text@ + "\n\n"@,
{
    let mut buf: Vec<char> = Vec::new();
    push_str(&mut buf, "data: ");
    push_str(&mut buf, payload_text);
    push_str(&mut buf, "\n\n");
    string_from_chars(buf.as_slice())
}

fn candidate_value(index: u32, part: JsonValue) -> (r: JsonValue)
    ensures
        r@ == candidates_payload(seq![candidate(index, seq![part@])]),
{
    let content = model_content_value_one(part);
    let c = object2("index", uint_value(index as u64), "content", content);
    object1("candidates", array1(c))
}

fn model_content_value_one(part: JsonValue) -> (r: JsonValue)
    ensures
        r@ == model_content(seq![part@]),
{
    object2("role", str_value("model"), "parts", array1(part))
}

impl AntigravityStreamEncoder {
    pub fn new() -> (r: Self)
        ensures
            r@ == initial_encoder_state(),
    {
        let r = AntigravityStreamEncoder {
            pending_tool_calls: Vec::new(),
            pending_finishes: Vec::new(),
            model_version: None,
            response_ended: false,
        };
        assert(drafts(r.pending_tool_calls@) =~= Seq::empty());
        r
    }

    /// Sets the configured model as the fallback model version; a blank
    /// value leaves none. A non-blank model in the upstream start event
    /// replaces it.
    pub fn with_model_version(self, model_version: &str) -> (r: Self)
        ensures
            r@ == (EncoderState {
                model_version: if trim(model_version@).len() > 0 {
                    Some(model_version@)
                } else {
                    None
                },
                ..self@
            }),
    {
        let mut s = self;
        let chars = chars_of(model_version);
        let trimmed = trim_chars(chars.as_slice());
        if trimmed.len() > 0 {
            s.model_version = Some(crate::text::owned(model_version));
        } else {
            s.model_version = None;
        }
        s
    }

    fn sse(&self, payload: JsonValue) -> (r: String)
        ensures
            r@ == sse_frame(self@.model_version, payload@),
    {
        let ghost p = payload@;
        let text = match payload {
            JsonValue::Object(mut entries) => {
                match &self.model_version {
                    Some(mv) => {
                        push_entry(&mut entries, "modelVersion", str_value(mv.as_str()));
                    },
                    None => {},
                }
                let v = object_value(entries);
                assert(v@ == with_model_version(p, self@.model_version));
                to_json_text(&v)
            },
            other => to_json_text(&other),
        };
        frame_text(text.as_str())
    }

    fn find_pending(&self, c: u32, t: u32) -> (r: Option<usize>)
        ensures
            r matches Some(i) ==> i < self.pending_tool_calls@.len() && i as int == pending_index(
                self@.pending,
                c,
                t,
            ),
            r is None ==> pending_index(self@.pending, c, t) == -1,
    {
        let ghost p = self@.pending;
        let mut i = self.pending_tool_calls.len();
        proof {
            assert(p.take(i as int) =~= p);
        }
        while i > 0
            invariant
                i <= self.pending_tool_calls@.len(),
                p == self@.pending,
                p.len() == self.pending_tool_calls@.len(),
                pending_index(p, c, t) == pending_index(p.take(i as int), c, t),
            decreases i,
        {
            let item = &self.pending_tool_calls[i - 1];
            assert(p[i - 1] == draft_of(self.pending_tool_calls@[i - 1]));
            if item.choice_index == c && item.tool_call_index == t {
                assert(p.take(i as int).last() == p[i - 1]);
                return Some(i - 1);
            }
            assert(p.take(i as int).drop_last() =~= p.take(i - 1));
            i -= 1;
        }
        None
    }

    fn take_final_frame(&mut self, usage: Option<&UsageInfo>, synthesize_candidate: bool) -> (r: Option<String>)
        ensures
            opt_string_view(r) == final_frame(
                old(self)@,
                match usage {
                    Some(u) => Some(*u),
                    None => None,
                },
                synthesize_candidate,
            ),
            final(self)@ == (EncoderState { finishes: Seq::empty(), ..old(self)@ }),
    {
        let ghost s0 = self@;
        let mut finishes: Vec<(u32, FinishReason)> = Vec::new();
        std::mem::swap(&mut finishes, &mut self.pending_finishes);
        assert(self@ == (EncoderState { finishes: Seq::empty(), ..s0 }));
        let ghost recorded = s0.finishes.map_values(|f: (u32, FinishReason)| finish_candidate(f.0, f.1));
        let mut candidates: Vec<JsonValue> = Vec::new();
        let mut i: usize = 0;
        while i < finishes.len()
            invariant
                i <= finishes@.len(),
                finishes@ == s0.finishes,
                recorded == s0.finishes.map_values(|f: (u32, FinishReason)| finish_candidate(f.0, f.1)),
                items_view(candidates@) =~= recorded.take(i as int),
            decreases finishes.len() - i,
        {
            let (c, reason) = finishes[i];
            push_item(&mut candidates, finish_candidate_value(c, reason));
            i += 1;
            assert(recorded.take(i as int) =~= recorded.take(i as int - 1).push(recorded[i as int - 1]));
        }
        assert(recorded.take(i as int) =~= recorded);
        if candidates.len() == 0 && synthesize_candidate {
            push_item(&mut candidates, finish_candidate_value(0, FinishReason::Other));
        }
        if candidates.len() == 0 {
            return None;
        }
        let mut e: Vec<(String, JsonValue)> = Vec::new();
        proof {
            assert(entries_view(e@) =~= Seq::empty());
        }
        push_entry(&mut e, "candidates", array_value(candidates));
        let ghost base = entries_view(e@);
        match usage {
            Some(u) => push_entry(&mut e, "usageMetadata", usage_metadata_value(u)),
            None => {},
        }
        let payload = object_value(e);
        Some(self.sse(payload))
    }

    /// Encodes one event; see `encode_step`.
    pub fn encode_event(&mut self, event: &NeutralStreamEvent) -> (r: Result<Vec<String>, ProxyError>)
        ensures
            final(self)@ == encode_step(old(self)@, *event).0,
            r matches Ok(frames) ==> encode_step(old(self)@, *event).1 matches Ok(fs) && fs
                == strings_view(frames@),
            r matches Err(e) ==> encode_step(old(self)@, *event).1 matches Err(m) && m == e.message@
                && e.category == ErrorCategory::StreamInterrupted && e.status_code == 502
                && e.upstream_body is None,
    {
        let ghost s0 = self@;
        if self.response_ended {
            return match event {
                NeutralStreamEvent::ResponseEnd { .. } => {
                    let v: Vec<String> = Vec::new();
                    assert(strings_view(v@) =~= Seq::empty());
                    Ok(v)
                },
                _ => Err(stream_error("Received stream event after response end")),
            };
        }
        match event {
            NeutralStreamEvent::ResponseStart { model, .. } => {
                let chars = chars_of(model.as_str());
                let trimmed = trim_chars(chars.as_slice());
                if trimmed.len() > 0 {
                    self.model_version = Some(model.clone());
                }
                let v: Vec<String> = Vec::new();
                assert(strings_view(v@) =~= Seq::empty());
                Ok(v)
            },
            NeutralStreamEvent::TextDelta { choice_index, text } => {
                let f = self.sse(candidate_value(*choice_index, text_part_value(text.as_str())));
                let v = vec![f];
                assert(strings_view(v@) =~= seq![f@]);
                Ok(v)
            },
            NeutralStreamEvent::InlineData { choice_index, mime_type, data_base64 } => {
                let f = self.sse(
                    candidate_value(*choice_index, inline_part_value(mime_type.as_str(), data_base64.as_str())),
                );
                let v = vec![f];
                assert(strings_view(v@) =~= seq![f@]);
                Ok(v)
            },
            NeutralStreamEvent::ThinkingDelta { choice_index, text } => {
                let part = object2("thought", JsonValue::Bool(true), "text", str_value(text.as_str()));
                let f = self.sse(candidate_value(*choice_index, part));
                let v = vec![f];
                assert(strings_view(v@) =~= seq![f@]);
                Ok(v)
            },
            NeutralStreamEvent::ThinkingSignature { choice_index, signature } => {
                let part = object2(
                    "thought",
                    JsonValue::Bool(true),
                    "thoughtSignature",
                    str_value(signature.as_str()),
                );
                let f = self.sse(candidate_value(*choice_index, part));
                let v = vec![f];
                assert(strings_view(v@) =~= seq![f@]);
                Ok(v)
            },
            NeutralStreamEvent::ToolCallStart { choice_index, tool_call_index, id, name } => {
                if self.find_pending(*choice_index, *tool_call_index).is_some() {
                    let mut m = key_message("Tool call choice ", *choice_index, *tool_call_index);
                    push_str(&mut m, " started more than once");
                    let text = string_from_chars(m.as_slice());
                    return Err(stream_error(text.as_str()));
                }
                let ghost old_calls = self.pending_tool_calls@;
                self.pending_tool_calls.push(
                    PendingToolCall {
                        choice_index: *choice_index,
                        tool_call_index: *tool_call_index,
                        id: id.clone(),
                        name: name.clone(),
                        arguments: String::new(),
                    },
                );
                assert(drafts(self.pending_tool_calls@) =~= drafts(old_calls).push(
                    draft_of(self.pending_tool_calls@.last()),
                ));
                let v: Vec<String> = Vec::new();
                assert(strings_view(v@) =~= Seq::empty());
                Ok(v)
            },
            NeutralStreamEvent::ToolCallArgumentsDelta { choice_index, tool_call_index, arguments_delta } => {
                match self.find_pending(*choice_index, *tool_call_index) {
                    None => {
                        let m = key_message(
                            "Tool arguments reference unopened choice ",
                            *choice_index,
                            *tool_call_index,
                        );
                        let text = string_from_chars(m.as_slice());
                        Err(stream_error(text.as_str()))
                    },
                    Some(i) => {
                        let ghost old_calls = self.pending_tool_calls@;
                        let mut p = self.pending_tool_calls.remove(i);
                        p.arguments = concat2(p.arguments.as_str(), arguments_delta.as_str());
                        self.pending_tool_calls.insert(i, p);
                        assert(self.pending_tool_calls@ =~= old_calls.update(i as int, p));
                        assert(drafts(self.pending_tool_calls@) =~= drafts(old_calls).update(
                            i as int,
                            draft_of(p),
                        ));
                        let v: Vec<String> = Vec::new();
                        assert(strings_view(v@) =~= Seq::empty());
                        Ok(v)
                    },
                }
            },
            NeutralStreamEvent::ToolCallEnd { choice_index, tool_call_index } => {
                match self.find_pending(*choice_index, *tool_call_index) {
                    None => {
                        let m = key_message(
                            "Tool end references unopened choice ",
                            *choice_index,
                            *tool_call_index,
                        );
                        let text = string_from_chars(m.as_slice());
                        Err(stream_error(text.as_str()))
                    },
                    Some(i) => {
                        let ghost old_calls = self.pending_tool_calls@;
                        let p = self.pending_tool_calls.remove(i);
                        assert(drafts(self.pending_tool_calls@) =~= drafts(old_calls).remove(i as int));
                        let args = if chars_of(p.arguments.as_str()).len() == 0 {
                            let e: Vec<(String, JsonValue)> = Vec::new();
                            assert(entries_view(e@) =~= Seq::empty());
                            object_value(e)
                        } else {
                            match parse_json(p.arguments.as_str()) {
                                Ok(a) => a,
                                Err(error) => {
                                    let mut m = key_message(
                                        "Invalid tool arguments JSON for choice ",
                                        *choice_index,
                                        *tool_call_index,
                                    );
                                    push_str(&mut m, ": ");
                                    push_str(&mut m, error.as_str());
                                    let text = string_from_chars(m.as_slice());
                                    return Err(stream_error(text.as_str()));
                                },
                            }
                        };
                        let part = function_call_part_value(p.id.as_str(), p.name.as_str(), args);
                        let f = self.sse(candidate_value(*choice_index, part));
                        let v = vec![f];
                        assert(strings_view(v@) =~= seq![f@]);
                        Ok(v)
                    },
                }
            },
            NeutralStreamEvent::Finish { choice_index, reason, .. } => {
                self.pending_finishes.push((*choice_index, *reason));
                let v: Vec<String> = Vec::new();
                assert(strings_view(v@) =~= Seq::empty());
                Ok(v)
            },
            NeutralStreamEvent::ResponseEnd { usage } => {
                if self.pending_tool_calls.len() > 0 {
                    return Err(stream_error("Response ended while tool calls were still open"));
                }
                let synthesize = usage.is_some();
                let last = match usage {
                    Some(u) => self.take_final_frame(Some(u), synthesize),
                    None => self.take_final_frame(None, synthesize),
                };
                let mut frames: Vec<String> = Vec::new();
                match last {
                    Some(f) => frames.push(f),
                    None => {},
                }
                let done = frame_done();
                frames.push(done);
                self.response_ended = true;
                assert(strings_view(frames@) =~= opt_frame(opt_string_view(last)).push(done_frame()));
                Ok(frames)
            },
            NeutralStreamEvent::Error { message, code } => {
                let payload = object1(
                    "error",
                    object2("code", uint_value(*code as u64), "message", str_value(message.as_str())),
                );
                let f = self.sse(payload);
                let v = vec![f];
                assert(strings_view(v@) =~= seq![f@]);
                Ok(v)
            },
        }
    }

    /// Ends the stream early (client gone, upstream cut): emits the recorded
    /// finishes, unless the stream already ended or a tool call is open.
    pub fn abort(&mut self) -> (r: Vec<String>)
        ensures
            final(self)@ == abort_step(old(self)@).0,
            strings_view(r@) == abort_step(old(self)@).1,
    {
        if self.response_ended || self.pending_tool_calls.len() > 0 {
            let v: Vec<String> = Vec::new();
            assert(strings_view(v@) =~= Seq::empty());
            return v;
        }
        self.response_ended = true;
        let ghost s1 = self@;
        let last = self.take_final_frame(None, false);
        let mut frames: Vec<String> = Vec::new();
        match last {
            Some(f) => frames.push(f),
            None => {},
        }
        assert(strings_view(frames@) =~= opt_frame(opt_string_view(last)));
        frames
    }
}

fn frame_done() -> (r: String)
    ensures
        r@ == done_frame(),
{
    crate::text::owned("data: [DONE]\n\n")
}

/// Law: once the response has ended the encoder is inert. Its state no
/// longer changes; a repeated end is answered with no frames and any other
/// event with an error.
pub proof fn lemma_encoder_end_is_final(s: EncoderState, e: NeutralStreamEvent)
    requires
        s.ended,
    ensures
        encode_step(s, e).0 == s,
        encode_step(s, e).1 is Ok <==> e is ResponseEnd,
        e is ResponseEnd ==> encode_step(s, e).1 == Ok::<Seq<Seq<char>>, Seq<char>>(Seq::empty()),
        abort_step(s).0 == s,
        abort_step(s).1.len() == 0,
{
}

/// Law: a successful end of response closes the stream: its last frame is
/// the `[DONE]` marker, no tool call or finish stays recorded, and the
/// encoder has ended.
pub proof fn lemma_encoder_response_end_closes(s: EncoderState, usage: Option<UsageInfo>)
    requires
        !s.ended,
    ensures
        ({
            let (next, out) = encode_step(s, NeutralStreamEvent::ResponseEnd { usage });
            out matches Ok(frames) ==> {
                &&& frames.len() >= 1
                &&& frames.last() == done_frame()
                &&& next.ended
                &&& next.pending.len() == 0
                &&& next.finishes.len() == 0
            }
        }),
        (encode_step(s, NeutralStreamEvent::ResponseEnd { usage }).1 is Ok) <==> s.pending.len() == 0,
{
}

/// Law: every step keeps at most one open tool call per (choice, index).
pub proof fn lemma_encoder_keys_stay_unique(s: EncoderState, e: NeutralStreamEvent)
    requires
        encoder_keys_unique(s),
    ensures
        encoder_keys_unique(encode_step(s, e).0),
{
    let next = encode_step(s, e).0;
    if !s.ended {
        match e {
            NeutralStreamEvent::ToolCallStart { choice_index, tool_call_index, id, name } => {
                lemma_pending_index_bounds(s.pending, choice_index, tool_call_index);
                if pending_index(s.pending, choice_index, tool_call_index) < 0 {
                    assert forall|i: int, j: int|
                        0 <= i < j < next.pending.len() implies !(#[trigger] next.pending[i].choice_index
                        == #[trigger] next.pending[j].choice_index && next.pending[i].tool_call_index
                        == next.pending[j].tool_call_index) by {
                        if j == next.pending.len() - 1 {
                            assert(next.pending[i] == s.pending[i]);
                        } else {
                            assert(next.pending[i] == s.pending[i]);
                            assert(next.pending[j] == s.pending[j]);
                        }
                    }
                }
            },
            NeutralStreamEvent::ToolCallArgumentsDelta { choice_index, tool_call_index, arguments_delta } => {
                lemma_pending_index_bounds(s.pending, choice_index, tool_call_index);
                let k = pending_index(s.pending, choice_index, tool_call_index);
                if k >= 0 {
                    assert forall|i: int, j: int|
                        0 <= i < j < next.pending.len() implies !(#[trigger] next.pending[i].choice_index
                        == #[trigger] next.pending[j].choice_index && next.pending[i].tool_call_index
                        == next.pending[j].tool_call_index) by {
                        assert(next.pending[i].choice_index == s.pending[i].choice_index);
                        assert(next.pending[j].choice_index == s.pending[j].choice_index);
                        assert(next.pending[i].tool_call_index == s.pending[i].tool_call_index);
                        assert(next.pending[j].tool_call_index == s.pending[j].tool_call_index);
                    }
                }
            },
            NeutralStreamEvent::ToolCallEnd { choice_index, tool_call_index } => {
                lemma_pending_index_bounds(s.pending, choice_index, tool_call_index);
                let k = pending_index(s.pending, choice_index, tool_call_index);
                if k >= 0 {
                    assert forall|i: int, j: int|
                        0 <= i < j < next.pending.len() implies !(#[trigger] next.pending[i].choice_index
                        == #[trigger] next.pending[j].choice_index && next.pending[i].tool_call_index
                        == next.pending[j].tool_call_index) by {
                        let si = if i < k { i } else { i + 1 };
                        let sj = if j < k { j } else { j + 1 };
                        assert(next.pending[i] == s.pending[si]);
                        assert(next.pending[j] == s.pending[sj]);
                    }
                }
            },
            _ => {},
        }
    }
}

/// Law: a tool call that is started, given its arguments in one delta and
/// ended is sent as one `functionCall` part whose `args` are the parsed
/// arguments, and leaves the open tool calls as they were.
pub proof fn lemma_encoder_tool_call_round_trip(
    s: EncoderState,
    choice_index: u32,
    tool_call_index: u32,
    id: String,
    name: String,
    arguments: String,
)
    requires
        !s.ended,
        pending_index(s.pending, choice_index, tool_call_index) < 0,
        arguments@.len() > 0,
    ensures
        ({
            let s1 = encode_step(
                s,
                NeutralStreamEvent::ToolCallStart { choice_index, tool_call_index, id, name },
            ).0;
            let s2 = encode_step(
                s1,
                NeutralStreamEvent::ToolCallArgumentsDelta {
                    choice_index,
                    tool_call_index,
                    arguments_delta: arguments,
                },
            ).0;
            let (s3, out) = encode_step(
                s2,
                NeutralStreamEvent::ToolCallEnd { choice_index, tool_call_index },
            );
            &&& s3.pending == s.pending
            &&& json_parse_result(arguments@) matches Ok(args) ==> out == Ok::<Seq<Seq<char>>, Seq<char>>(
                single_candidate(
                    s.model_version,
                    choice_index,
                    function_call_part(id@, name@, args),
                ),
            )
            &&& json_parse_result(arguments@) is Err ==> out is Err
        }),
{
    let s1 = encode_step(
        s,
        NeutralStreamEvent::ToolCallStart { choice_index, tool_call_index, id, name },
    ).0;
    let n = s.pending.len();
    assert(s1.pending.drop_last() =~= s.pending);
    assert(pending_index(s1.pending, choice_index, tool_call_index) == n);
    let s2 = encode_step(
        s1,
        NeutralStreamEvent::ToolCallArgumentsDelta {
            choice_index,
            tool_call_index,
            arguments_delta: arguments,
        },
    ).0;
    assert(s2.pending.drop_last() =~= s.pending);
    assert(pending_index(s2.pending, choice_index, tool_call_index) == n);
    assert(s2.pending[n as int].arguments =~= arguments@);
    assert(s2.pending.remove(n as int) =~= s.pending);
}

} // verus!
