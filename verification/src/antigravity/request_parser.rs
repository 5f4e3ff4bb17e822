//! Parsing Antigravity (Gemini-shaped) requests into neutral requests.

use crate::domain::error::{ErrorCategory, ProxyError};
use crate::domain::provider::ParameterOverrides;
use crate::domain::request::{
    blocks_view, messages_view, tools_view, Block, Message, MessageRole, NeutralChatRequest,
    NeutralContentBlock, NeutralMessage, NeutralTool, NeutralToolFunction, ToolDecl,
};
use crate::json::{
    clone_number, json_parse_result, json_text, num_view, parse_json, to_json_text, Json, JsonNum,
    JsonNumber, JsonRef, JsonValue,
};
use crate::text::{
    chars_eq, chars_eq_str, chars_of, concat2, decimal, opt_view, owned, push_decimal, push_str,
    string_from_chars, strip_prefix, strip_prefix_str,
};
use vstd::prelude::*;

verus! {

/// The string member `key` of an object.
pub open spec fn str_member(v: Json, key: Seq<char>) -> Option<Seq<char>> {
    match v.get(key) {
        Some(m) => m.as_str(),
        None => None,
    }
}

pub open spec fn or_else<T>(a: Option<T>, b: Option<T>) -> Option<T> {
    if a is Some {
        a
    } else {
        b
    }
}

pub open spec fn str_or(v: Json, default: Seq<char>) -> Seq<char> {
    match v.as_str() {
        Some(s) => s,
        None => default,
    }
}

/// The model named by an object, by the first of its model keys that holds a string.
pub open spec fn spec_model_id_from_object(v: Json) -> Option<Seq<char>> {
    or_else(
        str_member(v, "model"@),
        or_else(
            str_member(v, "requestedModel"@),
            or_else(
                str_member(v, "planModel"@),
                or_else(
                    str_member(v, "requested_model"@),
                    or_else(
                        str_member(v, "plan_model"@),
                        or_else(str_member(v, "modelId"@), str_member(v, "model_id"@)),
                    ),
                ),
            ),
        ),
    )
}

/// The virtual model a request names, at the top level or inside `request`,
/// without a `models/` prefix.
pub open spec fn spec_model_id(val: Json) -> Option<Seq<char>> {
    let inner = match val.get("request"@) {
        Some(r) => spec_model_id_from_object(r),
        None => None,
    };
    match or_else(spec_model_id_from_object(val), inner) {
        Some(id) => Some(
            match strip_prefix(id, "models/"@) {
                Some(rest) => rest,
                None => id,
            },
        ),
        None => None,
    }
}

/// The model ID of a request body, or the message of the error.
pub open spec fn spec_extract_model_id(body: Seq<char>) -> Result<Seq<char>, Seq<char>> {
    match json_parse_result(body) {
        Err(m) => Err("Failed to parse Antigravity JSON request: "@ + m),
        Ok(val) => match spec_model_id(val) {
            Some(id) => Ok(id),
            None => Err("Missing model ID in Antigravity request"@),
        },
    }
}

/// The wrapped `request` object where there is one, else the body itself.
pub open spec fn request_payload(val: Json) -> Json {
    match val.get("request"@) {
        Some(r) => if r.is_object() {
            r
        } else {
            val
        },
        None => val,
    }
}

pub open spec fn spec_stream(val: Json, rp: Json) -> bool {
    match val.at("stream"@).as_bool() {
        Some(b) => b,
        None => match rp.at("stream"@).as_bool() {
            Some(b) => b,
            None => true,
        },
    }
}

pub open spec fn instruction_text(v: Json) -> Option<Seq<char>> {
    v.at("systemInstruction"@).at("parts"@).item(0).at("text"@).as_str()
}

pub open spec fn spec_system_instruction(val: Json, rp: Json) -> Option<Seq<char>> {
    or_else(
        instruction_text(rp),
        or_else(
            rp.at("system_instruction"@).as_str(),
            or_else(instruction_text(val), val.at("system_instruction"@).as_str()),
        ),
    )
}

pub open spec fn spec_contents(val: Json, rp: Json) -> Seq<Json> {
    match or_else(
        rp.at("contents"@).as_array(),
        or_else(
            rp.at("messages"@).as_array(),
            or_else(val.at("contents"@).as_array(), val.at("messages"@).as_array()),
        ),
    ) {
        Some(items) => items,
        None => Seq::empty(),
    }
}

pub open spec fn spec_role(item: Json) -> MessageRole {
    let r = str_or(item.at("role"@), "user"@);
    if r == "model"@ || r == "assistant"@ {
        MessageRole::Assistant
    } else if r == "system"@ {
        MessageRole::System
    } else if r == "function"@ || r == "tool"@ {
        MessageRole::Tool
    } else {
        MessageRole::User
    }
}

/// A string member that is present and not empty.
pub open spec fn non_empty_str(v: Json) -> Option<Seq<char>> {
    match v.as_str() {
        Some(s) => if s.len() > 0 {
            Some(s)
        } else {
            None
        },
        None => None,
    }
}

/// Function-call arguments or a function response as text: strings as
/// they are, other values serialised, `{}` where the member is missing.
pub open spec fn payload_text(v: Option<Json>) -> Seq<char> {
    match v {
        Some(Json::Str(s)) => s,
        Some(other) => json_text(other),
        None => "{}"@,
    }
}

/// Tool calls awaiting their response, as (name, id) in the order they were made.
pub type PendingCalls = Seq<(Seq<char>, Seq<char>)>;

/// The first pending call at or after `i` with this name (and this id,
/// where one is given), or -1.
pub open spec fn first_pending(p: PendingCalls, name: Seq<char>, id: Option<Seq<char>>, i: int) -> int
    decreases p.len() - i,
{
    if i < 0 || i >= p.len() {
        -1
    } else if p[i].0 == name && (id matches Some(x) ==> p[i].1 == x) {
        i
    } else {
        first_pending(p, name, id, i + 1)
    }
}

pub struct PartsState {
    pub blocks: Seq<Block>,
    pub results: Seq<Message>,
    pub pending: PendingCalls,
}

pub open spec fn call_id(mi: nat, pi: nat) -> Seq<char> {
    "call_"@ + decimal(mi) + "_"@ + decimal(pi)
}

/// One part of a message: thoughts (merged into a preceding thought), text,
/// inline data, function calls (remembered as pending) and function
/// responses (answered by explicit id, else by the oldest pending call of
/// that name, else `call_<name>`).
pub open spec fn step_part(st: PartsState, part: Json, mi: nat, pi: nat) -> PartsState {
    if part.at("thought"@).as_bool() == Some(true) {
        let text = str_or(part.at("text"@), Seq::empty());
        let signature = or_else(part.at("thoughtSignature"@).as_str(), part.at("thought_signature"@).as_str());
        if text.len() > 0 || signature is Some {
            if st.blocks.len() > 0 && st.blocks.last() is Thinking {
                let prev = st.blocks.last();
                PartsState {
                    blocks: st.blocks.update(
                        st.blocks.len() - 1,
                        Block::Thinking {
                            text: prev->Thinking_text + text,
                            signature: if signature is Some {
                                signature
                            } else {
                                prev->Thinking_signature
                            },
                        },
                    ),
                    ..st
                }
            } else {
                PartsState { blocks: st.blocks.push(Block::Thinking { text, signature }), ..st }
            }
        } else {
            st
        }
    } else if part.at("text"@).as_str() is Some {
        PartsState { blocks: st.blocks.push(Block::Text(part.at("text"@)->Str_0)), ..st }
    } else if part.get("inlineData"@) is Some {
        let inline = part.at("inlineData"@);
        PartsState {
            blocks: st.blocks.push(
                Block::InlineData {
                    mime_type: str_or(inline.at("mimeType"@), "image/png"@),
                    data_base64: str_or(inline.at("data"@), Seq::empty()),
                },
            ),
            ..st
        }
    } else if part.get("functionCall"@) is Some {
        let fc = part.at("functionCall"@);
        let name = str_or(fc.at("name"@), Seq::empty());
        let id = match non_empty_str(fc.at("id"@)) {
            Some(x) => x,
            None => call_id(mi, pi),
        };
        PartsState {
            blocks: st.blocks.push(
                Block::ToolCall { id, name, arguments_json: payload_text(fc.get("args"@)) },
            ),
            pending: st.pending.push((name, id)),
            ..st
        }
    } else if part.get("functionResponse"@) is Some {
        let fr = part.at("functionResponse"@);
        let name = str_or(fr.at("name"@), Seq::empty());
        let (id, pending) = match non_empty_str(fr.at("id"@)) {
            Some(x) => {
                let k = first_pending(st.pending, name, Some(x), 0);
                (
                    x,
                    if k >= 0 {
                        st.pending.remove(k)
                    } else {
                        st.pending
                    },
                )
            },
            None => {
                let k = first_pending(st.pending, name, None, 0);
                if k >= 0 {
                    (st.pending[k].1, st.pending.remove(k))
                } else {
                    ("call_"@ + name, st.pending)
                }
            },
        };
        PartsState {
            results: st.results.push(
                Message {
                    role: MessageRole::Tool,
                    blocks: seq![
                        Block::ToolResult {
                            tool_call_id: id,
                            name: if name.len() > 0 {
                                Some(name)
                            } else {
                                None
                            },
                            content: payload_text(fr.get("response"@)),
                        },
                    ],
                },
            ),
            pending,
            ..st
        }
    } else {
        st
    }
}

/// Law: an inline-data part (not a thought, without text) adds exactly one
/// block, an `InlineData` block carrying the part's own `mimeType` and
/// `data` strings; only a part without a string `mimeType` is taken as PNG,
/// and only one without string `data` carries no data. Nothing else of the
/// state changes.
pub proof fn lemma_inline_data_part(st: PartsState, part: Json, mi: nat, pi: nat)
    requires
        part.at("thought"@).as_bool() != Some(true),
        part.at("text"@).as_str() is None,
        part.get("inlineData"@) is Some,
    ensures
        ({
            let r = step_part(st, part, mi, pi);
            let inline = part.at("inlineData"@);
            &&& r.results == st.results
            &&& r.pending == st.pending
            &&& r.blocks.len() == st.blocks.len() + 1
            &&& r.blocks.drop_last() == st.blocks
            &&& r.blocks.last() is InlineData
            &&& (inline.at("mimeType"@) matches Json::Str(m) ==> r.blocks.last()->mime_type == m)
            &&& (!(inline.at("mimeType"@) is Str) ==> r.blocks.last()->mime_type == "image/png"@)
            &&& (inline.at("data"@) matches Json::Str(d) ==> r.blocks.last()->data_base64 == d)
            &&& (!(inline.at("data"@) is Str) ==> r.blocks.last()->data_base64.len() == 0)
        }),
{
    let r = step_part(st, part, mi, pi);
    assert(r.blocks.drop_last() =~= st.blocks);
}

pub open spec fn parts_fold(st: PartsState, parts: Seq<Json>, mi: nat) -> PartsState
    decreases parts.len(),
{
    if parts.len() == 0 {
        st
    } else {
        step_part(parts_fold(st, parts.drop_last(), mi), parts.last(), mi, (parts.len() - 1) as nat)
    }
}

pub struct MessagesState {
    pub messages: Seq<Message>,
    pub pending: PendingCalls,
}

/// One content item: its own message (unless it only carried function
/// responses), followed by one tool message per function response.
pub open spec fn step_message(st: MessagesState, item: Json, mi: nat) -> MessagesState {
    let parts = match item.at("parts"@).as_array() {
        Some(p) => p,
        None => Seq::empty(),
    };
    let ps = parts_fold(
        PartsState { blocks: Seq::empty(), results: Seq::empty(), pending: st.pending },
        parts,
        mi,
    );
    let own = if ps.blocks.len() > 0 || ps.results.len() == 0 {
        st.messages.push(Message { role: spec_role(item), blocks: ps.blocks })
    } else {
        st.messages
    };
    MessagesState { messages: own + ps.results, pending: ps.pending }
}

pub open spec fn messages_fold(items: Seq<Json>) -> MessagesState
    decreases items.len(),
{
    if items.len() == 0 {
        MessagesState { messages: Seq::empty(), pending: Seq::empty() }
    } else {
        step_message(messages_fold(items.drop_last()), items.last(), (items.len() - 1) as nat)
    }
}

pub open spec fn decl_tool(d: Json) -> ToolDecl {
    ToolDecl {
        name: str_or(d.at("name"@), Seq::empty()),
        description: d.at("description"@).as_str(),
        parameters: d.at("parameters"@),
    }
}

pub open spec fn tool_group(t: Json) -> Seq<ToolDecl> {
    match t.at("functionDeclarations"@).as_array() {
        Some(ds) => ds.map_values(|d: Json| decl_tool(d)),
        None => Seq::empty(),
    }
}

pub open spec fn tools_fold(ts: Seq<Json>) -> Seq<ToolDecl>
    decreases ts.len(),
{
    if ts.len() == 0 {
        Seq::empty()
    } else {
        tools_fold(ts.drop_last()) + tool_group(ts.last())
    }
}

pub open spec fn spec_tools(val: Json, rp: Json) -> Seq<ToolDecl> {
    match or_else(rp.at("tools"@).as_array(), val.at("tools"@).as_array()) {
        Some(ts) => tools_fold(ts),
        None => Seq::empty(),
    }
}

pub open spec fn generation_config(val: Json, rp: Json) -> Json {
    match rp.get("generationConfig"@) {
        Some(g) => if g.is_object() {
            g
        } else {
            val.at("generationConfig"@)
        },
        None => val.at("generationConfig"@),
    }
}

pub open spec fn truncated_u32(v: Option<u64>) -> Option<u32> {
    match v {
        Some(x) => Some(x as u32),
        None => None,
    }
}

pub open spec fn num_opt(n: Option<JsonNumber>) -> Option<JsonNum> {
    match n {
        Some(x) => Some(num_view(x)),
        None => None,
    }
}

/// The neutral request that a parsed body describes (its model ID aside).
pub open spec fn request_from(req: NeutralChatRequest, val: Json) -> bool {
    let rp = request_payload(val);
    let gc = generation_config(val, rp);
    &&& req.stream == spec_stream(val, rp)
    &&& opt_view(req.system_instruction) == spec_system_instruction(val, rp)
    &&& messages_view(req.messages@) == messages_fold(spec_contents(val, rp)).messages
    &&& tools_view(req.tools@) == spec_tools(val, rp)
    &&& req.reasoning_level is None
    &&& req.output_modalities@.len() == 0
    &&& req.image_generation_config is None
    &&& req.extra_body@.len() == 0
    &&& num_opt(req.generation_parameters.temperature) == gc.at("temperature"@).as_number()
    &&& req.generation_parameters.max_tokens == truncated_u32(gc.at("maxOutputTokens"@).as_u64())
    &&& num_opt(req.generation_parameters.top_p) == gc.at("topP"@).as_number()
    &&& req.generation_parameters.top_k == truncated_u32(gc.at("topK"@).as_u64())
    &&& req.generation_parameters.extra_body is None
}

pub struct AntigravityRequestParser;

fn str_member_value<'a>(v: &'a JsonValue, key: &str) -> (r: Option<&'a String>)
    ensures
        r matches Some(s) ==> str_member(v@, key@) == Some(s@),
        r is None ==> str_member(v@, key@) is None,
{
    match v.get(key) {
        Some(m) => m.as_str(),
        None => None,
    }
}

fn invalid_request(prefix: &str, detail: &str) -> (r: ProxyError)
    ensures
        r.category == ErrorCategory::InvalidRequest,
        r.status_code == 400,
        r.message@ == prefix@ + detail@,
        r.upstream_body is None,
{
    let mut m: Vec<char> = Vec::new();
    push_str(&mut m, prefix);
    push_str(&mut m, detail);
    let text = string_from_chars(m.as_slice());
    ProxyError::new(ErrorCategory::InvalidRequest, text.as_str(), 400)
}

spec fn pending_view(p: Seq<(String, String)>) -> PendingCalls {
    p.map_values(|x: (String, String)| (x.0@, x.1@))
}

fn model_id_from_object(v: &JsonValue) -> (r: Option<&String>)
    ensures
        r matches Some(s) ==> spec_model_id_from_object(v@) == Some(s@),
        r is None ==> spec_model_id_from_object(v@) is None,
{
    if let Some(s) = str_member_value(v, "model") {
        return Some(s);
    }
    if let Some(s) = str_member_value(v, "requestedModel") {
        return Some(s);
    }
    if let Some(s) = str_member_value(v, "planModel") {
        return Some(s);
    }
    if let Some(s) = str_member_value(v, "requested_model") {
        return Some(s);
    }
    if let Some(s) = str_member_value(v, "plan_model") {
        return Some(s);
    }
    if let Some(s) = str_member_value(v, "modelId") {
        return Some(s);
    }
    str_member_value(v, "model_id")
}

fn model_id_of(val: &JsonValue) -> (r: Option<String>)
    ensures
        opt_view(r) == spec_model_id(val@),
{
    let found = match model_id_from_object(val) {
        Some(s) => Some(s),
        None => match val.get("request") {
            Some(req) => model_id_from_object(req),
            None => None,
        },
    };
    match found {
        Some(id) => {
            let chars = chars_of(id.as_str());
            match strip_prefix_str(chars.as_slice(), "models/") {
                Some(rest) => Some(string_from_chars(rest.as_slice())),
                None => Some(id.clone()),
            }
        },
        None => None,
    }
}

fn text_or<'a>(v: &JsonRef<'a>, default: &'a str) -> (r: &'a str)
    ensures
        r@ == str_or(v.view(), default@),
{
    match v.as_str() {
        Some(s) => s.as_str(),
        None => default,
    }
}

fn non_empty_text(v: &JsonRef) -> (r: Option<String>)
    ensures
        opt_view(r) == non_empty_str(v.view()),
{
    match v.as_str() {
        Some(s) => {
            let c = chars_of(s.as_str());
            if c.len() > 0 {
                Some(s.clone())
            } else {
                None
            }
        },
        None => None,
    }
}

fn payload_text_of(v: Option<&JsonValue>) -> (r: String)
    ensures
        r@ == payload_text(
            match v {
                Some(x) => Some(x@),
                None => None,
            },
        ),
{
    match v {
        Some(JsonValue::Str(s)) => s.clone(),
        Some(other) => to_json_text(other),
        None => owned("{}"),
    }
}

fn find_pending(pending: &Vec<(String, String)>, name: &str, id: Option<&String>) -> (r: Option<usize>)
    ensures
        r matches Some(k) ==> k < pending@.len() && k as int == first_pending(
            pending_view(pending@),
            name@,
            match id {
                Some(x) => Some(x@),
                None => None,
            },
            0,
        ),
        r is None ==> first_pending(
            pending_view(pending@),
            name@,
            match id {
                Some(x) => Some(x@),
                None => None,
            },
            0,
        ) == -1,
{
    let ghost p = pending_view(pending@);
    let ghost gid = match id {
        Some(x) => Some(x@),
        None => None,
    };
    let name_chars = chars_of(name);
    let mut i: usize = 0;
    while i < pending.len()
        invariant
            i <= pending@.len(),
            p == pending_view(pending@),
            name_chars@ == name@,
            gid == match id {
                Some(x) => Some(x@),
                None => None::<Seq<char>>,
            },
            first_pending(p, name@, gid, 0) == first_pending(p, name@, gid, i as int),
        decreases pending.len() - i,
    {
        let entry_name = chars_of(pending[i].0.as_str());
        let name_matches = chars_eq(entry_name.as_slice(), name_chars.as_slice());
        let id_matches = match id {
            Some(x) => {
                let a = chars_of(pending[i].1.as_str());
                let b = chars_of(x.as_str());
                chars_eq(a.as_slice(), b.as_slice())
            },
            None => true,
        };
        assert(p[i as int] == (pending@[i as int].0@, pending@[i as int].1@));
        if name_matches && id_matches {
            return Some(i);
        }
        i += 1;
    }
    None
}

fn call_id_text(mi: usize, pi: usize) -> (r: String)
    ensures
        r@ == call_id(mi as nat, pi as nat),
{
    let mut buf: Vec<char> = Vec::new();
    push_str(&mut buf, "call_");
    push_decimal(&mut buf, mi as u64);
    push_str(&mut buf, "_");
    push_decimal(&mut buf, pi as u64);
    string_from_chars(buf.as_slice())
}

spec fn parts_view(
    blocks: Seq<NeutralContentBlock>,
    results: Seq<NeutralMessage>,
    pending: Seq<(String, String)>,
) -> PartsState {
    PartsState {
        blocks: blocks_view(blocks),
        results: messages_view(results),
        pending: pending_view(pending),
    }
}

fn parse_thought(blocks: &mut Vec<NeutralContentBlock>, part: &JsonValue)
    requires
        part@.at("thought"@).as_bool() == Some(true),
    ensures
        blocks_view(final(blocks)@) == step_part(
            PartsState { blocks: blocks_view(old(blocks)@), results: Seq::empty(), pending: Seq::empty() },
            part@,
            0,
            0,
        ).blocks,
{
    let pr = JsonRef::Found(part);
    let text = text_or(&pr.at("text"), "");
    proof {
        reveal_strlit("");
        assert(""@ =~= Seq::<char>::empty());
    }
    let signature: Option<String> = match pr.at("thoughtSignature").as_str() {
        Some(s) => Some(s.clone()),
        None => match pr.at("thought_signature").as_str() {
            Some(s) => Some(s.clone()),
            None => None,
        },
    };
    let text_chars = chars_of(text);
    if text_chars.len() == 0 && signature.is_none() {
        return;
    }
    let ghost old_blocks = blocks@;
    let n = blocks.len();
    let last_is_thinking = n > 0 && match &blocks[n - 1] {
        NeutralContentBlock::Thinking { .. } => true,
        _ => false,
    };
    if last_is_thinking {
        let prev = blocks.pop().unwrap();
        match prev {
            NeutralContentBlock::Thinking { text: pt, signature: ps } => {
                let merged = concat2(pt.as_str(), text);
                let sig = match signature {
                    Some(s) => Some(s),
                    None => ps,
                };
                blocks.push(NeutralContentBlock::Thinking { text: merged, signature: sig });
            },
            other => {
                blocks.push(other);
            },
        }
        assert(blocks@ =~= old_blocks.update(n - 1, blocks@[n - 1]));
        assert(blocks_view(blocks@) =~= blocks_view(old_blocks).update(n - 1, blocks@[n - 1]@));
    } else {
        blocks.push(NeutralContentBlock::Thinking { text: owned(text), signature });
        assert(blocks_view(blocks@) =~= blocks_view(old_blocks).push(blocks@[n as int]@));
    }
}

fn parse_function_response(
    results: &mut Vec<NeutralMessage>,
    pending: &mut Vec<(String, String)>,
    fr: &JsonValue,
)
    ensures
        ({
            let name = str_or(fr@.at("name"@), Seq::empty());
            let (id, p2) = match non_empty_str(fr@.at("id"@)) {
                Some(x) => {
                    let k = first_pending(pending_view(old(pending)@), name, Some(x), 0);
                    (
                        x,
                        if k >= 0 {
                            pending_view(old(pending)@).remove(k)
                        } else {
                            pending_view(old(pending)@)
                        },
                    )
                },
                None => {
                    let k = first_pending(pending_view(old(pending)@), name, None, 0);
                    if k >= 0 {
                        (pending_view(old(pending)@)[k].1, pending_view(old(pending)@).remove(k))
                    } else {
                        ("call_"@ + name, pending_view(old(pending)@))
                    }
                },
            };
            &&& pending_view(final(pending)@) == p2
            &&& messages_view(final(results)@) == messages_view(old(results)@).push(
                Message {
                    role: MessageRole::Tool,
                    blocks: seq![
                        Block::ToolResult {
                            tool_call_id: id,
                            name: if name.len() > 0 {
                                Some(name)
                            } else {
                                None
                            },
                            content: payload_text(fr@.get("response"@)),
                        },
                    ],
                },
            )
        }),
{
    let fref = JsonRef::Found(fr);
    proof {
        reveal_strlit("");
        assert(""@ =~= Seq::<char>::empty());
    }
    let name = text_or(&fref.at("name"), "");
    let ghost old_pending = pending@;
    let id: String = match non_empty_text(&fref.at("id")) {
        Some(explicit) => {
            match find_pending(pending, name, Some(&explicit)) {
                Some(k) => {
                    pending.remove(k);
                    assert(pending_view(pending@) =~= pending_view(old_pending).remove(k as int));
                },
                None => {},
            }
            explicit
        },
        None => match find_pending(pending, name, None) {
            Some(k) => {
                let entry = pending.remove(k);
                assert(pending_view(pending@) =~= pending_view(old_pending).remove(k as int));
                entry.1
            },
            None => concat2("call_", name),
        },
    };
    let content = payload_text_of(fr.get("response"));
    let name_chars = chars_of(name);
    let tool_name = if name_chars.len() > 0 {
        Some(owned(name))
    } else {
        None
    };
    let ghost old_results = results@;
    let block = NeutralContentBlock::ToolResult { tool_call_id: id, name: tool_name, content };
    let blocks = vec![block];
    assert(blocks_view(blocks@) =~= seq![blocks@[0]@]);
    results.push(NeutralMessage { role: MessageRole::Tool, blocks });
    assert(messages_view(results@) =~= messages_view(old_results).push(results@.last()@));
}

fn parse_part(
    blocks: &mut Vec<NeutralContentBlock>,
    results: &mut Vec<NeutralMessage>,
    pending: &mut Vec<(String, String)>,
    part: &JsonValue,
    mi: usize,
    pi: usize,
)
    ensures
        parts_view(final(blocks)@, final(results)@, final(pending)@) == step_part(
            parts_view(old(blocks)@, old(results)@, old(pending)@),
            part@,
            mi as nat,
            pi as nat,
        ),
{
    let pr = JsonRef::Found(part);
    proof {
        reveal_strlit("");
        assert(""@ =~= Seq::<char>::empty());
    }
    if pr.at("thought").as_bool() == Some(true) {
        parse_thought(blocks, part);
        return;
    }
    if let Some(text) = pr.at("text").as_str() {
        let ghost old_blocks = blocks@;
        blocks.push(NeutralContentBlock::Text(text.clone()));
        assert(blocks_view(blocks@) =~= blocks_view(old_blocks).push(blocks@.last()@));
        return;
    }
    if let Some(inline) = part.get("inlineData") {
        let ir = JsonRef::Found(inline);
        let mime = text_or(&ir.at("mimeType"), "image/png");
        let data = text_or(&ir.at("data"), "");
        let ghost old_blocks = blocks@;
        blocks.push(NeutralContentBlock::InlineData { mime_type: owned(mime), data_base64: owned(data) });
        assert(blocks_view(blocks@) =~= blocks_view(old_blocks).push(blocks@.last()@));
        return;
    }
    if let Some(fc) = part.get("functionCall") {
        let fcr = JsonRef::Found(fc);
        let name = owned(text_or(&fcr.at("name"), ""));
        let id = match non_empty_text(&fcr.at("id")) {
            Some(x) => x,
            None => call_id_text(mi, pi),
        };
        let arguments_json = payload_text_of(fc.get("args"));
        let ghost old_blocks = blocks@;
        let ghost old_pending = pending@;
        pending.push((name.clone(), id.clone()));
        assert(pending_view(pending@) =~= pending_view(old_pending).push((name@, id@)));
        blocks.push(NeutralContentBlock::ToolCall { id, name, arguments_json });
        assert(blocks_view(blocks@) =~= blocks_view(old_blocks).push(blocks@.last()@));
        return;
    }
    if let Some(fr) = part.get("functionResponse") {
        parse_function_response(results, pending, fr);
        return;
    }
}

fn parse_message(
    messages: &mut Vec<NeutralMessage>,
    pending: &mut Vec<(String, String)>,
    item: &JsonValue,
    mi: usize,
)
    ensures
        (MessagesState { messages: messages_view(final(messages)@), pending: pending_view(final(pending)@) })
            == step_message(
            MessagesState { messages: messages_view(old(messages)@), pending: pending_view(old(pending)@) },
            item@,
            mi as nat,
        ),
{
    let ir = JsonRef::Found(item);
    let role_text = text_or(&ir.at("role"), "user");
    let rc = chars_of(role_text);
    let role = if chars_eq_str(rc.as_slice(), "model") || chars_eq_str(rc.as_slice(), "assistant") {
        MessageRole::Assistant
    } else if chars_eq_str(rc.as_slice(), "system") {
        MessageRole::System
    } else if chars_eq_str(rc.as_slice(), "function") || chars_eq_str(rc.as_slice(), "tool") {
        MessageRole::Tool
    } else {
        MessageRole::User
    };
    let mut blocks: Vec<NeutralContentBlock> = Vec::new();
    let mut results: Vec<NeutralMessage> = Vec::new();
    let ghost p0 = pending_view(pending@);
    let ghost start = PartsState { blocks: Seq::empty(), results: Seq::empty(), pending: p0 };
    proof {
        assert(blocks_view(blocks@) =~= Seq::empty());
        assert(messages_view(results@) =~= Seq::empty());
        assert(parts_view(blocks@, results@, pending@) == start);
    }
    let empty: Vec<JsonValue> = Vec::new();
    let parts_ref = match ir.at("parts").as_array() {
        Some(p) => p,
        None => &empty,
    };
    let ghost parts_seq = crate::json::items_view(parts_ref@);
    proof {
        crate::json::lemma_items_view(parts_ref@);
        assert(parts_seq.take(0) =~= Seq::<Json>::empty());
    }
    let mut pi: usize = 0;
    while pi < parts_ref.len()
        invariant
            pi <= parts_ref@.len(),
            parts_seq == crate::json::items_view(parts_ref@),
            parts_seq.len() == parts_ref@.len(),
            forall|j: int| 0 <= j < parts_ref@.len() ==> #[trigger] parts_seq[j] == parts_ref@[j]@,
            parts_view(blocks@, results@, pending@) == parts_fold(start, parts_seq.take(pi as int), mi as nat),
        decreases parts_ref.len() - pi,
    {
        parse_part(&mut blocks, &mut results, pending, &parts_ref[pi], mi, pi);
        proof {
            assert(parts_seq.take(pi as int + 1).drop_last() =~= parts_seq.take(pi as int));
        }
        pi += 1;
    }
    proof {
        assert(parts_seq.take(pi as int) =~= parts_seq);
    }
    let ghost msgs0 = messages_view(messages@);
    if blocks.len() > 0 || results.len() == 0 {
        messages.push(NeutralMessage { role, blocks });
        assert(messages_view(messages@) =~= msgs0.push(messages@.last()@));
    }
    let ghost own = messages_view(messages@);
    let ghost rs = messages_view(results@);
    let mut k: usize = 0;
    let mut results = results;
    proof {
        assert(rs.take(0) =~= Seq::<Message>::empty());
        assert(own + rs.take(0) =~= own);
        assert(rs.len() == results@.len());
        assert(rs.subrange(0, rs.len() as int) =~= rs);
    }
    let total = results.len();
    assert(rs.len() == total);
    while results.len() > 0
        invariant
            k + results@.len() == rs.len(),
            rs.len() <= usize::MAX,
            messages_view(messages@) == own + rs.take(k as int),
            messages_view(results@) == rs.subrange(k as int, rs.len() as int),
        decreases results.len(),
    {
        let ghost before = messages_view(messages@);
        let ghost rest = results@;
        let m = results.remove(0);
        assert(m@ == rs[k as int]) by {
            assert(messages_view(rest)[0] == rest[0]@);
        }
        messages.push(m);
        assert(messages_view(messages@) =~= before.push(m@));
        assert(rs.take(k as int + 1) =~= rs.take(k as int).push(rs[k as int]));
        assert(messages_view(results@) =~= rs.subrange(k as int + 1, rs.len() as int)) by {
            assert(results@ =~= rest.subrange(1, rest.len() as int));
            assert forall|j: int| 0 <= j < results@.len() implies #[trigger] messages_view(results@)[j]
                == rs.subrange(k as int + 1, rs.len() as int)[j] by {
                assert(messages_view(rest)[j + 1] == rest[j + 1]@);
                assert(messages_view(rest)[j + 1] == rs.subrange(k as int, rs.len() as int)[j + 1]);
            }
        }
        k += 1;
    }
    proof {
        assert(rs.take(k as int) =~= rs);
    }
}

fn parse_tool_group(tools: &mut Vec<NeutralTool>, t: &JsonValue)
    ensures
        tools_view(final(tools)@) == tools_view(old(tools)@) + tool_group(t@),
{
    let tr = JsonRef::Found(t);
    proof {
        reveal_strlit("");
        assert(""@ =~= Seq::<char>::empty());
    }
    match tr.at("functionDeclarations").as_array() {
        None => {
            assert(tools_view(tools@) + tool_group(t@) =~= tools_view(tools@));
        },
        Some(decls) => {
            let ghost t0 = tools_view(tools@);
            let ghost ds = crate::json::items_view(decls@);
            proof {
                crate::json::lemma_items_view(decls@);
            }
            let mut i: usize = 0;
            while i < decls.len()
                invariant
                    i <= decls@.len(),
                    ds == crate::json::items_view(decls@),
                    ds.len() == decls@.len(),
                    forall|j: int| 0 <= j < decls@.len() ==> #[trigger] ds[j] == decls@[j]@,
                    tools_view(tools@) =~= t0 + ds.take(i as int).map_values(|d: Json| decl_tool(d)),
                decreases decls.len() - i,
            {
                let decl = &decls[i];
                let dr = JsonRef::Found(decl);
                proof {
                    reveal_strlit("");
                    assert(""@ =~= Seq::<char>::empty());
                }
                let name = owned(text_or(&dr.at("name"), ""));
                let description = match dr.at("description").as_str() {
                    Some(d) => Some(d.clone()),
                    None => None,
                };
                let parameters_schema = dr.at("parameters").to_owned_value();
                let ghost before = tools_view(tools@);
                tools.push(
                    NeutralTool { function: NeutralToolFunction { name, description, parameters_schema } },
                );
                assert(tools_view(tools@) =~= before.push(tools@.last()@));
                assert(tools@.last()@ == decl_tool(ds[i as int]));
                assert(ds.take(i as int + 1).map_values(|d: Json| decl_tool(d)) =~= ds.take(
                    i as int,
                ).map_values(|d: Json| decl_tool(d)).push(decl_tool(ds[i as int])));
                i += 1;
            }
            assert(ds.take(i as int) =~= ds);
        },
    }
}

fn parse_tools(val: &JsonValue, rp: &JsonValue) -> (r: Vec<NeutralTool>)
    ensures
        tools_view(r@) == spec_tools(val@, rp@),
{
    let mut tools: Vec<NeutralTool> = Vec::new();
    let rr = JsonRef::Found(rp);
    let vr = JsonRef::Found(val);
    let arr = match rr.at("tools").as_array() {
        Some(a) => Some(a),
        None => vr.at("tools").as_array(),
    };
    proof {
        assert(tools_view(tools@) =~= Seq::empty());
    }
    match arr {
        None => {},
        Some(ts) => {
            let ghost tv = crate::json::items_view(ts@);
            proof {
                crate::json::lemma_items_view(ts@);
                assert(tv.take(0) =~= Seq::<Json>::empty());
            }
            let mut i: usize = 0;
            while i < ts.len()
                invariant
                    i <= ts@.len(),
                    tv == crate::json::items_view(ts@),
                    tv.len() == ts@.len(),
                    forall|j: int| 0 <= j < ts@.len() ==> #[trigger] tv[j] == ts@[j]@,
                    tools_view(tools@) == tools_fold(tv.take(i as int)),
                decreases ts.len() - i,
            {
                parse_tool_group(&mut tools, &ts[i]);
                assert(tv.take(i as int + 1).drop_last() =~= tv.take(i as int));
                i += 1;
            }
            assert(tv.take(i as int) =~= tv);
        },
    }
    tools
}

fn number_member(v: &JsonRef, key: &str) -> (r: Option<JsonNumber>)
    ensures
        num_opt(r) == v.view().at(key@).as_number(),
{
    match v.at(key).as_number() {
        Some(n) => Some(clone_number(n)),
        None => None,
    }
}

fn u32_member(v: &JsonRef, key: &str) -> (r: Option<u32>)
    ensures
        r == truncated_u32(v.view().at(key@).as_u64()),
{
    match v.at(key).as_u64() {
        Some(n) => Some(n as u32),
        None => None,
    }
}

impl AntigravityRequestParser {
    /// The virtual model a request body names.
    pub fn extract_model_id(body: &str) -> (r: Result<String, ProxyError>)
        ensures
            r matches Ok(id) ==> spec_extract_model_id(body@) == Ok::<Seq<char>, Seq<char>>(id@),
            r matches Err(e) ==> spec_extract_model_id(body@) == Err::<Seq<char>, Seq<char>>(e.message@)
                && e.category == ErrorCategory::InvalidRequest && e.status_code == 400,
    {
        let val = match parse_json(body) {
            Ok(v) => v,
            Err(m) => {
                return Err(invalid_request("Failed to parse Antigravity JSON request: ", m.as_str()));
            },
        };
        match model_id_of(&val) {
            Some(id) => Ok(id),
            None => Err(
                ProxyError::new(
                    ErrorCategory::InvalidRequest,
                    "Missing model ID in Antigravity request",
                    400,
                ),
            ),
        }
    }

    /// Parses a request body into a neutral request; see `request_from`.
    pub fn parse(body: &str) -> (r: Result<NeutralChatRequest, ProxyError>)
        ensures
            r is Ok <==> spec_extract_model_id(body@) is Ok,
            r matches Ok(req) ==> spec_extract_model_id(body@) == Ok::<Seq<char>, Seq<char>>(
                req.virtual_model_id@,
            ) && (json_parse_result(body@) matches Ok(val) && request_from(req, val)),
            r matches Err(e) ==> spec_extract_model_id(body@) == Err::<Seq<char>, Seq<char>>(e.message@)
                && e.category == ErrorCategory::InvalidRequest && e.status_code == 400,
    {
        let val = match parse_json(body) {
            Ok(v) => v,
            Err(m) => {
                return Err(invalid_request("Failed to parse Antigravity JSON request: ", m.as_str()));
            },
        };
        let rp: &JsonValue = match val.get("request") {
            Some(r) => if r.is_object() {
                r
            } else {
                &val
            },
            None => &val,
        };
        let virtual_model_id = match Self::extract_model_id(body) {
            Ok(id) => id,
            Err(e) => {
                return Err(e);
            },
        };
        let vr = JsonRef::Found(&val);
        let rr = JsonRef::Found(rp);
        let stream = match vr.at("stream").as_bool() {
            Some(b) => b,
            None => match rr.at("stream").as_bool() {
                Some(b) => b,
                None => true,
            },
        };
        let system_instruction: Option<String> = match rr.at("systemInstruction").at("parts").item(0).at(
            "text",
        ).as_str() {
            Some(s) => Some(s.clone()),
            None => match rr.at("system_instruction").as_str() {
                Some(s) => Some(s.clone()),
                None => match vr.at("systemInstruction").at("parts").item(0).at("text").as_str() {
                    Some(s) => Some(s.clone()),
                    None => match vr.at("system_instruction").as_str() {
                        Some(s) => Some(s.clone()),
                        None => None,
                    },
                },
            },
        };
        let empty: Vec<JsonValue> = Vec::new();
        let contents: &Vec<JsonValue> = match rr.at("contents").as_array() {
            Some(a) => a,
            None => match rr.at("messages").as_array() {
                Some(a) => a,
                None => match vr.at("contents").as_array() {
                    Some(a) => a,
                    None => match vr.at("messages").as_array() {
                        Some(a) => a,
                        None => &empty,
                    },
                },
            },
        };
        let ghost items = crate::json::items_view(contents@);
        proof {
            crate::json::lemma_items_view(contents@);
            assert(items.take(0) =~= Seq::<Json>::empty());
            assert(spec_contents(val@, rp@) == items) by {
                if contents@.len() == 0 {
                    assert(items =~= Seq::<Json>::empty());
                }
            }
        }
        let mut messages: Vec<NeutralMessage> = Vec::new();
        let mut pending: Vec<(String, String)> = Vec::new();
        proof {
            assert(messages_view(messages@) =~= Seq::empty());
            assert(pending_view(pending@) =~= Seq::empty());
        }
        let mut mi: usize = 0;
        while mi < contents.len()
            invariant
                mi <= contents@.len(),
                items == crate::json::items_view(contents@),
                items.len() == contents@.len(),
                forall|j: int| 0 <= j < contents@.len() ==> #[trigger] items[j] == contents@[j]@,
                (MessagesState { messages: messages_view(messages@), pending: pending_view(pending@) })
                    == messages_fold(items.take(mi as int)),
            decreases contents.len() - mi,
        {
            parse_message(&mut messages, &mut pending, &contents[mi], mi);
            assert(items.take(mi as int + 1).drop_last() =~= items.take(mi as int));
            mi += 1;
        }
        assert(items.take(mi as int) =~= items);
        let tools = parse_tools(&val, rp);
        let gc: JsonRef = match rp.get("generationConfig") {
            Some(g) => if g.is_object() {
                JsonRef::Found(g)
            } else {
                vr.at("generationConfig")
            },
            None => vr.at("generationConfig"),
        };
        let generation_parameters = ParameterOverrides {
            temperature: number_member(&gc, "temperature"),
            max_tokens: u32_member(&gc, "maxOutputTokens"),
            top_p: number_member(&gc, "topP"),
            top_k: u32_member(&gc, "topK"),
            extra_body: None,
        };
        let req = NeutralChatRequest {
            virtual_model_id,
            messages,
            system_instruction,
            tools,
            output_modalities: Vec::new(),
            image_generation_config: None,
            reasoning_level: None,
            stream,
            generation_parameters,
            extra_body: Vec::new(),
        };
        Ok(req)
    }
}

} // verus!
