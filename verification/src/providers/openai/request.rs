//! OpenAI Chat Completions and Images requests.

use crate::domain::error::{ErrorCategory, ProxyError};
use crate::domain::provider::{extra_view, pairs_view, set_headers, set_pairs, ParameterOverrides, Provider};
use crate::domain::reasoning::{level_debug, levels_get, spec_level_debug, Mapping, ReasoningMapping};
use crate::domain::request::{
    inline_data_filename, input_modality_for_mime_type, messages_view, openai_input_audio_format,
    spec_audio_format, spec_inline_filename, spec_input_modality, tools_view, Block, Message, MessageRole,
    NeutralChatRequest, NeutralContentBlock, NeutralMessage, NeutralTool, ToolDecl,
};
use crate::domain::definition::ModelModality;
use crate::domain::route::ResolvedRoute;
use crate::json::{
    entries_get, entries_lookup, entries_view, items_view, jobj1, jobj2, jobj3, juint, object1, object2, object3,
    push_entry, push_item, set_entry, set_member, str_value, uint_value, Json, JsonValue,
};
use crate::providers::gemini::request::{count_json, number_json, object_entries, opt_member, set_members};
use crate::providers::openai::response::str_or;
use crate::providers::schema::{norm_schema, normalized_schema};
use crate::providers::{is_image_generation_request, spec_is_image_generation};
use crate::text::{
    chars_of, debug_quoted, debug_str, decimal, owned, push_chars, push_decimal, push_str, string_from_chars, trim,
    trim_chars,
};
use vstd::prelude::*;

verus! {

pub open spec fn openai_role(role: MessageRole) -> Seq<char> {
    match role {
        MessageRole::System => "system"@,
        MessageRole::User => "user"@,
        MessageRole::Assistant => "assistant"@,
        MessageRole::Tool => "tool"@,
    }
}

/// The content part a block becomes, where it becomes one: text, inline
/// data (an image URL, input audio, or a file by MIME type) and tool results.
pub open spec fn content_part(b: Block) -> Option<Json> {
    match b {
        Block::Text(t) => Some(jobj2("type"@, Json::Str("text"@), "text"@, Json::Str(t))),
        Block::InlineData { mime_type, data_base64 } => Some(
            if spec_input_modality(mime_type) == ModelModality::Image {
                jobj2(
                    "type"@,
                    Json::Str("image_url"@),
                    "image_url"@,
                    jobj1("url"@, Json::Str("data:"@ + mime_type + ";base64,"@ + data_base64)),
                )
            } else {
                match spec_audio_format(mime_type) {
                    Some(f) => jobj2(
                        "type"@,
                        Json::Str("input_audio"@),
                        "input_audio"@,
                        jobj2("data"@, Json::Str(data_base64), "format"@, Json::Str(f)),
                    ),
                    None => jobj2(
                        "type"@,
                        Json::Str("file"@),
                        "file"@,
                        jobj2(
                            "filename"@,
                            Json::Str(spec_inline_filename(mime_type)),
                            "file_data"@,
                            Json::Str(data_base64),
                        ),
                    ),
                }
            },
        ),
        Block::ToolResult { content, .. } => Some(jobj2("type"@, Json::Str("text"@), "text"@, Json::Str(content))),
        _ => None,
    }
}

pub open spec fn tool_call_part(b: Block) -> Option<Json> {
    match b {
        Block::ToolCall { id, name, arguments_json } => Some(
            jobj3(
                "id"@,
                Json::Str(id),
                "type"@,
                Json::Str("function"@),
                "function"@,
                jobj2("name"@, Json::Str(name), "arguments"@, Json::Str(arguments_json)),
            ),
        ),
        _ => None,
    }
}

pub open spec fn thinking_text(b: Block) -> Option<Seq<char>> {
    match b {
        Block::Thinking { text, .. } => Some(text),
        _ => None,
    }
}

pub open spec fn collect_parts(bs: Seq<Block>) -> Seq<Json>
    decreases bs.len(),
{
    if bs.len() == 0 {
        seq![]
    } else {
        let p = collect_parts(bs.drop_last());
        match content_part(bs.last()) {
            Some(j) => p.push(j),
            None => p,
        }
    }
}

pub open spec fn collect_calls(bs: Seq<Block>) -> Seq<Json>
    decreases bs.len(),
{
    if bs.len() == 0 {
        seq![]
    } else {
        let p = collect_calls(bs.drop_last());
        match tool_call_part(bs.last()) {
            Some(j) => p.push(j),
            None => p,
        }
    }
}

pub open spec fn collect_thinking(bs: Seq<Block>) -> Seq<Seq<char>>
    decreases bs.len(),
{
    if bs.len() == 0 {
        seq![]
    } else {
        let p = collect_thinking(bs.drop_last());
        match thinking_text(bs.last()) {
            Some(t) => p.push(t),
            None => p,
        }
    }
}

/// The call ID of the last tool result among the blocks.
pub open spec fn last_result_id(bs: Seq<Block>) -> Option<Seq<char>>
    decreases bs.len(),
{
    if bs.len() == 0 {
        None
    } else {
        match bs.last() {
            Block::ToolResult { tool_call_id, .. } => Some(tool_call_id),
            _ => last_result_id(bs.drop_last()),
        }
    }
}

/// The texts joined with line feeds.
pub open spec fn join_lines(s: Seq<Seq<char>>) -> Seq<char>
    decreases s.len(),
{
    if s.len() == 0 {
        seq![]
    } else if s.len() == 1 {
        s[0]
    } else {
        join_lines(s.drop_last()) + "\n"@ + s.last()
    }
}

/// The Chat Completions message a neutral message becomes. A lone text
/// block is sent as plain content. A tool message carries the last result's
/// call ID and the text of its first content part; other messages carry
/// their content parts, their reasoning joined by line feeds, and their
/// tool calls.
pub open spec fn openai_message(m: Message) -> Json {
    let role = Json::Str(openai_role(m.role));
    if m.blocks.len() == 1 && m.blocks[0] is Text {
        jobj2("role"@, role, "content"@, Json::Str(m.blocks[0]->Text_0))
    } else {
        let parts = collect_parts(m.blocks);
        let calls = collect_calls(m.blocks);
        let thinking = collect_thinking(m.blocks);
        let members = if m.role == MessageRole::Tool {
            opt_member(
                "tool_call_id"@,
                match last_result_id(m.blocks) {
                    Some(id) => Some(Json::Str(id)),
                    None => None,
                },
            ) + if parts.len() > 0 {
                seq![("content"@, Json::Str(str_or(parts[0].at("text"@), seq![])))]
            } else {
                seq![]
            }
        } else {
            (if parts.len() > 0 {
                seq![("content"@, Json::Array(parts))]
            } else {
                seq![]
            }) + (if thinking.len() > 0 {
                seq![("reasoning_content"@, Json::Str(join_lines(thinking)))]
            } else {
                seq![]
            }) + (if calls.len() > 0 {
                seq![("tool_calls"@, Json::Array(calls))]
            } else {
                seq![]
            })
        };
        Json::Object(seq![("role"@, role)] + members)
    }
}

/// The function tool a declaration becomes, its schema types normalized.
pub open spec fn openai_tool(t: ToolDecl) -> Json {
    jobj2(
        "type"@,
        Json::Str("function"@),
        "function"@,
        jobj3(
            "name"@,
            Json::Str(t.name),
            "description"@,
            match t.description {
                Some(d) => Json::Str(d),
                None => Json::Null,
            },
            "parameters"@,
            norm_schema(t.parameters),
        ),
    )
}

pub open spec fn chat_base(route: ResolvedRoute, request: NeutralChatRequest) -> Seq<(Seq<char>, Json)> {
    let system = match request.system_instruction {
        Some(s) => seq![jobj2("role"@, Json::Str("system"@), "content"@, Json::Str(s@))],
        None => seq![],
    };
    let messages = system + messages_view(request.messages@).map_values(|m: Message| openai_message(m));
    let p = route.final_parameters;
    seq![
        ("model"@, Json::Str(route.upstream_model.upstream_model_id@)),
        ("stream"@, Json::Bool(request.stream)),
        ("messages"@, Json::Array(messages)),
    ] + (if request.tools@.len() > 0 {
        seq![("tools"@, Json::Array(tools_view(request.tools@).map_values(|t: ToolDecl| openai_tool(t))))]
    } else {
        seq![]
    }) + opt_member("temperature"@, number_json(p.temperature)) + opt_member("max_tokens"@, count_json(p.max_tokens))
        + opt_member("top_p"@, number_json(p.top_p))
}

/// The `{:?}` form of a mapping OpenAI cannot use.
pub open spec fn mapping_debug(m: Mapping) -> Seq<char> {
    match m {
        Mapping::BudgetTokens(n) => "BudgetTokens("@ + decimal(n as nat) + ")"@,
        Mapping::NativeLevel(l) => "NativeLevel("@ + debug_str(l) + ")"@,
        Mapping::Effort(e) => "Effort("@ + debug_str(e) + ")"@,
        Mapping::Disabled => "Disabled"@,
        Mapping::Adaptive => "Adaptive"@,
    }
}

pub open spec fn openai_reasoning(entries: Seq<(Seq<char>, Json)>, route: ResolvedRoute) -> Result<Seq<(Seq<char>, Json)>, Seq<char>> {
    match route.final_reasoning_level {
        None => Ok(entries),
        Some(level) => match levels_get(route.upstream_model.capabilities.reasoning.levels@, level) {
            None => Err("No reasoning mapping configured for OpenAI level "@ + spec_level_debug(level)),
            Some(Mapping::Effort(e)) => Ok(set_member(entries, "reasoning_effort"@, Json::Str(e))),
            Some(Mapping::Disabled) => Ok(set_member(entries, "reasoning_effort"@, Json::Str("none"@))),
            Some(m) => Err("OpenAI does not support reasoning mapping: "@ + mapping_debug(m)),
        },
    }
}

/// Streaming requests ask for usage in `stream_options`.
pub open spec fn with_stream_options(entries: Seq<(Seq<char>, Json)>, stream: bool) -> Seq<(Seq<char>, Json)> {
    if !stream {
        entries
    } else {
        let options = object_entries(entries_get(entries, "stream_options"@));
        set_member(entries, "stream_options"@, Json::Object(set_member(options, "include_usage"@, Json::Bool(true))))
    }
}

/// The text blocks of a message joined by line feeds (empty texts add no
/// separator before them).
pub open spec fn prompt_of_blocks(bs: Seq<Block>) -> Seq<char>
    decreases bs.len(),
{
    if bs.len() == 0 {
        seq![]
    } else {
        let p = prompt_of_blocks(bs.drop_last());
        match bs.last() {
            Block::Text(t) => (if p.len() > 0 {
                p + "\n"@
            } else {
                p
            }) + t,
            _ => p,
        }
    }
}

/// The prompt of the last user message with text.
pub open spec fn image_prompt(ms: Seq<Message>) -> Seq<char>
    decreases ms.len(),
{
    if ms.len() == 0 {
        seq![]
    } else {
        let m = ms.last();
        let p = prompt_of_blocks(m.blocks);
        if m.role == MessageRole::User && p.len() > 0 {
            p
        } else {
            image_prompt(ms.drop_last())
        }
    }
}

pub open spec fn aspect_size(a: Seq<char>) -> Option<Seq<char>> {
    if a == "1:1"@ {
        Some("1024x1024"@)
    } else if a == "16:9"@ {
        Some("1536x1024"@)
    } else if a == "9:16"@ {
        Some("1024x1536"@)
    } else if a == "4:3"@ {
        Some("1024x768"@)
    } else if a == "3:4"@ {
        Some("768x1024"@)
    } else if a == "21:9"@ {
        Some("1792x768"@)
    } else if a == "9:21"@ {
        Some("768x1792"@)
    } else {
        None
    }
}

/// The image size: an explicit `size`, else the one for the aspect ratio.
pub open spec fn image_size(config: Option<Json>) -> Option<Seq<char>> {
    match config {
        None => None,
        Some(c) => match c.get("size"@) {
            Some(Json::Str(s)) => Some(s),
            _ => {
                let a = match c.get("aspectRatio"@) {
                    Some(x) => Some(x),
                    None => c.get("aspect_ratio"@),
                };
                match a {
                    Some(Json::Str(s)) => aspect_size(s),
                    _ => None,
                }
            },
        },
    }
}

pub open spec fn config_view(c: Option<JsonValue>) -> Option<Json> {
    match c {
        Some(v) => Some(v@),
        None => None,
    }
}

/// The Images API payload, or the message of the `InvalidRequest` error for
/// a prompt that is blank.
pub open spec fn image_payload(route: ResolvedRoute, request: NeutralChatRequest) -> Result<Seq<(Seq<char>, Json)>, Seq<char>> {
    let prompt = image_prompt(messages_view(request.messages@));
    if trim(prompt).len() == 0 {
        Err("Image generation requires a non-empty text prompt"@)
    } else {
        let config = config_view(request.image_generation_config);
        let base = seq![
            ("model"@, Json::Str(route.upstream_model.upstream_model_id@)),
            ("prompt"@, Json::Str(prompt)),
            ("n"@, juint(1)),
            ("response_format"@, Json::Str("b64_json"@)),
        ] + opt_member(
            "size"@,
            match image_size(config) {
                Some(s) => Some(Json::Str(s)),
                None => None,
            },
        ) + opt_member(
            "quality"@,
            match config {
                Some(c) => c.get("quality"@),
                None => None,
            },
        );
        Ok(set_members(base, extra_view(route.final_parameters.extra_body)))
    }
}

/// The members of the OpenAI payload for `request` on `route`, or the
/// category and message of the error.
pub open spec fn openai_payload(route: ResolvedRoute, request: NeutralChatRequest) -> Result<Seq<(Seq<char>, Json)>, (ErrorCategory, Seq<char>)> {
    if spec_is_image_generation(route.upstream_model, request) {
        match image_payload(route, request) {
            Ok(e) => Ok(e),
            Err(m) => Err((ErrorCategory::InvalidRequest, m)),
        }
    } else {
        let base = set_members(chat_base(route, request), extra_view(route.final_parameters.extra_body));
        match openai_reasoning(base, route) {
            Ok(e) => Ok(with_stream_options(e, request.stream)),
            Err(m) => Err((ErrorCategory::UnsupportedFeature, m)),
        }
    }
}

fn text_value(s: &String) -> (r: JsonValue)
    ensures
        r@ == Json::Str(s@),
{
    JsonValue::Str(s.clone())
}

fn content_value(b: &NeutralContentBlock) -> (r: Option<JsonValue>)
    ensures
        match r {
            Some(v) => content_part(b@) == Some(v@),
            None => content_part(b@) is None,
        },
{
    match b {
        NeutralContentBlock::Text(t) => Some(object2("type", str_value("text"), "text", text_value(t))),
        NeutralContentBlock::InlineData { mime_type, data_base64 } => {
            if input_modality_for_mime_type(mime_type.as_str()) == ModelModality::Image {
                let mut buf: Vec<char> = Vec::new();
                push_str(&mut buf, "data:");
                push_str(&mut buf, mime_type.as_str());
                push_str(&mut buf, ";base64,");
                push_str(&mut buf, data_base64.as_str());
                let url = string_from_chars(buf.as_slice());
                Some(object2("type", str_value("image_url"), "image_url", object1("url", JsonValue::Str(url))))
            } else {
                match openai_input_audio_format(mime_type.as_str()) {
                    Some(f) => Some(
                        object2(
                            "type",
                            str_value("input_audio"),
                            "input_audio",
                            object2("data", text_value(data_base64), "format", str_value(f)),
                        ),
                    ),
                    None => Some(
                        object2(
                            "type",
                            str_value("file"),
                            "file",
                            object2(
                                "filename",
                                str_value(inline_data_filename(mime_type.as_str())),
                                "file_data",
                                text_value(data_base64),
                            ),
                        ),
                    ),
                }
            }
        },
        NeutralContentBlock::ToolResult { content, .. } => Some(
            object2("type", str_value("text"), "text", text_value(content)),
        ),
        _ => None,
    }
}

fn call_value(b: &NeutralContentBlock) -> (r: Option<JsonValue>)
    ensures
        match r {
            Some(v) => tool_call_part(b@) == Some(v@),
            None => tool_call_part(b@) is None,
        },
{
    match b {
        NeutralContentBlock::ToolCall { id, name, arguments_json } => Some(
            object3(
                "id",
                text_value(id),
                "type",
                str_value("function"),
                "function",
                object2("name", text_value(name), "arguments", text_value(arguments_json)),
            ),
        ),
        _ => None,
    }
}

/// The Chat Completions message for a neutral message; see `openai_message`.
pub fn convert_message(msg: &NeutralMessage) -> (r: JsonValue)
    ensures
        r@ == openai_message(msg@),
{
    let role = match msg.role {
        MessageRole::System => "system",
        MessageRole::User => "user",
        MessageRole::Assistant => "assistant",
        MessageRole::Tool => "tool",
    };
    let ghost bv = msg@.blocks;
    if msg.blocks.len() == 1 {
        if let NeutralContentBlock::Text(t) = &msg.blocks[0] {
            return object2("role", str_value(role), "content", text_value(t));
        }
    }
    let mut parts: Vec<JsonValue> = Vec::new();
    let mut calls: Vec<JsonValue> = Vec::new();
    let mut thinking: Vec<char> = Vec::new();
    let mut thinking_count: usize = 0;
    let mut tool_call_id: Option<String> = None;
    proof {
        assert(bv.take(0) =~= seq![]);
        assert(items_view(parts@) =~= seq![]);
        assert(items_view(calls@) =~= seq![]);
    }
    let mut i: usize = 0;
    while i < msg.blocks.len()
        invariant
            i <= msg.blocks@.len(),
            bv == msg@.blocks,
            bv.len() == msg.blocks@.len(),
            items_view(parts@) == collect_parts(bv.take(i as int)),
            items_view(calls@) == collect_calls(bv.take(i as int)),
            thinking@ == join_lines(collect_thinking(bv.take(i as int))),
            thinking_count == collect_thinking(bv.take(i as int)).len(),
            thinking_count <= i,
            crate::text::opt_view(tool_call_id) == last_result_id(bv.take(i as int)),
        decreases msg.blocks.len() - i,
    {
        let b = &msg.blocks[i];
        proof {
            assert(bv[i as int] == b@);
            assert(bv.take(i as int + 1).drop_last() =~= bv.take(i as int));
            assert(bv.take(i as int + 1).last() == b@);
        }
        match content_value(b) {
            Some(v) => push_item(&mut parts, v),
            None => {},
        }
        match call_value(b) {
            Some(v) => push_item(&mut calls, v),
            None => {},
        }
        match b {
            NeutralContentBlock::Thinking { text, .. } => {
                if thinking_count > 0 {
                    push_str(&mut thinking, "\n");
                }
                let tc = chars_of(text.as_str());
                push_chars(&mut thinking, tc.as_slice());
                proof {
                    reveal_strlit("\n");
                    let before = collect_thinking(bv.take(i as int));
                    let after = collect_thinking(bv.take(i as int + 1));
                    assert(after == before.push(text@));
                    assert(after.drop_last() =~= before);
                }
                thinking_count = thinking_count + 1;
            },
            NeutralContentBlock::ToolResult { tool_call_id: id, .. } => {
                tool_call_id = Some(id.clone());
            },
            _ => {},
        }
        i += 1;
    }
    proof {
        assert(bv.take(i as int) =~= bv);
    }
    proof {
        assert(!(bv.len() == 1 && bv[0] is Text)) by {
            if bv.len() == 1 && bv[0] is Text {
                assert(bv[0] == msg.blocks@[0]@);
            }
        }
    }
    let ghost pv = items_view(parts@);
    let ghost cv = items_view(calls@);
    let ghost tv = collect_thinking(bv);
    let ghost rv = Json::Str(openai_role(msg.role));
    let mut e: Vec<(String, JsonValue)> = Vec::new();
    assert(entries_view(e@) =~= seq![]);
    push_entry(&mut e, "role", str_value(role));
    assert(entries_view(e@) =~= seq![("role"@, rv)]);
    if msg.role == MessageRole::Tool {
        let ghost idm = opt_member(
            "tool_call_id"@,
            match last_result_id(bv) {
                Some(id) => Some(Json::Str(id)),
                None => None,
            },
        );
        match tool_call_id {
            Some(id) => push_entry(&mut e, "tool_call_id", JsonValue::Str(id)),
            None => {},
        }
        assert(entries_view(e@) =~= seq![("role"@, rv)] + idm);
        proof {
            crate::json::lemma_items_view(parts@);
        }
        if parts.len() > 0 {
            let first = match parts[0].get("text") {
                Some(JsonValue::Str(s)) => s.clone(),
                _ => owned(""),
            };
            proof {
                reveal_strlit("");
                assert(""@ =~= Seq::<char>::empty());
                assert(pv[0] == parts@[0]@);
            }
            push_entry(&mut e, "content", JsonValue::Str(first));
            assert(entries_view(e@) =~= seq![("role"@, rv)] + (idm + seq![
                ("content"@, Json::Str(str_or(pv[0].at("text"@), seq![]))),
            ]));
        } else {
            assert(entries_view(e@) =~= seq![("role"@, rv)] + (idm + seq![]));
        }
    } else {
        proof {
            crate::json::lemma_items_view(parts@);
            crate::json::lemma_items_view(calls@);
        }
        let ghost m1 = if pv.len() > 0 {
            seq![("content"@, Json::Array(pv))]
        } else {
            seq![]
        };
        let ghost m2 = if tv.len() > 0 {
            seq![("reasoning_content"@, Json::Str(join_lines(tv)))]
        } else {
            seq![]
        };
        let ghost m3 = if cv.len() > 0 {
            seq![("tool_calls"@, Json::Array(cv))]
        } else {
            seq![]
        };
        if parts.len() > 0 {
            push_entry(&mut e, "content", JsonValue::Array(parts));
        }
        assert(entries_view(e@) =~= seq![("role"@, rv)] + m1);
        if thinking_count > 0 {
            push_entry(&mut e, "reasoning_content", JsonValue::Str(string_from_chars(thinking.as_slice())));
        }
        assert(entries_view(e@) =~= seq![("role"@, rv)] + m1 + m2);
        if calls.len() > 0 {
            push_entry(&mut e, "tool_calls", JsonValue::Array(calls));
        }
        assert(entries_view(e@) =~= seq![("role"@, rv)] + (m1 + m2 + m3));
    }
    JsonValue::Object(e)
}

fn message_prompt(msg: &NeutralMessage) -> (r: Vec<char>)
    ensures
        r@ == prompt_of_blocks(msg@.blocks),
{
    let ghost bv = msg@.blocks;
    let mut p: Vec<char> = Vec::new();
    proof {
        assert(bv.take(0) =~= seq![]);
    }
    let mut i: usize = 0;
    while i < msg.blocks.len()
        invariant
            i <= msg.blocks@.len(),
            bv == msg@.blocks,
            bv.len() == msg.blocks@.len(),
            p@ == prompt_of_blocks(bv.take(i as int)),
        decreases msg.blocks.len() - i,
    {
        proof {
            assert(bv[i as int] == msg.blocks@[i as int]@);
            assert(bv.take(i as int + 1).drop_last() =~= bv.take(i as int));
            reveal_strlit("\n");
        }
        if let NeutralContentBlock::Text(t) = &msg.blocks[i] {
            if p.len() > 0 {
                push_str(&mut p, "\n");
            }
            let tc = chars_of(t.as_str());
            push_chars(&mut p, tc.as_slice());
        }
        i += 1;
    }
    assert(bv.take(i as int) =~= bv);
    p
}

/// The prompt of an image generation request; see `image_prompt`.
fn image_generation_prompt(request: &NeutralChatRequest) -> (r: Vec<char>)
    ensures
        r@ == image_prompt(messages_view(request.messages@)),
{
    let ghost mv = messages_view(request.messages@);
    assert(mv.take(mv.len() as int) =~= mv);
    let mut i: usize = request.messages.len();
    while i > 0
        invariant
            i <= request.messages@.len(),
            mv == messages_view(request.messages@),
            mv.len() == request.messages@.len(),
            image_prompt(mv) == image_prompt(mv.take(i as int)),
        decreases i,
    {
        let m = &request.messages[i - 1];
        let p = message_prompt(m);
        proof {
            assert(mv[i - 1] == m@);
            assert(mv.take(i as int).drop_last() =~= mv.take(i - 1));
            assert(mv.take(i as int).last() == m@);
        }
        let is_user = match m.role {
            MessageRole::User => true,
            _ => false,
        };
        if is_user && p.len() > 0 {
            return p;
        }
        i -= 1;
    }
    let p: Vec<char> = Vec::new();
    assert(mv.take(0) =~= seq![]);
    p
}

fn aspect_size_of(a: &String) -> (r: Option<&'static str>)
    ensures
        match r {
            Some(s) => aspect_size(a@) == Some(s@),
            None => aspect_size(a@) is None,
        },
{
    let c = chars_of(a.as_str());
    let t = c.as_slice();
    if crate::text::chars_eq_str(t, "1:1") {
        Some("1024x1024")
    } else if crate::text::chars_eq_str(t, "16:9") {
        Some("1536x1024")
    } else if crate::text::chars_eq_str(t, "9:16") {
        Some("1024x1536")
    } else if crate::text::chars_eq_str(t, "4:3") {
        Some("1024x768")
    } else if crate::text::chars_eq_str(t, "3:4") {
        Some("768x1024")
    } else if crate::text::chars_eq_str(t, "21:9") {
        Some("1792x768")
    } else if crate::text::chars_eq_str(t, "9:21") {
        Some("768x1792")
    } else {
        None
    }
}

/// The image size of a request; see `image_size`.
fn image_generation_size(config: &Option<JsonValue>) -> (r: Option<String>)
    ensures
        crate::text::opt_view(r) == image_size(config_view(*config)),
{
    let c = match config {
        Some(c) => c,
        None => return None,
    };
    if let Some(JsonValue::Str(size)) = c.get("size") {
        return Some(size.clone());
    }
    let a = match c.get("aspectRatio") {
        Some(x) => Some(x),
        None => c.get("aspect_ratio"),
    };
    match a {
        Some(JsonValue::Str(s)) => match aspect_size_of(s) {
            Some(z) => Some(owned(z)),
            None => None,
        },
        _ => None,
    }
}

fn apply_extra(payload: &mut Vec<(String, JsonValue)>, extra: &Option<Vec<(String, JsonValue)>>)
    ensures
        entries_view(final(payload)@) == set_members(entries_view(old(payload)@), extra_view(*extra)),
{
    match extra {
        Some(x) => {
            let ghost base = entries_view(payload@);
            let ghost xv = entries_view(x@);
            proof {
                crate::json::lemma_entries_view(x@);
                assert(xv.take(0) =~= seq![]);
            }
            let mut i: usize = 0;
            while i < x.len()
                invariant
                    i <= x@.len(),
                    xv == entries_view(x@),
                    xv.len() == x@.len(),
                    forall|j: int| 0 <= j < x@.len() ==> #[trigger] xv[j] == (x@[j].0@, x@[j].1@),
                    entries_view(payload@) == set_members(base, xv.take(i as int)),
                decreases x.len() - i,
            {
                let v = x[i].1.deep_clone();
                set_entry(payload, x[i].0.as_str(), v);
                assert(xv.take(i as int + 1).drop_last() =~= xv.take(i as int));
                i += 1;
            }
            assert(xv.take(i as int) =~= xv);
        },
        None => {},
    }
}

fn image_generation_payload(route: &ResolvedRoute, request: &NeutralChatRequest) -> (r: Result<Vec<(String, JsonValue)>, ProxyError>)
    ensures
        match image_payload(*route, *request) {
            Ok(e) => (r matches Ok(v) && entries_view(v@) == e),
            Err(m) => (r matches Err(err) && err.category == ErrorCategory::InvalidRequest && err.status_code
                == 400 && err.message@ == m && err.upstream_body is None),
        },
{
    let prompt = image_generation_prompt(request);
    let trimmed = trim_chars(prompt.as_slice());
    if trimmed.len() == 0 {
        return Err(
            ProxyError::new(ErrorCategory::InvalidRequest, "Image generation requires a non-empty text prompt", 400),
        );
    }
    let mut payload: Vec<(String, JsonValue)> = Vec::new();
    assert(entries_view(payload@) =~= seq![]);
    push_entry(&mut payload, "model", text_value(&route.upstream_model.upstream_model_id));
    push_entry(&mut payload, "prompt", JsonValue::Str(string_from_chars(prompt.as_slice())));
    push_entry(&mut payload, "n", uint_value(1));
    push_entry(&mut payload, "response_format", str_value("b64_json"));
    let ghost head = entries_view(payload@);
    assert(head =~= seq![
        ("model"@, Json::Str(route.upstream_model.upstream_model_id@)),
        ("prompt"@, Json::Str(image_prompt(messages_view(request.messages@)))),
        ("n"@, juint(1)),
        ("response_format"@, Json::Str("b64_json"@)),
    ]);
    match image_generation_size(&request.image_generation_config) {
        Some(size) => push_entry(&mut payload, "size", JsonValue::Str(size)),
        None => {},
    }
    let quality = match &request.image_generation_config {
        Some(c) => match c.get("quality") {
            Some(q) => Some(q.deep_clone()),
            None => None,
        },
        None => None,
    };
    match quality {
        Some(q) => push_entry(&mut payload, "quality", q),
        None => {},
    }
    let ghost config = config_view(request.image_generation_config);
    assert(entries_view(payload@) =~= head + opt_member(
        "size"@,
        match image_size(config) {
            Some(s) => Some(Json::Str(s)),
            None => None,
        },
    ) + opt_member(
        "quality"@,
        match config {
            Some(c) => c.get("quality"@),
            None => None,
        },
    ));
    apply_extra(&mut payload, &route.final_parameters.extra_body);
    Ok(payload)
}

fn convert_tool(tool: &NeutralTool) -> (r: JsonValue)
    ensures
        r@ == openai_tool(tool@),
{
    let description = match &tool.function.description {
        Some(d) => text_value(d),
        None => JsonValue::Null,
    };
    object2(
        "type",
        str_value("function"),
        "function",
        object3(
            "name",
            text_value(&tool.function.name),
            "description",
            description,
            "parameters",
            normalized_schema(&tool.function.parameters_schema),
        ),
    )
}

fn chat_entries(route: &ResolvedRoute, request: &NeutralChatRequest) -> (r: Vec<(String, JsonValue)>)
    ensures
        entries_view(r@) == chat_base(*route, *request),
{
    let mut messages: Vec<JsonValue> = Vec::new();
    assert(items_view(messages@) =~= seq![]);
    match &request.system_instruction {
        Some(sys) => push_item(&mut messages, object2("role", str_value("system"), "content", text_value(sys))),
        None => {},
    }
    let ghost system = items_view(messages@);
    let ghost mv = messages_view(request.messages@);
    assert(mv.take(0).map_values(|m: Message| openai_message(m)) =~= seq![]);
    let mut i: usize = 0;
    while i < request.messages.len()
        invariant
            i <= request.messages@.len(),
            mv == messages_view(request.messages@),
            mv.len() == request.messages@.len(),
            items_view(messages@) == system + mv.take(i as int).map_values(|m: Message| openai_message(m)),
        decreases request.messages.len() - i,
    {
        let c = convert_message(&request.messages[i]);
        proof {
            assert(mv[i as int] == request.messages@[i as int]@);
            assert(mv.take(i as int + 1).map_values(|m: Message| openai_message(m)) =~= mv.take(i as int).map_values(
                |m: Message| openai_message(m),
            ).push(openai_message(mv[i as int])));
        }
        push_item(&mut messages, c);
        i += 1;
    }
    assert(mv.take(i as int) =~= mv);
    let mut payload: Vec<(String, JsonValue)> = Vec::new();
    assert(entries_view(payload@) =~= seq![]);
    push_entry(&mut payload, "model", text_value(&route.upstream_model.upstream_model_id));
    push_entry(&mut payload, "stream", JsonValue::Bool(request.stream));
    push_entry(&mut payload, "messages", JsonValue::Array(messages));
    let ghost head = entries_view(payload@);
    if request.tools.len() > 0 {
        let ghost tv = tools_view(request.tools@);
        let mut tools: Vec<JsonValue> = Vec::new();
        assert(items_view(tools@) =~= tv.take(0).map_values(|t: ToolDecl| openai_tool(t)));
        let mut j: usize = 0;
        while j < request.tools.len()
            invariant
                j <= request.tools@.len(),
                tv == tools_view(request.tools@),
                tv.len() == request.tools@.len(),
                items_view(tools@) == tv.take(j as int).map_values(|t: ToolDecl| openai_tool(t)),
            decreases request.tools.len() - j,
        {
            let t = convert_tool(&request.tools[j]);
            proof {
                assert(tv[j as int] == request.tools@[j as int]@);
                assert(tv.take(j as int + 1).map_values(|t: ToolDecl| openai_tool(t)) =~= tv.take(j as int).map_values(
                    |t: ToolDecl| openai_tool(t),
                ).push(openai_tool(tv[j as int])));
            }
            push_item(&mut tools, t);
            j += 1;
        }
        assert(tv.take(j as int) =~= tv);
        push_entry(&mut payload, "tools", JsonValue::Array(tools));
    }
    let ghost with_tools = entries_view(payload@);
    let p = &route.final_parameters;
    match &p.temperature {
        Some(t) => push_entry(&mut payload, "temperature", JsonValue::Number(crate::json::clone_number(t))),
        None => {},
    }
    match p.max_tokens {
        Some(m) => push_entry(&mut payload, "max_tokens", uint_value(m as u64)),
        None => {},
    }
    match &p.top_p {
        Some(t) => push_entry(&mut payload, "top_p", JsonValue::Number(crate::json::clone_number(t))),
        None => {},
    }
    assert(entries_view(payload@) =~= chat_base(*route, *request));
    payload
}

fn apply_reasoning(payload: &mut Vec<(String, JsonValue)>, route: &ResolvedRoute) -> (r: Result<(), ProxyError>)
    ensures
        match openai_reasoning(entries_view(old(payload)@), *route) {
            Ok(e) => r is Ok && entries_view(final(payload)@) == e,
            Err(m) => (r matches Err(err) && err.category == ErrorCategory::UnsupportedFeature
                && err.status_code == 400 && err.message@ == m && err.upstream_body is None),
        },
{
    let level = match route.final_reasoning_level {
        Some(l) => l,
        None => return Ok(()),
    };
    let mapping = match route.upstream_model.capabilities.reasoning.mapping_for(level) {
        Some(m) => m,
        None => {
            let mut buf: Vec<char> = Vec::new();
            push_str(&mut buf, "No reasoning mapping configured for OpenAI level ");
            push_str(&mut buf, level_debug(level));
            let text = string_from_chars(buf.as_slice());
            return Err(ProxyError::new(ErrorCategory::UnsupportedFeature, text.as_str(), 400));
        },
    };
    let mut buf: Vec<char> = Vec::new();
    push_str(&mut buf, "OpenAI does not support reasoning mapping: ");
    match mapping {
        ReasoningMapping::Effort(e) => {
            set_entry(payload, "reasoning_effort", text_value(e));
            return Ok(());
        },
        ReasoningMapping::Disabled => {
            set_entry(payload, "reasoning_effort", str_value("none"));
            return Ok(());
        },
        ReasoningMapping::BudgetTokens(n) => {
            push_str(&mut buf, "BudgetTokens(");
            push_decimal(&mut buf, *n as u64);
            push_str(&mut buf, ")");
        },
        ReasoningMapping::NativeLevel(l) => {
            push_str(&mut buf, "NativeLevel(");
            let q = debug_quoted(l.as_str());
            push_str(&mut buf, q.as_str());
            push_str(&mut buf, ")");
        },
        ReasoningMapping::Adaptive => {
            push_str(&mut buf, "Adaptive");
        },
    }
    let text = string_from_chars(buf.as_slice());
    Err(ProxyError::new(ErrorCategory::UnsupportedFeature, text.as_str(), 400))
}

fn apply_stream_options(payload: &mut Vec<(String, JsonValue)>, stream: bool)
    ensures
        entries_view(final(payload)@) == with_stream_options(entries_view(old(payload)@), stream),
{
    if !stream {
        return;
    }
    let mut options: Vec<(String, JsonValue)> = match entries_lookup(payload, "stream_options") {
        Some(JsonValue::Object(e)) => crate::domain::provider::clone_entries(e),
        _ => Vec::new(),
    };
    set_entry(&mut options, "include_usage", JsonValue::Bool(true));
    set_entry(payload, "stream_options", JsonValue::Object(options));
}

/// The OpenAI payload for `request` on `route` (see `openai_payload`): an
/// Images API request for image generation, else a Chat Completions one.
pub fn build_request_payload(route: &ResolvedRoute, request: &NeutralChatRequest) -> (r: Result<JsonValue, ProxyError>)
    ensures
        match openai_payload(*route, *request) {
            Ok(e) => (r matches Ok(v) && v@ == Json::Object(e)),
            Err(failure) => (r matches Err(err) && err.category == failure.0 && err.status_code == 400
                && err.message@ == failure.1 && err.upstream_body is None),
        },
{
    if is_image_generation_request(&route.upstream_model, request) {
        return match image_generation_payload(route, request) {
            Ok(e) => Ok(JsonValue::Object(e)),
            Err(err) => Err(err),
        };
    }
    let mut payload = chat_entries(route, request);
    apply_extra(&mut payload, &route.final_parameters.extra_body);
    match apply_reasoning(&mut payload, route) {
        Ok(()) => {},
        Err(err) => {
            return Err(err);
        },
    }
    apply_stream_options(&mut payload, request.stream);
    Ok(JsonValue::Object(payload))
}

/// The request headers for an OpenAI provider: JSON content, a bearer token
/// where a key is set, then the provider's own headers.
pub open spec fn openai_headers(p: Provider) -> Seq<(Seq<char>, Seq<char>)> {
    let base = seq![("Content-Type"@, "application/json"@)];
    let keyed = if p.api_key@.len() > 0 {
        base.push(("Authorization"@, "Bearer "@ + p.api_key@))
    } else {
        base
    };
    set_pairs(keyed, pairs_view(p.headers@))
}

pub fn build_headers(provider: &Provider) -> (r: Vec<(String, String)>)
    ensures
        pairs_view(r@) == openai_headers(*provider),
{
    let mut headers: Vec<(String, String)> = Vec::new();
    headers.push((owned("Content-Type"), owned("application/json")));
    if chars_of(provider.api_key.as_str()).len() > 0 {
        let mut buf: Vec<char> = Vec::new();
        push_str(&mut buf, "Bearer ");
        push_str(&mut buf, provider.api_key.as_str());
        headers.push((owned("Authorization"), string_from_chars(buf.as_slice())));
    }
    let ghost keyed = pairs_view(headers@);
    proof {
        let base = seq![("Content-Type"@, "application/json"@)];
        if provider.api_key@.len() > 0 {
            assert(keyed =~= base.push(("Authorization"@, "Bearer "@ + provider.api_key@)));
        } else {
            assert(keyed =~= base);
        }
    }
    set_headers(&mut headers, &provider.headers);
    headers
}

} // verus!
