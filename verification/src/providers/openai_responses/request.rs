//! OpenAI Responses requests.

use crate::domain::definition::ModelModality;
use crate::domain::error::{ErrorCategory, ProxyError};
use crate::domain::provider::{extra_view, pairs_view, Provider};
use crate::domain::reasoning::{level_debug, levels_get, spec_level_debug, Mapping, ReasoningMapping};
use crate::domain::request::{
    input_modality_for_mime_type, messages_view, spec_input_modality, tools_view, Block, Message, MessageRole,
    NeutralChatRequest, NeutralContentBlock, NeutralMessage, NeutralTool, ToolDecl,
};
use crate::domain::route::ResolvedRoute;
use crate::json::{
    entries_get, entries_lookup, entries_view, items_view, jobj1, jobj2, jobj3, juint, object1, object2, object3,
    push_entry, push_item, remove_entry, remove_member, set_entry, set_member, str_value, uint_value, Json, JsonValue,
};
use crate::providers::gemini::request::{count_json, number_json, opt_member, set_members};
use crate::providers::openai::request::{mapping_debug, openai_headers, openai_role};
use crate::providers::schema::{norm_schema, normalized_schema};
use crate::text::{chars_of, debug_quoted, lower, push_decimal, push_str, string_from_chars, to_lower, trim, trim_chars};
use vstd::prelude::*;

verus! {

/// Inline images the Responses API takes: any image MIME type.
pub open spec fn is_inline_image(m: Seq<char>) -> bool {
    spec_input_modality(m) == ModelModality::Image
}

/// Inline documents the Responses API takes: PDF.
pub open spec fn is_inline_document(m: Seq<char>) -> bool {
    lower(trim(m)) == "application/pdf"@
}

/// The content part of a block, where it has one; unsupported inline data
/// is an error.
pub open spec fn content_item(role: MessageRole, b: Block) -> Option<Json> {
    match b {
        Block::Text(t) => Some(
            jobj2(
                "type"@,
                Json::Str(
                    if role == MessageRole::Assistant {
                        "output_text"@
                    } else {
                        "input_text"@
                    },
                ),
                "text"@,
                Json::Str(t),
            ),
        ),
        Block::InlineData { mime_type, data_base64 } => if is_inline_image(mime_type) {
            Some(jobj2("type"@, Json::Str("input_image"@), "image_url"@, Json::Str("data:"@ + mime_type + ";base64,"@ + data_base64)))
        } else if is_inline_document(mime_type) {
            Some(jobj3("type"@, Json::Str("input_file"@), "filename"@, Json::Str("input.pdf"@), "file_data"@, Json::Str(data_base64)))
        } else {
            None
        },
        _ => None,
    }
}

pub open spec fn call_item(b: Block) -> Option<Json> {
    match b {
        Block::ToolCall { id, name, arguments_json } => Some(
            Json::Object(
                seq![
                    ("type"@, Json::Str("function_call"@)),
                    ("call_id"@, Json::Str(id)),
                    ("name"@, Json::Str(name)),
                    ("arguments"@, Json::Str(arguments_json)),
                ],
            ),
        ),
        _ => None,
    }
}

pub open spec fn output_item(b: Block) -> Option<Json> {
    match b {
        Block::ToolResult { tool_call_id, content, .. } => Some(
            jobj3("type"@, Json::Str("function_call_output"@), "call_id"@, Json::Str(tool_call_id), "output"@, Json::Str(content)),
        ),
        _ => None,
    }
}

pub open spec fn collect_content(role: MessageRole, bs: Seq<Block>) -> Seq<Json>
    decreases bs.len(),
{
    if bs.len() == 0 {
        seq![]
    } else {
        let p = collect_content(role, bs.drop_last());
        match content_item(role, bs.last()) {
            Some(j) => p.push(j),
            None => p,
        }
    }
}

pub open spec fn collect_calls(bs: Seq<Block>) -> Seq<Json>
    decreases bs.len(),
{
    if bs.len() == 0 {
        seq![]
    } else {
        let p = collect_calls(bs.drop_last());
        match call_item(bs.last()) {
            Some(j) => p.push(j),
            None => p,
        }
    }
}

pub open spec fn collect_outputs(bs: Seq<Block>) -> Seq<Json>
    decreases bs.len(),
{
    if bs.len() == 0 {
        seq![]
    } else {
        let p = collect_outputs(bs.drop_last());
        match output_item(bs.last()) {
            Some(j) => p.push(j),
            None => p,
        }
    }
}

/// The MIME type of the first inline block the Responses API cannot take.
pub open spec fn unsupported_inline(bs: Seq<Block>) -> Option<Seq<char>>
    decreases bs.len(),
{
    if bs.len() == 0 {
        None
    } else if unsupported_inline(bs.drop_last()) is Some {
        unsupported_inline(bs.drop_last())
    } else {
        match bs.last() {
            Block::InlineData { mime_type, .. } => if !is_inline_image(mime_type) && !is_inline_document(mime_type) {
                Some(mime_type)
            } else {
                None
            },
            _ => None,
        }
    }
}

/// The input items a message becomes: a message item with its content
/// parts (where it has any), then its function calls, then its function
/// outputs; private thinking is not replayed.
pub open spec fn responses_items(m: Message) -> Result<Seq<Json>, Seq<char>> {
    match unsupported_inline(m.blocks) {
        Some(mime) => Err("OpenAI Responses does not support inline "@ + mime + " content"@),
        None => {
            let content = collect_content(m.role, m.blocks);
            Ok(
                (if content.len() > 0 {
                    seq![jobj2("role"@, Json::Str(openai_role(m.role)), "content"@, Json::Array(content))]
                } else {
                    seq![]
                }) + collect_calls(m.blocks) + collect_outputs(m.blocks),
            )
        },
    }
}

pub open spec fn all_items(ms: Seq<Message>) -> Result<Seq<Json>, Seq<char>>
    decreases ms.len(),
{
    if ms.len() == 0 {
        Ok(seq![])
    } else {
        match all_items(ms.drop_last()) {
            Err(m) => Err(m),
            Ok(items) => match responses_items(ms.last()) {
                Err(m) => Err(m),
                Ok(more) => Ok(items + more),
            },
        }
    }
}

pub open spec fn responses_tool(t: ToolDecl) -> Json {
    Json::Object(
        seq![
            ("type"@, Json::Str("function"@)),
            ("name"@, Json::Str(t.name)),
            (
                "description"@,
                match t.description {
                    Some(d) => Json::Str(d),
                    None => Json::Null,
                },
            ),
            ("parameters"@, norm_schema(t.parameters)),
        ],
    )
}

pub open spec fn responses_base(route: ResolvedRoute, request: NeutralChatRequest, input: Seq<Json>) -> Seq<(Seq<char>, Json)> {
    let p = route.final_parameters;
    seq![
        ("model"@, Json::Str(route.upstream_model.upstream_model_id@)),
        ("input"@, Json::Array(input)),
        ("stream"@, Json::Bool(request.stream)),
    ] + opt_member(
        "instructions"@,
        match request.system_instruction {
            Some(s) => Some(Json::Str(s@)),
            None => None,
        },
    ) + (if request.tools@.len() > 0 {
        seq![("tools"@, Json::Array(tools_view(request.tools@).map_values(|t: ToolDecl| responses_tool(t))))]
    } else {
        seq![]
    }) + opt_member("temperature"@, number_json(p.temperature)) + opt_member(
        "max_output_tokens"@,
        count_json(p.max_tokens),
    ) + opt_member("top_p"@, number_json(p.top_p))
}

pub open spec fn responses_reasoning(entries: Seq<(Seq<char>, Json)>, route: ResolvedRoute) -> Result<Seq<(Seq<char>, Json)>, Seq<char>> {
    match route.final_reasoning_level {
        None => Ok(entries),
        Some(level) => match levels_get(route.upstream_model.capabilities.reasoning.levels@, level) {
            None => Err("No reasoning mapping configured for OpenAI Responses level "@ + spec_level_debug(level)),
            Some(Mapping::Effort(e)) => Ok(
                match entries_get(entries, "reasoning"@) {
                    Some(Json::Object(r)) => set_member(entries, "reasoning"@, Json::Object(set_member(r, "effort"@, Json::Str(e)))),
                    _ => set_member(entries, "reasoning"@, jobj1("effort"@, Json::Str(e))),
                },
            ),
            Some(Mapping::Disabled) => Ok(remove_member(entries, "reasoning"@)),
            Some(m) => Err("OpenAI Responses does not support reasoning mapping: "@ + mapping_debug(m)),
        },
    }
}

/// The members of the Responses payload, or the message of the
/// `UnsupportedFeature` error.
pub open spec fn responses_payload(route: ResolvedRoute, request: NeutralChatRequest) -> Result<Seq<(Seq<char>, Json)>, Seq<char>> {
    match all_items(messages_view(request.messages@)) {
        Err(m) => Err(m),
        Ok(input) => responses_reasoning(
            set_members(responses_base(route, request, input), extra_view(route.final_parameters.extra_body)),
            route,
        ),
    }
}

fn text_value(s: &String) -> (r: JsonValue)
    ensures
        r@ == Json::Str(s@),
{
    JsonValue::Str(s.clone())
}

fn is_document(mime_type: &str) -> (r: bool)
    ensures
        r == is_inline_document(mime_type@),
{
    let c = chars_of(mime_type);
    let t = trim_chars(c.as_slice());
    let l = to_lower(t.as_slice());
    crate::text::chars_eq_str(l.as_slice(), "application/pdf")
}

/// The input items for a message; see `responses_items`.
pub fn convert_message(msg: &NeutralMessage) -> (r: Result<Vec<JsonValue>, ProxyError>)
    ensures
        match responses_items(msg@) {
            Ok(items) => (r matches Ok(v) && items_view(v@) == items),
            Err(m) => (r matches Err(e) && e.category == ErrorCategory::UnsupportedFeature && e.status_code == 400
                && e.message@ == m && e.upstream_body is None),
        },
{
    let role = msg.role;
    let ghost bv = msg@.blocks;
    let mut content: Vec<JsonValue> = Vec::new();
    let mut calls: Vec<JsonValue> = Vec::new();
    let mut outputs: Vec<JsonValue> = Vec::new();
    proof {
        assert(bv.take(0) =~= seq![]);
        assert(items_view(content@) =~= seq![]);
        assert(items_view(calls@) =~= seq![]);
        assert(items_view(outputs@) =~= seq![]);
    }
    let mut i: usize = 0;
    while i < msg.blocks.len()
        invariant
            i <= msg.blocks@.len(),
            bv == msg@.blocks,
            bv.len() == msg.blocks@.len(),
            role == msg.role,
            unsupported_inline(bv.take(i as int)) is None,
            items_view(content@) == collect_content(role, bv.take(i as int)),
            items_view(calls@) == collect_calls(bv.take(i as int)),
            items_view(outputs@) == collect_outputs(bv.take(i as int)),
        decreases msg.blocks.len() - i,
    {
        let b = &msg.blocks[i];
        proof {
            assert(bv[i as int] == b@);
            assert(bv.take(i as int + 1).drop_last() =~= bv.take(i as int));
        }
        match b {
            NeutralContentBlock::Text(t) => {
                let kind = match role {
                    MessageRole::Assistant => "output_text",
                    _ => "input_text",
                };
                push_item(&mut content, object2("type", str_value(kind), "text", text_value(t)));
            },
            NeutralContentBlock::InlineData { mime_type, data_base64 } => {
                if input_modality_for_mime_type(mime_type.as_str()) == ModelModality::Image {
                    let mut buf: Vec<char> = Vec::new();
                    push_str(&mut buf, "data:");
                    push_str(&mut buf, mime_type.as_str());
                    push_str(&mut buf, ";base64,");
                    push_str(&mut buf, data_base64.as_str());
                    let url = string_from_chars(buf.as_slice());
                    push_item(&mut content, object2("type", str_value("input_image"), "image_url", JsonValue::Str(url)));
                } else if is_document(mime_type.as_str()) {
                    push_item(
                        &mut content,
                        object3("type", str_value("input_file"), "filename", str_value("input.pdf"), "file_data", text_value(data_base64)),
                    );
                } else {
                    let mut buf: Vec<char> = Vec::new();
                    push_str(&mut buf, "OpenAI Responses does not support inline ");
                    push_str(&mut buf, mime_type.as_str());
                    push_str(&mut buf, " content");
                    let text = string_from_chars(buf.as_slice());
                    proof {
                        lemma_unsupported_stays(bv, i as int + 1);
                        assert(unsupported_inline(bv.take(i as int + 1)) == Some(mime_type@));
                    }
                    return Err(ProxyError::new(ErrorCategory::UnsupportedFeature, text.as_str(), 400));
                }
            },
            NeutralContentBlock::ToolCall { id, name, arguments_json } => {
                let mut e: Vec<(String, JsonValue)> = Vec::new();
                assert(entries_view(e@) =~= seq![]);
                push_entry(&mut e, "type", str_value("function_call"));
                push_entry(&mut e, "call_id", text_value(id));
                push_entry(&mut e, "name", text_value(name));
                push_entry(&mut e, "arguments", text_value(arguments_json));
                assert(entries_view(e@) =~= seq![
                    ("type"@, Json::Str("function_call"@)),
                    ("call_id"@, Json::Str(id@)),
                    ("name"@, Json::Str(name@)),
                    ("arguments"@, Json::Str(arguments_json@)),
                ]);
                push_item(&mut calls, JsonValue::Object(e));
            },
            NeutralContentBlock::ToolResult { tool_call_id, content: output, .. } => {
                push_item(
                    &mut outputs,
                    object3("type", str_value("function_call_output"), "call_id", text_value(tool_call_id), "output", text_value(output)),
                );
            },
            NeutralContentBlock::Thinking { .. } => {},
        }
        i += 1;
    }
    assert(bv.take(i as int) =~= bv);
    let mut items: Vec<JsonValue> = Vec::new();
    assert(items_view(items@) =~= seq![]);
    proof {
        crate::json::lemma_items_view(content@);
    }
    if content.len() > 0 {
        let r = match role {
            MessageRole::System => "system",
            MessageRole::User => "user",
            MessageRole::Assistant => "assistant",
            MessageRole::Tool => "tool",
        };
        push_item(&mut items, object2("role", str_value(r), "content", JsonValue::Array(content)));
    }
    let ghost i0 = items@;
    let ghost c0 = calls@;
    let ghost o0 = outputs@;
    items.append(&mut calls);
    items.append(&mut outputs);
    proof {
        crate::json::lemma_items_view_append(i0, c0);
        crate::json::lemma_items_view_append(i0 + c0, o0);
        assert(items@ == i0 + c0 + o0);
    }
    Ok(items)
}

fn input_items(request: &NeutralChatRequest) -> (r: Result<Vec<JsonValue>, ProxyError>)
    ensures
        match all_items(messages_view(request.messages@)) {
            Ok(items) => (r matches Ok(v) && items_view(v@) == items),
            Err(m) => (r matches Err(e) && e.category == ErrorCategory::UnsupportedFeature && e.status_code == 400
                && e.message@ == m && e.upstream_body is None),
        },
{
    let ghost mv = messages_view(request.messages@);
    let mut input: Vec<JsonValue> = Vec::new();
    assert(items_view(input@) =~= seq![]);
    assert(mv.take(0) =~= seq![]);
    let mut i: usize = 0;
    while i < request.messages.len()
        invariant
            i <= request.messages@.len(),
            mv == messages_view(request.messages@),
            mv.len() == request.messages@.len(),
            all_items(mv.take(i as int)) == Ok::<Seq<Json>, Seq<char>>(items_view(input@)),
        decreases request.messages.len() - i,
    {
        proof {
            assert(mv[i as int] == request.messages@[i as int]@);
            assert(mv.take(i as int + 1).drop_last() =~= mv.take(i as int));
        }
        let mut more = match convert_message(&request.messages[i]) {
            Ok(v) => v,
            Err(e) => {
                proof {
                    lemma_items_error_stays(mv, i as int + 1);
                }
                return Err(e);
            },
        };
        let ghost i0 = input@;
        let ghost m0 = more@;
        input.append(&mut more);
        proof {
            crate::json::lemma_items_view_append(i0, m0);
        }
        i += 1;
    }
    assert(mv.take(i as int) =~= mv);
    Ok(input)
}

fn convert_tool(tool: &NeutralTool) -> (r: JsonValue)
    ensures
        r@ == responses_tool(tool@),
{
    let description = match &tool.function.description {
        Some(d) => text_value(d),
        None => JsonValue::Null,
    };
    let mut e: Vec<(String, JsonValue)> = Vec::new();
    assert(entries_view(e@) =~= seq![]);
    push_entry(&mut e, "type", str_value("function"));
    push_entry(&mut e, "name", text_value(&tool.function.name));
    push_entry(&mut e, "description", description);
    push_entry(&mut e, "parameters", normalized_schema(&tool.function.parameters_schema));
    assert(entries_view(e@) =~= match responses_tool(tool@) {
        Json::Object(x) => x,
        _ => seq![],
    });
    JsonValue::Object(e)
}

fn base_entries(route: &ResolvedRoute, request: &NeutralChatRequest, input: Vec<JsonValue>) -> (r: Vec<(String, JsonValue)>)
    ensures
        entries_view(r@) == responses_base(*route, *request, items_view(input@)),
{
    let ghost iv = items_view(input@);
    let mut payload: Vec<(String, JsonValue)> = Vec::new();
    assert(entries_view(payload@) =~= seq![]);
    push_entry(&mut payload, "model", text_value(&route.upstream_model.upstream_model_id));
    push_entry(&mut payload, "input", JsonValue::Array(input));
    push_entry(&mut payload, "stream", JsonValue::Bool(request.stream));
    match &request.system_instruction {
        Some(s) => push_entry(&mut payload, "instructions", text_value(s)),
        None => {},
    }
    if request.tools.len() > 0 {
        let ghost tv = tools_view(request.tools@);
        let mut tools: Vec<JsonValue> = Vec::new();
        assert(items_view(tools@) =~= tv.take(0).map_values(|t: ToolDecl| responses_tool(t)));
        let mut j: usize = 0;
        while j < request.tools.len()
            invariant
                j <= request.tools@.len(),
                tv == tools_view(request.tools@),
                tv.len() == request.tools@.len(),
                items_view(tools@) == tv.take(j as int).map_values(|t: ToolDecl| responses_tool(t)),
            decreases request.tools.len() - j,
        {
            let t = convert_tool(&request.tools[j]);
            proof {
                assert(tv[j as int] == request.tools@[j as int]@);
                assert(tv.take(j as int + 1).map_values(|t: ToolDecl| responses_tool(t)) =~= tv.take(j as int).map_values(
                    |t: ToolDecl| responses_tool(t),
                ).push(responses_tool(tv[j as int])));
            }
            push_item(&mut tools, t);
            j += 1;
        }
        assert(tv.take(j as int) =~= tv);
        push_entry(&mut payload, "tools", JsonValue::Array(tools));
    }
    let p = &route.final_parameters;
    match &p.temperature {
        Some(t) => push_entry(&mut payload, "temperature", JsonValue::Number(crate::json::clone_number(t))),
        None => {},
    }
    match p.max_tokens {
        Some(m) => push_entry(&mut payload, "max_output_tokens", uint_value(m as u64)),
        None => {},
    }
    match &p.top_p {
        Some(t) => push_entry(&mut payload, "top_p", JsonValue::Number(crate::json::clone_number(t))),
        None => {},
    }
    assert(entries_view(payload@) =~= responses_base(*route, *request, iv));
    payload
}

fn apply_reasoning(payload: &mut Vec<(String, JsonValue)>, route: &ResolvedRoute) -> (r: Result<(), ProxyError>)
    ensures
        match responses_reasoning(entries_view(old(payload)@), *route) {
            Ok(e) => r is Ok && entries_view(final(payload)@) == e,
            Err(m) => (r matches Err(err) && err.category == ErrorCategory::UnsupportedFeature
                && err.status_code == 400 && err.message@ == m && err.upstream_body is None),
        },
{
    let level = match route.final_reasoning_level {
        Some(l) => l,
        None => return Ok(()),
    };
    let mapping = match route.upstream_model.capabilities.reasoning.mapping_for(level) {
        Some(m) => m,
        None => {
            let mut buf: Vec<char> = Vec::new();
            push_str(&mut buf, "No reasoning mapping configured for OpenAI Responses level ");
            push_str(&mut buf, level_debug(level));
            let text = string_from_chars(buf.as_slice());
            return Err(ProxyError::new(ErrorCategory::UnsupportedFeature, text.as_str(), 400));
        },
    };
    let mut buf: Vec<char> = Vec::new();
    push_str(&mut buf, "OpenAI Responses does not support reasoning mapping: ");
    match mapping {
        ReasoningMapping::Effort(e) => {
            let existing = match entries_lookup(payload, "reasoning") {
                Some(JsonValue::Object(r)) => Some(crate::domain::provider::clone_entries(r)),
                _ => None,
            };
            match existing {
                Some(mut r) => {
                    set_entry(&mut r, "effort", text_value(e));
                    set_entry(payload, "reasoning", JsonValue::Object(r));
                },
                None => {
                    set_entry(payload, "reasoning", object1("effort", text_value(e)));
                },
            }
            return Ok(());
        },
        ReasoningMapping::Disabled => {
            remove_entry(payload, "reasoning");
            return Ok(());
        },
        ReasoningMapping::BudgetTokens(n) => {
            push_str(&mut buf, "BudgetTokens(");
            push_decimal(&mut buf, *n as u64);
            push_str(&mut buf, ")");
        },
        ReasoningMapping::NativeLevel(l) => {
            push_str(&mut buf, "NativeLevel(");
            let q = debug_quoted(l.as_str());
            push_str(&mut buf, q.as_str());
            push_str(&mut buf, ")");
        },
        ReasoningMapping::Adaptive => {
            push_str(&mut buf, "Adaptive");
        },
    }
    let text = string_from_chars(buf.as_slice());
    Err(ProxyError::new(ErrorCategory::UnsupportedFeature, text.as_str(), 400))
}

/// The Responses payload for `request` on `route` (see `responses_payload`).
pub fn build_request_payload(route: &ResolvedRoute, request: &NeutralChatRequest) -> (r: Result<JsonValue, ProxyError>)
    ensures
        match responses_payload(*route, *request) {
            Ok(e) => (r matches Ok(v) && v@ == Json::Object(e)),
            Err(m) => (r matches Err(err) && err.category == ErrorCategory::UnsupportedFeature
                && err.status_code == 400 && err.message@ == m && err.upstream_body is None),
        },
{
    let input = match input_items(request) {
        Ok(v) => v,
        Err(e) => return Err(e),
    };
    let mut payload = base_entries(route, request, input);
    match &route.final_parameters.extra_body {
        Some(extra) => {
            let ghost base = entries_view(payload@);
            let ghost xv = entries_view(extra@);
            proof {
                crate::json::lemma_entries_view(extra@);
                assert(xv.take(0) =~= seq![]);
            }
            let mut i: usize = 0;
            while i < extra.len()
                invariant
                    i <= extra@.len(),
                    xv == entries_view(extra@),
                    xv.len() == extra@.len(),
                    forall|j: int| 0 <= j < extra@.len() ==> #[trigger] xv[j] == (extra@[j].0@, extra@[j].1@),
                    entries_view(payload@) == set_members(base, xv.take(i as int)),
                decreases extra.len() - i,
            {
                let v = extra[i].1.deep_clone();
                set_entry(&mut payload, extra[i].0.as_str(), v);
                assert(xv.take(i as int + 1).drop_last() =~= xv.take(i as int));
                i += 1;
            }
            assert(xv.take(i as int) =~= xv);
        },
        None => {},
    }
    match apply_reasoning(&mut payload, route) {
        Ok(()) => Ok(JsonValue::Object(payload)),
        Err(e) => Err(e),
    }
}

/// The request headers for a Responses provider (the same as for Chat
/// Completions).
pub fn build_headers(provider: &Provider) -> (r: Vec<(String, String)>)
    ensures
        pairs_view(r@) == openai_headers(*provider),
{
    crate::providers::openai::request::build_headers(provider)
}

proof fn lemma_items_error_stays(ms: Seq<Message>, n: int)
    requires
        0 <= n <= ms.len(),
        all_items(ms.take(n)) is Err,
    ensures
        all_items(ms) == all_items(ms.take(n)),
    decreases ms.len() - n,
{
    if n < ms.len() {
        assert(ms.take(n + 1).drop_last() =~= ms.take(n));
        lemma_items_error_stays(ms, n + 1);
    } else {
        assert(ms.take(n) =~= ms);
    }
}

proof fn lemma_unsupported_stays(bs: Seq<Block>, n: int)
    requires
        0 <= n <= bs.len(),
        unsupported_inline(bs.take(n)) is Some,
    ensures
        unsupported_inline(bs) == unsupported_inline(bs.take(n)),
    decreases bs.len() - n,
{
    if n < bs.len() {
        assert(bs.take(n + 1).drop_last() =~= bs.take(n));
        lemma_unsupported_stays(bs, n + 1);
    } else {
        assert(bs.take(n) =~= bs);
    }
}

} // verus!
