//! Gemini `generateContent` requests.

use crate::domain::error::{ErrorCategory, ProxyError};
use crate::domain::provider::{extra_view, pairs_view, set_headers, set_pairs, ParameterOverrides, Provider};
use crate::domain::reasoning::{level_debug, levels_get, spec_level_debug, Mapping, ReasoningMapping};
use crate::domain::request::{
    messages_view, tools_view, Block, Message, MessageRole, NeutralChatRequest, NeutralContentBlock,
    NeutralMessage, NeutralTool, ToolDecl,
};
use crate::domain::route::ResolvedRoute;
use crate::json::{
    entries_get, entries_lookup, entries_view, items_view, jobj1, jobj2, jobj3, json_parse_result, juint,
    num_view, object1, object2, object3, parse_json, push_entry, push_item, remove_entry, remove_member,
    set_entry, set_member, str_value, uint_value, clone_number, Json, JsonNumber, JsonValue,
};
use crate::text::{debug_quoted, debug_str, owned, push_str, string_from_chars, strip_suffix};
use crate::domain::definition::UpstreamModel;
use crate::url::{
    pairs_view as url_pairs_view, parse_route, replace_all, replace_str, set_url_path_and_pairs,
    set_url_path_without_query, url_route, url_with_path_and_pairs, url_with_path_no_query,
};
use vstd::prelude::*;

verus! {

/// The Gemini role of a message: assistant turns are `model`, every other
/// turn (tool results included) is `user`.
pub open spec fn gemini_role(role: MessageRole) -> Seq<char> {
    match role {
        MessageRole::Assistant => "model"@,
        _ => "user"@,
    }
}

/// The document `text` parses to, or `fallback` where it is not JSON.
pub open spec fn parsed_or(text: Seq<char>, fallback: Json) -> Json {
    match json_parse_result(text) {
        Ok(v) => v,
        Err(_) => fallback,
    }
}

/// The Gemini part a content block becomes.
pub open spec fn gemini_part(b: Block) -> Json {
    match b {
        Block::Text(t) => jobj1("text"@, Json::Str(t)),
        Block::InlineData { mime_type, data_base64 } => jobj1(
            "inlineData"@,
            jobj2("mimeType"@, Json::Str(mime_type), "data"@, Json::Str(data_base64)),
        ),
        Block::ToolCall { id, name, arguments_json } => jobj1(
            "functionCall"@,
            jobj3(
                "id"@,
                Json::Str(id),
                "name"@,
                Json::Str(name),
                "args"@,
                parsed_or(arguments_json, Json::Object(seq![])),
            ),
        ),
        Block::ToolResult { tool_call_id, name, content } => jobj1(
            "functionResponse"@,
            jobj3(
                "id"@,
                Json::Str(tool_call_id),
                "name"@,
                Json::Str(
                    match name {
                        Some(n) => n,
                        None => tool_call_id,
                    },
                ),
                "response"@,
                parsed_or(content, jobj1("result"@, Json::Str(content))),
            ),
        ),
        Block::Thinking { text, signature } => match signature {
            Some(s) => jobj3(
                "thought"@,
                Json::Bool(true),
                "text"@,
                Json::Str(text),
                "thoughtSignature"@,
                Json::Str(s),
            ),
            None => jobj2("thought"@, Json::Bool(true), "text"@, Json::Str(text)),
        },
    }
}

pub open spec fn gemini_parts(blocks: Seq<Block>) -> Seq<Json> {
    blocks.map_values(|b: Block| gemini_part(b))
}

/// The Gemini `contents` entry a message becomes.
pub open spec fn gemini_content(m: Message) -> Json {
    jobj2("role"@, Json::Str(gemini_role(m.role)), "parts"@, Json::Array(gemini_parts(m.blocks)))
}

/// The function declaration a tool becomes.
pub open spec fn gemini_tool(t: ToolDecl) -> Json {
    jobj3(
        "name"@,
        Json::Str(t.name),
        "description"@,
        match t.description {
            Some(d) => Json::Str(d),
            None => Json::Null,
        },
        "parameters"@,
        t.parameters,
    )
}

/// A one-member list where a value is present.
pub open spec fn opt_member(key: Seq<char>, v: Option<Json>) -> Seq<(Seq<char>, Json)> {
    match v {
        Some(j) => seq![(key, j)],
        None => seq![],
    }
}

pub open spec fn number_json(n: Option<JsonNumber>) -> Option<Json> {
    match n {
        Some(x) => Some(Json::Number(num_view(x))),
        None => None,
    }
}

pub open spec fn count_json(n: Option<u32>) -> Option<Json> {
    match n {
        Some(x) => Some(juint(x as int)),
        None => None,
    }
}

/// The `generationConfig` members set by the generation parameters.
pub open spec fn generation_config(p: ParameterOverrides) -> Seq<(Seq<char>, Json)> {
    opt_member("temperature"@, number_json(p.temperature)) + opt_member(
        "maxOutputTokens"@,
        count_json(p.max_tokens),
    ) + opt_member("topP"@, number_json(p.top_p)) + opt_member("topK"@, count_json(p.top_k))
}

/// The payload members built from the request, before extra members and
/// reasoning are applied.
pub open spec fn base_payload(request: NeutralChatRequest, params: ParameterOverrides) -> Seq<(Seq<char>, Json)> {
    let contents = Json::Array(messages_view(request.messages@).map_values(|m: Message| gemini_content(m)));
    let system = match request.system_instruction {
        Some(s) => Some(jobj1("parts"@, Json::Array(seq![jobj1("text"@, Json::Str(s@))]))),
        None => None,
    };
    let tools = if request.tools@.len() > 0 {
        Some(
            Json::Array(
                seq![
                    jobj1(
                        "functionDeclarations"@,
                        Json::Array(tools_view(request.tools@).map_values(|t: ToolDecl| gemini_tool(t))),
                    ),
                ],
            ),
        )
    } else {
        None
    };
    let generation = generation_config(params);
    seq![("contents"@, contents)] + opt_member("systemInstruction"@, system) + opt_member("tools"@, tools)
        + opt_member(
        "generationConfig"@,
        if generation.len() > 0 {
            Some(Json::Object(generation))
        } else {
            None
        },
    )
}

/// `entries` with each of `extra`, in order, set on it.
pub open spec fn set_members(entries: Seq<(Seq<char>, Json)>, extra: Seq<(Seq<char>, Json)>) -> Seq<(Seq<char>, Json)>
    decreases extra.len(),
{
    if extra.len() == 0 {
        entries
    } else {
        let e = set_members(entries, extra.drop_last());
        set_member(e, extra.last().0, extra.last().1)
    }
}

/// The `thinkingConfig` member a reasoning mapping sets, where Gemini has one.
pub open spec fn thinking_member(m: Mapping) -> Option<(Seq<char>, Json)> {
    match m {
        Mapping::Disabled => Some(("thinkingBudget"@, juint(0))),
        Mapping::BudgetTokens(t) => Some(("thinkingBudget"@, juint(t as int))),
        Mapping::NativeLevel(l) => Some(("thinkingLevel"@, Json::Str(l))),
        _ => None,
    }
}

/// The members of an object value; none for anything else.
pub open spec fn object_entries(v: Option<Json>) -> Seq<(Seq<char>, Json)> {
    match v {
        Some(Json::Object(e)) => e,
        _ => seq![],
    }
}

/// `entries` with `generationConfig.thinkingConfig.<field>` set to `value`
/// and the other thinking member removed; a missing or non-object
/// `generationConfig` or `thinkingConfig` starts empty.
pub open spec fn with_thinking(entries: Seq<(Seq<char>, Json)>, field: Seq<char>, value: Json) -> Seq<(Seq<char>, Json)> {
    let generation = object_entries(entries_get(entries, "generationConfig"@));
    let thinking = object_entries(entries_get(generation, "thinkingConfig"@));
    let other = if field == "thinkingBudget"@ {
        "thinkingLevel"@
    } else {
        "thinkingBudget"@
    };
    let thinking2 = set_member(remove_member(thinking, other), field, value);
    set_member(
        entries,
        "generationConfig"@,
        Json::Object(set_member(generation, "thinkingConfig"@, Json::Object(thinking2))),
    )
}

/// The payload members after the route's reasoning level is applied, or the
/// message of the `UnsupportedFeature` error the level raises.
pub open spec fn gemini_reasoning(entries: Seq<(Seq<char>, Json)>, route: ResolvedRoute) -> Result<Seq<(Seq<char>, Json)>, Seq<char>> {
    match route.final_reasoning_level {
        None => Ok(entries),
        Some(level) => match levels_get(route.upstream_model.capabilities.reasoning.levels@, level) {
            None => Err("No reasoning mapping configured for Gemini level "@ + spec_level_debug(level)),
            Some(m) => match thinking_member(m) {
                Some(member) => Ok(with_thinking(entries, member.0, member.1)),
                None => Err(
                    "Gemini does not support reasoning mapping "@ + match m {
                        Mapping::Effort(e) => "Effort("@ + debug_str(e) + ")"@,
                        _ => "Adaptive"@,
                    },
                ),
            },
        },
    }
}

/// The members of the Gemini payload for `request` on `route`, or the
/// message of the error.
pub open spec fn gemini_payload(route: ResolvedRoute, request: NeutralChatRequest) -> Result<Seq<(Seq<char>, Json)>, Seq<char>> {
    let params = route.final_parameters;
    gemini_reasoning(set_members(base_payload(request, params), extra_view(params.extra_body)), route)
}

fn text_value(s: &String) -> (r: JsonValue)
    ensures
        r@ == Json::Str(s@),
{
    JsonValue::Str(s.clone())
}

fn parsed_or_value(text: &str, fallback: JsonValue) -> (r: JsonValue)
    ensures
        r@ == parsed_or(text@, fallback@),
{
    match parse_json(text) {
        Ok(v) => v,
        Err(_) => fallback,
    }
}

fn convert_part(block: &NeutralContentBlock) -> (r: JsonValue)
    ensures
        r@ == gemini_part(block@),
{
    match block {
        NeutralContentBlock::Text(t) => object1("text", text_value(t)),
        NeutralContentBlock::InlineData { mime_type, data_base64 } => object1(
            "inlineData",
            object2("mimeType", text_value(mime_type), "data", text_value(data_base64)),
        ),
        NeutralContentBlock::ToolCall { id, name, arguments_json } => {
            let empty: Vec<(String, JsonValue)> = Vec::new();
            proof {
                assert(entries_view(empty@) =~= seq![]);
            }
            let args = parsed_or_value(arguments_json.as_str(), JsonValue::Object(empty));
            object1("functionCall", object3("id", text_value(id), "name", text_value(name), "args", args))
        },
        NeutralContentBlock::ToolResult { tool_call_id, name, content } => {
            let n = match name {
                Some(n) => text_value(n),
                None => text_value(tool_call_id),
            };
            let fallback = object1("result", text_value(content));
            let response = parsed_or_value(content.as_str(), fallback);
            object1("functionResponse", object3("id", text_value(tool_call_id), "name", n, "response", response))
        },
        NeutralContentBlock::Thinking { text, signature } => match signature {
            Some(s) => object3("thought", JsonValue::Bool(true), "text", text_value(text), "thoughtSignature", text_value(s)),
            None => object2("thought", JsonValue::Bool(true), "text", text_value(text)),
        },
    }
}

/// The Gemini `contents` entry for a message.
pub fn convert_message(msg: &NeutralMessage) -> (r: JsonValue)
    ensures
        r@ == gemini_content(msg@),
{
    let role = match msg.role {
        MessageRole::Assistant => "model",
        _ => "user",
    };
    let mut parts: Vec<JsonValue> = Vec::new();
    let ghost bv = msg@.blocks;
    proof {
        assert(items_view(parts@) =~= gemini_parts(bv.take(0)));
    }
    let mut i: usize = 0;
    while i < msg.blocks.len()
        invariant
            i <= msg.blocks@.len(),
            bv == msg@.blocks,
            bv.len() == msg.blocks@.len(),
            items_view(parts@) == gemini_parts(bv.take(i as int)),
        decreases msg.blocks.len() - i,
    {
        let p = convert_part(&msg.blocks[i]);
        proof {
            assert(bv[i as int] == msg.blocks@[i as int]@);
        }
        push_item(&mut parts, p);
        assert(gemini_parts(bv.take(i as int + 1)) =~= gemini_parts(bv.take(i as int)).push(
            gemini_part(bv[i as int]),
        ));
        i += 1;
    }
    assert(bv.take(i as int) =~= bv);
    object2("role", str_value(role), "parts", JsonValue::Array(parts))
}

fn convert_tool(tool: &NeutralTool) -> (r: JsonValue)
    ensures
        r@ == gemini_tool(tool@),
{
    let description = match &tool.function.description {
        Some(d) => text_value(d),
        None => JsonValue::Null,
    };
    object3(
        "name",
        text_value(&tool.function.name),
        "description",
        description,
        "parameters",
        tool.function.parameters_schema.deep_clone(),
    )
}

fn push_number(entries: &mut Vec<(String, JsonValue)>, key: &str, n: &Option<JsonNumber>)
    ensures
        entries_view(final(entries)@) == entries_view(old(entries)@) + opt_member(key@, number_json(*n)),
{
    match n {
        Some(x) => push_entry(entries, key, JsonValue::Number(clone_number(x))),
        None => {},
    }
    assert(entries_view(final(entries)@) =~= entries_view(old(entries)@) + opt_member(key@, number_json(*n)));
}

fn push_count(entries: &mut Vec<(String, JsonValue)>, key: &str, n: Option<u32>)
    ensures
        entries_view(final(entries)@) == entries_view(old(entries)@) + opt_member(key@, count_json(n)),
{
    match n {
        Some(x) => push_entry(entries, key, uint_value(x as u64)),
        None => {},
    }
    assert(entries_view(final(entries)@) =~= entries_view(old(entries)@) + opt_member(key@, count_json(n)));
}

fn generation_entries(p: &ParameterOverrides) -> (r: Vec<(String, JsonValue)>)
    ensures
        entries_view(r@) == generation_config(*p),
{
    let mut e: Vec<(String, JsonValue)> = Vec::new();
    assert(entries_view(e@) =~= seq![]);
    push_number(&mut e, "temperature", &p.temperature);
    push_count(&mut e, "maxOutputTokens", p.max_tokens);
    push_number(&mut e, "topP", &p.top_p);
    push_count(&mut e, "topK", p.top_k);
    assert(entries_view(e@) =~= generation_config(*p));
    e
}

fn base_entries(request: &NeutralChatRequest, params: &ParameterOverrides) -> (r: Vec<(String, JsonValue)>)
    ensures
        entries_view(r@) == base_payload(*request, *params),
{
    let ghost mv = messages_view(request.messages@);
    let mut contents: Vec<JsonValue> = Vec::new();
    proof {
        assert(items_view(contents@) =~= mv.take(0).map_values(|m: Message| gemini_content(m)));
    }
    let mut i: usize = 0;
    while i < request.messages.len()
        invariant
            i <= request.messages@.len(),
            mv == messages_view(request.messages@),
            mv.len() == request.messages@.len(),
            items_view(contents@) == mv.take(i as int).map_values(|m: Message| gemini_content(m)),
        decreases request.messages.len() - i,
    {
        let c = convert_message(&request.messages[i]);
        proof {
            assert(mv[i as int] == request.messages@[i as int]@);
        }
        push_item(&mut contents, c);
        assert(mv.take(i as int + 1).map_values(|m: Message| gemini_content(m)) =~= mv.take(i as int).map_values(
            |m: Message| gemini_content(m),
        ).push(gemini_content(mv[i as int])));
        i += 1;
    }
    assert(mv.take(i as int) =~= mv);
    let mut payload: Vec<(String, JsonValue)> = Vec::new();
    assert(entries_view(payload@) =~= seq![]);
    push_entry(&mut payload, "contents", JsonValue::Array(contents));
    let ghost after_contents = entries_view(payload@);
    match &request.system_instruction {
        Some(sys) => {
            let text = object1("text", text_value(sys));
            let mut items: Vec<JsonValue> = Vec::new();
            assert(items_view(items@) =~= seq![]);
            push_item(&mut items, text);
            assert(items_view(items@) =~= seq![jobj1("text"@, Json::Str(sys@))]);
            push_entry(&mut payload, "systemInstruction", object1("parts", JsonValue::Array(items)));
        },
        None => {},
    }
    let ghost after_system = entries_view(payload@);
    assert(after_system =~= after_contents + opt_member(
        "systemInstruction"@,
        match request.system_instruction {
            Some(s) => Some(jobj1("parts"@, Json::Array(seq![jobj1("text"@, Json::Str(s@))]))),
            None => None,
        },
    ));
    if request.tools.len() > 0 {
        let ghost tv = tools_view(request.tools@);
        let mut decls: Vec<JsonValue> = Vec::new();
        proof {
            assert(items_view(decls@) =~= tv.take(0).map_values(|t: ToolDecl| gemini_tool(t)));
        }
        let mut j: usize = 0;
        while j < request.tools.len()
            invariant
                j <= request.tools@.len(),
                tv == tools_view(request.tools@),
                tv.len() == request.tools@.len(),
                items_view(decls@) == tv.take(j as int).map_values(|t: ToolDecl| gemini_tool(t)),
            decreases request.tools.len() - j,
        {
            let d = convert_tool(&request.tools[j]);
            proof {
                assert(tv[j as int] == request.tools@[j as int]@);
            }
            push_item(&mut decls, d);
            assert(tv.take(j as int + 1).map_values(|t: ToolDecl| gemini_tool(t)) =~= tv.take(j as int).map_values(
                |t: ToolDecl| gemini_tool(t),
            ).push(gemini_tool(tv[j as int])));
            j += 1;
        }
        assert(tv.take(j as int) =~= tv);
        let decl_obj = object1("functionDeclarations", JsonValue::Array(decls));
        let mut items: Vec<JsonValue> = Vec::new();
        assert(items_view(items@) =~= seq![]);
        let ghost dv = decl_obj@;
        push_item(&mut items, decl_obj);
        assert(items_view(items@) =~= seq![dv]);
        push_entry(&mut payload, "tools", JsonValue::Array(items));
    }
    let ghost after_tools = entries_view(payload@);
    let generation = generation_entries(params);
    if generation.len() > 0 {
        push_entry(&mut payload, "generationConfig", JsonValue::Object(generation));
    } else {
        proof {
            crate::json::lemma_entries_view(generation@);
        }
    }
    assert(entries_view(payload@) =~= base_payload(*request, *params));
    payload
}

/// Applies the route's reasoning level to the payload members.
fn write_reasoning(entries: &mut Vec<(String, JsonValue)>, route: &ResolvedRoute) -> (r: Result<(), ProxyError>)
    ensures
        match gemini_reasoning(entries_view(old(entries)@), *route) {
            Ok(e) => r is Ok && entries_view(final(entries)@) == e,
            Err(m) => (r matches Err(err) && err.category == ErrorCategory::UnsupportedFeature
                && err.status_code == 400 && err.message@ == m && err.upstream_body is None),
        },
{
    let level = match route.final_reasoning_level {
        Some(l) => l,
        None => return Ok(()),
    };
    let mapping = match route.upstream_model.capabilities.reasoning.mapping_for(level) {
        Some(m) => m,
        None => {
            let mut buf: Vec<char> = Vec::new();
            push_str(&mut buf, "No reasoning mapping configured for Gemini level ");
            push_str(&mut buf, level_debug(level));
            let text = string_from_chars(buf.as_slice());
            return Err(ProxyError::new(ErrorCategory::UnsupportedFeature, text.as_str(), 400));
        },
    };
    let (field, value) = match mapping {
        ReasoningMapping::Disabled => ("thinkingBudget", uint_value(0)),
        ReasoningMapping::BudgetTokens(t) => ("thinkingBudget", uint_value(*t as u64)),
        ReasoningMapping::NativeLevel(l) => ("thinkingLevel", text_value(l)),
        ReasoningMapping::Effort(e) => {
            let mut buf: Vec<char> = Vec::new();
            push_str(&mut buf, "Gemini does not support reasoning mapping Effort(");
            let q = debug_quoted(e.as_str());
            push_str(&mut buf, q.as_str());
            push_str(&mut buf, ")");
            let text = string_from_chars(buf.as_slice());
            proof {
                reveal_strlit("Gemini does not support reasoning mapping Effort(");
                reveal_strlit("Gemini does not support reasoning mapping ");
                reveal_strlit("Effort(");
                assert("Gemini does not support reasoning mapping Effort("@ =~= "Gemini does not support reasoning mapping "@
                    + "Effort("@);
                assert(text@ =~= "Gemini does not support reasoning mapping "@ + ("Effort("@ + debug_str(e@) + ")"@));
            }
            return Err(ProxyError::new(ErrorCategory::UnsupportedFeature, text.as_str(), 400));
        },
        ReasoningMapping::Adaptive => {
            proof {
                reveal_strlit("Gemini does not support reasoning mapping Adaptive");
                reveal_strlit("Gemini does not support reasoning mapping ");
                reveal_strlit("Adaptive");
                assert("Gemini does not support reasoning mapping Adaptive"@ =~= "Gemini does not support reasoning mapping "@
                    + "Adaptive"@);
            }
            return Err(
                ProxyError::new(
                    ErrorCategory::UnsupportedFeature,
                    "Gemini does not support reasoning mapping Adaptive",
                    400,
                ),
            );
        },
    };
    let mut generation: Vec<(String, JsonValue)> = match entries_lookup(entries, "generationConfig") {
        Some(JsonValue::Object(e)) => crate::domain::provider::clone_entries(e),
        _ => Vec::new(),
    };
    let mut thinking: Vec<(String, JsonValue)> = match entries_lookup(&generation, "thinkingConfig") {
        Some(JsonValue::Object(e)) => crate::domain::provider::clone_entries(e),
        _ => Vec::new(),
    };
    if crate::text::str_eq(field, "thinkingBudget") {
        remove_entry(&mut thinking, "thinkingLevel");
    } else {
        remove_entry(&mut thinking, "thinkingBudget");
    }
    set_entry(&mut thinking, field, value);
    set_entry(&mut generation, "thinkingConfig", JsonValue::Object(thinking));
    set_entry(entries, "generationConfig", JsonValue::Object(generation));
    Ok(())
}

/// The Gemini payload for `request` on `route` (see `gemini_payload`).
pub fn build_request_payload(route: &ResolvedRoute, request: &NeutralChatRequest) -> (r: Result<JsonValue, ProxyError>)
    ensures
        match gemini_payload(*route, *request) {
            Ok(e) => (r matches Ok(v) && v@ == Json::Object(e)),
            Err(m) => (r matches Err(err) && err.category == ErrorCategory::UnsupportedFeature
                && err.status_code == 400 && err.message@ == m && err.upstream_body is None),
        },
{
    let params = &route.final_parameters;
    let mut payload = base_entries(request, params);
    match &params.extra_body {
        Some(extra) => {
            let ghost base = entries_view(payload@);
            let ghost xv = entries_view(extra@);
            proof {
                crate::json::lemma_entries_view(extra@);
                assert(xv.take(0) =~= seq![]);
            }
            let mut i: usize = 0;
            while i < extra.len()
                invariant
                    i <= extra@.len(),
                    xv == entries_view(extra@),
                    xv.len() == extra@.len(),
                    forall|j: int| 0 <= j < extra@.len() ==> #[trigger] xv[j] == (extra@[j].0@, extra@[j].1@),
                    entries_view(payload@) == set_members(base, xv.take(i as int)),
                decreases extra.len() - i,
            {
                let v = extra[i].1.deep_clone();
                set_entry(&mut payload, extra[i].0.as_str(), v);
                assert(xv.take(i as int + 1).drop_last() =~= xv.take(i as int));
                i += 1;
            }
            assert(xv.take(i as int) =~= xv);
        },
        None => {},
    }
    match write_reasoning(&mut payload, route) {
        Ok(()) => Ok(JsonValue::Object(payload)),
        Err(e) => Err(e),
    }
}

/// The request headers for a Gemini provider: JSON content, the API key
/// where one is set, then the provider's own headers, each replacing an
/// earlier header of the same name.
pub open spec fn gemini_headers(p: Provider) -> Seq<(Seq<char>, Seq<char>)> {
    let base = seq![("Content-Type"@, "application/json"@)];
    let keyed = if p.api_key@.len() > 0 {
        base.push(("x-goog-api-key"@, p.api_key@))
    } else {
        base
    };
    set_pairs(keyed, pairs_view(p.headers@))
}

pub fn build_headers(provider: &Provider) -> (r: Vec<(String, String)>)
    ensures
        pairs_view(r@) == gemini_headers(*provider),
{
    let mut headers: Vec<(String, String)> = Vec::new();
    headers.push((owned("Content-Type"), owned("application/json")));
    if crate::text::chars_of(provider.api_key.as_str()).len() > 0 {
        headers.push((owned("x-goog-api-key"), provider.api_key.clone()));
    }
    let ghost keyed = pairs_view(headers@);
    proof {
        let base = seq![("Content-Type"@, "application/json"@)];
        if provider.api_key@.len() > 0 {
            assert(keyed =~= base.push(("x-goog-api-key"@, provider.api_key@)));
        } else {
            assert(keyed =~= base);
        }
    }
    set_headers(&mut headers, &provider.headers);
    headers
}


/// The `generateContent` path for the wanted mode: a `:generateContent`
/// suffix becomes `:streamGenerateContent` when streaming and back when not;
/// any other path is kept.
pub open spec fn gemini_path(path: Seq<char>, stream: bool) -> Seq<char> {
    if stream {
        match strip_suffix(path, ":generateContent"@) {
            Some(prefix) => prefix + ":streamGenerateContent"@,
            None => path,
        }
    } else {
        match strip_suffix(path, ":streamGenerateContent"@) {
            Some(prefix) => prefix + ":generateContent"@,
            None => path,
        }
    }
}

pub open spec fn alt_sse() -> (Seq<char>, Seq<char>) {
    ("alt"@, "sse"@)
}

/// Every `alt` pair set to `sse`, and `alt=sse` appended where there was none.
pub open spec fn stream_pairs(pairs: Seq<(Seq<char>, Seq<char>)>) -> Seq<(Seq<char>, Seq<char>)> {
    let set = Seq::new(
        pairs.len(),
        |i: int| if pairs[i].0 == "alt"@ { ("alt"@, "sse"@) } else { pairs[i] },
    );
    if exists|i: int| 0 <= i < pairs.len() && #[trigger] pairs[i].0 == "alt"@ {
        set
    } else {
        set.push(alt_sse())
    }
}

/// The pairs without any `alt=sse`.
pub open spec fn without_alt_sse(pairs: Seq<(Seq<char>, Seq<char>)>) -> Seq<(Seq<char>, Seq<char>)>
    decreases pairs.len(),
{
    if pairs.len() == 0 {
        pairs
    } else {
        let rest = without_alt_sse(pairs.drop_last());
        if pairs.last() == alt_sse() {
            rest
        } else {
            rest.push(pairs.last())
        }
    }
}

/// The query pairs for the wanted mode.
pub open spec fn gemini_pairs(pairs: Seq<(Seq<char>, Seq<char>)>, stream: bool) -> Seq<(Seq<char>, Seq<char>)> {
    if stream {
        stream_pairs(pairs)
    } else {
        without_alt_sse(pairs)
    }
}

/// The endpoint for the expanded endpoint text: the error text where it
/// does not parse as a URL, else the URL with the mode's path and query
/// (no query at all where no pair is left).
pub open spec fn gemini_endpoint(expanded: Seq<char>, stream: bool) -> Result<Seq<char>, Seq<char>> {
    match url_route(expanded) {
        Err(e) => Err(e),
        Ok(u) => {
            let path = gemini_path(u.path, stream);
            let pairs = gemini_pairs(u.query_pairs, stream);
            Ok(
                if pairs.len() == 0 {
                    url_with_path_no_query(expanded, path)
                } else {
                    url_with_path_and_pairs(expanded, path, pairs)
                },
            )
        },
    }
}

/// The path and query pairs of a parsed endpoint, rewritten for the wanted
/// mode (streaming or not).
pub fn gemini_endpoint_parts(path: &str, pairs: &Vec<(String, String)>, stream: bool) -> (r: (String, Vec<(String, String)>))
    ensures
        r.0@ == gemini_path(path@, stream),
        url_pairs_view(r.1@) == gemini_pairs(url_pairs_view(pairs@), stream),
{
    let pc = crate::text::chars_of(path);
    let new_path = if stream {
        match crate::text::strip_suffix_str(pc.as_slice(), ":generateContent") {
            Some(prefix) => {
                let mut buf = prefix;
                push_str(&mut buf, ":streamGenerateContent");
                string_from_chars(buf.as_slice())
            },
            None => owned(path),
        }
    } else {
        match crate::text::strip_suffix_str(pc.as_slice(), ":streamGenerateContent") {
            Some(prefix) => {
                let mut buf = prefix;
                push_str(&mut buf, ":generateContent");
                string_from_chars(buf.as_slice())
            },
            None => owned(path),
        }
    };
    let ghost pv = url_pairs_view(pairs@);
    let mut out: Vec<(String, String)> = Vec::new();
    if stream {
        let mut has_alt = false;
        let mut i: usize = 0;
        while i < pairs.len()
            invariant
                i <= pairs.len(),
                pv == url_pairs_view(pairs@),
                url_pairs_view(out@) =~= Seq::new(
                    i as nat,
                    |j: int| if pv[j].0 == "alt"@ { ("alt"@, "sse"@) } else { pv[j] },
                ),
                has_alt <==> exists|j: int| 0 <= j < i && #[trigger] pv[j].0 == "alt"@,
            decreases pairs.len() - i,
        {
            let name = &pairs[i].0;
            let ghost prev = out@;
            if crate::text::str_eq(name.as_str(), "alt") {
                out.push((owned(name.as_str()), owned("sse")));
                has_alt = true;
            } else {
                out.push((owned(name.as_str()), owned(pairs[i].1.as_str())));
            }
            assert(url_pairs_view(out@) =~= url_pairs_view(prev).push(
                if pv[i as int].0 == "alt"@ { ("alt"@, "sse"@) } else { pv[i as int] },
            ));
            assert(pv[i as int].0 == "alt"@ ==> exists|j: int| 0 <= j < i + 1 && #[trigger] pv[j].0 == "alt"@);
            i = i + 1;
        }
        if !has_alt {
            out.push((owned("alt"), owned("sse")));
        }
    } else {
        let mut i: usize = 0;
        assert(pv.take(0) =~= Seq::<(Seq<char>, Seq<char>)>::empty());
        while i < pairs.len()
            invariant
                i <= pairs.len(),
                pv == url_pairs_view(pairs@),
                url_pairs_view(out@) =~= without_alt_sse(pv.take(i as int)),
            decreases pairs.len() - i,
        {
            assert(pv.take(i + 1).drop_last() =~= pv.take(i as int));
            let drop = crate::text::str_eq(pairs[i].0.as_str(), "alt") && crate::text::str_eq(pairs[i].1.as_str(), "sse");
            if !drop {
                out.push((owned(pairs[i].0.as_str()), owned(pairs[i].1.as_str())));
            }
            i = i + 1;
        }
        assert(pv.take(pairs.len() as int) =~= pv);
    }
    (new_path, out)
}

/// The upstream URL for `upstream_model` on `provider`: `{model}` in the
/// generate endpoint becomes the upstream model id, then the path and the
/// `alt` query pair are set for the wanted mode.
pub fn build_generate_endpoint(provider: &Provider, upstream_model: &UpstreamModel, stream: bool) -> (r: Result<String, ProxyError>)
    ensures
        ({
            let expanded = replace_all(provider.generate_endpoint@, "{model}"@, upstream_model.upstream_model_id@);
            match gemini_endpoint(expanded, stream) {
                Ok(s) => r matches Ok(t) && t@ == s,
                Err(e) => r matches Err(err) && err.category == ErrorCategory::InvalidRequest
                    && err.status_code == 400 && err.message@ == "Invalid Gemini generate endpoint: "@ + e
                    && err.upstream_body is None,
            }
        }),
{
    proof {
        reveal_strlit("{model}");
    }
    let expanded = replace_str(provider.generate_endpoint.as_str(), "{model}", upstream_model.upstream_model_id.as_str());
    match parse_route(expanded.as_str()) {
        Err(e) => {
            let message = crate::text::concat2("Invalid Gemini generate endpoint: ", e.as_str());
            Err(ProxyError::new(ErrorCategory::InvalidRequest, message.as_str(), 400))
        },
        Ok(u) => {
            let (path, pairs) = gemini_endpoint_parts(u.path.as_str(), &u.query_pairs, stream);
            let built = if pairs.len() == 0 {
                set_url_path_without_query(expanded.as_str(), path.as_str())
            } else {
                set_url_path_and_pairs(expanded.as_str(), path.as_str(), &pairs)
            };
            match built {
                Some(s) => Ok(s),
                None => Err(ProxyError::new(ErrorCategory::InvalidRequest, "Invalid Gemini generate endpoint", 400)),
            }
        },
    }
}

} // verus!
