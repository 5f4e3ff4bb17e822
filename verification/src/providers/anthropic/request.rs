//! Anthropic Messages requests.

use crate::domain::definition::ModelModality;
use crate::domain::error::{ErrorCategory, ProxyError};
use crate::domain::provider::{extra_view, pairs_view, set_headers, set_pairs, Provider};
use crate::domain::reasoning::{level_debug, levels_get, spec_level_debug, Mapping, ReasoningLevel, ReasoningMapping};
use crate::domain::request::{
    input_modality_for_mime_type, messages_view, spec_input_modality, tools_view, Block, Message, MessageRole,
    NeutralChatRequest, NeutralContentBlock, NeutralMessage, NeutralTool, ToolDecl,
};
use crate::domain::route::ResolvedRoute;
use crate::domain::token_limits::{is_trusted_source, TokenLimitSource};
use crate::json::{
    entries_get, entries_lookup, entries_view, items_view, jobj1, jobj2, jobj3, juint, object1, object2, object3,
    push_entry, push_item, set_entry, set_member, str_value, uint_value, Json, JsonValue,
};
use crate::providers::gemini::request::{count_json, number_json, opt_member, parsed_or, set_members};
use crate::text::{chars_of, debug_quoted, debug_str, decimal, owned, push_decimal, push_str, string_from_chars};
use vstd::prelude::*;

verus! {

/// The output budget used where a request sets none.
pub const DEFAULT_MAX_TOKENS: u32 = 4096;

pub open spec fn anthropic_role(role: MessageRole) -> Seq<char> {
    match role {
        MessageRole::Assistant => "assistant"@,
        _ => "user"@,
    }
}

pub open spec fn media_source(mime_type: Seq<char>, data: Seq<char>) -> Json {
    jobj3("type"@, Json::Str("base64"@), "media_type"@, Json::Str(mime_type), "data"@, Json::Str(data))
}

/// The content block a neutral block becomes.
pub open spec fn anthropic_block(b: Block) -> Json {
    match b {
        Block::Text(t) => jobj2("type"@, Json::Str("text"@), "text"@, Json::Str(t)),
        Block::InlineData { mime_type, data_base64 } => jobj2(
            "type"@,
            Json::Str(
                if spec_input_modality(mime_type) == ModelModality::Image {
                    "image"@
                } else {
                    "document"@
                },
            ),
            "source"@,
            media_source(mime_type, data_base64),
        ),
        Block::ToolCall { id, name, arguments_json } => Json::Object(
            seq![
                ("type"@, Json::Str("tool_use"@)),
                ("id"@, Json::Str(id)),
                ("name"@, Json::Str(name)),
                ("input"@, parsed_or(arguments_json, Json::Object(seq![]))),
            ],
        ),
        Block::ToolResult { tool_call_id, content, .. } => jobj3(
            "type"@,
            Json::Str("tool_result"@),
            "tool_use_id"@,
            Json::Str(tool_call_id),
            "content"@,
            Json::Str(content),
        ),
        Block::Thinking { text, signature } => match signature {
            Some(s) => jobj3("type"@, Json::Str("thinking"@), "thinking"@, Json::Str(text), "signature"@, Json::Str(s)),
            None => jobj2("type"@, Json::Str("thinking"@), "thinking"@, Json::Str(text)),
        },
    }
}

pub open spec fn anthropic_message(m: Message) -> Json {
    jobj2(
        "role"@,
        Json::Str(anthropic_role(m.role)),
        "content"@,
        Json::Array(m.blocks.map_values(|b: Block| anthropic_block(b))),
    )
}

pub open spec fn anthropic_tool(t: ToolDecl) -> Json {
    jobj3(
        "name"@,
        Json::Str(t.name),
        "description"@,
        match t.description {
            Some(d) => Json::Str(d),
            None => Json::Null,
        },
        "input_schema"@,
        t.parameters,
    )
}

pub open spec fn anthropic_base(route: ResolvedRoute, request: NeutralChatRequest) -> Seq<(Seq<char>, Json)> {
    let p = route.final_parameters;
    seq![
        ("model"@, Json::Str(route.upstream_model.upstream_model_id@)),
        ("max_tokens"@, juint(
            match p.max_tokens {
                Some(m) => m as int,
                None => DEFAULT_MAX_TOKENS as int,
            },
        )),
        ("stream"@, Json::Bool(request.stream)),
    ] + opt_member(
        "system"@,
        match request.system_instruction {
            Some(s) => Some(Json::Str(s@)),
            None => None,
        },
    ) + seq![
        ("messages"@, Json::Array(messages_view(request.messages@).map_values(|m: Message| anthropic_message(m)))),
    ] + (if request.tools@.len() > 0 {
        seq![("tools"@, Json::Array(tools_view(request.tools@).map_values(|t: ToolDecl| anthropic_tool(t))))]
    } else {
        seq![]
    }) + opt_member("temperature"@, number_json(p.temperature)) + opt_member("top_p"@, number_json(p.top_p))
        + opt_member("top_k"@, count_json(p.top_k))
}

/// The output limit of the model where a catalog or the user stated it.
pub open spec fn trusted_output_limit(route: ResolvedRoute) -> Option<u32> {
    let limits = route.upstream_model.token_limits;
    if is_trusted_source(limits.output_token_limit_source) {
        limits.output_token_limit
    } else {
        None
    }
}

pub open spec fn sat_add(a: u32, b: u32) -> u32 {
    if a + b > u32::MAX {
        u32::MAX
    } else {
        (a + b) as u32
    }
}

/// The payload members after a thinking budget is applied, or the message
/// of the `InvalidRequest` error: an explicit `max_tokens` must exceed the
/// budget; without one, the budget plus the default is used, capped by a
/// trusted output limit, which must itself exceed the budget.
pub open spec fn with_budget(entries: Seq<(Seq<char>, Json)>, route: ResolvedRoute, budget: u32) -> Result<Seq<(Seq<char>, Json)>, Seq<char>> {
    let thinking = jobj2("type"@, Json::Str("enabled"@), "budget_tokens"@, juint(budget as int));
    match route.final_parameters.max_tokens {
        Some(m) => if m <= budget {
            Err(
                "Anthropic max_tokens ("@ + decimal(m as nat) + ") must be greater than thinking budget ("@ + decimal(
                    budget as nat,
                ) + ")"@,
            )
        } else {
            Ok(set_member(entries, "thinking"@, thinking))
        },
        None => {
            let generated = sat_add(budget, DEFAULT_MAX_TOKENS);
            match trusted_output_limit(route) {
                Some(o) => if o <= budget {
                    Err(
                        "Anthropic output token limit ("@ + decimal(o as nat) + ") must be greater than thinking budget ("@
                            + decimal(budget as nat) + ")"@,
                    )
                } else {
                    let effective = if generated < o {
                        generated
                    } else {
                        o
                    };
                    Ok(set_member(set_member(entries, "max_tokens"@, juint(effective as int)), "thinking"@, thinking))
                },
                None => Ok(set_member(set_member(entries, "max_tokens"@, juint(generated as int)), "thinking"@, thinking)),
            }
        },
    }
}

pub open spec fn adaptive() -> Json {
    jobj1("type"@, Json::Str("adaptive"@))
}

/// The payload members after the route's reasoning level is applied, or the
/// category and message of the error.
pub open spec fn anthropic_reasoning(entries: Seq<(Seq<char>, Json)>, route: ResolvedRoute) -> Result<Seq<(Seq<char>, Json)>, (ErrorCategory, Seq<char>)> {
    match route.final_reasoning_level {
        None => Ok(entries),
        Some(level) => match levels_get(route.upstream_model.capabilities.reasoning.levels@, level) {
            None => Err(
                (
                    ErrorCategory::UnsupportedFeature,
                    "No reasoning mapping configured for Anthropic reasoning level "@ + spec_level_debug(level),
                ),
            ),
            Some(Mapping::BudgetTokens(b)) => match with_budget(entries, route, b) {
                Ok(e) => Ok(e),
                Err(m) => Err((ErrorCategory::InvalidRequest, m)),
            },
            Some(Mapping::Adaptive) => Ok(set_member(entries, "thinking"@, adaptive())),
            Some(Mapping::Effort(effort)) => {
                let e1 = set_member(entries, "thinking"@, adaptive());
                Ok(
                    match entries_get(e1, "output_config"@) {
                        Some(Json::Object(oc)) => set_member(
                            e1,
                            "output_config"@,
                            Json::Object(set_member(oc, "effort"@, Json::Str(effort))),
                        ),
                        _ => set_member(e1, "output_config"@, jobj1("effort"@, Json::Str(effort))),
                    },
                )
            },
            Some(Mapping::Disabled) => Ok(set_member(entries, "thinking"@, jobj1("type"@, Json::Str("disabled"@)))),
            Some(Mapping::NativeLevel(l)) => Err(
                (
                    ErrorCategory::UnsupportedFeature,
                    "Anthropic does not support reasoning mapping NativeLevel("@ + debug_str(l) + ") for level "@
                        + spec_level_debug(level),
                ),
            ),
        },
    }
}

/// The members of the Anthropic payload, or the category and message of
/// the error.
pub open spec fn anthropic_payload(route: ResolvedRoute, request: NeutralChatRequest) -> Result<Seq<(Seq<char>, Json)>, (ErrorCategory, Seq<char>)> {
    anthropic_reasoning(
        set_members(anthropic_base(route, request), extra_view(route.final_parameters.extra_body)),
        route,
    )
}

fn text_value(s: &String) -> (r: JsonValue)
    ensures
        r@ == Json::Str(s@),
{
    JsonValue::Str(s.clone())
}

fn convert_block(b: &NeutralContentBlock) -> (r: JsonValue)
    ensures
        r@ == anthropic_block(b@),
{
    match b {
        NeutralContentBlock::Text(t) => object2("type", str_value("text"), "text", text_value(t)),
        NeutralContentBlock::InlineData { mime_type, data_base64 } => {
            let kind = if input_modality_for_mime_type(mime_type.as_str()) == ModelModality::Image {
                "image"
            } else {
                "document"
            };
            object2(
                "type",
                str_value(kind),
                "source",
                object3("type", str_value("base64"), "media_type", text_value(mime_type), "data", text_value(data_base64)),
            )
        },
        NeutralContentBlock::ToolCall { id, name, arguments_json } => {
            let empty: Vec<(String, JsonValue)> = Vec::new();
            assert(entries_view(empty@) =~= seq![]);
            let input = match crate::json::parse_json(arguments_json.as_str()) {
                Ok(v) => v,
                Err(_) => JsonValue::Object(empty),
            };
            let mut e: Vec<(String, JsonValue)> = Vec::new();
            assert(entries_view(e@) =~= seq![]);
            let ghost iv = input@;
            push_entry(&mut e, "type", str_value("tool_use"));
            push_entry(&mut e, "id", text_value(id));
            push_entry(&mut e, "name", text_value(name));
            push_entry(&mut e, "input", input);
            assert(entries_view(e@) =~= seq![
                ("type"@, Json::Str("tool_use"@)),
                ("id"@, Json::Str(id@)),
                ("name"@, Json::Str(name@)),
                ("input"@, iv),
            ]);
            JsonValue::Object(e)
        },
        NeutralContentBlock::ToolResult { tool_call_id, content, .. } => object3(
            "type",
            str_value("tool_result"),
            "tool_use_id",
            text_value(tool_call_id),
            "content",
            text_value(content),
        ),
        NeutralContentBlock::Thinking { text, signature } => match signature {
            Some(s) => object3("type", str_value("thinking"), "thinking", text_value(text), "signature", text_value(s)),
            None => object2("type", str_value("thinking"), "thinking", text_value(text)),
        },
    }
}

/// The Messages API message for a neutral message.
pub fn convert_message(msg: &NeutralMessage) -> (r: JsonValue)
    ensures
        r@ == anthropic_message(msg@),
{
    let role = match msg.role {
        MessageRole::Assistant => "assistant",
        _ => "user",
    };
    let ghost bv = msg@.blocks;
    let mut content: Vec<JsonValue> = Vec::new();
    assert(items_view(content@) =~= bv.take(0).map_values(|b: Block| anthropic_block(b)));
    let mut i: usize = 0;
    while i < msg.blocks.len()
        invariant
            i <= msg.blocks@.len(),
            bv == msg@.blocks,
            bv.len() == msg.blocks@.len(),
            items_view(content@) == bv.take(i as int).map_values(|b: Block| anthropic_block(b)),
        decreases msg.blocks.len() - i,
    {
        let c = convert_block(&msg.blocks[i]);
        proof {
            assert(bv[i as int] == msg.blocks@[i as int]@);
            assert(bv.take(i as int + 1).map_values(|b: Block| anthropic_block(b)) =~= bv.take(i as int).map_values(
                |b: Block| anthropic_block(b),
            ).push(anthropic_block(bv[i as int])));
        }
        push_item(&mut content, c);
        i += 1;
    }
    assert(bv.take(i as int) =~= bv);
    object2("role", str_value(role), "content", JsonValue::Array(content))
}

fn convert_tool(tool: &NeutralTool) -> (r: JsonValue)
    ensures
        r@ == anthropic_tool(tool@),
{
    let description = match &tool.function.description {
        Some(d) => text_value(d),
        None => JsonValue::Null,
    };
    object3(
        "name",
        text_value(&tool.function.name),
        "description",
        description,
        "input_schema",
        tool.function.parameters_schema.deep_clone(),
    )
}

fn messages_value(request: &NeutralChatRequest) -> (r: JsonValue)
    ensures
        r@ == Json::Array(messages_view(request.messages@).map_values(|m: Message| anthropic_message(m))),
{
    let ghost mv = messages_view(request.messages@);
    let mut messages: Vec<JsonValue> = Vec::new();
    assert(items_view(messages@) =~= mv.take(0).map_values(|m: Message| anthropic_message(m)));
    let mut i: usize = 0;
    while i < request.messages.len()
        invariant
            i <= request.messages@.len(),
            mv == messages_view(request.messages@),
            mv.len() == request.messages@.len(),
            items_view(messages@) == mv.take(i as int).map_values(|m: Message| anthropic_message(m)),
        decreases request.messages.len() - i,
    {
        let c = convert_message(&request.messages[i]);
        proof {
            assert(mv[i as int] == request.messages@[i as int]@);
            assert(mv.take(i as int + 1).map_values(|m: Message| anthropic_message(m)) =~= mv.take(i as int).map_values(
                |m: Message| anthropic_message(m),
            ).push(anthropic_message(mv[i as int])));
        }
        push_item(&mut messages, c);
        i += 1;
    }
    assert(mv.take(i as int) =~= mv);
    JsonValue::Array(messages)
}

fn tools_value(request: &NeutralChatRequest) -> (r: JsonValue)
    ensures
        r@ == Json::Array(tools_view(request.tools@).map_values(|t: ToolDecl| anthropic_tool(t))),
{
    let ghost tv = tools_view(request.tools@);
    let mut tools: Vec<JsonValue> = Vec::new();
    assert(items_view(tools@) =~= tv.take(0).map_values(|t: ToolDecl| anthropic_tool(t)));
    let mut j: usize = 0;
    while j < request.tools.len()
        invariant
            j <= request.tools@.len(),
            tv == tools_view(request.tools@),
            tv.len() == request.tools@.len(),
            items_view(tools@) == tv.take(j as int).map_values(|t: ToolDecl| anthropic_tool(t)),
        decreases request.tools.len() - j,
    {
        let t = convert_tool(&request.tools[j]);
        proof {
            assert(tv[j as int] == request.tools@[j as int]@);
            assert(tv.take(j as int + 1).map_values(|t: ToolDecl| anthropic_tool(t)) =~= tv.take(j as int).map_values(
                |t: ToolDecl| anthropic_tool(t),
            ).push(anthropic_tool(tv[j as int])));
        }
        push_item(&mut tools, t);
        j += 1;
    }
    assert(tv.take(j as int) =~= tv);
    JsonValue::Array(tools)
}

#[verifier::rlimit(40)]
fn base_entries(route: &ResolvedRoute, request: &NeutralChatRequest) -> (r: Vec<(String, JsonValue)>)
    ensures
        entries_view(r@) == anthropic_base(*route, *request),
{
    let p = &route.final_parameters;
    let max_tokens = match p.max_tokens {
        Some(m) => m,
        None => DEFAULT_MAX_TOKENS,
    };
    let mut payload: Vec<(String, JsonValue)> = Vec::new();
    assert(entries_view(payload@) =~= seq![]);
    push_entry(&mut payload, "model", text_value(&route.upstream_model.upstream_model_id));
    push_entry(&mut payload, "max_tokens", uint_value(max_tokens as u64));
    push_entry(&mut payload, "stream", JsonValue::Bool(request.stream));
    let ghost e1 = entries_view(payload@);
    match &request.system_instruction {
        Some(s) => push_entry(&mut payload, "system", text_value(s)),
        None => {},
    }
    let ghost e2 = entries_view(payload@);
    push_entry(&mut payload, "messages", messages_value(request));
    let ghost e3 = entries_view(payload@);
    if request.tools.len() > 0 {
        push_entry(&mut payload, "tools", tools_value(request));
    }
    let ghost e4 = entries_view(payload@);
    match &p.temperature {
        Some(t) => push_entry(&mut payload, "temperature", JsonValue::Number(crate::json::clone_number(t))),
        None => {},
    }
    match &p.top_p {
        Some(t) => push_entry(&mut payload, "top_p", JsonValue::Number(crate::json::clone_number(t))),
        None => {},
    }
    match p.top_k {
        Some(k) => push_entry(&mut payload, "top_k", uint_value(k as u64)),
        None => {},
    }
    proof {
        let b = anthropic_base(*route, *request);
        assert(e2 =~= e1 + opt_member(
            "system"@,
            match request.system_instruction {
                Some(s) => Some(Json::Str(s@)),
                None => None,
            },
        ));
    }
    assert(entries_view(payload@) =~= anthropic_base(*route, *request));
    payload
}

fn trusted_output_token_limit(route: &ResolvedRoute) -> (r: Option<u32>)
    ensures
        r == trusted_output_limit(*route),
{
    let limits = &route.upstream_model.token_limits;
    match limits.output_token_limit_source {
        TokenLimitSource::Catalog | TokenLimitSource::Configured => limits.output_token_limit,
        _ => None,
    }
}

fn budget_error(head: &str, value: u32, budget: u32) -> (r: ProxyError)
    ensures
        r.category == ErrorCategory::InvalidRequest,
        r.status_code == 400,
        r.upstream_body is None,
        r.message@ == head@ + decimal(value as nat) + ") must be greater than thinking budget ("@ + decimal(budget as nat)
            + ")"@,
{
    let mut buf: Vec<char> = Vec::new();
    push_str(&mut buf, head);
    push_decimal(&mut buf, value as u64);
    push_str(&mut buf, ") must be greater than thinking budget (");
    push_decimal(&mut buf, budget as u64);
    push_str(&mut buf, ")");
    let text = string_from_chars(buf.as_slice());
    ProxyError::new(ErrorCategory::InvalidRequest, text.as_str(), 400)
}

fn apply_budget(payload: &mut Vec<(String, JsonValue)>, route: &ResolvedRoute, budget: u32) -> (r: Result<(), ProxyError>)
    ensures
        match with_budget(entries_view(old(payload)@), *route, budget) {
            Ok(e) => r is Ok && entries_view(final(payload)@) == e,
            Err(m) => (r matches Err(err) && err.category == ErrorCategory::InvalidRequest && err.status_code == 400
                && err.message@ == m && err.upstream_body is None),
        },
{
    match route.final_parameters.max_tokens {
        Some(m) => {
            if m <= budget {
                return Err(budget_error("Anthropic max_tokens (", m, budget));
            }
        },
        None => {
            let generated = budget.saturating_add(DEFAULT_MAX_TOKENS);
            let effective = match trusted_output_token_limit(route) {
                Some(o) => {
                    if o <= budget {
                        return Err(budget_error("Anthropic output token limit (", o, budget));
                    }
                    if generated < o {
                        generated
                    } else {
                        o
                    }
                },
                None => generated,
            };
            set_entry(payload, "max_tokens", uint_value(effective as u64));
        },
    }
    set_entry(payload, "thinking", object2("type", str_value("enabled"), "budget_tokens", uint_value(budget as u64)));
    Ok(())
}

fn apply_reasoning(payload: &mut Vec<(String, JsonValue)>, route: &ResolvedRoute) -> (r: Result<(), ProxyError>)
    ensures
        match anthropic_reasoning(entries_view(old(payload)@), *route) {
            Ok(e) => r is Ok && entries_view(final(payload)@) == e,
            Err(failure) => (r matches Err(err) && err.category == failure.0 && err.status_code == 400
                && err.message@ == failure.1 && err.upstream_body is None),
        },
{
    let level = match route.final_reasoning_level {
        Some(l) => l,
        None => return Ok(()),
    };
    match route.upstream_model.capabilities.reasoning.mapping_for(level) {
        None => {
            let mut buf: Vec<char> = Vec::new();
            push_str(&mut buf, "No reasoning mapping configured for Anthropic reasoning level ");
            push_str(&mut buf, level_debug(level));
            let text = string_from_chars(buf.as_slice());
            Err(ProxyError::new(ErrorCategory::UnsupportedFeature, text.as_str(), 400))
        },
        Some(ReasoningMapping::BudgetTokens(b)) => apply_budget(payload, route, *b),
        Some(ReasoningMapping::Adaptive) => {
            set_entry(payload, "thinking", object1("type", str_value("adaptive")));
            Ok(())
        },
        Some(ReasoningMapping::Effort(effort)) => {
            set_entry(payload, "thinking", object1("type", str_value("adaptive")));
            let existing = match entries_lookup(payload, "output_config") {
                Some(JsonValue::Object(oc)) => Some(crate::domain::provider::clone_entries(oc)),
                _ => None,
            };
            match existing {
                Some(mut oc) => {
                    set_entry(&mut oc, "effort", text_value(effort));
                    set_entry(payload, "output_config", JsonValue::Object(oc));
                },
                None => {
                    set_entry(payload, "output_config", object1("effort", text_value(effort)));
                },
            }
            Ok(())
        },
        Some(ReasoningMapping::Disabled) => {
            set_entry(payload, "thinking", object1("type", str_value("disabled")));
            Ok(())
        },
        Some(ReasoningMapping::NativeLevel(l)) => {
            let mut buf: Vec<char> = Vec::new();
            push_str(&mut buf, "Anthropic does not support reasoning mapping NativeLevel(");
            let q = debug_quoted(l.as_str());
            push_str(&mut buf, q.as_str());
            push_str(&mut buf, ") for level ");
            push_str(&mut buf, level_debug(level));
            let text = string_from_chars(buf.as_slice());
            Err(ProxyError::new(ErrorCategory::UnsupportedFeature, text.as_str(), 400))
        },
    }
}

/// The Messages API payload for `request` on `route` (see `anthropic_payload`).
pub fn build_request_payload(route: &ResolvedRoute, request: &NeutralChatRequest) -> (r: Result<JsonValue, ProxyError>)
    ensures
        match anthropic_payload(*route, *request) {
            Ok(e) => (r matches Ok(v) && v@ == Json::Object(e)),
            Err(failure) => (r matches Err(err) && err.category == failure.0 && err.status_code == 400
                && err.message@ == failure.1 && err.upstream_body is None),
        },
{
    let mut payload = base_entries(route, request);
    match &route.final_parameters.extra_body {
        Some(extra) => {
            let ghost base = entries_view(payload@);
            let ghost xv = entries_view(extra@);
            proof {
                crate::json::lemma_entries_view(extra@);
                assert(xv.take(0) =~= seq![]);
            }
            let mut i: usize = 0;
            while i < extra.len()
                invariant
                    i <= extra@.len(),
                    xv == entries_view(extra@),
                    xv.len() == extra@.len(),
                    forall|j: int| 0 <= j < extra@.len() ==> #[trigger] xv[j] == (extra@[j].0@, extra@[j].1@),
                    entries_view(payload@) == set_members(base, xv.take(i as int)),
                decreases extra.len() - i,
            {
                let v = extra[i].1.deep_clone();
                set_entry(&mut payload, extra[i].0.as_str(), v);
                assert(xv.take(i as int + 1).drop_last() =~= xv.take(i as int));
                i += 1;
            }
            assert(xv.take(i as int) =~= xv);
        },
        None => {},
    }
    match apply_reasoning(&mut payload, route) {
        Ok(()) => Ok(JsonValue::Object(payload)),
        Err(e) => Err(e),
    }
}

/// The request headers for an Anthropic provider: JSON content, the API
/// version, the key where one is set, then the provider's own headers.
pub open spec fn anthropic_headers(p: Provider) -> Seq<(Seq<char>, Seq<char>)> {
    let base = seq![("Content-Type"@, "application/json"@), ("anthropic-version"@, "2023-06-01"@)];
    let keyed = if p.api_key@.len() > 0 {
        base.push(("x-api-key"@, p.api_key@))
    } else {
        base
    };
    set_pairs(keyed, pairs_view(p.headers@))
}

pub fn build_headers(provider: &Provider) -> (r: Vec<(String, String)>)
    ensures
        pairs_view(r@) == anthropic_headers(*provider),
{
    let mut headers: Vec<(String, String)> = Vec::new();
    headers.push((owned("Content-Type"), owned("application/json")));
    headers.push((owned("anthropic-version"), owned("2023-06-01")));
    if chars_of(provider.api_key.as_str()).len() > 0 {
        headers.push((owned("x-api-key"), provider.api_key.clone()));
    }
    let ghost keyed = pairs_view(headers@);
    proof {
        let base = seq![("Content-Type"@, "application/json"@), ("anthropic-version"@, "2023-06-01"@)];
        if provider.api_key@.len() > 0 {
            assert(keyed =~= base.push(("x-api-key"@, provider.api_key@)));
        } else {
            assert(keyed =~= base);
        }
    }
    set_headers(&mut headers, &provider.headers);
    headers
}

} // verus!
