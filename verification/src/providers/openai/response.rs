//! OpenAI non-streaming responses (chat completions and images).

use crate::domain::error::{ErrorCategory, ProxyError};
use crate::domain::request::{blocks_view, Block, NeutralContentBlock};
use crate::domain::response::{FinishReason, NeutralChatResponse, NeutralChoice};
use crate::json::{items_view, json_parse_result, lemma_items_view, parse_json, Json, JsonValue};
use crate::providers::error::{classify_response_error, upstream_error_message};
use crate::providers::gemini::response::{choice_view, choices_view, upstream_failure, ChoiceView};
use crate::providers::openai::stream::{array_at, non_empty};
use crate::providers::openai::{normalize_finish_reason, parse_index, parse_usage, spec_finish_reason, spec_index, spec_parse_usage};
use crate::text::{owned, push_str, string_from_chars};
use vstd::prelude::*;

verus! {

pub open spec fn str_or(v: Json, default: Seq<char>) -> Seq<char> {
    match v {
        Json::Str(s) => s,
        _ => default,
    }
}

/// The choice an item of an images response becomes: the base64 image, or
/// else its URL as text.
pub open spec fn image_choice(item: Json, position: int) -> ChoiceView {
    ChoiceView {
        index: position as u32,
        blocks: match non_empty(item.at("b64_json"@)) {
            Some(b) => seq![Block::InlineData { mime_type: "image/png"@, data_base64: b }],
            None => match non_empty(item.at("url"@)) {
                Some(u) => seq![Block::Text(u)],
                None => seq![],
            },
        },
        finish_reason: Some(FinishReason::Stop),
        raw_finish_reason: None,
    }
}

pub open spec fn image_choices(items: Seq<Json>) -> Seq<ChoiceView>
    decreases items.len(),
{
    if items.len() == 0 {
        seq![]
    } else {
        image_choices(items.drop_last()).push(image_choice(items.last(), items.len() - 1))
    }
}

pub open spec fn tool_call_block(tc: Json) -> Block {
    Block::ToolCall {
        id: str_or(tc.at("id"@), seq![]),
        name: str_or(tc.at("function"@).at("name"@), seq![]),
        arguments_json: str_or(tc.at("function"@).at("arguments"@), "{}"@),
    }
}

/// The blocks of a chat completion message: its reasoning, its text, then
/// its tool calls.
pub open spec fn message_blocks(message: Json) -> Seq<Block> {
    let thinking = match non_empty(message.at("reasoning_content"@)) {
        Some(t) => seq![Block::Thinking { text: t, signature: None }],
        None => seq![],
    };
    let text = match non_empty(message.at("content"@)) {
        Some(t) => seq![Block::Text(t)],
        None => seq![],
    };
    thinking + text + array_at(message.at("tool_calls"@)).map_values(|tc: Json| tool_call_block(tc))
}

pub open spec fn chat_choice(choice: Json, position: int) -> ChoiceView {
    let raw = match choice.at("finish_reason"@) {
        Json::Str(r) => Some(r),
        _ => None,
    };
    ChoiceView {
        index: spec_index(choice, position),
        blocks: message_blocks(choice.at("message"@)),
        finish_reason: match raw {
            Some(r) => Some(spec_finish_reason(r)),
            None => None,
        },
        raw_finish_reason: raw,
    }
}

pub open spec fn chat_choices(choices: Seq<Json>) -> Seq<ChoiceView>
    decreases choices.len(),
{
    if choices.len() == 0 {
        seq![]
    } else {
        chat_choices(choices.drop_last()).push(chat_choice(choices.last(), choices.len() - 1))
    }
}

/// A successful OpenAI response: an images response (`data`) or a chat
/// completion (`choices`, `usage`).
pub open spec fn openai_response(resp: NeutralChatResponse, val: Json, model: Seq<char>) -> bool {
    &&& resp.id@ == str_or(val.at("id"@), "gen-id"@)
    &&& resp.model@ == str_or(val.at("model"@), model)
    &&& match val.at("data"@) {
        Json::Array(data) => choices_view(resp.choices@) == image_choices(data) && resp.usage is None,
        _ => choices_view(resp.choices@) == chat_choices(array_at(val.at("choices"@))) && resp.usage
            == spec_parse_usage(val.at("usage"@)),
    }
}

fn str_or_text(v: Option<&JsonValue>, default: &str) -> (r: String)
    ensures
        r@ == str_or(
            match v {
                Some(x) => x@,
                None => Json::Null,
            },
            default@,
        ),
{
    match v {
        Some(JsonValue::Str(s)) => s.clone(),
        _ => owned(default),
    }
}

fn non_empty_of(v: Option<&JsonValue>) -> (r: Option<String>)
    ensures
        crate::text::opt_view(r) == non_empty(
            match v {
                Some(x) => x@,
                None => Json::Null,
            },
        ),
{
    match v {
        Some(JsonValue::Str(s)) => if crate::text::chars_of(s.as_str()).len() > 0 {
            Some(s.clone())
        } else {
            None
        },
        _ => None,
    }
}

fn at<'a>(v: &'a JsonValue, key: &str) -> (r: Option<&'a JsonValue>)
    ensures
        r matches Some(x) ==> v@.at(key@) == x@,
        r is None ==> v@.at(key@) == Json::Null,
{
    v.get(key)
}

fn at_opt<'a>(v: Option<&'a JsonValue>, key: &str) -> (r: Option<&'a JsonValue>)
    ensures
        r matches Some(x) ==> (match v {
            Some(y) => y@,
            None => Json::Null,
        }).at(key@) == x@,
        r is None ==> (match v {
            Some(y) => y@,
            None => Json::Null,
        }).at(key@) == Json::Null,
{
    match v {
        Some(y) => y.get(key),
        None => None,
    }
}

fn image_item(item: &JsonValue, position: usize) -> (r: NeutralChoice)
    ensures
        choice_view(r) == image_choice(item@, position as int),
{
    let mut blocks: Vec<NeutralContentBlock> = Vec::new();
    match non_empty_of(at(item, "b64_json")) {
        Some(b) => {
            blocks.push(NeutralContentBlock::InlineData { mime_type: owned("image/png"), data_base64: b });
        },
        None => match non_empty_of(at(item, "url")) {
            Some(u) => {
                blocks.push(NeutralContentBlock::Text(u));
            },
            None => {},
        },
    }
    let r = NeutralChoice { index: position as u32, blocks, finish_reason: Some(FinishReason::Stop), raw_finish_reason: None };
    assert(choice_view(r).blocks =~= image_choice(item@, position as int).blocks);
    r
}

fn chat_item(choice: &JsonValue, position: usize) -> (r: NeutralChoice)
    ensures
        choice_view(r) == chat_choice(choice@, position as int),
{
    let index = parse_index(choice, position);
    let message = at(choice, "message");
    let ghost mv = match message {
        Some(x) => x@,
        None => Json::Null,
    };
    let mut blocks: Vec<NeutralContentBlock> = Vec::new();
    match non_empty_of(at_opt(message, "reasoning_content")) {
        Some(t) => {
            blocks.push(NeutralContentBlock::Thinking { text: t, signature: None });
        },
        None => {},
    }
    match non_empty_of(at_opt(message, "content")) {
        Some(t) => {
            blocks.push(NeutralContentBlock::Text(t));
        },
        None => {},
    }
    let ghost head = blocks_view(blocks@);
    let empty: Vec<JsonValue> = Vec::new();
    let calls: &Vec<JsonValue> = match at_opt(message, "tool_calls") {
        Some(JsonValue::Array(c)) => c,
        _ => &empty,
    };
    let ghost cv = items_view(calls@);
    proof {
        lemma_items_view(calls@);
        if calls@.len() == 0 {
            assert(cv =~= seq![]);
        }
        assert(cv == array_at(mv.at("tool_calls"@)));
    }
    let mut q: usize = 0;
    while q < calls.len()
        invariant
            q <= calls@.len(),
            cv == items_view(calls@),
            cv.len() == calls@.len(),
            forall|j: int| 0 <= j < calls@.len() ==> #[trigger] cv[j] == calls@[j]@,
            blocks_view(blocks@) == head + cv.take(q as int).map_values(|tc: Json| tool_call_block(tc)),
        decreases calls.len() - q,
    {
        let tc = &calls[q];
        let function = at(tc, "function");
        let id = str_or_text(at(tc, "id"), "");
        let name = str_or_text(at_opt(function, "name"), "");
        let arguments_json = str_or_text(at_opt(function, "arguments"), "{}");
        proof {
            reveal_strlit("");
            assert(""@ =~= Seq::<char>::empty());
        }
        let ghost before = blocks@;
        blocks.push(NeutralContentBlock::ToolCall { id, name, arguments_json });
        proof {
            assert(cv[q as int] == tc@);
            assert(blocks_view(blocks@) =~= blocks_view(before).push(tool_call_block(tc@)));
            assert(cv.take(q as int + 1).map_values(|tc: Json| tool_call_block(tc)) =~= cv.take(q as int).map_values(
                |tc: Json| tool_call_block(tc),
            ).push(tool_call_block(cv[q as int])));
        }
        q += 1;
    }
    proof {
        assert(cv.take(q as int) =~= cv);
    }
    let raw: Option<String> = match at(choice, "finish_reason") {
        Some(JsonValue::Str(r)) => Some(r.clone()),
        _ => None,
    };
    let finish_reason = match &raw {
        Some(r) => Some(normalize_finish_reason(r.as_str())),
        None => None,
    };
    let r = NeutralChoice { index, blocks, finish_reason, raw_finish_reason: raw };
    assert(choice_view(r).blocks =~= message_blocks(mv));
    r
}

/// Parses an OpenAI response body; see `openai_response` and `upstream_failure`.
pub fn parse_response(status: u16, body: &str, model: &str) -> (r: Result<NeutralChatResponse, ProxyError>)
    ensures
        status >= 400 ==> (r matches Err(e) && upstream_failure(e, status, body@, "OpenAI"@)),
        status < 400 ==> match json_parse_result(body@) {
            Err(m) => (r matches Err(e) && e.category == ErrorCategory::Internal && e.status_code
                == 500 && e.message@ == "Failed to parse OpenAI JSON response: "@ + m),
            Ok(val) => (r matches Ok(resp) && openai_response(resp, val, model@)),
        },
{
    if status >= 400 {
        let category = classify_response_error(status, body);
        let message = upstream_error_message("OpenAI", status, body);
        return Err(ProxyError::new(category, message.as_str(), status).with_upstream_body(body));
    }
    let val = match parse_json(body) {
        Ok(v) => v,
        Err(m) => {
            let mut buf: Vec<char> = Vec::new();
            push_str(&mut buf, "Failed to parse OpenAI JSON response: ");
            push_str(&mut buf, m.as_str());
            let text = string_from_chars(buf.as_slice());
            return Err(ProxyError::new(ErrorCategory::Internal, text.as_str(), 500));
        },
    };
    let id = str_or_text(at(&val, "id"), "gen-id");
    let model_name = str_or_text(at(&val, "model"), model);
    let mut choices: Vec<NeutralChoice> = Vec::new();
    assert(choices_view(choices@) =~= seq![]);
    if let Some(JsonValue::Array(data)) = at(&val, "data") {
        let ghost dv = items_view(data@);
        proof {
            lemma_items_view(data@);
            assert(dv.take(0) =~= seq![]);
        }
        let mut p: usize = 0;
        while p < data.len()
            invariant
                p <= data@.len(),
                dv == items_view(data@),
                dv.len() == data@.len(),
                forall|j: int| 0 <= j < data@.len() ==> #[trigger] dv[j] == data@[j]@,
                choices_view(choices@) == image_choices(dv.take(p as int)),
            decreases data.len() - p,
        {
            let ghost before = choices@;
            let c = image_item(&data[p], p);
            choices.push(c);
            proof {
                assert(dv.take(p as int + 1).drop_last() =~= dv.take(p as int));
                assert(choices_view(choices@) =~= choices_view(before).push(choice_view(c)));
            }
            p += 1;
        }
        proof {
            assert(dv.take(p as int) =~= dv);
        }
        return Ok(NeutralChatResponse { id, model: model_name, choices, usage: None });
    }
    let empty: Vec<JsonValue> = Vec::new();
    let upstream: &Vec<JsonValue> = match at(&val, "choices") {
        Some(JsonValue::Array(c)) => c,
        _ => &empty,
    };
    let ghost cv = items_view(upstream@);
    proof {
        lemma_items_view(upstream@);
        if upstream@.len() == 0 {
            assert(cv =~= seq![]);
        }
        assert(cv == array_at(val@.at("choices"@)));
        assert(cv.take(0) =~= seq![]);
    }
    let mut p: usize = 0;
    while p < upstream.len()
        invariant
            p <= upstream@.len(),
            cv == items_view(upstream@),
            cv.len() == upstream@.len(),
            forall|j: int| 0 <= j < upstream@.len() ==> #[trigger] cv[j] == upstream@[j]@,
            choices_view(choices@) == chat_choices(cv.take(p as int)),
        decreases upstream.len() - p,
    {
        let ghost before = choices@;
        let c = chat_item(&upstream[p], p);
        choices.push(c);
        proof {
            assert(cv.take(p as int + 1).drop_last() =~= cv.take(p as int));
            assert(choices_view(choices@) =~= choices_view(before).push(choice_view(c)));
        }
        p += 1;
    }
    proof {
        assert(cv.take(p as int) =~= cv);
    }
    let usage = match at(&val, "usage") {
        Some(u) => parse_usage(u),
        None => parse_usage(&JsonValue::Null),
    };
    Ok(NeutralChatResponse { id, model: model_name, choices, usage })
}

} // verus!
