//! Anthropic non-streaming responses.

use crate::domain::error::{ErrorCategory, ProxyError};
use crate::domain::request::{blocks_view, Block, NeutralContentBlock};
use crate::domain::response::{NeutralChatResponse, NeutralChoice, UsageInfo};
use crate::json::{items_view, json_parse_result, json_text, lemma_items_view, parse_json, to_json_text, Json, JsonValue};
use crate::providers::anthropic::request::sat_add;
use crate::providers::anthropic::{normalize_finish_reason, spec_finish_reason};
use crate::providers::error::{classify_response_error, spec_classify_response_error, spec_has_context_length_error};
use crate::providers::gemini::response::{choice_view, ChoiceView};
use crate::providers::gemini::{token_member, token_of};
use crate::providers::openai::response::str_or;
use crate::providers::openai::stream::array_at;
use crate::text::{chars_eq_str, chars_of, decimal, owned, push_decimal, push_str, string_from_chars};
use vstd::prelude::*;

verus! {

/// The block a content item becomes: text (when it has text), thinking,
/// and tool use with its input as JSON text; other items are dropped.
pub open spec fn content_block(item: Json) -> Option<Block> {
    let t = str_or(item.at("type"@), seq![]);
    if t == "text"@ {
        match item.at("text"@) {
            Json::Str(x) => Some(Block::Text(x)),
            _ => None,
        }
    } else if t == "thinking"@ {
        Some(
            Block::Thinking {
                text: str_or(item.at("thinking"@), seq![]),
                signature: match item.at("signature"@) {
                    Json::Str(x) => Some(x),
                    _ => None,
                },
            },
        )
    } else if t == "tool_use"@ {
        Some(
            Block::ToolCall {
                id: str_or(item.at("id"@), seq![]),
                name: str_or(item.at("name"@), seq![]),
                arguments_json: json_text(item.at("input"@)),
            },
        )
    } else {
        None
    }
}

pub open spec fn content_blocks(items: Seq<Json>) -> Seq<Block>
    decreases items.len(),
{
    if items.len() == 0 {
        seq![]
    } else {
        let b = content_blocks(items.drop_last());
        match content_block(items.last()) {
            Some(x) => b.push(x),
            None => b,
        }
    }
}

pub open spec fn count_or_zero(usage: Json, field: Seq<char>) -> u32 {
    match token_member(usage, field) {
        Some(x) => x,
        None => 0,
    }
}

/// Usage of a response: input and output counts plus cache reads and
/// writes, with a saturating total.
pub open spec fn response_usage(v: Json) -> Option<UsageInfo> {
    if !v.is_object() {
        None
    } else {
        let input = count_or_zero(v, "input_tokens"@);
        let output = count_or_zero(v, "output_tokens"@);
        let read = token_member(v, "cache_read_input_tokens"@);
        let write = token_member(v, "cache_creation_input_tokens"@);
        Some(
            UsageInfo {
                input_tokens: input,
                output_tokens: output,
                cache_read_tokens: read,
                cache_write_tokens: write,
                reasoning_tokens: None,
                total_tokens: sat_add(
                    sat_add(
                        sat_add(input, output),
                        match read {
                            Some(x) => x,
                            None => 0,
                        },
                    ),
                    match write {
                        Some(x) => x,
                        None => 0,
                    },
                ),
            },
        )
    }
}

/// A successful Anthropic response: one choice holding the content.
pub open spec fn anthropic_response(resp: NeutralChatResponse, val: Json, model: Seq<char>) -> bool {
    let raw = match val.at("stop_reason"@) {
        Json::Str(r) => Some(r),
        _ => None,
    };
    &&& resp.id@ == str_or(val.at("id"@), "msg-id"@)
    &&& resp.model@ == str_or(val.at("model"@), model)
    &&& resp.choices@.len() == 1
    &&& choice_view(resp.choices@[0]) == (ChoiceView {
        index: 0,
        blocks: content_blocks(array_at(val.at("content"@))),
        finish_reason: match raw {
            Some(r) => Some(spec_finish_reason(r)),
            None => None,
        },
        raw_finish_reason: raw,
    })
    &&& resp.usage == response_usage(val.at("usage"@))
}

/// The error a failed Anthropic response becomes.
pub open spec fn anthropic_failure(e: ProxyError, status: u16, body: Seq<char>) -> bool {
    &&& e.category == spec_classify_response_error(status, spec_has_context_length_error(body))
    &&& e.message@ == "Anthropic upstream status "@ + decimal(status as nat)
    &&& e.status_code == status
    &&& e.upstream_body matches Some(b) && b@ == body
}

fn at<'a>(v: &'a JsonValue, key: &str) -> (r: Option<&'a JsonValue>)
    ensures
        r matches Some(x) ==> v@.at(key@) == x@,
        r is None ==> v@.at(key@) == Json::Null,
{
    v.get(key)
}

fn str_or_text(v: Option<&JsonValue>, default: &str) -> (r: String)
    ensures
        r@ == str_or(
            match v {
                Some(x) => x@,
                None => Json::Null,
            },
            default@,
        ),
{
    match v {
        Some(JsonValue::Str(s)) => s.clone(),
        _ => owned(default),
    }
}

fn convert_item(item: &JsonValue) -> (r: Option<NeutralContentBlock>)
    ensures
        match r {
            Some(b) => content_block(item@) == Some(b@),
            None => content_block(item@) is None,
        },
{
    proof {
        reveal_strlit("");
        assert(""@ =~= Seq::<char>::empty());
    }
    let t = str_or_text(at(item, "type"), "");
    let tc = chars_of(t.as_str());
    if chars_eq_str(tc.as_slice(), "text") {
        return match at(item, "text") {
            Some(JsonValue::Str(x)) => Some(NeutralContentBlock::Text(x.clone())),
            _ => None,
        };
    }
    if chars_eq_str(tc.as_slice(), "thinking") {
        let text = str_or_text(at(item, "thinking"), "");
        let signature = match at(item, "signature") {
            Some(JsonValue::Str(x)) => Some(x.clone()),
            _ => None,
        };
        return Some(NeutralContentBlock::Thinking { text, signature });
    }
    if chars_eq_str(tc.as_slice(), "tool_use") {
        let id = str_or_text(at(item, "id"), "");
        let name = str_or_text(at(item, "name"), "");
        let arguments_json = match at(item, "input") {
            Some(x) => to_json_text(x),
            None => to_json_text(&JsonValue::Null),
        };
        return Some(NeutralContentBlock::ToolCall { id, name, arguments_json });
    }
    None
}

fn count_of(v: &JsonValue, field: &str) -> (r: u32)
    ensures
        r == count_or_zero(v@, field@),
{
    match token_of(v, field) {
        Some(x) => x,
        None => 0,
    }
}

fn usage_of(v: &JsonValue) -> (r: Option<UsageInfo>)
    ensures
        r == response_usage(v@),
{
    if !v.is_object() {
        return None;
    }
    let input = count_of(v, "input_tokens");
    let output = count_of(v, "output_tokens");
    let read = token_of(v, "cache_read_input_tokens");
    let write = token_of(v, "cache_creation_input_tokens");
    let r0 = match read {
        Some(x) => x,
        None => 0,
    };
    let w0 = match write {
        Some(x) => x,
        None => 0,
    };
    let total = input.saturating_add(output).saturating_add(r0).saturating_add(w0);
    Some(
        UsageInfo {
            input_tokens: input,
            output_tokens: output,
            cache_read_tokens: read,
            cache_write_tokens: write,
            reasoning_tokens: None,
            total_tokens: total,
        },
    )
}

/// Parses an Anthropic response body; see `anthropic_response` and
/// `anthropic_failure`.
pub fn parse_response(status: u16, body: &str, model: &str) -> (r: Result<NeutralChatResponse, ProxyError>)
    ensures
        status >= 400 ==> (r matches Err(e) && anthropic_failure(e, status, body@)),
        status < 400 ==> match json_parse_result(body@) {
            Err(m) => (r matches Err(e) && e.category == ErrorCategory::Internal && e.status_code
                == 500 && e.message@ == "Failed to parse Anthropic response: "@ + m),
            Ok(val) => (r matches Ok(resp) && anthropic_response(resp, val, model@)),
        },
{
    if status >= 400 {
        let category = classify_response_error(status, body);
        let mut buf: Vec<char> = Vec::new();
        push_str(&mut buf, "Anthropic upstream status ");
        push_decimal(&mut buf, status as u64);
        let message = string_from_chars(buf.as_slice());
        return Err(ProxyError::new(category, message.as_str(), status).with_upstream_body(body));
    }
    let val = match parse_json(body) {
        Ok(v) => v,
        Err(m) => {
            let mut buf: Vec<char> = Vec::new();
            push_str(&mut buf, "Failed to parse Anthropic response: ");
            push_str(&mut buf, m.as_str());
            let text = string_from_chars(buf.as_slice());
            return Err(ProxyError::new(ErrorCategory::Internal, text.as_str(), 500));
        },
    };
    let id = str_or_text(at(&val, "id"), "msg-id");
    let model_name = str_or_text(at(&val, "model"), model);
    let raw: Option<String> = match at(&val, "stop_reason") {
        Some(JsonValue::Str(r)) => Some(r.clone()),
        _ => None,
    };
    let finish_reason = match &raw {
        Some(r) => Some(normalize_finish_reason(r.as_str())),
        None => None,
    };
    let empty: Vec<JsonValue> = Vec::new();
    let items: &Vec<JsonValue> = match at(&val, "content") {
        Some(JsonValue::Array(c)) => c,
        _ => &empty,
    };
    let ghost iv = items_view(items@);
    proof {
        lemma_items_view(items@);
        if items@.len() == 0 {
            assert(iv =~= seq![]);
        }
        assert(iv == array_at(val@.at("content"@)));
        assert(iv.take(0) =~= seq![]);
    }
    let mut blocks: Vec<NeutralContentBlock> = Vec::new();
    assert(blocks_view(blocks@) =~= seq![]);
    let mut i: usize = 0;
    while i < items.len()
        invariant
            i <= items@.len(),
            iv == items_view(items@),
            iv.len() == items@.len(),
            forall|j: int| 0 <= j < items@.len() ==> #[trigger] iv[j] == items@[j]@,
            blocks_view(blocks@) == content_blocks(iv.take(i as int)),
        decreases items.len() - i,
    {
        proof {
            assert(iv.take(i as int + 1).drop_last() =~= iv.take(i as int));
        }
        let ghost before = blocks@;
        match convert_item(&items[i]) {
            Some(b) => {
                blocks.push(b);
                assert(blocks_view(blocks@) =~= blocks_view(before).push(blocks@.last()@));
            },
            None => {},
        }
        i += 1;
    }
    assert(iv.take(i as int) =~= iv);
    let usage = match at(&val, "usage") {
        Some(u) => usage_of(u),
        None => usage_of(&JsonValue::Null),
    };
    let choice = NeutralChoice { index: 0, blocks, finish_reason, raw_finish_reason: raw };
    let choices = vec![choice];
    Ok(NeutralChatResponse { id, model: model_name, choices, usage })
}

} // verus!
