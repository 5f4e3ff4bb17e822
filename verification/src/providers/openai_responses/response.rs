//! OpenAI Responses non-streaming responses.

use crate::domain::error::{ErrorCategory, ProxyError};
use crate::domain::request::{blocks_view, Block, NeutralContentBlock};
use crate::domain::response::{FinishReason, NeutralChatResponse, NeutralChoice};
use crate::json::{items_view, json_parse_result, lemma_items_view, parse_json, Json, JsonValue};
use crate::providers::gemini::response::{choice_view, ChoiceView};
use crate::providers::openai::response::str_or;
use crate::providers::openai::stream::{array_at, non_empty};
use crate::providers::openai_responses::{normalize_finish_reason, parse_usage, spec_finish_reason, spec_parse_usage};
use crate::text::{chars_eq_str, chars_of, decimal, owned, push_decimal, push_str, string_from_chars};
use vstd::prelude::*;

verus! {

/// The text block of a message part: non-empty output text or refusal.
pub open spec fn part_block(part: Json) -> Option<Block> {
    let t = str_or(part.at("type"@), seq![]);
    if t == "output_text"@ {
        match non_empty(part.at("text"@)) {
            Some(x) => Some(Block::Text(x)),
            None => None,
        }
    } else if t == "refusal"@ {
        match non_empty(part.at("refusal"@)) {
            Some(x) => Some(Block::Text(x)),
            None => None,
        }
    } else {
        None
    }
}

pub open spec fn part_blocks(parts: Seq<Json>) -> Seq<Block>
    decreases parts.len(),
{
    if parts.len() == 0 {
        seq![]
    } else {
        let b = part_blocks(parts.drop_last());
        match part_block(parts.last()) {
            Some(x) => b.push(x),
            None => b,
        }
    }
}

/// Every summary part with text becomes a thought.
pub open spec fn summary_blocks(parts: Seq<Json>) -> Seq<Block>
    decreases parts.len(),
{
    if parts.len() == 0 {
        seq![]
    } else {
        let b = summary_blocks(parts.drop_last());
        match parts.last().at("text"@) {
            Json::Str(x) => b.push(Block::Thinking { text: x, signature: None }),
            _ => b,
        }
    }
}

/// The blocks of one output item: message parts, reasoning summaries, or a
/// function call.
pub open spec fn item_blocks(item: Json) -> Seq<Block> {
    let t = str_or(item.at("type"@), seq![]);
    if t == "message"@ {
        part_blocks(array_at(item.at("content"@)))
    } else if t == "reasoning"@ {
        summary_blocks(array_at(item.at("summary"@)))
    } else if t == "function_call"@ {
        seq![
            Block::ToolCall {
                id: match item.at("call_id"@) {
                    Json::Str(x) => x,
                    _ => str_or(item.at("id"@), seq![]),
                },
                name: str_or(item.at("name"@), seq![]),
                arguments_json: str_or(item.at("arguments"@), "{}"@),
            },
        ]
    } else {
        seq![]
    }
}

pub open spec fn output_blocks(items: Seq<Json>) -> Seq<Block>
    decreases items.len(),
{
    if items.len() == 0 {
        seq![]
    } else {
        output_blocks(items.drop_last()) + item_blocks(items.last())
    }
}

pub open spec fn has_tool_call(blocks: Seq<Block>) -> bool {
    exists|i: int| 0 <= i < blocks.len() && #[trigger] blocks[i] is ToolCall
}

/// The raw finish reason: the incomplete reason, else the status, else
/// `completed`.
pub open spec fn raw_reason(v: Json) -> Seq<char> {
    match v.at("incomplete_details"@).at("reason"@) {
        Json::Str(r) => r,
        _ => str_or(v.at("status"@), "completed"@),
    }
}

pub open spec fn responses_response(resp: NeutralChatResponse, val: Json, model: Seq<char>) -> bool {
    let blocks = output_blocks(array_at(val.at("output"@)));
    let raw = raw_reason(val);
    &&& resp.id@ == str_or(val.at("id"@), "resp-id"@)
    &&& resp.model@ == str_or(val.at("model"@), model)
    &&& resp.choices@.len() == 1
    &&& choice_view(resp.choices@[0]) == (ChoiceView {
        index: 0,
        blocks,
        finish_reason: Some(
            if has_tool_call(blocks) {
                FinishReason::ToolCall
            } else {
                spec_finish_reason(raw)
            },
        ),
        raw_finish_reason: Some(raw),
    })
    &&& resp.usage == spec_parse_usage(val.at("usage"@))
}

pub open spec fn status_category(status: u16) -> ErrorCategory {
    if status == 401 || status == 403 {
        ErrorCategory::Authentication
    } else if status == 404 {
        ErrorCategory::ModelNotFound
    } else if status == 429 {
        ErrorCategory::RateLimit
    } else if 500 <= status <= 599 {
        ErrorCategory::UpstreamServerError
    } else {
        ErrorCategory::InvalidRequest
    }
}

/// The error a failed Responses request becomes.
pub open spec fn responses_failure(e: ProxyError, status: u16, body: Seq<char>) -> bool {
    &&& e.category == status_category(status)
    &&& e.message@ == "OpenAI Responses upstream status "@ + decimal(status as nat)
    &&& e.status_code == status
    &&& e.upstream_body matches Some(b) && b@ == body
}

fn at<'a>(v: &'a JsonValue, key: &str) -> (r: Option<&'a JsonValue>)
    ensures
        r matches Some(x) ==> v@.at(key@) == x@,
        r is None ==> v@.at(key@) == Json::Null,
{
    v.get(key)
}

fn str_or_text(v: Option<&JsonValue>, default: &str) -> (r: String)
    ensures
        r@ == str_or(
            match v {
                Some(x) => x@,
                None => Json::Null,
            },
            default@,
        ),
{
    match v {
        Some(JsonValue::Str(s)) => s.clone(),
        _ => owned(default),
    }
}

fn array_of<'a>(v: Option<&'a JsonValue>, empty: &'a Vec<JsonValue>) -> (r: &'a Vec<JsonValue>)
    requires
        empty@.len() == 0,
    ensures
        items_view(r@) == array_at(
            match v {
                Some(x) => x@,
                None => Json::Null,
            },
        ),
{
    match v {
        Some(JsonValue::Array(items)) => items,
        _ => {
            assert(items_view(empty@) =~= seq![]);
            empty
        },
    }
}

fn item_blocks_of(item: &JsonValue, blocks: &mut Vec<NeutralContentBlock>)
    ensures
        blocks_view(final(blocks)@) == blocks_view(old(blocks)@) + item_blocks(item@),
{
    proof {
        reveal_strlit("");
        assert(""@ =~= Seq::<char>::empty());
    }
    let ghost b0 = blocks_view(blocks@);
    let t = str_or_text(at(item, "type"), "");
    let tc = chars_of(t.as_str());
    let empty: Vec<JsonValue> = Vec::new();
    if chars_eq_str(tc.as_slice(), "message") {
        let parts = array_of(at(item, "content"), &empty);
        let ghost pv = items_view(parts@);
        proof {
            lemma_items_view(parts@);
            assert(pv.take(0) =~= seq![]);
        }
        let mut i: usize = 0;
        while i < parts.len()
            invariant
                i <= parts@.len(),
                pv == items_view(parts@),
                pv.len() == parts@.len(),
                forall|j: int| 0 <= j < parts@.len() ==> #[trigger] pv[j] == parts@[j]@,
                blocks_view(blocks@) == b0 + part_blocks(pv.take(i as int)),
            decreases parts.len() - i,
        {
            proof {
                assert(pv.take(i as int + 1).drop_last() =~= pv.take(i as int));
            }
            let part = &parts[i];
            let ghost before_all = blocks_view(blocks@);
            proof {
                assert(pv[i as int] == part@);
                reveal_strlit("output_text");
                reveal_strlit("refusal");
                reveal_strlit("text");
                reveal_strlit("");
                assert(""@ =~= Seq::<char>::empty());
            }
            let pt = str_or_text(at(part, "type"), "");
            let ptc = chars_of(pt.as_str());
            let found = if chars_eq_str(ptc.as_slice(), "output_text") {
                at(part, "text")
            } else if chars_eq_str(ptc.as_slice(), "refusal") {
                at(part, "refusal")
            } else {
                None
            };
            let ghost fv = match found {
                Some(x) => Some(x@),
                None => None,
            };
            assert(part_block(part@) == match fv {
                Some(Json::Str(x)) => if x.len() > 0 {
                    Some(Block::Text(x))
                } else {
                    None
                },
                _ => None,
            });
            match found {
                Some(JsonValue::Str(x)) => {
                    if chars_of(x.as_str()).len() > 0 {
                        let ghost before = blocks@;
                        blocks.push(NeutralContentBlock::Text(x.clone()));
                        assert(blocks_view(blocks@) =~= blocks_view(before).push(blocks@.last()@));
                    }
                },
                _ => {},
            }
            assert(blocks_view(blocks@) =~= match part_block(part@) {
                Some(x) => before_all.push(x),
                None => before_all,
            });
            i += 1;
        }
        assert(pv.take(i as int) =~= pv);
    } else if chars_eq_str(tc.as_slice(), "reasoning") {
        let parts = array_of(at(item, "summary"), &empty);
        let ghost pv = items_view(parts@);
        proof {
            lemma_items_view(parts@);
            assert(pv.take(0) =~= seq![]);
        }
        let mut i: usize = 0;
        while i < parts.len()
            invariant
                i <= parts@.len(),
                pv == items_view(parts@),
                pv.len() == parts@.len(),
                forall|j: int| 0 <= j < parts@.len() ==> #[trigger] pv[j] == parts@[j]@,
                blocks_view(blocks@) == b0 + summary_blocks(pv.take(i as int)),
            decreases parts.len() - i,
        {
            proof {
                assert(pv.take(i as int + 1).drop_last() =~= pv.take(i as int));
            }
            match at(&parts[i], "text") {
                Some(JsonValue::Str(x)) => {
                    let ghost before = blocks@;
                    blocks.push(NeutralContentBlock::Thinking { text: x.clone(), signature: None });
                    assert(blocks_view(blocks@) =~= blocks_view(before).push(blocks@.last()@));
                },
                _ => {},
            }
            i += 1;
        }
        assert(pv.take(i as int) =~= pv);
    } else if chars_eq_str(tc.as_slice(), "function_call") {
        let id = match at(item, "call_id") {
            Some(JsonValue::Str(x)) => x.clone(),
            _ => str_or_text(at(item, "id"), ""),
        };
        let name = str_or_text(at(item, "name"), "");
        let arguments_json = str_or_text(at(item, "arguments"), "{}");
        let ghost before = blocks@;
        blocks.push(NeutralContentBlock::ToolCall { id, name, arguments_json });
        assert(blocks_view(blocks@) =~= blocks_view(before) + seq![blocks@.last()@]);
    } else {
        assert(blocks_view(blocks@) =~= b0 + Seq::<Block>::empty());
    }
}

fn any_tool_call(blocks: &Vec<NeutralContentBlock>) -> (r: bool)
    ensures
        r == has_tool_call(blocks_view(blocks@)),
{
    let ghost bv = blocks_view(blocks@);
    let mut i: usize = 0;
    while i < blocks.len()
        invariant
            i <= blocks@.len(),
            bv == blocks_view(blocks@),
            bv.len() == blocks@.len(),
            forall|j: int| 0 <= j < i ==> !(#[trigger] bv[j] is ToolCall),
        decreases blocks.len() - i,
    {
        assert(bv[i as int] == blocks@[i as int]@);
        if let NeutralContentBlock::ToolCall { .. } = &blocks[i] {
            return true;
        }
        i += 1;
    }
    false
}

/// Parses a Responses response body; see `responses_response` and
/// `responses_failure`.
pub fn parse_response(status: u16, body: &str, model: &str) -> (r: Result<NeutralChatResponse, ProxyError>)
    ensures
        status >= 400 ==> (r matches Err(e) && responses_failure(e, status, body@)),
        status < 400 ==> match json_parse_result(body@) {
            Err(m) => (r matches Err(e) && e.category == ErrorCategory::Internal && e.status_code
                == 500 && e.message@ == "Failed to parse OpenAI Responses JSON response: "@ + m),
            Ok(val) => (r matches Ok(resp) && responses_response(resp, val, model@)),
        },
{
    if status >= 400 {
        let category = if status == 401 || status == 403 {
            ErrorCategory::Authentication
        } else if status == 404 {
            ErrorCategory::ModelNotFound
        } else if status == 429 {
            ErrorCategory::RateLimit
        } else if 500 <= status && status <= 599 {
            ErrorCategory::UpstreamServerError
        } else {
            ErrorCategory::InvalidRequest
        };
        let mut buf: Vec<char> = Vec::new();
        push_str(&mut buf, "OpenAI Responses upstream status ");
        push_decimal(&mut buf, status as u64);
        let message = string_from_chars(buf.as_slice());
        return Err(ProxyError::new(category, message.as_str(), status).with_upstream_body(body));
    }
    let val = match parse_json(body) {
        Ok(v) => v,
        Err(m) => {
            let mut buf: Vec<char> = Vec::new();
            push_str(&mut buf, "Failed to parse OpenAI Responses JSON response: ");
            push_str(&mut buf, m.as_str());
            let text = string_from_chars(buf.as_slice());
            return Err(ProxyError::new(ErrorCategory::Internal, text.as_str(), 500));
        },
    };
    let empty: Vec<JsonValue> = Vec::new();
    let items = array_of(at(&val, "output"), &empty);
    let ghost iv = items_view(items@);
    proof {
        lemma_items_view(items@);
        assert(iv.take(0) =~= seq![]);
    }
    let mut blocks: Vec<NeutralContentBlock> = Vec::new();
    assert(blocks_view(blocks@) =~= seq![]);
    let mut i: usize = 0;
    while i < items.len()
        invariant
            i <= items@.len(),
            iv == items_view(items@),
            iv.len() == items@.len(),
            forall|j: int| 0 <= j < items@.len() ==> #[trigger] iv[j] == items@[j]@,
            blocks_view(blocks@) == output_blocks(iv.take(i as int)),
        decreases items.len() - i,
    {
        proof {
            assert(iv.take(i as int + 1).drop_last() =~= iv.take(i as int));
        }
        item_blocks_of(&items[i], &mut blocks);
        i += 1;
    }
    assert(iv.take(i as int) =~= iv);
    let status_text = str_or_text(at(&val, "status"), "completed");
    let raw = match at(&val, "incomplete_details") {
        Some(d) => match at(d, "reason") {
            Some(JsonValue::Str(r)) => r.clone(),
            _ => status_text,
        },
        None => status_text,
    };
    let finish = if any_tool_call(&blocks) {
        FinishReason::ToolCall
    } else {
        normalize_finish_reason(raw.as_str())
    };
    let id = str_or_text(at(&val, "id"), "resp-id");
    let model_name = str_or_text(at(&val, "model"), model);
    let usage = match at(&val, "usage") {
        Some(u) => parse_usage(u),
        None => parse_usage(&JsonValue::Null),
    };
    let choice = NeutralChoice { index: 0, blocks, finish_reason: Some(finish), raw_finish_reason: Some(raw) };
    Ok(NeutralChatResponse { id, model: model_name, choices: vec![choice], usage })
}

} // verus!
