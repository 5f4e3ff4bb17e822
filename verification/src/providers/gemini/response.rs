//! Gemini non-streaming responses.

use crate::domain::error::{ErrorCategory, ProxyError};
use crate::domain::request::{blocks_view, Block, NeutralContentBlock};
use crate::domain::response::{FinishReason, NeutralChatResponse, NeutralChoice, UsageInfo};
use crate::json::{json_parse_result, json_text, parse_json, to_json_text, Json, JsonNum, JsonNumber, JsonValue};
use crate::providers::error::{
    classify_response_error, spec_classify_response_error, spec_has_context_length_error,
    spec_upstream_error_message, upstream_error_message,
};
use crate::providers::gemini::stream::{call_id, choice_index, inline_member, inline_mime, str_member_or};
use crate::providers::gemini::{normalize_finish_reason, parse_usage, spec_finish_reason, spec_parse_usage};
use crate::text::{chars_of, decimal, opt_view, owned, push_decimal, push_str, string_from_chars};
use vstd::prelude::*;

verus! {

/// The mathematical view of a choice.
pub struct ChoiceView {
    pub index: u32,
    pub blocks: Seq<Block>,
    pub finish_reason: Option<FinishReason>,
    pub raw_finish_reason: Option<Seq<char>>,
}

pub open spec fn choice_view(c: NeutralChoice) -> ChoiceView {
    ChoiceView {
        index: c.index,
        blocks: blocks_view(c.blocks@),
        finish_reason: c.finish_reason,
        raw_finish_reason: opt_view(c.raw_finish_reason),
    }
}

pub open spec fn choices_view(v: Seq<NeutralChoice>) -> Seq<ChoiceView> {
    v.map_values(|c: NeutralChoice| choice_view(c))
}

/// The block a part of a Gemini response holds, if any.
pub open spec fn response_part_block(part: Json, p: int, q: int) -> Option<Block> {
    if part.get("thought"@) == Some(Json::Bool(true)) {
        let text = str_member_or(part, "text"@, Seq::empty());
        let signature = match part.at("thoughtSignature"@) {
            Json::Str(s) => Some(s),
            _ => None,
        };
        if text.len() > 0 || signature is Some {
            Some(Block::Thinking { text, signature })
        } else {
            None
        }
    } else if part.at("text"@) is Str {
        Some(Block::Text(part.at("text"@)->Str_0))
    } else if inline_member(part) is Some {
        let inline = inline_member(part)->0;
        let data = str_member_or(inline, "data"@, Seq::empty());
        if data.len() > 0 {
            Some(Block::InlineData { mime_type: inline_mime(inline), data_base64: data })
        } else {
            None
        }
    } else if part.get("functionCall"@) is Some {
        let fc = part.get("functionCall"@)->0;
        let id = match fc.at("id"@) {
            Json::Str(s) => if s.len() > 0 {
                s
            } else {
                "call_"@ + decimal(p as nat) + "_"@ + decimal(q as nat)
            },
            _ => "call_"@ + decimal(p as nat) + "_"@ + decimal(q as nat),
        };
        Some(
            Block::ToolCall {
                id,
                name: str_member_or(fc, "name"@, Seq::empty()),
                arguments_json: json_text(fc.at("args"@)),
            },
        )
    } else {
        None
    }
}

pub open spec fn response_blocks(parts: Seq<Json>, p: int) -> Seq<Block>
    decreases parts.len(),
{
    if parts.len() == 0 {
        Seq::empty()
    } else {
        let rest = response_blocks(parts.drop_last(), p);
        match response_part_block(parts.last(), p, parts.len() - 1) {
            Some(b) => rest.push(b),
            None => rest,
        }
    }
}

pub open spec fn response_parts(candidate: Json) -> Seq<Json> {
    match candidate.at("content"@).at("parts"@) {
        Json::Array(parts) => parts,
        _ => Seq::empty(),
    }
}

pub open spec fn response_choice(candidate: Json, p: int) -> ChoiceView {
    let raw = match candidate.at("finishReason"@) {
        Json::Str(r) => Some(r),
        _ => None,
    };
    ChoiceView {
        index: choice_index(candidate, p),
        blocks: response_blocks(response_parts(candidate), p),
        finish_reason: match raw {
            Some(r) => Some(spec_finish_reason(r)),
            None => None,
        },
        raw_finish_reason: raw,
    }
}

pub open spec fn response_choices(cands: Seq<Json>) -> Seq<ChoiceView>
    decreases cands.len(),
{
    if cands.len() == 0 {
        Seq::empty()
    } else {
        response_choices(cands.drop_last()).push(response_choice(cands.last(), cands.len() - 1))
    }
}

/// The error a failed Gemini response becomes.
pub open spec fn upstream_failure(e: ProxyError, status: u16, body: Seq<char>, provider: Seq<char>) -> bool {
    &&& e.category == spec_classify_response_error(status, spec_has_context_length_error(body))
    &&& e.message@ == spec_upstream_error_message(provider, status, body)
    &&& e.status_code == status
    &&& e.upstream_body matches Some(b) && b@ == body
}

/// A successful Gemini response becomes `resp`: one choice per candidate,
/// usage from `usageMetadata`.
pub open spec fn gemini_response(resp: NeutralChatResponse, val: Json, model: Seq<char>) -> bool {
    let cands = match val.at("candidates"@) {
        Json::Array(c) => c,
        _ => Seq::empty(),
    };
    &&& resp.id@ == "gemini-resp"@
    &&& resp.model@ == model
    &&& choices_view(resp.choices@) == response_choices(cands)
    &&& resp.usage == match val.get("usageMetadata"@) {
        Some(u) => spec_parse_usage(u, None),
        None => None,
    }
}

fn response_part(part: &JsonValue, p: usize, q: usize) -> (r: Option<NeutralContentBlock>)
    ensures
        r matches Some(b) ==> response_part_block(part@, p as int, q as int) == Some(b@),
        r is None ==> response_part_block(part@, p as int, q as int) is None,
{
    proof {
        reveal_strlit("");
        assert(""@ =~= Seq::<char>::empty());
    }
    match part.get("thought") {
        Some(JsonValue::Bool(true)) => {
            let text = str_member_or_text(part, "text");
            let signature = match part.get("thoughtSignature") {
                Some(JsonValue::Str(s)) => Some(s.clone()),
                _ => None,
            };
            if chars_of(text.as_str()).len() > 0 || signature.is_some() {
                return Some(NeutralContentBlock::Thinking { text, signature });
            }
            return None;
        },
        _ => {},
    }
    if let Some(JsonValue::Str(t)) = part.get("text") {
        return Some(NeutralContentBlock::Text(t.clone()));
    }
    let inline = match part.get("inlineData") {
        Some(x) => Some(x),
        None => part.get("inline_data"),
    };
    if let Some(inl) = inline {
        let data = str_member_or_text(inl, "data");
        if chars_of(data.as_str()).len() > 0 {
            let m = match inl.get("mimeType") {
                Some(x) => Some(x),
                None => inl.get("mime_type"),
            };
            let mime_type = match m {
                Some(JsonValue::Str(s)) => s.clone(),
                _ => owned("image/png"),
            };
            return Some(NeutralContentBlock::InlineData { mime_type, data_base64: data });
        }
        return None;
    }
    if let Some(fc) = part.get("functionCall") {
        let name = str_member_or_text(fc, "name");
        let arguments_json = match fc.get("args") {
            Some(v) => to_json_text(v),
            None => to_json_text(&JsonValue::Null),
        };
        let id = match fc.get("id") {
            Some(JsonValue::Str(s)) => if chars_of(s.as_str()).len() > 0 {
                s.clone()
            } else {
                position_id(p, q)
            },
            _ => position_id(p, q),
        };
        return Some(NeutralContentBlock::ToolCall { id, name, arguments_json });
    }
    None
}

fn position_id(p: usize, q: usize) -> (r: String)
    ensures
        r@ == "call_"@ + decimal(p as nat) + "_"@ + decimal(q as nat),
{
    let mut buf: Vec<char> = Vec::new();
    push_str(&mut buf, "call_");
    push_decimal(&mut buf, p as u64);
    push_str(&mut buf, "_");
    push_decimal(&mut buf, q as u64);
    string_from_chars(buf.as_slice())
}

fn str_member_or_text(v: &JsonValue, key: &str) -> (r: String)
    ensures
        r@ == str_member_or(v@, key@, Seq::empty()),
{
    match v.get(key) {
        Some(JsonValue::Str(s)) => s.clone(),
        _ => {
            let e = owned("");
            proof {
                reveal_strlit("");
                assert(""@ =~= Seq::<char>::empty());
            }
            e
        },
    }
}

fn response_candidate(candidate: &JsonValue, p: usize) -> (r: NeutralChoice)
    ensures
        choice_view(r) == response_choice(candidate@, p as int),
{
    let index: u32 = match candidate.get("index") {
        Some(JsonValue::Number(JsonNumber::Unsigned(u))) => if *u <= u32::MAX as u64 {
            *u as u32
        } else {
            p as u32
        },
        _ => p as u32,
    };
    let raw: Option<String> = match candidate.get("finishReason") {
        Some(JsonValue::Str(r)) => Some(r.clone()),
        _ => None,
    };
    let finish_reason = match &raw {
        Some(r) => Some(normalize_finish_reason(r.as_str())),
        None => None,
    };
    let empty: Vec<JsonValue> = Vec::new();
    let parts: &Vec<JsonValue> = match candidate.get("content") {
        Some(c) => match c.get("parts") {
            Some(JsonValue::Array(ps)) => ps,
            _ => &empty,
        },
        None => &empty,
    };
    let ghost pv = crate::json::items_view(parts@);
    proof {
        crate::json::lemma_items_view(parts@);
        assert(pv == response_parts(candidate@)) by {
            if parts@.len() == 0 {
                assert(pv =~= Seq::<Json>::empty());
            }
        }
        assert(pv.take(0) =~= Seq::<Json>::empty());
    }
    let mut blocks: Vec<NeutralContentBlock> = Vec::new();
    assert(blocks_view(blocks@) =~= Seq::empty());
    let mut q: usize = 0;
    while q < parts.len()
        invariant
            q <= parts@.len(),
            pv == crate::json::items_view(parts@),
            pv.len() == parts@.len(),
            forall|j: int| 0 <= j < parts@.len() ==> #[trigger] pv[j] == parts@[j]@,
            blocks_view(blocks@) == response_blocks(pv.take(q as int), p as int),
        decreases parts.len() - q,
    {
        proof {
            assert(pv.take(q as int + 1).drop_last() =~= pv.take(q as int));
        }
        let ghost before = blocks@;
        match response_part(&parts[q], p, q) {
            Some(b) => {
                blocks.push(b);
                assert(blocks_view(blocks@) =~= blocks_view(before).push(blocks@.last()@));
            },
            None => {},
        }
        q += 1;
    }
    proof {
        assert(pv.take(q as int) =~= pv);
    }
    NeutralChoice { index, blocks, finish_reason, raw_finish_reason: raw }
}

/// Parses a Gemini `generateContent` response; see `gemini_response` and
/// `upstream_failure`.
pub fn parse_response(status: u16, body: &str, model: &str) -> (r: Result<NeutralChatResponse, ProxyError>)
    ensures
        status >= 400 ==> (r matches Err(e) && upstream_failure(e, status, body@, "Gemini"@)),
        status < 400 ==> match json_parse_result(body@) {
            Err(m) => (r matches Err(e) && e.category == ErrorCategory::Internal && e.status_code
                == 500 && e.message@ == "Failed to parse Gemini response: "@ + m),
            Ok(val) => (r matches Ok(resp) && gemini_response(resp, val, model@)),
        },
{
    if status >= 400 {
        let category = classify_response_error(status, body);
        let message = upstream_error_message("Gemini", status, body);
        return Err(ProxyError::new(category, message.as_str(), status).with_upstream_body(body));
    }
    let val = match parse_json(body) {
        Ok(v) => v,
        Err(m) => {
            let mut buf: Vec<char> = Vec::new();
            push_str(&mut buf, "Failed to parse Gemini response: ");
            push_str(&mut buf, m.as_str());
            let text = string_from_chars(buf.as_slice());
            return Err(ProxyError::new(ErrorCategory::Internal, text.as_str(), 500));
        },
    };
    let empty: Vec<JsonValue> = Vec::new();
    let cands: &Vec<JsonValue> = match val.get("candidates") {
        Some(JsonValue::Array(c)) => c,
        _ => &empty,
    };
    let ghost cv = crate::json::items_view(cands@);
    proof {
        crate::json::lemma_items_view(cands@);
        assert(cv == match val@.at("candidates"@) {
            Json::Array(c) => c,
            _ => Seq::<Json>::empty(),
        }) by {
            if cands@.len() == 0 {
                assert(cv =~= Seq::<Json>::empty());
            }
        }
        assert(cv.take(0) =~= Seq::<Json>::empty());
    }
    let mut choices: Vec<NeutralChoice> = Vec::new();
    assert(choices_view(choices@) =~= Seq::empty());
    let mut p: usize = 0;
    while p < cands.len()
        invariant
            p <= cands@.len(),
            cv == crate::json::items_view(cands@),
            cv.len() == cands@.len(),
            forall|j: int| 0 <= j < cands@.len() ==> #[trigger] cv[j] == cands@[j]@,
            choices_view(choices@) == response_choices(cv.take(p as int)),
        decreases cands.len() - p,
    {
        proof {
            assert(cv.take(p as int + 1).drop_last() =~= cv.take(p as int));
        }
        let ghost before = choices@;
        let c = response_candidate(&cands[p], p);
        choices.push(c);
        assert(choices_view(choices@) =~= choices_view(before).push(choice_view(choices@.last())));
        p += 1;
    }
    proof {
        assert(cv.take(p as int) =~= cv);
    }
    let usage = match val.get("usageMetadata") {
        Some(u) => parse_usage(u, None),
        None => None,
    };
    Ok(NeutralChatResponse { id: owned("gemini-resp"), model: owned(model), choices, usage })
}

} // verus!
