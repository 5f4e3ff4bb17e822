//! Protocol-neutral responses, stream events and token usage.

use crate::domain::request::NeutralContentBlock;
use crate::text::opt_view;
use vstd::prelude::*;

verus! {

/// Token usage split into disjoint dimensions.
#[derive(Debug, Clone, Copy, PartialEq, Eq, Structural)]
pub struct UsageInfo {
    /// Non-cached input tokens.
    pub input_tokens: u32,
    /// Visible output tokens, excluding separately reported reasoning tokens.
    pub output_tokens: u32,
    pub cache_read_tokens: Option<u32>,
    pub cache_write_tokens: Option<u32>,
    pub reasoning_tokens: Option<u32>,
    pub total_tokens: u32,
}

pub open spec fn opt0(v: Option<u32>) -> int {
    match v {
        Some(x) => x as int,
        None => 0,
    }
}

pub open spec fn sat_u32(x: int) -> u32 {
    if x > u32::MAX {
        u32::MAX
    } else {
        x as u32
    }
}

/// The usage that aggregate totals describe: cache details are kept only
/// where they fit inside the prompt total, reasoning only where it fits
/// inside the completion total, and a reported total only where it is not
/// below prompt plus completion.
pub open spec fn usage_from_totals(
    prompt: u32,
    completion: u32,
    total: Option<u32>,
    cache_read: Option<u32>,
    cache_write: Option<u32>,
    reasoning: Option<u32>,
) -> UsageInfo {
    let details = opt0(cache_read) + opt0(cache_write);
    let details_fit = details <= u32::MAX && details <= prompt;
    let computed = sat_u32(prompt + completion);
    UsageInfo {
        input_tokens: if details_fit {
            (prompt - details) as u32
        } else {
            prompt
        },
        cache_read_tokens: if details_fit {
            cache_read
        } else {
            None
        },
        cache_write_tokens: if details_fit {
            cache_write
        } else {
            None
        },
        output_tokens: match reasoning {
            Some(r) if r <= completion => (completion - r) as u32,
            _ => completion,
        },
        reasoning_tokens: match reasoning {
            Some(r) if r <= completion => Some(r),
            _ => None,
        },
        total_tokens: match total {
            Some(t) if t >= computed => t,
            _ => computed,
        },
    }
}

impl UsageInfo {
    pub open spec fn spec_prompt_tokens(self) -> u32 {
        sat_u32(self.input_tokens + opt0(self.cache_read_tokens) + opt0(self.cache_write_tokens))
    }

    pub open spec fn spec_completion_tokens(self) -> u32 {
        sat_u32(self.output_tokens + opt0(self.reasoning_tokens))
    }

    pub fn from_aggregate_totals(
        prompt_tokens: u32,
        completion_tokens: u32,
        total_tokens: Option<u32>,
        cache_read_tokens: Option<u32>,
        cache_write_tokens: Option<u32>,
        reasoning_tokens: Option<u32>,
    ) -> (r: Self)
        ensures
            r == usage_from_totals(
                prompt_tokens,
                completion_tokens,
                total_tokens,
                cache_read_tokens,
                cache_write_tokens,
                reasoning_tokens,
            ),
    {
        let read = match cache_read_tokens {
            Some(v) => v as u64,
            None => 0,
        };
        let write = match cache_write_tokens {
            Some(v) => v as u64,
            None => 0,
        };
        let details = read + write;
        let (input_tokens, cache_read, cache_write) = if details <= u32::MAX as u64 && details
            <= prompt_tokens as u64 {
            ((prompt_tokens as u64 - details) as u32, cache_read_tokens, cache_write_tokens)
        } else {
            (prompt_tokens, None, None)
        };
        let (output_tokens, reasoning) = match reasoning_tokens {
            Some(r) => if r <= completion_tokens {
                (completion_tokens - r, Some(r))
            } else {
                (completion_tokens, None)
            },
            None => (completion_tokens, None),
        };
        let computed_total = prompt_tokens.saturating_add(completion_tokens);
        let total = match total_tokens {
            Some(t) => if t >= computed_total {
                t
            } else {
                computed_total
            },
            None => computed_total,
        };
        UsageInfo {
            input_tokens,
            output_tokens,
            cache_read_tokens: cache_read,
            cache_write_tokens: cache_write,
            reasoning_tokens: reasoning,
            total_tokens: total,
        }
    }

    /// Input tokens including cached ones.
    pub fn prompt_tokens(&self) -> (r: u32)
        ensures
            r == self.spec_prompt_tokens(),
    {
        let read = match self.cache_read_tokens {
            Some(v) => v,
            None => 0,
        };
        let write = match self.cache_write_tokens {
            Some(v) => v,
            None => 0,
        };
        self.input_tokens.saturating_add(read).saturating_add(write)
    }

    /// Output tokens including reasoning ones.
    pub fn completion_tokens(&self) -> (r: u32)
        ensures
            r == self.spec_completion_tokens(),
    {
        let reasoning = match self.reasoning_tokens {
            Some(v) => v,
            None => 0,
        };
        self.output_tokens.saturating_add(reasoning)
    }
}

/// Law: splitting aggregate totals into dimensions loses nothing. Adding
/// the dimensions back gives the prompt and completion totals, and the
/// total is never below their sum.
pub proof fn lemma_usage_split_round_trip(
    prompt: u32,
    completion: u32,
    total: Option<u32>,
    cache_read: Option<u32>,
    cache_write: Option<u32>,
    reasoning: Option<u32>,
)
    ensures
        ({
            let u = usage_from_totals(prompt, completion, total, cache_read, cache_write, reasoning);
            &&& u.spec_prompt_tokens() == prompt
            &&& u.spec_completion_tokens() == completion
            &&& u.total_tokens >= sat_u32(prompt + completion)
            &&& u.input_tokens <= prompt
            &&& u.output_tokens <= completion
        }),
{
}

#[derive(Debug, Clone, Copy, PartialEq, Eq, Structural)]
pub enum FinishReason {
    Stop,
    MaxTokens,
    ToolCall,
    ContentFilter,
    Other,
}

#[derive(Debug)]
pub struct NeutralChoice {
    pub index: u32,
    pub blocks: Vec<NeutralContentBlock>,
    pub finish_reason: Option<FinishReason>,
    pub raw_finish_reason: Option<String>,
}

#[derive(Debug)]
pub struct NeutralChatResponse {
    pub id: String,
    pub model: String,
    pub choices: Vec<NeutralChoice>,
    pub usage: Option<UsageInfo>,
}

#[derive(Debug)]
pub enum NeutralStreamEvent {
    ResponseStart { response_id: Option<String>, model: String },
    TextDelta { choice_index: u32, text: String },
    InlineData { choice_index: u32, mime_type: String, data_base64: String },
    ThinkingDelta { choice_index: u32, text: String },
    ThinkingSignature { choice_index: u32, signature: String },
    ToolCallStart { choice_index: u32, tool_call_index: u32, id: String, name: String },
    ToolCallArgumentsDelta { choice_index: u32, tool_call_index: u32, arguments_delta: String },
    ToolCallEnd { choice_index: u32, tool_call_index: u32 },
    Finish { choice_index: u32, reason: FinishReason, raw_finish_reason: Option<String> },
    ResponseEnd { usage: Option<UsageInfo> },
    Error { message: String, code: u16 },
}

/// The mathematical view of a stream event.
pub enum Event {
    ResponseStart { response_id: Option<Seq<char>>, model: Seq<char> },
    TextDelta { choice_index: u32, text: Seq<char> },
    InlineData { choice_index: u32, mime_type: Seq<char>, data_base64: Seq<char> },
    ThinkingDelta { choice_index: u32, text: Seq<char> },
    ThinkingSignature { choice_index: u32, signature: Seq<char> },
    ToolCallStart { choice_index: u32, tool_call_index: u32, id: Seq<char>, name: Seq<char> },
    ToolCallArgumentsDelta { choice_index: u32, tool_call_index: u32, arguments_delta: Seq<char> },
    ToolCallEnd { choice_index: u32, tool_call_index: u32 },
    Finish { choice_index: u32, reason: FinishReason, raw_finish_reason: Option<Seq<char>> },
    ResponseEnd { usage: Option<UsageInfo> },
    Error { message: Seq<char>, code: u16 },
}

impl View for NeutralStreamEvent {
    type V = Event;

    open spec fn view(&self) -> Event {
        match self {
            NeutralStreamEvent::ResponseStart { response_id, model } => Event::ResponseStart {
                response_id: opt_view(*response_id),
                model: model@,
            },
            NeutralStreamEvent::TextDelta { choice_index, text } => Event::TextDelta {
                choice_index: *choice_index,
                text: text@,
            },
            NeutralStreamEvent::InlineData { choice_index, mime_type, data_base64 } => Event::InlineData {
                choice_index: *choice_index,
                mime_type: mime_type@,
                data_base64: data_base64@,
            },
            NeutralStreamEvent::ThinkingDelta { choice_index, text } => Event::ThinkingDelta {
                choice_index: *choice_index,
                text: text@,
            },
            NeutralStreamEvent::ThinkingSignature { choice_index, signature } => Event::ThinkingSignature {
                choice_index: *choice_index,
                signature: signature@,
            },
            NeutralStreamEvent::ToolCallStart { choice_index, tool_call_index, id, name } => Event::ToolCallStart {
                choice_index: *choice_index,
                tool_call_index: *tool_call_index,
                id: id@,
                name: name@,
            },
            NeutralStreamEvent::ToolCallArgumentsDelta { choice_index, tool_call_index, arguments_delta } => {
                Event::ToolCallArgumentsDelta {
                    choice_index: *choice_index,
                    tool_call_index: *tool_call_index,
                    arguments_delta: arguments_delta@,
                }
            },
            NeutralStreamEvent::ToolCallEnd { choice_index, tool_call_index } => Event::ToolCallEnd {
                choice_index: *choice_index,
                tool_call_index: *tool_call_index,
            },
            NeutralStreamEvent::Finish { choice_index, reason, raw_finish_reason } => Event::Finish {
                choice_index: *choice_index,
                reason: *reason,
                raw_finish_reason: opt_view(*raw_finish_reason),
            },
            NeutralStreamEvent::ResponseEnd { usage } => Event::ResponseEnd { usage: *usage },
            NeutralStreamEvent::Error { message, code } => Event::Error { message: message@, code: *code },
        }
    }
}

pub open spec fn events_view(v: Seq<NeutralStreamEvent>) -> Seq<Event> {
    v.map_values(|e: NeutralStreamEvent| e@)
}

} // verus!
