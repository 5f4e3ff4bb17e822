//! Protocol-neutral chat requests and MIME helpers.

use crate::domain::definition::ModelModality;
use crate::domain::provider::ParameterOverrides;
use crate::domain::reasoning::ReasoningLevel;
use crate::json::{Json, JsonValue};
use crate::text::{
    chars_eq_str, chars_of, eq_ignore_ascii_case, opt_view, eq_ignore_case, lower, starts_with,
    starts_with_str, to_lower, trim, trim_chars,
};
use vstd::prelude::*;

verus! {

/// The OpenAI `input_audio` format for an audio MIME type.
pub open spec fn spec_audio_format(m: Seq<char>) -> Option<Seq<char>> {
    if eq_ignore_case(m, "audio/wav"@) || eq_ignore_case(m, "audio/x-wav"@) {
        Some("wav"@)
    } else if eq_ignore_case(m, "audio/mpeg"@) || eq_ignore_case(m, "audio/mp3"@) {
        Some("mp3"@)
    } else {
        None
    }
}

pub fn openai_input_audio_format(mime_type: &str) -> (r: Option<&'static str>)
    ensures
        r matches Some(f) ==> spec_audio_format(mime_type@) == Some(f@),
        r is None ==> spec_audio_format(mime_type@) is None,
{
    let m = chars_of(mime_type);
    if eq_ignore_ascii_case(m.as_slice(), chars_of("audio/wav").as_slice())
        || eq_ignore_ascii_case(m.as_slice(), chars_of("audio/x-wav").as_slice()) {
        Some("wav")
    } else if eq_ignore_ascii_case(m.as_slice(), chars_of("audio/mpeg").as_slice())
        || eq_ignore_ascii_case(m.as_slice(), chars_of("audio/mp3").as_slice()) {
        Some("mp3")
    } else {
        None
    }
}

/// The input modality of a MIME type: images, audio (including
/// `video/audio/*`), video, and everything else as documents.
pub open spec fn spec_input_modality(m: Seq<char>) -> ModelModality {
    let n = lower(trim(m));
    if starts_with(n, "image/"@) {
        ModelModality::Image
    } else if starts_with(n, "audio/"@) || starts_with(n, "video/audio/"@) {
        ModelModality::Audio
    } else if starts_with(n, "video/"@) {
        ModelModality::Video
    } else {
        ModelModality::Document
    }
}

fn normalized_mime(mime_type: &str) -> (r: Vec<char>)
    ensures
        r@ == lower(trim(mime_type@)),
{
    let m = chars_of(mime_type);
    let t = trim_chars(m.as_slice());
    to_lower(t.as_slice())
}

pub fn input_modality_for_mime_type(mime_type: &str) -> (r: ModelModality)
    ensures
        r == spec_input_modality(mime_type@),
{
    let n = normalized_mime(mime_type);
    if starts_with_str(n.as_slice(), "image/") {
        ModelModality::Image
    } else if starts_with_str(n.as_slice(), "audio/") || starts_with_str(n.as_slice(), "video/audio/") {
        ModelModality::Audio
    } else if starts_with_str(n.as_slice(), "video/") {
        ModelModality::Video
    } else {
        ModelModality::Document
    }
}

/// File names given to inline data by MIME type (trimmed, lower-cased).
pub open spec fn spec_inline_filename(m: Seq<char>) -> Seq<char> {
    let n = lower(trim(m));
    if n == "application/pdf"@ {
        "input.pdf"@
    } else if n == "application/json"@ {
        "input.json"@
    } else if n == "application/rtf"@ || n == "text/rtf"@ {
        "input.rtf"@
    } else if n == "application/x-ipynb+json"@ {
        "input.ipynb"@
    } else if n == "application/x-javascript"@ || n == "text/javascript"@ {
        "input.js"@
    } else if n == "application/x-python-code"@ || n == "text/x-python"@ || n == "text/x-python-script"@ {
        "input.py"@
    } else if n == "application/x-typescript"@ || n == "text/x-typescript"@ {
        "input.ts"@
    } else if n == "text/css"@ {
        "input.css"@
    } else if n == "text/csv"@ {
        "input.csv"@
    } else if n == "text/html"@ {
        "input.html"@
    } else if n == "text/markdown"@ {
        "input.md"@
    } else if n == "text/plain"@ {
        "input.txt"@
    } else if n == "text/xml"@ {
        "input.xml"@
    } else if n == "audio/wav"@ || n == "audio/x-wav"@ {
        "input.wav"@
    } else if n == "audio/mpeg"@ || n == "audio/mp3"@ {
        "input.mp3"@
    } else if n == "audio/webm"@ || n == "audio/webm;codecs=opus"@ {
        "input.webm"@
    } else if n == "audio/flac"@ {
        "input.flac"@
    } else if n == "video/audio/s16le"@ {
        "input.pcm"@
    } else if n == "video/audio/wav"@ {
        "input.wav"@
    } else if n == "video/jpeg2000"@ || n == "video/videoframe/jpeg2000"@ {
        "input.j2k"@
    } else if n == "video/mp4"@ {
        "input.mp4"@
    } else if n == "video/text/timestamp"@ {
        "input.txt"@
    } else if n == "video/webm"@ {
        "input.webm"@
    } else {
        "input.bin"@
    }
}

pub fn inline_data_filename(mime_type: &str) -> (r: &'static str)
    ensures
        r@ == spec_inline_filename(mime_type@),
{
    let n = normalized_mime(mime_type);
    let s = n.as_slice();
    if chars_eq_str(s, "application/pdf") {
        "input.pdf"
    } else if chars_eq_str(s, "application/json") {
        "input.json"
    } else if chars_eq_str(s, "application/rtf") || chars_eq_str(s, "text/rtf") {
        "input.rtf"
    } else if chars_eq_str(s, "application/x-ipynb+json") {
        "input.ipynb"
    } else if chars_eq_str(s, "application/x-javascript") || chars_eq_str(s, "text/javascript") {
        "input.js"
    } else if chars_eq_str(s, "application/x-python-code") || chars_eq_str(s, "text/x-python")
        || chars_eq_str(s, "text/x-python-script") {
        "input.py"
    } else if chars_eq_str(s, "application/x-typescript") || chars_eq_str(s, "text/x-typescript") {
        "input.ts"
    } else if chars_eq_str(s, "text/css") {
        "input.css"
    } else if chars_eq_str(s, "text/csv") {
        "input.csv"
    } else if chars_eq_str(s, "text/html") {
        "input.html"
    } else if chars_eq_str(s, "text/markdown") {
        "input.md"
    } else if chars_eq_str(s, "text/plain") {
        "input.txt"
    } else if chars_eq_str(s, "text/xml") {
        "input.xml"
    } else if chars_eq_str(s, "audio/wav") || chars_eq_str(s, "audio/x-wav") {
        "input.wav"
    } else if chars_eq_str(s, "audio/mpeg") || chars_eq_str(s, "audio/mp3") {
        "input.mp3"
    } else if chars_eq_str(s, "audio/webm") || chars_eq_str(s, "audio/webm;codecs=opus") {
        "input.webm"
    } else if chars_eq_str(s, "audio/flac") {
        "input.flac"
    } else if chars_eq_str(s, "video/audio/s16le") {
        "input.pcm"
    } else if chars_eq_str(s, "video/audio/wav") {
        "input.wav"
    } else if chars_eq_str(s, "video/jpeg2000") || chars_eq_str(s, "video/videoframe/jpeg2000") {
        "input.j2k"
    } else if chars_eq_str(s, "video/mp4") {
        "input.mp4"
    } else if chars_eq_str(s, "video/text/timestamp") {
        "input.txt"
    } else if chars_eq_str(s, "video/webm") {
        "input.webm"
    } else {
        "input.bin"
    }
}

#[derive(Debug, Clone, Copy, PartialEq, Eq, Structural)]
pub enum MessageRole {
    System,
    User,
    Assistant,
    Tool,
}

#[derive(Debug)]
pub enum NeutralContentBlock {
    Text(String),
    /// Inline binary content; protocol adapters check which MIME types they accept.
    InlineData { mime_type: String, data_base64: String },
    ToolCall { id: String, name: String, arguments_json: String },
    ToolResult { tool_call_id: String, name: Option<String>, content: String },
    Thinking { text: String, signature: Option<String> },
}

/// The mathematical view of a content block.
pub enum Block {
    Text(Seq<char>),
    InlineData { mime_type: Seq<char>, data_base64: Seq<char> },
    ToolCall { id: Seq<char>, name: Seq<char>, arguments_json: Seq<char> },
    ToolResult { tool_call_id: Seq<char>, name: Option<Seq<char>>, content: Seq<char> },
    Thinking { text: Seq<char>, signature: Option<Seq<char>> },
}

impl View for NeutralContentBlock {
    type V = Block;

    open spec fn view(&self) -> Block {
        match self {
            NeutralContentBlock::Text(t) => Block::Text(t@),
            NeutralContentBlock::InlineData { mime_type, data_base64 } => Block::InlineData {
                mime_type: mime_type@,
                data_base64: data_base64@,
            },
            NeutralContentBlock::ToolCall { id, name, arguments_json } => Block::ToolCall {
                id: id@,
                name: name@,
                arguments_json: arguments_json@,
            },
            NeutralContentBlock::ToolResult { tool_call_id, name, content } => Block::ToolResult {
                tool_call_id: tool_call_id@,
                name: opt_view(*name),
                content: content@,
            },
            NeutralContentBlock::Thinking { text, signature } => Block::Thinking {
                text: text@,
                signature: opt_view(*signature),
            },
        }
    }
}

pub open spec fn blocks_view(b: Seq<NeutralContentBlock>) -> Seq<Block> {
    b.map_values(|x: NeutralContentBlock| x@)
}

#[derive(Debug)]
pub struct NeutralMessage {
    pub role: MessageRole,
    pub blocks: Vec<NeutralContentBlock>,
}

/// The mathematical view of a message.
pub struct Message {
    pub role: MessageRole,
    pub blocks: Seq<Block>,
}

impl View for NeutralMessage {
    type V = Message;

    open spec fn view(&self) -> Message {
        Message { role: self.role, blocks: blocks_view(self.blocks@) }
    }
}

pub open spec fn messages_view(m: Seq<NeutralMessage>) -> Seq<Message> {
    m.map_values(|x: NeutralMessage| x@)
}

#[derive(Debug)]
pub struct NeutralToolFunction {
    pub name: String,
    pub description: Option<String>,
    pub parameters_schema: JsonValue,
}

#[derive(Debug)]
pub struct NeutralTool {
    pub function: NeutralToolFunction,
}

/// The mathematical view of a tool declaration.
pub struct ToolDecl {
    pub name: Seq<char>,
    pub description: Option<Seq<char>>,
    pub parameters: Json,
}

impl View for NeutralTool {
    type V = ToolDecl;

    open spec fn view(&self) -> ToolDecl {
        ToolDecl {
            name: self.function.name@,
            description: opt_view(self.function.description),
            parameters: self.function.parameters_schema@,
        }
    }
}

pub open spec fn tools_view(t: Seq<NeutralTool>) -> Seq<ToolDecl> {
    t.map_values(|x: NeutralTool| x@)
}

#[derive(Debug)]
pub struct NeutralChatRequest {
    pub virtual_model_id: String,
    pub messages: Vec<NeutralMessage>,
    pub system_instruction: Option<String>,
    pub tools: Vec<NeutralTool>,
    /// Output modalities the host asked for (a set); empty leaves it to the protocol.
    pub output_modalities: Vec<ModelModality>,
    /// Image generation parameters, kept as neutral JSON.
    pub image_generation_config: Option<JsonValue>,
    pub reasoning_level: Option<ReasoningLevel>,
    pub stream: bool,
    pub generation_parameters: ParameterOverrides,
    /// Extra request-body members, by key.
    pub extra_body: Vec<(String, JsonValue)>,
}

} // verus!
