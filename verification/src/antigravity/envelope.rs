//! The Cloud Code envelope around Antigravity responses.

use crate::domain::error::{ErrorCategory, ProxyError};
use crate::json::{
    entries_view, jobj3, json_parse_result, json_text, object3, object_value, parse_json,
    str_value, to_json_text, Json, JsonValue,
};
use crate::text::{chars_eq_str, chars_of, push_str, string_from_chars, strip_prefix, strip_prefix_str, trim, trim_chars};
use vstd::prelude::*;

verus! {

/// `{"response": r, "traceId": "", "metadata": {}}`.
pub open spec fn envelope(response: Json) -> Json {
    jobj3("response"@, response, "traceId"@, Json::Str(Seq::empty()), "metadata"@, Json::Object(Seq::empty()))
}

/// What wrapping a response body gives: the enveloped text, or the message
/// of the error when the body is not JSON.
pub open spec fn spec_wrap_response(body: Seq<char>) -> Result<Seq<char>, Seq<char>> {
    match json_parse_result(body) {
        Ok(v) => Ok(json_text(envelope(v))),
        Err(m) => Err("Failed to encode Cloud Code response envelope: "@ + m),
    }
}

/// What wrapping one stream frame gives: no frame for the `[DONE]` marker,
/// the enveloped frame, or the message of the error.
pub open spec fn spec_wrap_stream_frame(frame: Seq<char>) -> Result<Option<Seq<char>>, Seq<char>> {
    let t = trim(frame);
    if t == "data: [DONE]"@ {
        Ok(None)
    } else {
        match strip_prefix(t, "data:"@) {
            None => Err("Antigravity stream frame is missing the data field"@),
            Some(data) => match json_parse_result(trim(data)) {
                Ok(v) => Ok(Some("data: "@ + json_text(envelope(v)) + "\n\n"@)),
                Err(m) => Err("Failed to encode Cloud Code stream envelope: "@ + m),
            },
        }
    }
}

pub struct CloudCodeEnvelopeEncoder;

fn envelope_value(response: JsonValue) -> (r: JsonValue)
    ensures
        r@ == envelope(response@),
{
    let e: Vec<(String, JsonValue)> = Vec::new();
    proof {
        assert(entries_view(e@) =~= Seq::empty());
        reveal_strlit("");
        assert(""@ =~= Seq::<char>::empty());
    }
    object3("response", response, "traceId", str_value(""), "metadata", object_value(e))
}

fn internal_error(prefix: &str, detail: &str) -> (r: ProxyError)
    ensures
        r.category == ErrorCategory::Internal,
        r.status_code == 500,
        r.message@ == prefix@ + detail@,
        r.upstream_body is None,
{
    let mut m: Vec<char> = Vec::new();
    push_str(&mut m, prefix);
    push_str(&mut m, detail);
    let text = string_from_chars(m.as_slice());
    ProxyError::new(ErrorCategory::Internal, text.as_str(), 500)
}

impl CloudCodeEnvelopeEncoder {
    /// Wraps a non-streaming response body in the Cloud Code envelope.
    pub fn wrap_response(response_json: &str) -> (r: Result<String, ProxyError>)
        ensures
            r matches Ok(t) ==> spec_wrap_response(response_json@) == Ok::<Seq<char>, Seq<char>>(t@),
            r matches Err(e) ==> spec_wrap_response(response_json@) == Err::<Seq<char>, Seq<char>>(
                e.message@,
            ) && e.category == ErrorCategory::Internal && e.status_code == 500,
    {
        match parse_json(response_json) {
            Ok(v) => Ok(to_json_text(&envelope_value(v))),
            Err(m) => Err(internal_error("Failed to encode Cloud Code response envelope: ", m.as_str())),
        }
    }

    /// Wraps one `data:` frame of a stream; the `[DONE]` marker is consumed.
    pub fn wrap_stream_frame(frame: &str) -> (r: Result<Option<String>, ProxyError>)
        ensures
            r matches Ok(Some(t)) ==> spec_wrap_stream_frame(frame@) == Ok::<Option<Seq<char>>, Seq<char>>(
                Some(t@),
            ),
            r matches Ok(None) ==> spec_wrap_stream_frame(frame@) == Ok::<Option<Seq<char>>, Seq<char>>(None),
            r matches Err(e) ==> spec_wrap_stream_frame(frame@) == Err::<Option<Seq<char>>, Seq<char>>(
                e.message@,
            ) && e.category == ErrorCategory::Internal && e.status_code == 500,
    {
        let chars = chars_of(frame);
        let t = trim_chars(chars.as_slice());
        if chars_eq_str(t.as_slice(), "data: [DONE]") {
            return Ok(None);
        }
        let data = match strip_prefix_str(t.as_slice(), "data:") {
            Some(d) => d,
            None => {
                return Err(
                    ProxyError::new(
                        ErrorCategory::Internal,
                        "Antigravity stream frame is missing the data field",
                        500,
                    ),
                );
            },
        };
        let body = trim_chars(data.as_slice());
        let body_text = string_from_chars(body.as_slice());
        match parse_json(body_text.as_str()) {
            Ok(v) => {
                let text = to_json_text(&envelope_value(v));
                let mut out: Vec<char> = Vec::new();
                push_str(&mut out, "data: ");
                push_str(&mut out, text.as_str());
                push_str(&mut out, "\n\n");
                Ok(Some(string_from_chars(out.as_slice())))
            },
            Err(m) => Err(internal_error("Failed to encode Cloud Code stream envelope: ", m.as_str())),
        }
    }
}

} // verus!
