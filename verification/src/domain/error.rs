//! Proxy errors and their stable categories.

use crate::text::{chars_of, owned, push_decimal, push_str, string_from_chars};
use vstd::prelude::*;

verus! {

#[derive(Debug, Clone, Copy, PartialEq, Eq, Structural)]
pub enum ErrorCategory {
    Authentication,
    InvalidRequest,
    ContextLengthExceeded,
    RateLimit,
    ModelNotFound,
    UpstreamServerError,
    Timeout,
    ConnectionFailed,
    StreamInterrupted,
    UnsupportedFeature,
    Internal,
}

/// The stable code of a category, shared with the desktop UI.
pub open spec fn category_code(c: ErrorCategory) -> Seq<char> {
    match c {
        ErrorCategory::Authentication => "authentication"@,
        ErrorCategory::InvalidRequest => "invalid_request"@,
        ErrorCategory::ContextLengthExceeded => "context_length_exceeded"@,
        ErrorCategory::RateLimit => "rate_limit"@,
        ErrorCategory::ModelNotFound => "model_not_found"@,
        ErrorCategory::UpstreamServerError => "upstream_server_error"@,
        ErrorCategory::Timeout => "timeout"@,
        ErrorCategory::ConnectionFailed => "connection_failed"@,
        ErrorCategory::StreamInterrupted => "stream_interrupted"@,
        ErrorCategory::UnsupportedFeature => "unsupported_feature"@,
        ErrorCategory::Internal => "internal"@,
    }
}

/// The variant name of a category (its `Debug` form).
pub open spec fn category_name(c: ErrorCategory) -> Seq<char> {
    match c {
        ErrorCategory::Authentication => "Authentication"@,
        ErrorCategory::InvalidRequest => "InvalidRequest"@,
        ErrorCategory::ContextLengthExceeded => "ContextLengthExceeded"@,
        ErrorCategory::RateLimit => "RateLimit"@,
        ErrorCategory::ModelNotFound => "ModelNotFound"@,
        ErrorCategory::UpstreamServerError => "UpstreamServerError"@,
        ErrorCategory::Timeout => "Timeout"@,
        ErrorCategory::ConnectionFailed => "ConnectionFailed"@,
        ErrorCategory::StreamInterrupted => "StreamInterrupted"@,
        ErrorCategory::UnsupportedFeature => "UnsupportedFeature"@,
        ErrorCategory::Internal => "Internal"@,
    }
}

impl ErrorCategory {
    /// Stable error code used across the Rust, Tauri and front-end boundary.
    pub fn as_str(&self) -> (r: &'static str)
        ensures
            r@ == category_code(*self),
    {
        match self {
            ErrorCategory::Authentication => "authentication",
            ErrorCategory::InvalidRequest => "invalid_request",
            ErrorCategory::ContextLengthExceeded => "context_length_exceeded",
            ErrorCategory::RateLimit => "rate_limit",
            ErrorCategory::ModelNotFound => "model_not_found",
            ErrorCategory::UpstreamServerError => "upstream_server_error",
            ErrorCategory::Timeout => "timeout",
            ErrorCategory::ConnectionFailed => "connection_failed",
            ErrorCategory::StreamInterrupted => "stream_interrupted",
            ErrorCategory::UnsupportedFeature => "unsupported_feature",
            ErrorCategory::Internal => "internal",
        }
    }

    /// The variant name, as `{:?}` prints it.
    pub fn name(&self) -> (r: &'static str)
        ensures
            r@ == category_name(*self),
    {
        match self {
            ErrorCategory::Authentication => "Authentication",
            ErrorCategory::InvalidRequest => "InvalidRequest",
            ErrorCategory::ContextLengthExceeded => "ContextLengthExceeded",
            ErrorCategory::RateLimit => "RateLimit",
            ErrorCategory::ModelNotFound => "ModelNotFound",
            ErrorCategory::UpstreamServerError => "UpstreamServerError",
            ErrorCategory::Timeout => "Timeout",
            ErrorCategory::ConnectionFailed => "ConnectionFailed",
            ErrorCategory::StreamInterrupted => "StreamInterrupted",
            ErrorCategory::UnsupportedFeature => "UnsupportedFeature",
            ErrorCategory::Internal => "Internal",
        }
    }
}

/// Categories after which routing may try the configured fallback model.
pub open spec fn retryable(c: ErrorCategory) -> bool {
    c == ErrorCategory::Timeout || c == ErrorCategory::ConnectionFailed || c
        == ErrorCategory::RateLimit || c == ErrorCategory::UpstreamServerError
}

#[derive(Debug)]
pub struct ProxyError {
    pub category: ErrorCategory,
    pub message: String,
    pub status_code: u16,
    pub upstream_body: Option<String>,
}

impl ProxyError {
    pub fn new(category: ErrorCategory, message: &str, status_code: u16) -> (r: Self)
        ensures
            r.category == category,
            r.message@ == message@,
            r.status_code == status_code,
            r.upstream_body is None,
    {
        ProxyError { category, message: owned(message), status_code, upstream_body: None }
    }

    /// The same error, carrying the upstream response body.
    pub fn with_upstream_body(self, body: &str) -> (r: Self)
        ensures
            r.category == self.category,
            r.message@ == self.message@,
            r.status_code == self.status_code,
            r.upstream_body matches Some(b) && b@ == body@,
    {
        ProxyError {
            category: self.category,
            message: self.message,
            status_code: self.status_code,
            upstream_body: Some(owned(body)),
        }
    }

    pub fn is_retryable_for_fallback(&self) -> (r: bool)
        ensures
            r == retryable(self.category),
    {
        match self.category {
            ErrorCategory::Timeout | ErrorCategory::ConnectionFailed | ErrorCategory::RateLimit
            | ErrorCategory::UpstreamServerError => true,
            _ => false,
        }
    }

    /// The text the error displays: `ProxyError(<Category>, status=<code>): <message>`.
    pub fn describe(&self) -> (r: String)
        ensures
            r@ == "ProxyError("@ + category_name(self.category) + ", status="@ + crate::text::decimal(
                self.status_code as nat,
            ) + "): "@ + self.message@,
    {
        let mut buf: Vec<char> = Vec::new();
        push_str(&mut buf, "ProxyError(");
        push_str(&mut buf, self.category.name());
        push_str(&mut buf, ", status=");
        push_decimal(&mut buf, self.status_code as u64);
        push_str(&mut buf, "): ");
        push_str(&mut buf, self.message.as_str());
        string_from_chars(buf.as_slice())
    }
}

} // verus!
