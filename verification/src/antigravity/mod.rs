//! The Antigravity host protocol: request parsing and response encoding.

pub mod envelope;
pub mod model_descriptor;
pub mod request_parser;
pub mod response_encoder;
