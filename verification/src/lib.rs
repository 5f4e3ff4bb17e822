//! Verified core of a local model-routing proxy: domain model, protocol
//! classification, stream decoding and Antigravity response encoding.

pub mod antigravity;
pub mod domain;
pub mod json;
pub mod text;
pub mod url;
pub mod providers;
