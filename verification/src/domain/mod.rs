//! The proxy's domain model.

pub mod checkpoint;
pub mod config;
pub mod definition;
pub mod error;
pub mod number;
pub mod provider;
pub mod reasoning;
pub mod request;
pub mod response;
pub mod route;
pub mod token_limits;
