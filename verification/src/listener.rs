//! The connection and request lifecycle.

pub mod text;
pub mod handler;
pub mod headers;
pub mod number;
pub mod pipeline;
pub mod reader;
pub mod request;
pub mod response;
