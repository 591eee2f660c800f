//! Verified core of an embedded HTTP request/response bridge.
//!
//! The library manages one HTTP exchange end to end: it models the request
//! reader and response writer as state machines, negotiates response
//! compression from client hints, builds the outgoing body, and guards the
//! shutdown protocol of streamed bodies, so that no write corrupts, silently
//! truncates, or leaks an exchange under cancellation or peer disconnect.

pub mod ascii;
pub mod body_builder;
pub mod compress;
pub mod compressible;
pub mod config;
pub mod errors;
pub mod headers;
pub mod logging;
pub mod models;
pub mod negotiation;
pub mod reader_stream;
pub mod registry;
pub mod standalone;
pub mod stream;
