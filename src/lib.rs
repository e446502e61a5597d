//! A small HTTP request-handling engine: route patterns, a router with
//! method-aware dispatch, typed extraction from a request, response
//! conversion and an ordered middleware pipeline.
pub mod text;
pub mod pattern;
pub mod router;
pub mod request;
pub mod extract;
pub mod response;
pub mod pipeline;
pub mod engine;
