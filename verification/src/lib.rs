//! Core of a text-translation gateway: the response cache, the rate limiter,
//! the chunker for long texts, the decoder for provider replies, and the
//! per-request state machine that ties them together.
//!
//! Every function here is verified against the contract it carries. The few
//! items whose contracts are taken on trust wrap calls into other crates and
//! are marked as such in their documentation.

pub mod text;
pub mod chunker;
pub mod json;
pub mod parser;
pub mod limiter;
pub mod cache;
pub mod key;
pub mod request;
pub mod provider;
pub mod outcome;
pub mod session;
pub mod config;
