//! The rules of a Telegram download plugin: what to ask the service for, how to
//! read its replies, how to retry, resume, cache and report.
//!
//! Nothing here performs I/O. Every function takes plain values (what a reply
//! held, what the clock says) and returns plain values (what to do next).

pub mod commands;
pub mod encoding;
pub mod host_queue;
pub mod json;
pub mod paths;
pub mod platforms;
pub mod preview_cache;
pub mod settings;
pub mod sort;
pub mod text;
