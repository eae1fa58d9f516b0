//! Telegram.

pub mod accounts;
pub mod album;
pub mod auth;
pub mod bandwidth;
pub mod cdn;
pub mod clone;
pub mod dialogs;
pub mod diag;
pub mod download;
pub mod list_media;
pub mod listing;
pub mod lookup;
pub mod media;
pub mod members;
pub mod models;
pub mod parallel_download;
pub mod requests;
pub mod resolve;
pub mod resume;
pub mod rpc;
pub mod search;
pub mod session;
pub mod stream_server;
pub mod sync_state;
pub mod thumbnail_cache;
