//! The services that can be downloaded from.

pub mod telegram;
