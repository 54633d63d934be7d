//! Verified core of a paste-to-translate desktop tool: prompt assembly,
//! server-sent-event framing, stream bookkeeping and history records.
pub mod capture;
pub mod commands;
pub mod config;
pub mod engine;
pub mod history;
pub mod json;
pub mod registry;
pub mod sanitize;
pub mod session;
pub mod sse;
pub mod text;
pub mod window;
