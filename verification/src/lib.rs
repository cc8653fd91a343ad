//! Verified core of a minimal agent runtime: text handling, interval parsing,
//! loop-job bookkeeping, chat-message conversion and channel decision logic.
pub mod agent;
pub mod anthropic;
pub mod chat;
pub mod cli;
pub mod clock;
pub mod config;
pub mod ids;
pub mod json;
pub mod loop_sched;
pub mod run;
pub mod mcp;
pub mod server;
pub mod store;
pub mod telegram;
pub mod text;
pub mod wechat;
