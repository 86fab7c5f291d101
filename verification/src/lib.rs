//! Core logic of the relay agent runtime.

pub mod agents;
pub mod auth;
pub mod cache;
pub mod chat;
pub mod crypto;
pub mod db;
pub mod http;
pub mod http_status;
pub mod ids;
pub mod mcp;
pub mod memory;
pub mod runtime;
pub mod seqs;
pub mod session;
pub mod sort;
pub mod text;
pub mod time;
pub mod tokens;
pub mod tools;
pub mod types;
pub mod web_url;
