//! Iris: one verified message model for many messaging sources.

pub mod audit;
pub mod codegen;
pub mod config;
pub mod contacts;
pub mod decimal;
pub mod digest;
pub mod email;
pub mod error;
pub mod herdr;
pub mod ids;
pub mod ingest;
pub mod json;
pub mod listing;
pub mod maps;
pub mod mcp;
pub mod mock;
pub mod model;
pub mod operations;
pub mod order;
pub mod outbound;
pub mod provider;
pub mod realtime;
pub mod rendering;
pub mod serve;
pub mod sms;
pub mod storage;
pub mod telegram;
pub mod text;
pub mod time;
pub mod watch;
pub mod wire;
