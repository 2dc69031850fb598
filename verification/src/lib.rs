//! A mirroring proxy core for event-ingestion traffic that is addressed by
//! DSN credentials: DSN parsing, the registry of inbound keys, key
//! extraction, request rewriting, body decoding and response aggregation.

pub mod config;
pub mod dsn;
pub mod http;
pub mod request;
pub mod service;
pub mod text;
