//! Per-mission coordination of agents: rooms, direct messages, progress events and read
//! cursors, kept in SQLite and pushed to clients over server-sent events.

pub mod chunked;
pub mod cli;
pub mod commands;
pub mod delivery;
pub mod exchange;
pub mod http;
pub mod json;
pub mod laws;
pub mod names;
pub mod number;
pub mod ops;
pub mod recv;
pub mod requests;
pub mod rounds;
pub mod server;
pub mod sse;
pub mod store;
pub mod stream;
pub mod tables;
pub mod text;
pub mod tui;
pub mod wire;
