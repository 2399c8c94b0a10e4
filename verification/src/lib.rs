//! Dependency scanning, sandbox planning and memory-leak gating for code
//! written by agents, with the decisions verified.
pub mod text;
pub mod mcp_server;
pub mod leak_check;
pub mod scanner;
pub mod config;
pub mod sandbox;
pub mod firecracker;
pub mod serve;
pub mod jetstream_consumer;
