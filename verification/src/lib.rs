//! Verified core of the genos bare-metal LLM operating system.
pub mod text;
pub mod http;
pub mod mcp_config;
pub mod gguf;
pub mod keymap;
pub mod policy;
pub mod hal;
pub mod palace;
pub mod model;
pub mod kv_cache;
pub mod sysconfig;
pub mod registry;
pub mod mcp_transport;
pub mod mcp_security;
pub mod mcp_primitives;
pub mod json;
pub mod method;
pub mod mcp_wire;
pub mod sorted_map;
pub mod mcp_client;
pub mod mcp_execution;
pub mod mcp_server;
pub mod mcp_runtime;
pub mod compact;
pub mod wakeup;
pub mod consolidate;
pub mod executor;
pub mod bridge;
pub mod graph;
pub mod web;
pub mod journal;
pub mod sys;
pub mod memory;
