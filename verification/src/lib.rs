//! Config-driven MCP tool runtime: the verified core.
pub mod adapters;
pub mod cli;
pub mod config;
pub mod errors;
pub mod json;
pub mod mcp;
pub mod runtime;
pub mod supervisor;
pub mod table;
pub mod template;
pub mod text;
