//! The command line: what the user asked for.
pub mod commands;

use vstd::prelude::*;

verus! {

/// The parsed command line.
pub struct Cli {
    /// Path to the config file, when given.
    pub config: Option<String>,
    pub command: Commands,
}

pub enum Commands {
    /// Create a minimal mcpify.yaml config.
    Init,
    /// Validate the config file.
    Validate,
    /// Start the MCP server; with `watch`, reload when the config file changes.
    Serve { watch: bool },
    /// Reload config in a running server.
    Reload,
    /// List registered tools.
    List,
    /// Show tools, services, and health status.
    Status,
    /// Run a tool locally with a JSON input.
    Run { name: String, input: String },
}

} // verus!
