pub mod exec;
pub mod http;
pub mod sql;

use crate::json::JsonValue;
use vstd::prelude::*;

verus! {

/// Result of executing a tool.
#[derive(Debug)]
pub struct ToolResult {
    pub stdout: String,
    pub stderr: String,
    pub exit_code: Option<i32>,
    pub is_error: bool,
    /// Structured payload for MCP `structuredContent`, when the adapter can
    /// produce one natively (sql rows) or `output.parse: json` yields it.
    pub structured: Option<JsonValue>,
}

impl ToolResult {
    /// A copy with the same content.
    pub fn duplicate(&self) -> (r: ToolResult)
        ensures
            r.stdout == self.stdout,
            r.stderr == self.stderr,
            r.exit_code == self.exit_code,
            r.is_error == self.is_error,
            crate::config::model::view_opt_json(r.structured) == crate::config::model::view_opt_json(self.structured),
    {
        ToolResult {
            stdout: self.stdout.clone(),
            stderr: self.stderr.clone(),
            exit_code: self.exit_code,
            is_error: self.is_error,
            structured: crate::config::copy::copy_opt_json(&self.structured),
        }
    }
}

} // verus!
