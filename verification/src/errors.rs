//! The runtime's error kinds and their messages.
use crate::text::{cat2, cat3, decimal, u64_to_decimal};
use vstd::prelude::*;
use vstd::string::*;

verus! {

pub enum McpifyError {
    ConfigLoad(String),
    ConfigValidation(String),
    TemplateRender(String),
    ExecFailed(String),
    HttpFailed(String),
    Timeout(u64),
    ToolNotFound(String),
    DependencyNotReady(String),
    Internal(String),
}

pub open spec fn error_text(e: McpifyError) -> Seq<char> {
    match e {
        McpifyError::ConfigLoad(m) => "failed to load config: "@ + m@,
        McpifyError::ConfigValidation(m) => "config validation error: "@ + m@,
        McpifyError::TemplateRender(m) => "template render error: "@ + m@,
        McpifyError::ExecFailed(m) => "exec failed: "@ + m@,
        McpifyError::HttpFailed(m) => "http request failed: "@ + m@,
        McpifyError::Timeout(ms) => "timeout after "@ + decimal(ms as nat) + "ms"@,
        McpifyError::ToolNotFound(m) => "tool not found: "@ + m@,
        McpifyError::DependencyNotReady(m) => "dependency not ready: "@ + m@,
        McpifyError::Internal(m) => m@,
    }
}

impl McpifyError {
    /// The error message.
    pub fn to_string(&self) -> (r: String)
        ensures
            r@ == error_text(*self),
    {
        match self {
            McpifyError::ConfigLoad(m) => cat2("failed to load config: ", m.as_str()),
            McpifyError::ConfigValidation(m) => cat2("config validation error: ", m.as_str()),
            McpifyError::TemplateRender(m) => cat2("template render error: ", m.as_str()),
            McpifyError::ExecFailed(m) => cat2("exec failed: ", m.as_str()),
            McpifyError::HttpFailed(m) => cat2("http request failed: ", m.as_str()),
            McpifyError::Timeout(ms) => {
                let n = u64_to_decimal(*ms);
                cat3("timeout after ", n.as_str(), "ms")
            },
            McpifyError::ToolNotFound(m) => cat2("tool not found: ", m.as_str()),
            McpifyError::DependencyNotReady(m) => cat2("dependency not ready: ", m.as_str()),
            McpifyError::Internal(m) => m.clone(),
        }
    }
}

} // verus!
