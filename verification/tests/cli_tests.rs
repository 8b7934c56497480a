use mcpify::cli::commands::{
    list_header, list_row, pad, parse_pid, rule, run_exit_code, status_service_row, status_tool_row,
    status_tools_header, tool_type_name, validate_summary, warning_line, INIT_TEMPLATE,
};
use mcpify::config::model::{
    default_tool_timeout, HealthcheckConfig, HealthcheckType, RestartPolicy, ServiceConfig, ToolConfig, ToolType,
};
use mcpify::config::validate::ValidationWarning;
use mcpify::errors::McpifyError;
use mcpify::runtime::registry::{ToolAvailability, ToolEntry};

fn tool(name: &str, tool_type: ToolType) -> ToolConfig {
    ToolConfig {
        name: name.to_string(),
        tool_type,
        description: String::new(),
        command: None,
        args: vec![],
        cwd: None,
        env: vec![],
        method: None,
        url: None,
        headers: vec![],
        query_params: vec![],
        auth: None,
        body: None,
        driver: None,
        dsn: None,
        query: None,
        steps: vec![],
        timeout_ms: default_tool_timeout(),
        depends_on: vec![],
        enabled: true,
        input: None,
        retry: None,
        annotations: None,
        output: None,
        cache: None,
    }
}

#[test]
fn padding_matches_left_aligned_format() {
    assert_eq!(pad("ab", 5), format!("{:<5}", "ab"));
    assert_eq!(pad("abcdef", 3), "abcdef");
    assert_eq!(rule(4), "----");
    assert_eq!(list_header(), format!("{:<20} {:<6} {:<40} TIMEOUT", "NAME", "TYPE", "DESCRIPTION"));
    assert_eq!(status_tools_header(), format!("{:<20} {:<6} {:<12} DEPENDS_ON", "NAME", "TYPE", "STATUS"));
}

#[test]
fn list_and_status_rows() {
    let mut t = tool("hello", ToolType::Exec);
    t.description = "Say hello".to_string();
    t.timeout_ms = 5000;
    assert_eq!(list_row(&t), format!("{:<20} {:<6} {:<40} {}ms", "hello", "exec", "Say hello", 5000));
    t.depends_on = vec!["db".to_string(), "cache".to_string()];
    let entry = ToolEntry { config: t, availability: ToolAvailability::Disabled };
    assert_eq!(status_tool_row(&entry), format!("{:<20} {:<6} {:<12} {}", "hello", "exec", "Disabled", "db, cache"));
    let bare = ToolEntry { config: tool("q", ToolType::Sql), availability: ToolAvailability::Enabled };
    assert_eq!(status_tool_row(&bare), format!("{:<20} {:<6} {:<12} {}", "q", "sql", "Enabled", "-"));
    assert_eq!(tool_type_name(ToolType::Pipeline), "pipeline");
    assert_eq!(tool_type_name(ToolType::Http), "http");
}

#[test]
fn service_rows() {
    let s = ServiceConfig {
        name: "api".to_string(),
        command: "./api".to_string(),
        args: vec!["--port".to_string(), "3010".to_string()],
        cwd: ".".to_string(),
        env: vec![],
        autostart: true,
        restart: RestartPolicy::Always,
        healthcheck: Some(HealthcheckConfig {
            check_type: HealthcheckType::Http,
            url: Some("http://x".to_string()),
            interval_ms: 1,
            timeout_ms: 1,
        }),
    };
    assert_eq!(status_service_row(&s), format!("{:<20} {:<30} {:<10} {}", "api", "./api --port 3010", true, "Http"));
    let mut plain = s;
    plain.healthcheck = None;
    plain.autostart = false;
    plain.args = vec![];
    assert_eq!(status_service_row(&plain), format!("{:<20} {:<30} {:<10} {}", "api", "./api ", false, "process"));
}

#[test]
fn summaries_and_warnings() {
    assert_eq!(validate_summary(2, 1), "Config is valid (2 tools, 1 services)");
    let w = ValidationWarning { message: "odd".to_string() };
    assert_eq!(warning_line(&w), "warning: odd");
    assert!(INIT_TEMPLATE.contains("name: hello"));
}

#[test]
fn pid_parsing_follows_i32_parse() {
    for text in ["42", " 42\n", "+7", "-3", "2147483647", "-2147483648", "", "-", "+", "2147483648", "-2147483649", "4x", "0"] {
        assert_eq!(parse_pid(text), text.trim().parse::<i32>().ok(), "for {:?}", text);
    }
}

#[test]
fn run_exit_codes() {
    assert_eq!(run_exit_code(false, Some(3)), None);
    assert_eq!(run_exit_code(true, Some(3)), Some(3));
    assert_eq!(run_exit_code(true, None), Some(1));
}

#[test]
fn error_messages() {
    assert_eq!(McpifyError::Timeout(100).to_string(), "timeout after 100ms");
    assert_eq!(McpifyError::ToolNotFound("x".to_string()).to_string(), "tool not found: x");
    assert_eq!(McpifyError::ConfigLoad("bad".to_string()).to_string(), "failed to load config: bad");
    assert_eq!(McpifyError::ConfigValidation("v".to_string()).to_string(), "config validation error: v");
    assert_eq!(McpifyError::TemplateRender("t".to_string()).to_string(), "template render error: t");
    assert_eq!(McpifyError::ExecFailed("e".to_string()).to_string(), "exec failed: e");
    assert_eq!(McpifyError::HttpFailed("h".to_string()).to_string(), "http request failed: h");
    assert_eq!(McpifyError::DependencyNotReady("d".to_string()).to_string(), "dependency not ready: d");
    assert_eq!(McpifyError::Internal("i".to_string()).to_string(), "i");
}
