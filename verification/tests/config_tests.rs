use mcpify::config::diff::diff_configs;
use mcpify::config::loader::{config_candidates, find_config_file};
use mcpify::config::model::{
    default_tool_timeout, AuthConfig, CacheConfig, HttpMethod, InputSchema, McpifyConfig, PipelineStep,
    PropertyDef, ResourceConfig, ResourceType, RestartPolicy, ServerConfig, ServiceConfig, SqlDriver,
    SupervisorConfig, ToolAnnotations, ToolConfig, ToolType,
};
use mcpify::config::validate::validate;
use mcpify::json::JsonValue;

fn tool(name: &str, tool_type: ToolType) -> ToolConfig {
    ToolConfig {
        name: name.to_string(),
        tool_type,
        description: String::new(),
        command: None,
        args: vec![],
        cwd: None,
        env: vec![],
        method: None,
        url: None,
        headers: vec![],
        query_params: vec![],
        auth: None,
        body: None,
        driver: None,
        dsn: None,
        query: None,
        steps: vec![],
        timeout_ms: default_tool_timeout(),
        depends_on: vec![],
        enabled: true,
        input: None,
        retry: None,
        annotations: None,
        output: None,
        cache: None,
    }
}

fn exec(name: &str, command: &str) -> ToolConfig {
    let mut t = tool(name, ToolType::Exec);
    t.command = Some(command.to_string());
    t
}

fn config(tools: Vec<ToolConfig>) -> McpifyConfig {
    McpifyConfig {
        server: ServerConfig::default(),
        supervisor: SupervisorConfig::default(),
        services: vec![],
        tools,
        vars: vec![],
        resources: vec![],
    }
}

fn service(name: &str, command: &str) -> ServiceConfig {
    ServiceConfig {
        name: name.to_string(),
        command: command.to_string(),
        args: vec![],
        cwd: ".".to_string(),
        env: vec![],
        autostart: true,
        restart: RestartPolicy::OnFailure,
        healthcheck: None,
    }
}

fn prop(t: &str) -> PropertyDef {
    PropertyDef {
        prop_type: t.to_string(),
        description: None,
        enum_values: None,
        default: None,
        items: None,
        properties: vec![],
        required: vec![],
        extra: vec![],
    }
}

fn schema(props: Vec<(&str, PropertyDef)>) -> InputSchema {
    InputSchema {
        schema_type: "object".to_string(),
        properties: props.into_iter().map(|(k, p)| (k.to_string(), p)).collect(),
        required: vec![],
    }
}

fn error_text(c: &McpifyConfig) -> String {
    match validate(c) {
        Err(e) => e.to_string(),
        Ok(_) => panic!("expected the config to be invalid"),
    }
}

fn warnings(c: &McpifyConfig) -> Vec<String> {
    match validate(c) {
        Ok(w) => w.into_iter().map(|w| w.message).collect(),
        Err(e) => panic!("expected the config to be valid: {}", e.to_string()),
    }
}

#[test]
fn test_valid_config() {
    let mut t = exec("hello", "echo");
    t.timeout_ms = 5000;
    assert!(validate(&config(vec![t])).is_ok());
}

#[test]
fn test_duplicate_tool_names() {
    let c = config(vec![exec("hello", "echo"), exec("hello", "ls")]);
    assert!(error_text(&c).contains("duplicate tool name"));
}

#[test]
fn test_exec_missing_command() {
    let c = config(vec![tool("broken", ToolType::Exec)]);
    assert!(error_text(&c).contains("missing 'command'"));
}

#[test]
fn test_http_missing_url() {
    let mut t = tool("broken", ToolType::Http);
    t.method = Some(HttpMethod::Get);
    assert!(error_text(&config(vec![t])).contains("missing 'url'"));
}

#[test]
fn test_depends_on_unknown_service() {
    let mut t = tool("api_call", ToolType::Http);
    t.method = Some(HttpMethod::Get);
    t.url = Some("http://localhost/test".to_string());
    t.depends_on = vec!["nonexistent".to_string()];
    assert!(error_text(&config(vec![t])).contains("service not found"));
}

#[test]
fn test_sql_missing_driver() {
    let mut t = tool("broken", ToolType::Sql);
    t.dsn = Some("sqlite::memory:".to_string());
    t.query = Some("SELECT 1".to_string());
    assert!(error_text(&config(vec![t])).contains("missing 'driver'"));
}

#[test]
fn test_sql_missing_dsn() {
    let mut t = tool("broken", ToolType::Sql);
    t.driver = Some(SqlDriver::Sqlite);
    t.query = Some("SELECT 1".to_string());
    assert!(error_text(&config(vec![t])).contains("missing 'dsn'"));
}

#[test]
fn test_lint_unknown_schema_keyword() {
    let mut age = prop("integer");
    age.extra = vec![("mimimum".to_string(), JsonValue::Number("0".to_string()))];
    let mut t = exec("t", "echo");
    t.input = Some(schema(vec![("age", age)]));
    let w = warnings(&config(vec![t]));
    assert!(w.iter().any(|m| m.contains("mimimum") && m.contains("age")));
}

#[test]
fn test_lint_known_keyword_and_nested_ok() {
    let mut age = prop("integer");
    age.extra = vec![
        ("minimum".to_string(), JsonValue::Number("0".to_string())),
        ("maximum".to_string(), JsonValue::Number("120".to_string())),
    ];
    let mut item = prop("string");
    item.extra = vec![("minLength".to_string(), JsonValue::Number("1".to_string()))];
    let mut tags = prop("array");
    tags.items = Some(Box::new(item));
    let mut t = exec("t", "echo");
    t.input = Some(schema(vec![("age", age), ("tags", tags)]));
    let w = warnings(&config(vec![t]));
    assert!(!w.iter().any(|m| m.contains("unknown JSON Schema keyword")));
}

#[test]
fn test_lint_nested_typo_caught() {
    let mut item = prop("string");
    item.extra = vec![("minLenght".to_string(), JsonValue::Number("1".to_string()))];
    let mut tags = prop("array");
    tags.items = Some(Box::new(item));
    let mut t = exec("t", "echo");
    t.input = Some(schema(vec![("tags", tags)]));
    let w = warnings(&config(vec![t]));
    assert!(w.iter().any(|m| m.contains("minLenght") && m.contains("tags[]")));
}

#[test]
fn test_pipeline_no_steps() {
    let c = config(vec![tool("p", ToolType::Pipeline)]);
    assert!(error_text(&c).contains("no steps"));
}

fn step(t: &str) -> PipelineStep {
    PipelineStep { id: None, tool: t.to_string(), input: vec![] }
}

#[test]
fn test_pipeline_unknown_step_tool() {
    let mut p = tool("p", ToolType::Pipeline);
    p.steps = vec![step("does_not_exist")];
    assert!(error_text(&config(vec![p])).contains("unknown tool"));
}

#[test]
fn test_pipeline_valid() {
    let mut p = tool("p", ToolType::Pipeline);
    p.steps = vec![step("a")];
    assert!(validate(&config(vec![exec("a", "echo"), p])).is_ok());
}

fn resource(name: &str, resource_type: ResourceType, uri: &str) -> ResourceConfig {
    ResourceConfig {
        name: name.to_string(),
        uri: uri.to_string(),
        description: None,
        resource_type,
        path: None,
        command: None,
        args: vec![],
        mime_type: None,
    }
}

#[test]
fn test_resource_file_missing_path() {
    let mut c = config(vec![]);
    c.resources = vec![resource("readme", ResourceType::File, "file:///README.md")];
    assert!(error_text(&c).contains("missing 'path'"));
}

fn sql(name: &str, query: &str) -> ToolConfig {
    let mut t = tool(name, ToolType::Sql);
    t.driver = Some(SqlDriver::Sqlite);
    t.dsn = Some("sqlite::memory:".to_string());
    t.query = Some(query.to_string());
    t
}

#[test]
fn test_sql_quoted_bind_placeholder_rejected() {
    let c = config(vec![sql("q", "SELECT * FROM t WHERE name = '{{name}}'")]);
    assert!(error_text(&c).contains("wrapped in quotes"));
}

#[test]
fn test_sql_unquoted_bind_and_raw_ok() {
    let c = config(vec![sql("q", "SELECT * FROM {{raw:table}} WHERE name = {{name}}")]);
    assert!(validate(&c).is_ok());
}

fn destructive() -> ToolAnnotations {
    ToolAnnotations { destructive: Some(true), read_only: None, idempotent: None, open_world: None }
}

#[test]
fn test_cache_on_destructive_rejected() {
    let mut t = exec("t", "echo");
    t.cache = Some(CacheConfig { refresh_interval_ms: 5000 });
    t.annotations = Some(destructive());
    assert!(error_text(&config(vec![t])).contains("destructive tool cannot be cached"));
}

#[test]
fn test_cache_on_pipeline_rejected() {
    let mut p = tool("p", ToolType::Pipeline);
    p.steps = vec![step("a")];
    p.cache = Some(CacheConfig { refresh_interval_ms: 5000 });
    assert!(error_text(&config(vec![exec("a", "echo"), p])).contains("caching a pipeline is not supported"));
}

#[test]
fn test_cache_zero_interval_rejected() {
    let mut t = exec("t", "echo");
    t.cache = Some(CacheConfig { refresh_interval_ms: 0 });
    assert!(error_text(&config(vec![t])).contains("refresh_interval_ms must be > 0"));
}

#[test]
fn test_cache_small_interval_and_input_props_warn() {
    let mut t = exec("t", "echo");
    t.cache = Some(CacheConfig { refresh_interval_ms: 100 });
    t.input = Some(schema(vec![("q", prop("string"))]));
    let w = warnings(&config(vec![t]));
    assert!(w.iter().any(|m| m.contains("very small")));
    assert!(w.iter().any(|m| m.contains("parameterless")));
}

#[test]
fn test_cache_valid() {
    let mut t = tool("t", ToolType::Http);
    t.method = Some(HttpMethod::Get);
    t.url = Some("http://localhost/x".to_string());
    t.cache = Some(CacheConfig { refresh_interval_ms: 30000 });
    assert!(validate(&config(vec![t])).is_ok());
}

#[test]
fn test_resource_exec_missing_command() {
    let mut c = config(vec![]);
    c.resources = vec![resource("version", ResourceType::Exec, "mcpify://version")];
    assert!(error_text(&c).contains("missing 'command'"));
}

#[test]
fn validation_failure_lists_every_error() {
    let c = config(vec![tool("a", ToolType::Exec), tool("b", ToolType::Exec)]);
    let text = error_text(&c);
    assert!(text.starts_with("config validation failed:\n  - "));
    assert!(text.contains("tool 'a'"));
    assert!(text.contains("tool 'b'"));
}

#[test]
fn validation_of_auth_config_passes() {
    let mut t = tool("api", ToolType::Http);
    t.method = Some(HttpMethod::Get);
    t.url = Some("http://localhost/x".to_string());
    t.auth = Some(AuthConfig::Bearer { token: "{{token}}".to_string() });
    assert!(validate(&config(vec![t])).is_ok());
}

#[test]
fn test_no_changes() {
    let c = config(vec![exec("a", "echo")]);
    let diff = diff_configs(&c, &c);
    assert!(diff.is_empty());
}

#[test]
fn test_added_tool() {
    let old = config(vec![exec("a", "echo")]);
    let new = config(vec![exec("a", "echo"), exec("b", "ls")]);
    let diff = diff_configs(&old, &new);
    assert_eq!(diff.added_tools, vec!["b"]);
    assert!(diff.removed_tools.is_empty());
    assert!(diff.changed_tools.is_empty());
}

#[test]
fn test_removed_tool() {
    let old = config(vec![exec("a", "echo"), exec("b", "ls")]);
    let new = config(vec![exec("a", "echo")]);
    let diff = diff_configs(&old, &new);
    assert!(diff.added_tools.is_empty());
    assert_eq!(diff.removed_tools, vec!["b"]);
}

#[test]
fn test_changed_tool() {
    let mut a = exec("a", "echo");
    a.timeout_ms = 5000;
    let mut b = exec("a", "echo");
    b.timeout_ms = 10000;
    let diff = diff_configs(&config(vec![a]), &config(vec![b]));
    assert!(diff.added_tools.is_empty());
    assert!(diff.removed_tools.is_empty());
    assert_eq!(diff.changed_tools, vec!["a"]);
}

#[test]
fn test_children_diff() {
    let mut old = config(vec![]);
    old.services = vec![service("svc1", "./svc1")];
    let mut new = config(vec![]);
    new.services = vec![service("svc2", "./svc2")];
    let diff = diff_configs(&old, &new);
    assert_eq!(diff.added_children, vec!["svc2"]);
    assert_eq!(diff.removed_children, vec!["svc1"]);
}

#[test]
fn diff_test_display() {
    let old = config(vec![]);
    let new = config(vec![exec("x", "echo")]);
    let diff = diff_configs(&old, &new);
    let s = diff.to_string();
    assert!(s.contains("+tools: x"));
}

#[test]
fn diff_text_of_no_changes_and_of_several_groups() {
    let c = config(vec![exec("a", "echo")]);
    assert_eq!(diff_configs(&c, &c).to_string(), "no changes");
    let mut changed = exec("a", "cat");
    changed.description = "now different".to_string();
    let mut new = config(vec![changed, exec("b", "ls"), exec("c", "ls")]);
    new.services = vec![service("s", "./s")];
    let d = diff_configs(&c, &new);
    assert_eq!(d.to_string(), "+tools: b, c; ~tools: a; +children: s");
}

#[test]
fn diff_reversed_swaps_added_and_removed() {
    let old = config(vec![exec("a", "echo")]);
    let new = config(vec![exec("b", "echo")]);
    let forward = diff_configs(&old, &new);
    let back = diff_configs(&new, &old);
    assert_eq!(forward.added_tools, back.removed_tools);
    assert_eq!(forward.removed_tools, back.added_tools);
}

#[test]
fn config_file_is_the_first_present_candidate() {
    let names = config_candidates();
    assert_eq!(names, vec!["mcpify.yaml", "mcpify.yml", ".mcpify/mcpify.yaml"]);
    assert_eq!(find_config_file(&vec![false, true, true]).unwrap(), "mcpify.yml");
    assert_eq!(find_config_file(&vec![true, false, false]).unwrap(), "mcpify.yaml");
    assert_eq!(find_config_file(&vec![false, false, true]).unwrap(), ".mcpify/mcpify.yaml");
    assert_eq!(
        find_config_file(&vec![false, false, false]).unwrap_err(),
        "config file not found; tried: mcpify.yaml, mcpify.yml, .mcpify/mcpify.yaml"
    );
}
