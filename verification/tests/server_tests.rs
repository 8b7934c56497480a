use mcpify::adapters::ToolResult;
use mcpify::config::model::{
    default_tool_timeout, InputSchema, McpifyConfig, OutputConfig, OutputParse, PropertyDef, ResourceConfig,
    ResourceType, RestartPolicy, ServerConfig, ServiceConfig, SqlDriver, SupervisorConfig, ToolAnnotations,
    ToolConfig, ToolType,
};
use mcpify::json::{json_equal, JsonValue};
use mcpify::mcp::server::{
    admit_call, build_input_schema, cache_mode, call_response, confirmation_prompt, confirmation_verdict,
    destructive_gate, exec_read_failure, file_read_failure, find_resource, has_resources, list_resources, list_tools,
    rejection, resolve_structured_content, CacheMode, GateDecision, ResourceError, ResourceSource,
};
use mcpify::runtime::registry::{ToolAvailability, ToolRegistry};
use mcpify::supervisor::health::HealthResult;
use mcpify::supervisor::manager::SupervisorManager;

fn tool(name: &str, tool_type: ToolType) -> ToolConfig {
    ToolConfig {
        name: name.to_string(),
        tool_type,
        description: String::new(),
        command: None,
        args: vec![],
        cwd: None,
        env: vec![],
        method: None,
        url: None,
        headers: vec![],
        query_params: vec![],
        auth: None,
        body: None,
        driver: None,
        dsn: None,
        query: None,
        steps: vec![],
        timeout_ms: default_tool_timeout(),
        depends_on: vec![],
        enabled: true,
        input: None,
        retry: None,
        annotations: None,
        output: None,
        cache: None,
    }
}

fn exec(name: &str) -> ToolConfig {
    let mut t = tool(name, ToolType::Exec);
    t.command = Some("echo".to_string());
    t
}

fn config(tools: Vec<ToolConfig>) -> McpifyConfig {
    McpifyConfig {
        server: ServerConfig::default(),
        supervisor: SupervisorConfig::default(),
        services: vec![],
        tools,
        vars: vec![],
        resources: vec![],
    }
}

fn prop(t: &str) -> PropertyDef {
    PropertyDef {
        prop_type: t.to_string(),
        description: None,
        enum_values: None,
        default: None,
        items: None,
        properties: vec![],
        required: vec![],
        extra: vec![],
    }
}

fn text(s: &str) -> JsonValue {
    JsonValue::Str(s.to_string())
}

fn num(s: &str) -> JsonValue {
    JsonValue::Number(s.to_string())
}

fn member<'a>(v: &'a JsonValue, k: &str) -> &'a JsonValue {
    match v {
        JsonValue::Object(m) => &m.iter().find(|(key, _)| key == k).expect("member").1,
        _ => panic!("not an object"),
    }
}

fn text_result(stdout: &str) -> ToolResult {
    ToolResult { stdout: stdout.to_string(), stderr: String::new(), exit_code: Some(0), is_error: false, structured: None }
}

fn with_output(mut t: ToolConfig) -> ToolConfig {
    t.output = Some(OutputConfig { parse: OutputParse::Json, schema: None });
    t
}

#[test]
fn test_build_input_schema_rich() {
    let mut age = prop("integer");
    age.extra = vec![("minimum".to_string(), num("0")), ("maximum".to_string(), num("120"))];
    let mut role = prop("string");
    role.enum_values = Some(vec![text("admin"), text("user")]);
    role.default = Some(text("user"));
    let mut tags = prop("array");
    tags.items = Some(Box::new(prop("string")));
    let mut t = exec("t");
    t.input = Some(InputSchema {
        schema_type: "object".to_string(),
        properties: vec![("age".to_string(), age), ("role".to_string(), role), ("tags".to_string(), tags)],
        required: vec!["role".to_string()],
    });
    let schema = build_input_schema(&t);

    assert!(json_equal(member(&schema, "type"), &text("object")));
    assert!(json_equal(member(&schema, "required"), &JsonValue::Array(vec![text("role")])));

    let props = member(&schema, "properties");
    let age = member(props, "age");
    assert!(json_equal(member(age, "type"), &text("integer")));
    assert!(json_equal(member(age, "minimum"), &num("0")));
    assert!(json_equal(member(age, "maximum"), &num("120")));

    let role = member(props, "role");
    assert!(json_equal(member(role, "enum"), &JsonValue::Array(vec![text("admin"), text("user")])));
    assert!(json_equal(member(role, "default"), &text("user")));

    assert!(json_equal(member(member(member(props, "tags"), "items"), "type"), &text("string")));
}

#[test]
fn test_build_input_schema_none_defaults_to_empty_object() {
    let schema = build_input_schema(&exec("t"));
    assert!(json_equal(member(&schema, "type"), &text("object")));
    assert!(matches!(member(&schema, "properties"), JsonValue::Object(m) if m.is_empty()));
}

#[test]
fn test_structured_native_takes_precedence() {
    let mut t = with_output(tool("t", ToolType::Sql));
    t.driver = Some(SqlDriver::Sqlite);
    let mut result = text_result("not json at all");
    let rows = JsonValue::Array(vec![JsonValue::Object(vec![("id".to_string(), num("1"))])]);
    result.structured = Some(JsonValue::Array(vec![JsonValue::Object(vec![("id".to_string(), num("1"))])]));
    let got = resolve_structured_content(&t, &result).unwrap();
    assert!(json_equal(&got, &rows));
}

#[test]
fn test_output_parse_json_valid() {
    let t = with_output(tool("t", ToolType::Http));
    let result = text_result(r#"{"ok": true}"#);
    let got = resolve_structured_content(&t, &result).unwrap();
    assert!(json_equal(&got, &JsonValue::Object(vec![("ok".to_string(), JsonValue::Bool(true))])));
}

#[test]
fn test_output_parse_json_invalid_degrades_to_none() {
    let t = with_output(exec("t"));
    let result = text_result("plain text");
    assert!(resolve_structured_content(&t, &result).is_none());
}

#[test]
fn test_no_output_no_structured() {
    let t = exec("t");
    let result = text_result(r#"{"looks": "like json"}"#);
    assert!(resolve_structured_content(&t, &result).is_none());
}

#[test]
fn listing_offers_enabled_tools_in_name_order() {
    let mut off = exec("off");
    off.enabled = false;
    let mut b = exec("b");
    b.description = "bee".to_string();
    b.annotations = Some(ToolAnnotations { destructive: None, read_only: Some(true), idempotent: None, open_world: None });
    b.output = Some(OutputConfig {
        parse: OutputParse::Text,
        schema: Some(JsonValue::Object(vec![("type".to_string(), text("object"))])),
    });
    let registry = ToolRegistry::from_config(&config(vec![b, off, exec("a")]));
    let listed = list_tools(&registry);
    let names: Vec<&str> = listed.iter().map(|l| l.name.as_str()).collect();
    assert_eq!(names, vec!["a", "b"]);
    assert_eq!(listed[1].description, "bee");
    assert_eq!(listed[1].annotations.unwrap().read_only, Some(true));
    assert_eq!(listed[1].output_schema.as_ref().unwrap().len(), 1);
    assert!(listed[0].output_schema.is_none());
    assert_eq!(listed[0].input_schema.len(), 2);
}

fn service(name: &str) -> ServiceConfig {
    ServiceConfig {
        name: name.to_string(),
        command: "sleep".to_string(),
        args: vec![],
        cwd: ".".to_string(),
        env: vec![],
        autostart: true,
        restart: RestartPolicy::Never,
        healthcheck: None,
    }
}

#[test]
fn calls_are_admitted_only_when_ready() {
    let mut off = exec("off");
    off.enabled = false;
    let mut dep = exec("dep");
    dep.depends_on = vec!["db".to_string()];
    let mut c = config(vec![exec("plain"), off, dep]);
    c.services = vec![service("db")];
    let mut registry = ToolRegistry::from_config(&c);
    let mut supervisor = SupervisorManager::from_config(&c);

    assert_eq!(admit_call(&registry, &supervisor, "nope").err().unwrap(), "tool not found: nope");
    assert_eq!(admit_call(&registry, &supervisor, "off").err().unwrap(), "tool not available: Disabled");
    assert_eq!(admit_call(&registry, &supervisor, "dep").err().unwrap(), "dependency 'db' is not online");
    assert_eq!(admit_call(&registry, &supervisor, "plain").ok().unwrap().name, "plain");

    let rt = tokio::runtime::Runtime::new().unwrap();
    let p = rt.block_on(async { tokio::process::Command::new("sleep").arg("30").kill_on_drop(true).spawn().unwrap() });
    supervisor.mark_started("db", p, None, std::time::Instant::now()).ok().unwrap();
    supervisor.apply_health("db", HealthResult::Healthy, std::time::Instant::now());
    assert_eq!(admit_call(&registry, &supervisor, "dep").ok().unwrap().name, "dep");

    registry.set_availability("plain", ToolAvailability::BlockedByDependency("db".to_string()));
    assert_eq!(
        admit_call(&registry, &supervisor, "plain").err().unwrap(),
        "tool not available: BlockedByDependency(\"db\")"
    );
}

#[test]
fn call_responses() {
    let t = exec("t");
    let mut r = text_result("out");
    r.stderr = "warn".to_string();
    let resp = call_response(&t, Ok(r));
    assert_eq!(resp.texts, vec!["out", "[stderr] warn"]);
    assert!(!resp.is_error);
    let mut failed = text_result("x");
    failed.is_error = true;
    let resp = call_response(&t, Ok(failed));
    assert_eq!(resp.texts, vec!["x"]);
    assert!(resp.is_error);
    let resp = call_response(&t, Err("timeout after 5ms".to_string()));
    assert_eq!(resp.texts, vec!["error: timeout after 5ms"]);
    assert!(resp.is_error && resp.structured.is_none());
    let resp = rejection("no".to_string());
    assert_eq!(resp.texts, vec!["no"]);
    assert!(resp.is_error);
}

fn destructive(name: &str) -> ToolConfig {
    let mut t = exec(name);
    t.annotations = Some(ToolAnnotations { destructive: Some(true), read_only: None, idempotent: None, open_world: None });
    t
}

#[test]
fn destructive_tools_need_consent() {
    let input = JsonValue::Object(vec![("x".to_string(), text("1"))]);
    assert!(matches!(destructive_gate(&exec("safe"), &input, false), GateDecision::Proceed(ref v) if json_equal(v, &input)));
    let nuke = destructive("nuke");
    assert!(matches!(destructive_gate(&nuke, &input, true), GateDecision::AskUser));
    match destructive_gate(&nuke, &input, false) {
        GateDecision::Refuse(m) => assert!(m.contains("confirm")),
        _ => panic!("a destructive call without confirm is refused"),
    }
    let confirmed = JsonValue::Object(vec![("confirm".to_string(), JsonValue::Bool(true)), ("x".to_string(), text("1"))]);
    match destructive_gate(&nuke, &confirmed, false) {
        GateDecision::Proceed(v) => assert!(json_equal(&v, &input)),
        _ => panic!("confirm: true lets it run"),
    }
    assert_eq!(confirmation_prompt(&nuke), "Run destructive tool 'nuke'?");
    assert!(confirmation_verdict(&nuke, true).is_ok());
    assert!(confirmation_verdict(&nuke, false).unwrap_err().contains("declined"));
}

#[test]
fn cached_calls_serve_or_fill() {
    let mut t = exec("t");
    let plain = JsonValue::Object(vec![]);
    let refresh = JsonValue::Object(vec![("refresh".to_string(), JsonValue::Bool(true))]);
    assert_eq!(cache_mode(&t, &plain, true), CacheMode::Direct);
    t.cache = Some(mcpify::config::model::CacheConfig { refresh_interval_ms: 1000 });
    assert_eq!(cache_mode(&t, &plain, false), CacheMode::Fill);
    assert_eq!(cache_mode(&t, &plain, true), CacheMode::Stored);
    assert_eq!(cache_mode(&t, &refresh, true), CacheMode::Fill);
}

#[test]
fn resources_are_listed_and_found() {
    let mut c = config(vec![]);
    assert!(!has_resources(&c));
    c.resources = vec![
        ResourceConfig {
            name: "readme".to_string(),
            uri: "file:///README.md".to_string(),
            description: Some("the readme".to_string()),
            resource_type: ResourceType::File,
            path: Some("README.md".to_string()),
            command: None,
            args: vec![],
            mime_type: Some("text/markdown".to_string()),
        },
        ResourceConfig {
            name: "version".to_string(),
            uri: "mcpify://version".to_string(),
            description: None,
            resource_type: ResourceType::Exec,
            path: None,
            command: Some("git".to_string()),
            args: vec!["describe".to_string()],
            mime_type: None,
        },
    ];
    assert!(has_resources(&c));
    let listed = list_resources(&c);
    assert_eq!(listed.len(), 2);
    assert_eq!(listed[0].uri, "file:///README.md");
    assert_eq!(listed[0].mime_type.as_deref(), Some("text/markdown"));
    match find_resource(&c, "file:///README.md") {
        Ok((ResourceSource::File { path }, mime)) => {
            assert_eq!(path, "README.md");
            assert_eq!(mime.as_deref(), Some("text/markdown"));
        },
        _ => panic!("the file resource"),
    }
    match find_resource(&c, "mcpify://version") {
        Ok((ResourceSource::Exec { command, args }, None)) => {
            assert_eq!(command, "git");
            assert_eq!(args, vec!["describe"]);
        },
        _ => panic!("the exec resource"),
    }
    match find_resource(&c, "nope://x") {
        Err(ResourceError::NotFound(m)) => assert_eq!(m, "resource not found: nope://x"),
        _ => panic!("an unknown uri"),
    }
    assert!(matches!(file_read_failure("a", "gone"), ResourceError::Internal(m) if m == "failed to read file a: gone"));
    assert!(matches!(exec_read_failure("git", "no"), ResourceError::Internal(m) if m == "failed to exec git: no"));
}
