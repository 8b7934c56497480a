use mcpify::adapters::ToolResult;
use mcpify::config::model::{
    default_tool_timeout, CacheConfig, McpifyConfig, PipelineStep, ServerConfig, SupervisorConfig, ToolConfig,
    ToolType,
};
use mcpify::json::{json_equal, JsonValue};
use mcpify::runtime::cache::{reconcile_plan, CachedEntry, PollerSet, ResultCache};
use mcpify::runtime::pipeline::{check_pipeline, record_step, step_context, step_input, step_output_value, step_tool};
use mcpify::adapters::exec::exec_result;
use mcpify::mcp::server::{cache_mode, CacheMode};
use mcpify::runtime::registry::{ToolAvailability, ToolRegistry};
use mcpify::config::diff::diff_configs;
use mcpify::config::model::{RestartPolicy, ServiceConfig};
use mcpify::runtime::reload::{
    decide_reload, invalid_reload_message, reload_plan, rollback_services, service_named, start_abort_message,
    ReloadDecision, ReloadStep,
};
use mcpify::template::render::render_template;

fn tool(name: &str, tool_type: ToolType) -> ToolConfig {
    ToolConfig {
        name: name.to_string(),
        tool_type,
        description: String::new(),
        command: None,
        args: vec![],
        cwd: None,
        env: vec![],
        method: None,
        url: None,
        headers: vec![],
        query_params: vec![],
        auth: None,
        body: None,
        driver: None,
        dsn: None,
        query: None,
        steps: vec![],
        timeout_ms: default_tool_timeout(),
        depends_on: vec![],
        enabled: true,
        input: None,
        retry: None,
        annotations: None,
        output: None,
        cache: None,
    }
}

fn exec(name: &str, command: &str) -> ToolConfig {
    let mut t = tool(name, ToolType::Exec);
    t.command = Some(command.to_string());
    t
}

fn config(tools: Vec<ToolConfig>) -> McpifyConfig {
    McpifyConfig {
        server: ServerConfig::default(),
        supervisor: SupervisorConfig::default(),
        services: vec![],
        tools,
        vars: vec![],
        resources: vec![],
    }
}

fn test_config() -> McpifyConfig {
    let mut beta = exec("beta", "ls");
    beta.enabled = false;
    config(vec![exec("alpha", "echo"), beta])
}

fn result(stdout: &str) -> ToolResult {
    ToolResult { stdout: stdout.to_string(), stderr: String::new(), exit_code: Some(0), is_error: false, structured: None }
}

#[test]
fn test_from_config() {
    let registry = ToolRegistry::from_config(&test_config());
    assert_eq!(registry.list().len(), 2);
    assert_eq!(registry.get("alpha").unwrap().availability, ToolAvailability::Enabled);
    assert_eq!(registry.get("beta").unwrap().availability, ToolAvailability::Disabled);
}

#[test]
fn test_lookup() {
    let registry = ToolRegistry::from_config(&test_config());
    assert!(registry.get("alpha").is_some());
    assert!(registry.get("nonexistent").is_none());
}

#[test]
fn test_remove() {
    let mut registry = ToolRegistry::from_config(&test_config());
    assert!(registry.remove("alpha").is_some());
    assert!(registry.get("alpha").is_none());
    assert_eq!(registry.list().len(), 1);
}

#[test]
fn registry_lists_in_name_order_and_later_duplicates_win() {
    let mut second = exec("m", "second");
    second.description = "later".to_string();
    let registry = ToolRegistry::from_config(&config(vec![exec("z", "a"), exec("m", "first"), exec("a", "b"), second]));
    let names: Vec<&str> = registry.list().iter().map(|e| e.config.name.as_str()).collect();
    assert_eq!(names, vec!["a", "m", "z"]);
    assert_eq!(registry.get("m").unwrap().config.description, "later");
}

#[test]
fn registry_add_then_get_then_remove() {
    let mut registry = ToolRegistry::new();
    registry.add(exec("x", "echo"));
    assert_eq!(registry.get("x").unwrap().config.command.as_deref(), Some("echo"));
    registry.add(exec("x", "cat"));
    assert_eq!(registry.list().len(), 1);
    assert_eq!(registry.get("x").unwrap().config.command.as_deref(), Some("cat"));
    let removed = registry.remove("x").unwrap();
    assert_eq!(removed.config.command.as_deref(), Some("cat"));
    assert!(registry.get("x").is_none());
    assert!(registry.remove("x").is_none());
}

#[test]
fn registry_set_availability_keeps_config() {
    let mut registry = ToolRegistry::from_config(&test_config());
    registry.set_availability("alpha", ToolAvailability::BlockedByDependency("db".to_string()));
    let e = registry.get("alpha").unwrap();
    assert_eq!(e.availability, ToolAvailability::BlockedByDependency("db".to_string()));
    assert_eq!(e.config.command.as_deref(), Some("echo"));
    registry.set_availability("ghost", ToolAvailability::Disabled);
    assert!(registry.get("ghost").is_none());
}

fn pipeline() -> ToolConfig {
    let mut p = tool("flow", ToolType::Pipeline);
    p.steps = vec![
        PipelineStep { id: Some("u".to_string()), tool: "emit".to_string(), input: vec![] },
        PipelineStep {
            id: None,
            tool: "greet".to_string(),
            input: vec![("name".to_string(), "{{steps.u.name}}".to_string())],
        },
    ];
    p
}

#[test]
fn pipeline_steps_chain_outputs() {
    let mut greet = exec("greet", "echo");
    greet.args = vec!["hello {{name}}".to_string()];
    let registry = ToolRegistry::from_config(&config(vec![exec("emit", "printf"), greet, pipeline()]));
    let p = pipeline();
    assert!(check_pipeline(&p).is_ok());
    let input = JsonValue::Object(vec![]);
    let mut steps_out: Vec<(String, JsonValue)> = vec![];

    let first = step_tool(&p, &p.steps[0], &registry).ok().unwrap();
    assert_eq!(first.name, "emit");
    let ctx = step_context(&steps_out, &input, &vec![]);
    let first_input = step_input("flow", &p.steps[0], &input, &ctx).unwrap();
    assert!(json_equal(&first_input, &input));
    let done = record_step("flow", &p.steps[0], Ok(result("{\"name\":\"bob\"}")), &mut steps_out).unwrap();
    assert_eq!(done.stdout, "{\"name\":\"bob\"}");
    assert_eq!(steps_out.len(), 1);
    assert_eq!(steps_out[0].0, "u");

    let ctx = step_context(&steps_out, &input, &vec![]);
    let second_input = step_input("flow", &p.steps[1], &input, &ctx).unwrap();
    let expected = JsonValue::Object(vec![("name".to_string(), JsonValue::Str("bob".to_string()))]);
    assert!(json_equal(&second_input, &expected));
    assert_eq!(render_template("{{steps.u.name}}", &ctx).unwrap(), "bob");
}

#[test]
fn pipeline_failures_name_the_step() {
    let registry = ToolRegistry::from_config(&config(vec![exec("emit", "printf"), pipeline()]));
    let p = pipeline();
    assert_eq!(
        step_tool(&p, &p.steps[1], &registry).err().unwrap(),
        "pipeline 'flow': step references unknown tool 'greet'"
    );
    let nested = PipelineStep { id: None, tool: "flow".to_string(), input: vec![] };
    assert_eq!(
        step_tool(&p, &nested, &registry).err().unwrap(),
        "pipeline 'flow': step 'flow' references another pipeline (nesting is not supported)"
    );
    let empty = tool("empty", ToolType::Pipeline);
    assert_eq!(check_pipeline(&empty).unwrap_err(), "pipeline 'empty' has no steps");
    let ctx = step_context(&vec![], &JsonValue::Object(vec![]), &vec![]);
    assert_eq!(
        step_input("flow", &p.steps[1], &JsonValue::Object(vec![]), &ctx).unwrap_err(),
        "pipeline 'flow': rendering step 'greet' input 'name'"
    );
    let mut out = vec![];
    assert_eq!(
        record_step("flow", &p.steps[0], Err("boom".to_string()), &mut out).unwrap_err(),
        "pipeline 'flow': step 'emit' failed"
    );
    let mut bad = result("");
    bad.is_error = true;
    bad.stderr = "nope".to_string();
    assert_eq!(
        record_step("flow", &p.steps[0], Ok(bad), &mut out).unwrap_err(),
        "pipeline 'flow': step 'emit' returned an error: nope"
    );
    assert!(out.is_empty());
}

#[test]
fn step_output_prefers_structured_then_json_then_text() {
    let mut r = result("{\"a\":1}");
    let parsed = step_output_value(&r);
    assert!(matches!(parsed, JsonValue::Object(ref m) if m.len() == 1 && m[0].0 == "a"));
    r.stdout = "plain".to_string();
    assert!(json_equal(&step_output_value(&r), &JsonValue::Str("plain".to_string())));
    r.structured = Some(JsonValue::Bool(true));
    assert!(json_equal(&step_output_value(&r), &JsonValue::Bool(true)));
}

#[test]
fn recording_a_step_twice_replaces_its_output() {
    let step = PipelineStep { id: Some("x".to_string()), tool: "t".to_string(), input: vec![] };
    let mut out = vec![];
    record_step("p", &step, Ok(result("1")), &mut out).unwrap();
    record_step("p", &step, Ok(result("2")), &mut out).unwrap();
    assert_eq!(out.len(), 1);
    assert!(json_equal(&out[0].1, &JsonValue::Number("2".to_string())));
}

#[test]
fn cache_keeps_last_good_value_on_failure() {
    let mut cache = ResultCache::new();
    cache.mark_failed("t", "boom".to_string());
    assert!(cache.get("t").is_none());
    let now = std::time::SystemTime::now();
    cache.store("t".to_string(), CachedEntry::fresh(result("v1"), now));
    cache.mark_failed("t", "boom".to_string());
    let e = cache.get("t").unwrap();
    assert_eq!(e.result.stdout, "v1");
    assert!(e.stale);
    assert_eq!(e.last_error.as_deref(), Some("boom"));
    cache.store("t".to_string(), CachedEntry::fresh(result("v2"), now));
    let e = cache.get("t").unwrap();
    assert_eq!(e.result.stdout, "v2");
    assert!(!e.stale);
    assert!(e.last_error.is_none());
}

#[test]
fn freshness_meta_members() {
    let mut e = CachedEntry::fresh(result("v"), std::time::SystemTime::now());
    let m = e.freshness_meta(12, 1700000000000);
    let keys: Vec<&str> = m.iter().map(|(k, _)| k.as_str()).collect();
    assert_eq!(keys, vec!["age_ms", "cached", "fetched_at_unix_ms", "last_error", "stale"]);
    assert!(json_equal(&m[0].1, &JsonValue::Number("12".to_string())));
    assert!(json_equal(&m[1].1, &JsonValue::Bool(true)));
    assert!(json_equal(&m[2].1, &JsonValue::Number("1700000000000".to_string())));
    assert!(json_equal(&m[3].1, &JsonValue::Null));
    e.stale = true;
    e.last_error = Some("x".to_string());
    let m = e.freshness_meta(0, 0);
    assert!(json_equal(&m[3].1, &JsonValue::Str("x".to_string())));
    assert!(json_equal(&m[4].1, &JsonValue::Bool(true)));
}

fn cached(name: &str, interval: u64) -> ToolConfig {
    let mut t = exec(name, "sh");
    t.cache = Some(CacheConfig { refresh_interval_ms: interval });
    t
}

#[test]
fn pollers_follow_the_cached_tools() {
    let c = config(vec![cached("a", 100), exec("b", "ls"), cached("c", 200), cached("d", 300)]);
    let running = vec![("a".to_string(), 100), ("b".to_string(), 50), ("c".to_string(), 999)];
    let plan = reconcile_plan(&running, &c);
    assert_eq!(plan.stop, vec!["b", "c"]);
    assert_eq!(plan.start, vec![("c".to_string(), 200), ("d".to_string(), 300)]);
    let none = reconcile_plan(&vec![], &config(vec![]));
    assert!(none.stop.is_empty() && none.start.is_empty());
}

#[test]
fn reload_decisions() {
    let current = config(vec![exec("a", "echo")]);
    assert!(matches!(decide_reload(&current, &current), ReloadDecision::Unchanged));
    let invalid = config(vec![tool("broken", ToolType::Exec)]);
    match decide_reload(&current, &invalid) {
        ReloadDecision::Invalid(f) => assert!(f.to_string().contains("missing 'command'")),
        _ => panic!("an invalid config is not applied"),
    }
    let next = config(vec![exec("a", "echo"), exec("b", "ls")]);
    match decide_reload(&current, &next) {
        ReloadDecision::Apply(d) => assert_eq!(d.added_tools, vec!["b"]),
        _ => panic!("a changed config is applied"),
    }
    assert_eq!(invalid_reload_message(), "reload: new config is invalid — keeping current state");
    assert_eq!(start_abort_message("svc", "no such file"), "reload aborted: failed to start child 'svc': no such file");
    assert!(service_named(&current, "svc").is_none());
}

fn service(name: &str, command: &str) -> ServiceConfig {
    ServiceConfig {
        name: name.to_string(),
        command: command.to_string(),
        args: vec![],
        cwd: ".".to_string(),
        env: vec![],
        autostart: true,
        restart: RestartPolicy::OnFailure,
        healthcheck: None,
    }
}

fn with_services(services: Vec<ServiceConfig>) -> McpifyConfig {
    let mut c = config(vec![]);
    c.services = services;
    c
}

fn step_name(s: &ReloadStep) -> String {
    match s {
        ReloadStep::StartService(n) => format!("start {n}"),
        ReloadStep::CheckHealth => "health".to_string(),
        ReloadStep::UpdateRegistry => "registry".to_string(),
        ReloadStep::RestartService(n) => format!("restart {n}"),
        ReloadStep::StopService(n) => format!("stop {n}"),
    }
}

#[test]
fn reload_plan_orders_the_steps() {
    let old = with_services(vec![service("keep", "a"), service("edit", "b"), service("gone", "c")]);
    let new = with_services(vec![service("keep", "a"), service("edit", "b2"), service("fresh", "d")]);
    let plan: Vec<String> = reload_plan(&diff_configs(&old, &new)).iter().map(step_name).collect();
    assert_eq!(plan, vec!["start fresh", "health", "registry", "restart edit", "stop gone"]);
    assert!(!plan.iter().any(|s| s.ends_with("keep")));
}

#[test]
fn reload_plan_without_new_services_skips_the_health_check() {
    let old = with_services(vec![service("x", "a")]);
    let new = with_services(vec![]);
    let plan: Vec<String> = reload_plan(&diff_configs(&old, &new)).iter().map(step_name).collect();
    assert_eq!(plan, vec!["registry", "stop x"]);
    let same: Vec<String> = reload_plan(&diff_configs(&old, &old)).iter().map(step_name).collect();
    assert_eq!(same, vec!["registry"]);
}

#[test]
fn rollback_stops_the_services_started_before_the_failure() {
    let old = with_services(vec![service("keep", "a")]);
    let new = with_services(vec![service("keep", "a"), service("n1", "b"), service("n2", "c")]);
    let plan = reload_plan(&diff_configs(&old, &new));
    assert_eq!(rollback_services(&plan, 0), Vec::<String>::new());
    assert_eq!(rollback_services(&plan, 1), vec!["n1"]);
    assert_eq!(rollback_services(&plan, 2), vec!["n1", "n2"]);
    assert_eq!(rollback_services(&plan, 99), vec!["n1", "n2"]);
}

#[test]
fn tool_changes_are_told_to_clients() {
    let current = config(vec![exec("a", "echo")]);
    assert!(!diff_configs(&current, &current).tools_changed());
    assert!(diff_configs(&current, &config(vec![exec("a", "echo"), exec("b", "ls")])).tools_changed());
    assert!(diff_configs(&current, &config(vec![exec("a", "cat")])).tools_changed());
    assert!(diff_configs(&current, &config(vec![])).tools_changed());
    let services_only = with_services(vec![service("s", "x")]);
    assert!(!diff_configs(&config(vec![]), &services_only).tools_changed());
}

#[test]
fn list_holds_one_entry_per_name() {
    let mut registry = ToolRegistry::new();
    registry.add(exec("alpha", "echo"));
    registry.add(exec("beta", "ls"));
    assert_eq!(registry.list().len(), 2);
    registry.add(exec("alpha", "cat"));
    assert_eq!(registry.list().len(), 2);
    assert!(registry.remove("alpha").is_some());
    assert_eq!(registry.list().len(), 1);
    assert!(registry.remove("alpha").is_none());
    assert_eq!(registry.list().len(), 1);
}

#[test]
fn diff_lists_each_added_and_removed_name_once() {
    let old = config(vec![exec("a", "echo"), exec("gone", "ls"), exec("gone", "ls")]);
    let new = config(vec![exec("a", "echo"), exec("b", "ls"), exec("b", "cat")]);
    let d = diff_configs(&old, &new);
    assert_eq!(d.added_tools, vec!["b"]);
    assert_eq!(d.removed_tools, vec!["gone"]);
    let back = diff_configs(&new, &old);
    assert_eq!(back.removed_tools, d.added_tools);
    assert_eq!(back.added_tools, d.removed_tools);
}

#[test]
fn stored_result_is_served_until_refreshed() {
    let mut t = exec("nonce", "sh");
    t.cache = Some(CacheConfig { refresh_interval_ms: 60000 });
    let plain = JsonValue::Object(vec![]);
    let refresh = JsonValue::Object(vec![("refresh".to_string(), JsonValue::Bool(true))]);
    let mut cache = ResultCache::new();
    assert_eq!(cache_mode(&t, &plain, cache.get("nonce").is_some()), CacheMode::Fill);
    let now = std::time::SystemTime::now();
    cache.store("nonce".to_string(), CachedEntry::fresh(result("111"), now));
    assert_eq!(cache_mode(&t, &plain, cache.get("nonce").is_some()), CacheMode::Stored);
    assert_eq!(cache_mode(&t, &refresh, cache.get("nonce").is_some()), CacheMode::Fill);
    cache.store("other".to_string(), CachedEntry::fresh(result("x"), now));
    cache.mark_failed("nonce", "boom".to_string());
    assert_eq!(cache.get("nonce").unwrap().result.stdout, "111");
    cache.store("nonce".to_string(), CachedEntry::fresh(result("222"), now));
    assert_eq!(cache.get("nonce").unwrap().result.stdout, "222");
}

#[test]
fn poller_set_keeps_unchanged_pollers_and_matches_the_config() {
    let mut set = PollerSet::new();
    set.insert("a".to_string(), 100);
    set.insert("b".to_string(), 50);
    set.insert("c".to_string(), 999);
    let c = config(vec![cached("a", 100), exec("b", "ls"), cached("c", 200), cached("d", 300)]);
    let plan = set.reconcile(&c);
    assert_eq!(plan.stop, vec!["b", "c"]);
    assert_eq!(plan.start, vec![("c".to_string(), 200), ("d".to_string(), 300)]);
    set.apply(&plan);
    assert_eq!(set.entries(), vec![("a".to_string(), 100), ("c".to_string(), 200), ("d".to_string(), 300)]);
    let again = set.reconcile(&c);
    assert!(again.stop.is_empty() && again.start.is_empty());
    set.remove("a");
    assert_eq!(set.entries(), vec![("c".to_string(), 200), ("d".to_string(), 300)]);
}

#[test]
fn exec_outcome_becomes_the_tool_result() {
    let ok = exec_result(true, Some(0), "hello\n".to_string(), String::new());
    assert!(!ok.is_error);
    assert_eq!(ok.exit_code, Some(0));
    assert_eq!(ok.stdout, "hello\n");
    assert!(ok.structured.is_none());
    let failed = exec_result(false, Some(1), String::new(), "boom".to_string());
    assert!(failed.is_error);
    assert_eq!(failed.exit_code, Some(1));
    assert_eq!(failed.stderr, "boom");
    let killed = exec_result(false, None, String::new(), String::new());
    assert!(killed.is_error && killed.exit_code.is_none());
}
