use mcpify::adapters::exec::{plan_exec, render_args, run_failure_message};
use mcpify::adapters::http::{
    http_step, plan_http, render_auth, render_headers, render_query, AppliedAuth, HttpOutcome, HttpStep,
};
use mcpify::adapters::sql::{
    affected_result, bind_value, build_bound_query, column_kind, is_select_statement, is_valid_identifier,
    plan_sql, query_failure_message, select_result, ColumnKind, SqlBind, SqlTemplateError,
};
use mcpify::config::model::{
    default_tool_timeout, AuthConfig, HttpMethod, RetryConfig, SqlDriver, ToolAnnotations, ToolConfig, ToolType,
};
use mcpify::json::{json_equal, JsonValue};
use mcpify::template::render::Vars;

fn text(s: &str) -> JsonValue {
    JsonValue::Str(s.to_string())
}

fn num(s: &str) -> JsonValue {
    JsonValue::Number(s.to_string())
}

fn vars(pairs: &[(&str, &str)]) -> Vars {
    Vars { entries: pairs.iter().map(|(k, v)| (k.to_string(), text(v))).collect() }
}

fn object(pairs: &[(&str, &str)]) -> JsonValue {
    JsonValue::Object(pairs.iter().map(|(k, v)| (k.to_string(), text(v))).collect())
}

fn tool(name: &str, tool_type: ToolType) -> ToolConfig {
    ToolConfig {
        name: name.to_string(),
        tool_type,
        description: String::new(),
        command: None,
        args: vec![],
        cwd: None,
        env: vec![],
        method: None,
        url: None,
        headers: vec![],
        query_params: vec![],
        auth: None,
        body: None,
        driver: None,
        dsn: None,
        query: None,
        steps: vec![],
        timeout_ms: default_tool_timeout(),
        depends_on: vec![],
        enabled: true,
        input: None,
        retry: None,
        annotations: None,
        output: None,
        cache: None,
    }
}

#[test]
fn test_render_query_substitutes() {
    let q = vec![("page".to_string(), "{{page}}".to_string()), ("limit".to_string(), "10".to_string())];
    let mut out = render_query(&q, &vars(&[("page", "3")])).unwrap();
    out.sort();
    assert_eq!(
        out,
        vec![("limit".to_string(), "10".to_string()), ("page".to_string(), "3".to_string())]
    );
}

#[test]
fn test_render_auth_bearer() {
    let auth = AuthConfig::Bearer { token: "{{tok}}".to_string() };
    match render_auth(Some(&auth), &vars(&[("tok", "abc123")])).unwrap() {
        Some(AppliedAuth::Bearer(t)) => assert_eq!(t, "abc123"),
        _ => panic!("expected bearer"),
    }
}

#[test]
fn test_render_auth_basic_and_apikey() {
    let basic = AuthConfig::Basic { username: "u".to_string(), password: "{{pw}}".to_string() };
    match render_auth(Some(&basic), &vars(&[("pw", "s3cret")])).unwrap() {
        Some(AppliedAuth::Basic { username, password }) => {
            assert_eq!(username, "u");
            assert_eq!(password, "s3cret");
        },
        _ => panic!("expected basic"),
    }

    let apikey = AuthConfig::ApiKey { header: "X-API-Key".to_string(), value: "{{k}}".to_string() };
    match render_auth(Some(&apikey), &vars(&[("k", "keyval")])).unwrap() {
        Some(AppliedAuth::ApiKey { header, value }) => {
            assert_eq!(header, "X-API-Key");
            assert_eq!(value, "keyval");
        },
        _ => panic!("expected api-key"),
    }
}

#[test]
fn render_headers_keeps_names_and_stops_at_first_failure() {
    let h = vec![("Authorization".to_string(), "Bearer {{t}}".to_string())];
    assert_eq!(
        render_headers(&h, &vars(&[("t", "x")])).unwrap(),
        vec![("Authorization".to_string(), "Bearer x".to_string())]
    );
    let bad = vec![("A".to_string(), "{{nope}}".to_string()), ("B".to_string(), "{{".to_string())];
    assert_eq!(render_headers(&bad, &vars(&[])).unwrap_err().to_string(), "missing template variable: nope");
    assert!(render_auth(None, &vars(&[])).unwrap().is_none());
}

#[test]
fn test_build_bound_query_placeholders_and_values() {
    let v = Vars { entries: vec![("name".to_string(), text("bob")), ("age".to_string(), num("42"))] };
    let (sql, values) =
        build_bound_query("SELECT * FROM t WHERE name = {{name}} AND age > {{age}}", &v, SqlDriver::Postgres)
            .unwrap();
    assert_eq!(sql, "SELECT * FROM t WHERE name = $1 AND age > $2");
    assert_eq!(values.len(), 2);
    assert!(json_equal(&values[0], &text("bob")));
    assert!(json_equal(&values[1], &num("42")));

    let (sql, _) = build_bound_query("SELECT {{name}}", &v, SqlDriver::Sqlite).unwrap();
    assert_eq!(sql, "SELECT ?");
}

#[test]
fn test_build_bound_query_raw_rejects_non_identifier() {
    let v = vars(&[("table", "users; DROP TABLE users")]);
    let err = build_bound_query("SELECT * FROM {{raw:table}}", &v, SqlDriver::Sqlite).unwrap_err();
    assert!(err.to_string().contains("not a valid SQL identifier"));
}

#[test]
fn test_build_bound_query_rejects_non_scalar() {
    let v = Vars {
        entries: vec![("ids".to_string(), JsonValue::Array(vec![num("1"), num("2"), num("3")]))],
    };
    let err = build_bound_query("SELECT * FROM t WHERE id IN {{ids}}", &v, SqlDriver::Sqlite).unwrap_err();
    assert!(err.to_string().contains("non-scalar"));
}

#[test]
fn build_bound_query_raw_identifier_is_interpolated() {
    let v = vars(&[("table", "users"), ("name", "x")]);
    let (sql, values) =
        build_bound_query("SELECT * FROM {{raw:table}} WHERE n = {{name}}", &v, SqlDriver::Postgres).unwrap();
    assert_eq!(sql, "SELECT * FROM users WHERE n = $1");
    assert_eq!(values.len(), 1);
    assert!(matches!(build_bound_query("{{raw:missing}}", &v, SqlDriver::Sqlite), Err(SqlTemplateError::MissingVariable(_))));
}

#[test]
fn sql_identifiers() {
    assert!(is_valid_identifier("users"));
    assert!(is_valid_identifier("_t1"));
    assert!(!is_valid_identifier("1t"));
    assert!(!is_valid_identifier(""));
    assert!(!is_valid_identifier("a-b"));
}

#[test]
fn select_statements_are_recognised() {
    assert!(is_select_statement("  select * from t"));
    assert!(is_select_statement("SELECT 1"));
    assert!(!is_select_statement("INSERT INTO t VALUES (1)"));
    assert!(!is_select_statement("SEL"));
}

#[test]
fn column_kinds_per_driver() {
    assert_eq!(column_kind(SqlDriver::Sqlite, "INTEGER"), ColumnKind::Integer);
    assert_eq!(column_kind(SqlDriver::Sqlite, "NULL"), ColumnKind::Null);
    assert_eq!(column_kind(SqlDriver::Sqlite, "TEXT"), ColumnKind::Text);
    assert_eq!(column_kind(SqlDriver::Postgres, "INT8"), ColumnKind::Integer);
    assert_eq!(column_kind(SqlDriver::Postgres, "FLOAT4"), ColumnKind::Real);
    assert_eq!(column_kind(SqlDriver::Postgres, "BOOL"), ColumnKind::Boolean);
    assert_eq!(column_kind(SqlDriver::Postgres, "NULL"), ColumnKind::Text);
}

#[test]
fn bind_values_by_kind() {
    assert!(matches!(bind_value(&num("42")), Ok(SqlBind::Int(42))));
    assert!(matches!(bind_value(&num("-9223372036854775808")), Ok(SqlBind::Int(i64::MIN))));
    assert!(matches!(bind_value(&num("18446744073709551615")), Ok(SqlBind::Int(-1))));
    match bind_value(&num("1.5")) {
        Ok(SqlBind::Float(t)) => assert_eq!(t, "1.5"),
        _ => panic!("expected a float"),
    }
    assert!(matches!(bind_value(&JsonValue::Bool(true)), Ok(SqlBind::Bool(true))));
    assert!(matches!(bind_value(&JsonValue::Null), Ok(SqlBind::Null)));
    match bind_value(&text("x")) {
        Ok(SqlBind::Text(t)) => assert_eq!(t, "x"),
        _ => panic!("expected text"),
    }
    assert_eq!(
        bind_value(&JsonValue::Array(vec![num("1")])).unwrap_err(),
        "cannot bind non-scalar value: [1]"
    );
}

#[test]
fn sql_results() {
    let r = affected_result(5);
    assert_eq!(r.stdout, "{\"rows_affected\":5}");
    assert!(!r.is_error);
    assert_eq!(r.exit_code, Some(0));
    let rows = select_result(vec![object(&[("name", "alice")])]);
    assert!(rows.stdout.contains("\"name\": \"alice\""));
    assert!(matches!(rows.structured, Some(JsonValue::Array(ref a)) if a.len() == 1));
    assert_eq!(query_failure_message("q"), "sql tool 'q': query failed");
}

#[test]
fn sql_plan_checks_fields_in_order() {
    let mut t = tool("q", ToolType::Sql);
    assert_eq!(plan_sql(&t, &JsonValue::Null, &vec![]).err().unwrap(), "sql tool missing 'driver'");
    t.driver = Some(SqlDriver::Sqlite);
    assert_eq!(plan_sql(&t, &JsonValue::Null, &vec![]).err().unwrap(), "sql tool missing 'dsn'");
    t.dsn = Some("sqlite:{{db}}".to_string());
    assert_eq!(plan_sql(&t, &JsonValue::Null, &vec![]).err().unwrap(), "sql tool missing 'query'");
    t.query = Some("SELECT {{x}}".to_string());
    assert_eq!(plan_sql(&t, &JsonValue::Null, &vec![]).err().unwrap(), "missing template variable: db");
    t.annotations = Some(ToolAnnotations { destructive: None, read_only: Some(true), idempotent: None, open_world: None });
    let p = plan_sql(&t, &object(&[("db", "/tmp/x.db")]), &vec![]).ok().unwrap();
    assert_eq!(p.dsn, "sqlite:/tmp/x.db");
    assert_eq!(p.query, "SELECT {{x}}");
    assert!(p.read_only);
}

#[test]
fn exec_plan_renders_args_from_input_then_config() {
    let mut t = tool("e", ToolType::Exec);
    assert_eq!(plan_exec(&t, &JsonValue::Null, &vec![]).err().unwrap(), "exec tool missing 'command'");
    t.command = Some("echo".to_string());
    t.args = vec!["{{msg}}".to_string(), "{{greeting}}".to_string()];
    let config_vars = vec![("greeting".to_string(), "hola".to_string()), ("msg".to_string(), "config".to_string())];
    let p = plan_exec(&t, &object(&[("msg", "world")]), &config_vars).ok().unwrap();
    assert_eq!(p.command, "echo");
    assert_eq!(p.args, vec!["world", "hola"]);
    assert_eq!(p.timeout_ms, 30000);
    assert_eq!(plan_exec(&t, &JsonValue::Null, &vec![]).err().unwrap(), "missing template variable: msg");
    assert_eq!(render_args(&vec!["plain".to_string()], &vars(&[])).unwrap(), vec!["plain"]);
    assert_eq!(run_failure_message("e", "echo"), "exec tool 'e': running echo");
}

#[test]
fn http_plan_renders_every_part() {
    let mut t = tool("h", ToolType::Http);
    assert_eq!(plan_http(&t, &JsonValue::Null, &vec![]).err().unwrap(), "http tool missing 'url'");
    t.url = Some("http://x/{{id}}".to_string());
    assert_eq!(plan_http(&t, &JsonValue::Null, &vec![]).err().unwrap(), "http tool missing 'method'");
    t.method = Some(HttpMethod::Post);
    t.headers = vec![("X-Trace".to_string(), "{{trace}}".to_string())];
    t.query_params = vec![("q".to_string(), "{{id}}".to_string())];
    t.body = Some("{\"id\": \"{{id}}\"}".to_string());
    t.retry = Some(RetryConfig { max_retries: 2, retry_delay_ms: 50 });
    let input = object(&[("id", "7")]);
    let config_vars = vec![("trace".to_string(), "abc".to_string())];
    let p = plan_http(&t, &input, &config_vars).ok().unwrap();
    assert_eq!(p.url, "http://x/7");
    assert_eq!(p.method, HttpMethod::Post);
    assert_eq!(p.headers, vec![("X-Trace".to_string(), "abc".to_string())]);
    assert_eq!(p.query, vec![("q".to_string(), "7".to_string())]);
    assert_eq!(p.body.as_deref(), Some("{\"id\": \"7\"}"));
    assert_eq!(p.max_attempts, 3);
    assert_eq!(p.retry_delay_ms, 50);
    t.retry = None;
    let p = plan_http(&t, &input, &config_vars).ok().unwrap();
    assert_eq!(p.max_attempts, 1);
    assert_eq!(p.retry_delay_ms, 0);
    assert_eq!(plan_http(&t, &input, &vec![]).err().unwrap(), "missing template variable: trace");
}

fn response(status: u16, status_text: &str, body: &str) -> HttpOutcome {
    HttpOutcome::Response { status, status_text: status_text.to_string(), body: body.to_string() }
}

#[test]
fn http_steps_finish_retry_or_fail() {
    match http_step("h", "http://x", 1, 3, response(200, "200 OK", "ok")) {
        HttpStep::Finish(r) => {
            assert_eq!(r.stdout, "ok");
            assert_eq!(r.stderr, "");
            assert_eq!(r.exit_code, Some(200));
            assert!(!r.is_error);
        },
        _ => panic!("a success ends the call"),
    }
    match http_step("h", "http://x", 1, 3, response(404, "404 Not Found", "missing")) {
        HttpStep::Finish(r) => {
            assert_eq!(r.stderr, "HTTP 404 Not Found");
            assert!(r.is_error);
        },
        _ => panic!("a client error is not retried"),
    }
    match http_step("h", "http://x", 2, 3, response(503, "503 Service Unavailable", "")) {
        HttpStep::Retry { last_error } => assert_eq!(last_error, "HTTP 503 Service Unavailable"),
        _ => panic!("a server error is retried while attempts are left"),
    }
    match http_step("h", "http://x", 3, 3, response(503, "503 Service Unavailable", "down")) {
        HttpStep::Finish(r) => {
            assert_eq!(r.stdout, "down");
            assert_eq!(r.exit_code, Some(503));
            assert!(r.is_error);
        },
        _ => panic!("the last server error stands"),
    }
    match http_step("h", "http://x", 1, 2, HttpOutcome::Failed("refused".to_string())) {
        HttpStep::Retry { last_error } => assert_eq!(last_error, "refused"),
        _ => panic!("a failed request is retried"),
    }
    match http_step("h", "http://x", 2, 2, HttpOutcome::Failed("refused".to_string())) {
        HttpStep::Fail(m) => assert_eq!(m, "http tool 'h': request to http://x failed"),
        _ => panic!("the last failure fails the call"),
    }
}
