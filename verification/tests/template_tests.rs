use mcpify::json::{json_equal, JsonValue};
use mcpify::template::render::{json_to_vars, merge_vars, render_template, RenderError, Vars};

fn text(s: &str) -> JsonValue {
    JsonValue::Str(s.to_string())
}

fn vars(pairs: &[(&str, &str)]) -> Vars {
    Vars { entries: pairs.iter().map(|(k, v)| (k.to_string(), text(v))).collect() }
}

fn no_vars() -> Vars {
    Vars { entries: vec![] }
}

fn get<'a>(v: &'a Vars, key: &str) -> Option<&'a JsonValue> {
    v.entries.iter().find(|(k, _)| k == key).map(|(_, v)| v)
}

#[test]
fn test_simple_substitution() {
    let result = render_template("hello {{name}}", &vars(&[("name", "world")])).unwrap();
    assert_eq!(result, "hello world");
}

#[test]
fn test_multiple_vars() {
    let result = render_template("{{a}} and {{b}}", &vars(&[("a", "X"), ("b", "Y")])).unwrap();
    assert_eq!(result, "X and Y");
}

#[test]
fn test_no_placeholders() {
    let result = render_template("plain text", &no_vars()).unwrap();
    assert_eq!(result, "plain text");
}

#[test]
fn test_missing_variable() {
    let result = render_template("{{missing}}", &no_vars());
    assert!(result.is_err());
    assert!(result.unwrap_err().to_string().contains("missing"));
}

#[test]
fn test_trimmed_key() {
    let result = render_template("{{ name }}", &vars(&[("name", "trimmed")])).unwrap();
    assert_eq!(result, "trimmed");
}

#[test]
fn test_number_value() {
    let v = Vars { entries: vec![("port".to_string(), JsonValue::Number("3010".to_string()))] };
    let result = render_template("port={{port}}", &v).unwrap();
    assert_eq!(result, "port=3010");
}

#[test]
fn test_unclosed_placeholder() {
    let result = render_template("{{broken", &no_vars());
    assert!(result.is_err());
}

#[test]
fn test_json_to_vars_conversion() {
    let input = JsonValue::Object(vec![("id".to_string(), text("123")), ("name".to_string(), text("test"))]);
    let v = json_to_vars(&input);
    assert!(json_equal(get(&v, "id").unwrap(), &text("123")));
    assert!(json_equal(get(&v, "name").unwrap(), &text("test")));
}

#[test]
fn render_error_messages() {
    match render_template("a {{open", &no_vars()) {
        Err(e) => {
            assert!(matches!(e, RenderError::Unclosed(_)));
            assert_eq!(e.to_string(), "unclosed template placeholder: {{open");
        },
        Ok(_) => panic!("expected an error"),
    }
    match render_template("{{   }}", &no_vars()) {
        Err(e) => assert_eq!(e.to_string(), "empty template placeholder"),
        Ok(_) => panic!("expected an error"),
    }
    match render_template("{{ who }}", &no_vars()) {
        Err(e) => assert_eq!(e.to_string(), "missing template variable: who"),
        Ok(_) => panic!("expected an error"),
    }
}

#[test]
fn render_scalar_and_compound_values() {
    let v = Vars {
        entries: vec![
            ("t".to_string(), JsonValue::Bool(true)),
            ("n".to_string(), JsonValue::Null),
            ("a".to_string(), JsonValue::Array(vec![JsonValue::Number("1".to_string()), text("x")])),
        ],
    };
    assert_eq!(render_template("{{t}}/{{n}}/{{a}}", &v).unwrap(), "true/null/[1,\"x\"]");
}

#[test]
fn render_dotted_path_reaches_nested_member() {
    let inner = JsonValue::Object(vec![("name".to_string(), text("bob"))]);
    let steps = JsonValue::Object(vec![("u".to_string(), inner)]);
    let v = Vars { entries: vec![("steps".to_string(), steps)] };
    assert_eq!(render_template("hello {{steps.u.name}}", &v).unwrap(), "hello bob");
    assert!(render_template("{{steps.u.age}}", &v).is_err());
}

#[test]
fn render_first_entry_wins() {
    let v = vars(&[("x", "first"), ("x", "second")]);
    assert_eq!(render_template("{{x}}", &v).unwrap(), "first");
}

#[test]
fn render_text_without_placeholders_is_unchanged() {
    for t in ["", "a } b", "single { brace", "}}"] {
        assert_eq!(render_template(t, &no_vars()).unwrap(), t);
    }
}

#[test]
fn merge_vars_input_shadows_config() {
    let input = JsonValue::Object(vec![("greeting".to_string(), text("hi"))]);
    let config = vec![
        ("greeting".to_string(), "hola".to_string()),
        ("place".to_string(), "world".to_string()),
    ];
    let v = merge_vars(&input, &config);
    assert_eq!(v.entries.len(), 3);
    assert_eq!(render_template("{{greeting}} {{place}}", &v).unwrap(), "hi world");
    let only_config = merge_vars(&JsonValue::Null, &config);
    assert_eq!(render_template("{{greeting}}", &only_config).unwrap(), "hola");
}

#[test]
fn json_to_vars_of_non_object_is_empty() {
    assert!(json_to_vars(&text("x")).entries.is_empty());
    assert!(json_to_vars(&JsonValue::Array(vec![])).entries.is_empty());
}
