use flowt::config::StringMap;
use flowt::engine::{Engine, NodeResult, NodeStatus};
use flowt::json::JsonValue;

fn obj(members: Vec<(&str, JsonValue)>) -> JsonValue {
    JsonValue::Object(members.into_iter().map(|(k, v)| (k.to_string(), v)).collect())
}

fn s(text: &str) -> JsonValue {
    JsonValue::Str(text.to_string())
}

fn num(text: &str) -> JsonValue {
    JsonValue::Number(text.to_string())
}

fn step(id: &str, output: &str, response: Option<JsonValue>) -> NodeResult {
    let now: i64 = flowt::clock::now_nanos();
    NodeResult {
        node_id: id.to_string(),
        status: NodeStatus::Success,
        output: output.to_string(),
        response_data: response,
        started_at: now,
        finished_at: Some(now),
    }
}

fn vars(pairs: &[(&str, &str)]) -> StringMap {
    StringMap::from_pairs(pairs.iter().map(|(k, v)| (k.to_string(), v.to_string())).collect())
}

#[test]
fn test_template_interpolation_basic() {
    let engine = Engine::new();
    let context = vec![step(
        "test_node",
        "test output",
        Some(obj(vec![("user", obj(vec![("name", s("John")), ("id", num("123"))]))])),
    )];
    let env = vars(&[("TEST_ENV_VAR", "test_value")]);

    let result = engine.interpolate_template("Hello ${TEST_ENV_VAR}", &context, &env);
    assert_eq!(result, "Hello test_value");

    let result = engine.interpolate_template("Output: ${steps.test_node.output}", &context, &env);
    assert_eq!(result, "Output: test output");

    let result = engine.interpolate_template("Status: ${steps.test_node.status}", &context, &env);
    assert_eq!(result, "Status: Success");

    let result = engine.interpolate_template("User: ${steps.test_node.response.user.name}", &context, &env);
    assert_eq!(result, "User: John");

    let result = engine.interpolate_template("ID: ${steps.test_node.response.user.id}", &context, &env);
    assert_eq!(result, "ID: 123");
}

#[test]
fn test_template_interpolation_missing_values() {
    let engine = Engine::new();
    let context: Vec<NodeResult> = vec![];
    let env = StringMap::new();

    let result = engine.interpolate_template("Value: ${MISSING_VAR}", &context, &env);
    assert_eq!(result, "Value: ${MISSING_VAR}");

    let result = engine.interpolate_template("Output: ${steps.missing_step.output}", &context, &env);
    assert_eq!(result, "Output: ${steps.missing_step.output}");
}

#[test]
fn test_template_interpolation_complex() {
    let engine = Engine::new();
    let response = obj(vec![(
        "data",
        obj(vec![
            (
                "items",
                JsonValue::Array(vec![
                    obj(vec![("name", s("item1")), ("count", num("5"))]),
                    obj(vec![("name", s("item2")), ("count", num("10"))]),
                ]),
            ),
            ("total", num("15")),
        ]),
    )]);
    let context = vec![step("api_call", "HTTP 200", Some(response))];
    let env = StringMap::new();

    let template = "API returned ${steps.api_call.output} with ${steps.api_call.response.data.total} total items";
    let result = engine.interpolate_template(template, &context, &env);
    assert_eq!(result, "API returned HTTP 200 with 15 total items");

    let template = "First item: ${steps.api_call.response.data.items.0.name} (${steps.api_call.response.data.items.0.count})";
    let result = engine.interpolate_template(template, &context, &env);
    assert_eq!(result, "First item: item1 (5)");
}

#[test]
fn test_interpolate_headers() {
    let engine = Engine::new();
    let context = vec![step("auth", "authenticated", Some(obj(vec![("token", s("abc123"))])))];
    let headers = vars(&[
        ("Authorization", "Bearer ${steps.auth.response.token}"),
        ("Content-Type", "application/json"),
    ]);

    let interpolated = engine.interpolate_headers(&headers, &context, &StringMap::new());

    assert_eq!(interpolated.get("Authorization"), Some(&"Bearer abc123".to_string()));
    assert_eq!(interpolated.get("Content-Type"), Some(&"application/json".to_string()));
}

#[test]
fn test_interpolate_env() {
    let engine = Engine::new();
    let context = vec![step("setup", "/tmp/workdir", None)];
    let process_env = vars(&[("HOME", "/home/user")]);
    let env = vars(&[
        ("WORK_DIR", "${steps.setup.output}"),
        ("CONFIG_PATH", "${HOME}/.config"),
        ("STATIC_VAR", "static_value"),
    ]);

    let interpolated = engine.interpolate_env(&env, &context, &process_env);

    assert_eq!(interpolated.get("WORK_DIR"), Some(&"/tmp/workdir".to_string()));
    assert_eq!(interpolated.get("CONFIG_PATH"), Some(&"/home/user/.config".to_string()));
    assert_eq!(interpolated.get("STATIC_VAR"), Some(&"static_value".to_string()));
}

#[test]
fn test_nested_value_retrieval() {
    let engine = Engine::new();
    let json_data = obj(vec![
        (
            "level1",
            obj(vec![
                ("level2", obj(vec![("level3", s("deep_value"))])),
                ("array", JsonValue::Array(vec![obj(vec![("name", s("first"))]), obj(vec![("name", s("second"))])])),
            ]),
        ),
        ("simple", s("simple_value")),
    ]);

    let value = engine.get_nested_value(&json_data, &["level1", "level2", "level3"]);
    assert!(value.is_some());
    assert_eq!(engine.value_to_string(value.unwrap()), "deep_value");

    let value = engine.get_nested_value(&json_data, &["level1", "array", "0", "name"]);
    assert!(value.is_some());
    assert_eq!(engine.value_to_string(value.unwrap()), "first");

    let value = engine.get_nested_value(&json_data, &["simple"]);
    assert!(value.is_some());
    assert_eq!(engine.value_to_string(value.unwrap()), "simple_value");

    let value = engine.get_nested_value(&json_data, &["missing", "path"]);
    assert!(value.is_none());

    let value = engine.get_nested_value(&json_data, &["level1", "array", "10", "name"]);
    assert!(value.is_none());
}

#[test]
fn test_value_to_string_conversion() {
    let engine = Engine::new();

    assert_eq!(engine.value_to_string(&s("test string")), "test string");
    assert_eq!(engine.value_to_string(&num("42")), "42");
    assert_eq!(engine.value_to_string(&JsonValue::Bool(true)), "true");
    assert_eq!(engine.value_to_string(&JsonValue::Null), "null");

    let value = obj(vec![("key", s("value")), ("nested", obj(vec![("inner", num("123"))]))]);
    let result = engine.value_to_string(&value);
    assert!(result.contains("key"));
    assert!(result.contains("value"));
    assert_eq!(result, r#"{"key":"value","nested":{"inner":123}}"#);
}

#[test]
fn test_multiple_interpolations_in_template() {
    let engine = Engine::new();
    let env = vars(&[("SERVICE_URL", "https://api.example.com"), ("API_VERSION", "v1")]);
    let context = vec![step("step1", "success", Some(obj(vec![("id", s("12345"))])))];

    let template = "${SERVICE_URL}/${API_VERSION}/users/${steps.step1.response.id}?status=${steps.step1.output}";
    let result = engine.interpolate_template(template, &context, &env);
    assert_eq!(result, "https://api.example.com/v1/users/12345?status=success");
}

#[test]
fn test_interpolation_with_special_characters() {
    let engine = Engine::new();
    let context = vec![step(
        "special_test",
        "output with spaces and symbols!@#$%",
        Some(obj(vec![("message", s("Hello, World! How are you?"))])),
    )];

    let template = "Message: ${steps.special_test.response.message} | Output: ${steps.special_test.output}";
    let result = engine.interpolate_template(template, &context, &StringMap::new());
    assert_eq!(
        result,
        "Message: Hello, World! How are you? | Output: output with spaces and symbols!@#$%"
    );
}

#[test]
fn plain_text_comes_out_unchanged() {
    let engine = Engine::new();
    let text = "no placeholders here: $HOME {braces} $ {";
    assert_eq!(engine.interpolate_template(text, &[], &vars(&[("HOME", "/h")])), text);
}

#[test]
fn unclosed_placeholder_is_kept_as_written() {
    let engine = Engine::new();
    let env = vars(&[("A", "1")]);
    assert_eq!(engine.interpolate_template("${A} and ${A", &[], &env), "1 and ${A");
}

#[test]
fn values_are_not_read_again() {
    let engine = Engine::new();
    let env = vars(&[("A", "${B}"), ("B", "2")]);
    assert_eq!(engine.interpolate_template("${A}", &[], &env), "${B}");
}

#[test]
fn whole_response_renders_as_json_and_last_result_wins() {
    let engine = Engine::new();
    let context = vec![
        step("s", "old", Some(JsonValue::Array(vec![num("1"), JsonValue::Bool(false)]))),
        step("s", "new", None),
    ];
    assert_eq!(engine.interpolate_template("${steps.s.output}", &context, &StringMap::new()), "new");
    let context = vec![step("s", "x", Some(JsonValue::Array(vec![num("1"), JsonValue::Bool(false), s("q\"")])))];
    assert_eq!(
        engine.interpolate_template("${steps.s.response}", &context, &StringMap::new()),
        r#"[1,false,"q\""]"#
    );
}
