use karu::bindings::Bindings;
use karu::json::{Number, Value};
use karu::matcher::{all_match, any_match_with_bindings, any_matches, match_with_bindings};
use karu::pattern::Pattern;

fn conv(v: &serde_json::Value) -> Value {
    match v {
        serde_json::Value::Null => Value::Null,
        serde_json::Value::Bool(b) => Value::Bool(*b),
        serde_json::Value::Number(n) => {
            if let Some(u) = n.as_u64() {
                Value::Number(Number::PosInt(u))
            } else if let Some(i) = n.as_i64() {
                Value::Number(Number::NegInt(i))
            } else {
                Value::Number(Number::FloatBits(n.as_f64().unwrap().to_bits()))
            }
        }
        serde_json::Value::String(s) => Value::String(s.clone()),
        serde_json::Value::Array(a) => Value::Array(a.iter().map(conv).collect()),
        serde_json::Value::Object(m) => {
            Value::Object(m.iter().map(|(k, v)| (k.clone(), conv(v))).collect())
        }
    }
}

/// The value a JSON text stands for.
fn j(s: &str) -> Value {
    conv(&serde_json::from_str::<serde_json::Value>(s).unwrap())
}

fn lit(s: &str) -> Pattern {
    Pattern::literal(j(s))
}

fn lit_str(s: &str) -> Pattern {
    Pattern::literal(Value::String(s.to_string()))
}

fn obj(pairs: Vec<(&str, Pattern)>) -> Pattern {
    Pattern::object(pairs.into_iter().map(|(k, p)| (k.to_string(), p)).collect())
}

fn show(v: Option<&Value>) -> String {
    format!("{:?}", v)
}

fn same(a: Option<&Value>, b: &str) {
    assert_eq!(show(a), show(Some(&j(b))));
}

// ========== Literal Matching ==========

#[test]
fn test_literal_integer_match() {
    assert!(karu::matcher::matches(&j("42"), &lit("42")));
}

#[test]
fn test_literal_integer_no_match() {
    assert!(!karu::matcher::matches(&j("42"), &lit("99")));
}

#[test]
fn test_literal_string_match() {
    assert!(karu::matcher::matches(&j("\"hello\""), &lit_str("hello")));
}

#[test]
fn test_literal_bool_match() {
    assert!(karu::matcher::matches(&j("true"), &lit("true")));
    assert!(karu::matcher::matches(&j("false"), &lit("false")));
}

#[test]
fn test_literal_null_match() {
    assert!(karu::matcher::matches(&j("null"), &Pattern::Literal(Value::Null)));
}

#[test]
fn test_literal_type_mismatch() {
    assert!(!karu::matcher::matches(&j("\"42\""), &lit("42")));
}

// ========== Wildcard Matching ==========

#[test]
fn test_wildcard_matches_anything() {
    assert!(karu::matcher::matches(&j("42"), &Pattern::wildcard()));
    assert!(karu::matcher::matches(&j("\"hello\""), &Pattern::wildcard()));
    assert!(karu::matcher::matches(&j("null"), &Pattern::wildcard()));
    assert!(karu::matcher::matches(&j(r#"{"a": 1}"#), &Pattern::wildcard()));
    assert!(karu::matcher::matches(&j("[1, 2, 3]"), &Pattern::wildcard()));
}

#[test]
fn test_named_variable_matches_anything() {
    assert!(karu::matcher::matches(&j("42"), &Pattern::var("x")));
}

// ========== Object Matching ==========

#[test]
fn test_object_exact_match() {
    let pattern = obj(vec![("name", lit_str("test"))]);
    let data = j(r#"{"name": "test"}"#);
    assert!(karu::matcher::matches(&data, &pattern));
}

#[test]
fn test_object_partial_match_extra_fields_ignored() {
    let pattern = obj(vec![("name", lit_str("lhs"))]);
    let data = j(r#"{"name": "lhs", "value": 10, "type": "int", "extra": "junk"}"#);
    assert!(karu::matcher::matches(&data, &pattern));
}

#[test]
fn test_object_missing_required_field() {
    let pattern = obj(vec![("name", lit_str("test")), ("required", lit("true"))]);
    let data = j(r#"{"name": "test"}"#);
    assert!(!karu::matcher::matches(&data, &pattern));
}

#[test]
fn test_object_nested_match() {
    let pattern = obj(vec![("outer", obj(vec![("inner", lit("42"))]))]);
    let data = j(r#"{"outer": {"inner": 42, "extra": "ignored"}}"#);
    assert!(karu::matcher::matches(&data, &pattern));
}

#[test]
fn test_object_wrong_value() {
    let pattern = obj(vec![("name", lit_str("expected"))]);
    let data = j(r#"{"name": "actual"}"#);
    assert!(!karu::matcher::matches(&data, &pattern));
}

#[test]
fn test_object_pattern_against_non_object() {
    let pattern = obj(vec![("name", lit_str("test"))]);
    assert!(!karu::matcher::matches(&j("42"), &pattern));
    assert!(!karu::matcher::matches(&j("\"string\""), &pattern));
    assert!(!karu::matcher::matches(&j("[1, 2, 3]"), &pattern));
}

// ========== Array Matching ==========

#[test]
fn test_array_exact_match() {
    let pattern = Pattern::array(vec![lit("1"), lit("2")]);
    assert!(karu::matcher::matches(&j("[1, 2]"), &pattern));
}

#[test]
fn test_array_length_mismatch() {
    let pattern = Pattern::array(vec![lit("1"), lit("2")]);
    assert!(!karu::matcher::matches(&j("[1, 2, 3]"), &pattern));
}

#[test]
fn test_array_with_wildcards() {
    let pattern = Pattern::array(vec![lit("1"), Pattern::wildcard(), lit("3")]);
    assert!(karu::matcher::matches(&j(r#"[1, "anything", 3]"#), &pattern));
}

// ========== Logical Operators ==========

#[test]
fn test_not_pattern() {
    let pattern = lit("42").not();
    assert!(!karu::matcher::matches(&j("42"), &pattern));
    assert!(karu::matcher::matches(&j("99"), &pattern));
}

#[test]
fn test_or_pattern() {
    let pattern = Pattern::or(vec![lit("1"), lit("2"), lit("3")]);
    assert!(karu::matcher::matches(&j("1"), &pattern));
    assert!(karu::matcher::matches(&j("2"), &pattern));
    assert!(karu::matcher::matches(&j("3"), &pattern));
    assert!(!karu::matcher::matches(&j("4"), &pattern));
}

#[test]
fn test_and_pattern() {
    let pattern = Pattern::and(vec![
        obj(vec![("name", Pattern::wildcard())]),
        obj(vec![("value", Pattern::wildcard())]),
    ]);
    assert!(karu::matcher::matches(&j(r#"{"name": "x", "value": 1}"#), &pattern));
    assert!(!karu::matcher::matches(&j(r#"{"name": "x"}"#), &pattern));
    assert!(!karu::matcher::matches(&j(r#"{"value": 1}"#), &pattern));
}

// ========== Collection Search ==========

#[test]
fn test_any_matches_finds_element() {
    let pattern = obj(vec![("name", lit_str("lhs")), ("value", lit("10"))]);
    let data = j(r#"[
        {"name": "junk", "value": 999},
        {"name": "lhs", "value": 10, "type": "int"},
        {"name": "rhs", "value": 5}
    ]"#);
    assert!(any_matches(&data, &pattern));
}

#[test]
fn test_any_matches_no_match() {
    let pattern = obj(vec![("name", lit_str("nonexistent"))]);
    let data = j(r#"[{"name": "a"}, {"name": "b"}, {"name": "c"}]"#);
    assert!(!any_matches(&data, &pattern));
}

#[test]
fn test_any_matches_empty_array() {
    assert!(!any_matches(&j("[]"), &Pattern::wildcard()));
}

#[test]
fn test_any_matches_non_array() {
    let pattern = Pattern::wildcard();
    assert!(!any_matches(&j("42"), &pattern));
    assert!(!any_matches(&j(r#"{"a": 1}"#), &pattern));
}

#[test]
fn test_all_match_success() {
    let pattern = obj(vec![("active", lit("true"))]);
    let data = j(r#"[{"active": true, "name": "a"}, {"active": true, "name": "b"}]"#);
    assert!(all_match(&data, &pattern));
}

#[test]
fn test_all_match_failure() {
    let pattern = obj(vec![("active", lit("true"))]);
    let data = j(r#"[{"active": true}, {"active": false}]"#);
    assert!(!all_match(&data, &pattern));
}

// ========== Complex Scenarios ==========

#[test]
fn test_readme_example() {
    let pattern = obj(vec![("name", lit_str("lhs")), ("value", lit("10"))]);
    let named_arguments = j(r#"[
        {"name": "random_junk", "value": 999},
        {"name": "lhs", "value": 10, "type": "int"},
        {"name": "rhs", "value": 5, "type": "int"}
    ]"#);
    assert!(any_matches(&named_arguments, &pattern));
}

#[test]
fn test_deeply_nested_search() {
    let pattern = obj(vec![("capability", lit_str("write")), ("resource", lit_str("/data/*"))]);
    let permissions = j(r#"{
        "user": "alice",
        "grants": [
            {"capability": "read", "resource": "/public/*"},
            {"capability": "write", "resource": "/data/*", "conditions": {}},
            {"capability": "admin", "resource": "/admin/*"}
        ]
    }"#);
    let grants = permissions.get_field("grants").unwrap();
    assert!(any_matches(grants, &pattern));
}

// ========== Variable Bindings ==========

#[test]
fn test_binding_simple_variable() {
    let bindings = match_with_bindings(&j("42"), &Pattern::var("x")).unwrap();
    same(bindings.get("x"), "42");
}

#[test]
fn test_binding_object_fields() {
    let pattern = obj(vec![
        ("name", Pattern::var("captured_name")),
        ("value", Pattern::var("captured_value")),
    ]);
    let data = j(r#"{"name": "alice", "value": 100, "extra": "ignored"}"#);
    let bindings = match_with_bindings(&data, &pattern).unwrap();
    same(bindings.get("captured_name"), "\"alice\"");
    same(bindings.get("captured_value"), "100");
}

#[test]
fn test_binding_nested() {
    let pattern = obj(vec![
        ("user", obj(vec![("name", Pattern::var("username"))])),
        ("role", Pattern::var("role")),
    ]);
    let data = j(r#"{"user": {"name": "bob", "id": 123}, "role": "admin"}"#);
    let bindings = match_with_bindings(&data, &pattern).unwrap();
    same(bindings.get("username"), "\"bob\"");
    same(bindings.get("role"), "\"admin\"");
}

#[test]
fn test_binding_in_array_search() {
    let pattern = obj(vec![("name", lit_str("target")), ("data", Pattern::var("found_data"))]);
    let arr = j(r#"[
        {"name": "other", "data": "wrong"},
        {"name": "target", "data": "correct"},
        {"name": "another", "data": "also_wrong"}
    ]"#);
    let bindings = any_match_with_bindings(&arr, &pattern).unwrap();
    same(bindings.get("found_data"), "\"correct\"");
}

#[test]
fn test_binding_wildcard_no_capture() {
    let bindings = match_with_bindings(&j("42"), &Pattern::wildcard()).unwrap();
    assert!(bindings.is_empty());
}

#[test]
fn test_binding_or_captures_first_match() {
    let pattern = Pattern::or(vec![
        obj(vec![("type", lit_str("a")), ("val", Pattern::var("v"))]),
        obj(vec![("type", lit_str("b")), ("val", Pattern::var("v"))]),
    ]);
    let data = j(r#"{"type": "b", "val": 42}"#);
    let bindings = match_with_bindings(&data, &pattern).unwrap();
    same(bindings.get("v"), "42");
}

#[test]
fn binding_fails_when_pattern_fails() {
    assert!(match_with_bindings(&j("1"), &lit("2")).is_none());
    assert!(any_match_with_bindings(&j("[1, 2]"), &lit("3")).is_none());
    assert!(any_match_with_bindings(&j("{}"), &Pattern::wildcard()).is_none());
}

#[test]
fn all_match_on_empty_and_non_arrays() {
    assert!(all_match(&j("[]"), &lit("1")));
    assert!(!all_match(&j("1"), &Pattern::wildcard()));
}

#[test]
fn numbers_compare_by_value() {
    assert!(karu::matcher::matches(&j("-3"), &lit("-3")));
    assert!(!karu::matcher::matches(&j("-3"), &lit("3")));
    assert!(karu::matcher::matches(&j("1.5"), &lit("1.5")));
    assert!(!karu::matcher::matches(&j("1.5"), &lit("1")));
}

#[test]
fn glob_and_type_patterns() {
    assert!(karu::matcher::matches(&j("\"report.pdf\""), &Pattern::glob("*.pdf")));
    assert!(!karu::matcher::matches(&j("\"report.doc\""), &Pattern::glob("*.pdf")));
    assert!(karu::matcher::matches(&j("\"ab\""), &Pattern::glob("a?")));
    assert!(!karu::matcher::matches(&j("3"), &Pattern::glob("*")));
    assert!(karu::matcher::matches(&j("\"x\""), &Pattern::is_string()));
    assert!(karu::matcher::matches(&j("3"), &Pattern::is_number()));
    assert!(karu::matcher::matches(&j("true"), &Pattern::is_bool()));
    assert!(karu::matcher::matches(&j("[]"), &Pattern::is_array()));
    assert!(karu::matcher::matches(&j("{}"), &Pattern::is_object()));
    assert!(!karu::matcher::matches(&j("null"), &Pattern::is_object()));
}

// ========== Bindings ==========

#[test]
fn test_bindings_basic() {
    let mut bindings = Bindings::new();
    assert!(bindings.is_empty());
    bindings.bind("x", j("42"));
    assert_eq!(bindings.len(), 1);
    same(bindings.get("x"), "42");
    assert!(bindings.contains("x"));
    assert!(!bindings.contains("y"));
}

#[test]
fn test_bindings_overwrite() {
    let mut bindings = Bindings::new();
    bindings.bind("x", j("1"));
    bindings.bind("x", j("2"));
    same(bindings.get("x"), "2");
}

#[test]
fn test_bindings_merge() {
    let mut a = Bindings::new();
    a.bind("x", j("1"));
    a.bind("y", j("2"));
    let mut b = Bindings::new();
    b.bind("y", j("20"));
    b.bind("z", j("3"));
    let merged = a.merged(&b);
    same(merged.get("x"), "1");
    same(merged.get("y"), "20");
    same(merged.get("z"), "3");
}

#[test]
fn test_bindings_iter() {
    let mut bindings = Bindings::new();
    bindings.bind("a", j("1"));
    bindings.bind("b", j("2"));
    let keys: Vec<_> = bindings.iter().into_iter().map(|(k, _)| k.as_str()).collect();
    assert!(keys.contains(&"a"));
    assert!(keys.contains(&"b"));
}

#[test]
fn bindings_extend_and_len() {
    let mut a = Bindings::new();
    a.bind("x", j("1"));
    let mut b = Bindings::new();
    b.bind("x", j("5"));
    b.bind("w", j("6"));
    a.extend(b);
    assert_eq!(a.len(), 2);
    same(a.get("x"), "5");
    same(a.get("w"), "6");
    assert!(a.get("q").is_none());
}

// ========== Patterns ==========

#[test]
fn test_pattern_construction() {
    let lit42 = lit("42");
    assert!(matches!(lit42, Pattern::Literal(_)));
    let wild = Pattern::wildcard();
    assert!(matches!(wild, Pattern::Variable(None)));
    let var = Pattern::var("x");
    assert!(matches!(var, Pattern::Variable(Some(ref name)) if name == "x"));
    let o = obj(vec![("name", lit_str("test")), ("value", Pattern::wildcard())]);
    assert!(matches!(o, Pattern::Object(_)));
}

#[test]
fn test_pattern_literal_equality() {
    let p1 = lit("42");
    let p2 = lit("42");
    let p3 = lit_str("hello");
    assert_eq!(format!("{:?}", p1), format!("{:?}", p2));
    assert_ne!(format!("{:?}", p1), format!("{:?}", p3));
}

#[test]
fn object_pattern_keeps_last_duplicate_key() {
    let p = obj(vec![("k", lit("1")), ("k", lit("2"))]);
    match &p {
        Pattern::Object(fs) => assert_eq!(fs.len(), 1),
        _ => panic!("expected an object pattern"),
    }
    assert!(karu::matcher::matches(&j(r#"{"k": 2}"#), &p));
    assert!(!karu::matcher::matches(&j(r#"{"k": 1}"#), &p));
}
