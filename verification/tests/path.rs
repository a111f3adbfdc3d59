use karu::json::{Number, Value};
use karu::path::{Path, PathSegment};

fn conv(v: &serde_json::Value) -> Value {
    match v {
        serde_json::Value::Null => Value::Null,
        serde_json::Value::Bool(b) => Value::Bool(*b),
        serde_json::Value::Number(n) => {
            if let Some(u) = n.as_u64() {
                Value::Number(Number::PosInt(u))
            } else if let Some(i) = n.as_i64() {
                Value::Number(Number::NegInt(i))
            } else {
                Value::Number(Number::FloatBits(n.as_f64().unwrap().to_bits()))
            }
        }
        serde_json::Value::String(s) => Value::String(s.clone()),
        serde_json::Value::Array(a) => Value::Array(a.iter().map(conv).collect()),
        serde_json::Value::Object(m) => {
            Value::Object(m.iter().map(|(k, v)| (k.clone(), conv(v))).collect())
        }
    }
}

fn j(s: &str) -> Value {
    conv(&serde_json::from_str::<serde_json::Value>(s).unwrap())
}

fn show(v: Option<&Value>) -> String {
    format!("{:?}", v)
}

fn same(a: Option<&Value>, b: &str) {
    assert_eq!(show(a), show(Some(&j(b))));
}

#[test]
fn test_parse_simple_path() {
    let path = Path::parse("foo.bar.baz");
    assert_eq!(path.len(), 3);
    assert_eq!(
        path.segments(),
        &[
            PathSegment::Field("foo".into()),
            PathSegment::Field("bar".into()),
            PathSegment::Field("baz".into()),
        ]
    );
}

#[test]
fn test_parse_empty_path() {
    let path = Path::parse("");
    assert!(path.is_empty());
}

#[test]
fn test_parse_with_numeric_index() {
    let path = Path::parse("items.0.name");
    assert_eq!(path.len(), 3);
    assert_eq!(
        path.segments(),
        &[
            PathSegment::Field("items".into()),
            PathSegment::Index(0),
            PathSegment::Field("name".into()),
        ]
    );
}

#[test]
fn test_parse_with_bracket_index() {
    let path = Path::parse("items[0].name");
    assert_eq!(path.len(), 3);
    assert_eq!(
        path.segments(),
        &[
            PathSegment::Field("items".into()),
            PathSegment::Index(0),
            PathSegment::Field("name".into()),
        ]
    );
}

#[test]
fn test_resolve_simple() {
    let data = j(r#"{"a": {"b": {"c": 42}}}"#);
    let path = Path::parse("a.b.c");
    same(path.resolve(&data), "42");
}

#[test]
fn test_resolve_with_array() {
    let data = j(r#"{"items": [{"name": "first"}, {"name": "second"}]}"#);
    let path = Path::parse("items.0.name");
    same(path.resolve(&data), "\"first\"");
    let path2 = Path::parse("items.1.name");
    same(path2.resolve(&data), "\"second\"");
}

#[test]
fn test_resolve_missing_field() {
    let data = j(r#"{"a": 1}"#);
    let path = Path::parse("a.b.c");
    assert!(path.resolve(&data).is_none());
}

#[test]
fn test_resolve_index_out_of_bounds() {
    let data = j(r#"{"items": [1, 2, 3]}"#);
    let path = Path::parse("items.10");
    assert!(path.resolve(&data).is_none());
}

#[test]
fn test_resolve_root() {
    let data = j("42");
    let path = Path::root();
    same(path.resolve(&data), "42");
}

#[test]
fn test_builder_pattern() {
    let path = Path::root().field("resource").field("context").field("args");
    assert_eq!(path.len(), 3);
}

#[test]
fn test_readme_scenario() {
    let data = j(r#"{
        "principal": "alice",
        "action": "call",
        "resource": {
            "method": "add",
            "context": {
                "namedArguments": [
                    {"name": "lhs", "value": 10},
                    {"name": "rhs", "value": 5}
                ]
            }
        }
    }"#);
    let path = Path::parse("resource.context.namedArguments");
    let result = path.resolve(&data);
    assert!(result.is_some());
    assert!(matches!(result.unwrap(), Value::Array(_)));
    assert!(matches!(result.unwrap(), Value::Array(a) if a.len() == 2));
}

#[test]
fn builder_index_and_resolve_fast_agree() {
    let data = j(r#"{"xs": [[1, 2], [3, 4]]}"#);
    let path = Path::root().field("xs").index(1).index(0);
    assert_eq!(
        path.segments(),
        &[PathSegment::Field("xs".into()), PathSegment::Index(1), PathSegment::Index(0)]
    );
    same(path.resolve(&data), "3");
    same(path.resolve_fast(&data), "3");
    let from = Path::from_segments(vec![PathSegment::Field("xs".into())]);
    assert_eq!(from.len(), 1);
    same(from.resolve(&data), "[[1, 2], [3, 4]]");
}

#[test]
fn index_on_object_and_field_on_array_fail() {
    let data = j(r#"{"a": [1], "0": "zero"}"#);
    assert!(Path::root().index(0).resolve(&data).is_none());
    assert!(Path::parse("a.x").resolve(&data).is_none());
    same(Path::parse("a.0").resolve(&data), "1");
}

#[test]
fn resolve_with_bindings_uses_bound_values() {
    let data = j(r#"{"users": {"alice": {"role": "admin"}}, "who": "alice"}"#);
    let who = j("\"alice\"");
    let bound = j(r#"{"role": "guest"}"#);
    let bindings = vec![("u".to_string(), &bound), ("k".to_string(), &who)];
    let p = Path::from_segments(vec![PathSegment::Field("u".into()), PathSegment::Field("role".into())]);
    same(p.resolve_with_bindings(&data, &bindings), "\"guest\"");
    let p = Path::from_segments(vec![
        PathSegment::Field("users".into()),
        PathSegment::Variable("k".into()),
        PathSegment::Field("role".into()),
    ]);
    same(p.resolve_with_bindings(&data, &bindings), "\"admin\"");
    let p = Path::from_segments(vec![
        PathSegment::Field("users".into()),
        PathSegment::Variable("@path:who".into()),
        PathSegment::Field("role".into()),
    ]);
    same(p.resolve_with_bindings(&data, &bindings), "\"admin\"");
    same(p.resolve(&data), "\"admin\"");
    let unbound = Path::from_segments(vec![
        PathSegment::Field("users".into()),
        PathSegment::Variable("k".into()),
    ]);
    assert!(unbound.resolve(&data).is_none());
}

#[test]
fn resolving_a_joined_path_resolves_in_steps() {
    let data = j(r#"{"a": {"b": [{"c": 7}, {"c": 8}]}}"#);
    let whole = Path::parse("a.b.1.c");
    let head = Path::parse("a.b");
    let tail = Path::parse("1.c");
    let mid = head.resolve(&data).unwrap();
    same(whole.resolve(&data), "8");
    assert_eq!(show(whole.resolve(&data)), show(tail.resolve(mid)));
    assert!(Path::parse("a.x.c").resolve(&data).is_none());
    assert!(Path::parse("a.x").resolve(&data).is_none());
}
