use karu::compiler::{compile, compile_with_host_asserts, ConditionExpr, Operator, Policy};
use karu::json::{Number, Value};
use karu::karu_lexer::Lexer;
use karu::karu_parser::{number_texts, NumberReading};
use karu::rule::Effect;

fn conv(v: &serde_json::Value) -> Value {
    match v {
        serde_json::Value::Null => Value::Null,
        serde_json::Value::Bool(b) => Value::Bool(*b),
        serde_json::Value::Number(n) => {
            if let Some(u) = n.as_u64() {
                Value::Number(Number::PosInt(u))
            } else if let Some(i) = n.as_i64() {
                Value::Number(Number::NegInt(i))
            } else {
                Value::Number(Number::FloatBits(n.as_f64().unwrap().to_bits()))
            }
        }
        serde_json::Value::String(s) => Value::String(s.clone()),
        serde_json::Value::Array(a) => Value::Array(a.iter().map(conv).collect()),
        serde_json::Value::Object(m) => Value::Object(m.iter().map(|(k, v)| (k.clone(), conv(v))).collect()),
    }
}

/// The value a JSON text stands for.
fn j(s: &str) -> Value {
    conv(&serde_json::from_str::<serde_json::Value>(s).unwrap())
}

fn float_value(n: f64) -> Value {
    Value::Number(Number::FloatBits(n.to_bits()))
}

fn read_number(text: &str) -> NumberReading {
    let n: f64 = text.parse().unwrap();
    let pattern = if n.fract() == 0.0 && n >= 0.0 && n <= u64::MAX as f64 {
        Value::Number(Number::PosInt(n as u64))
    } else {
        float_value(n)
    };
    NumberReading { index: n as usize, pattern, value: float_value(n), display: format!("{}", n) }
}

fn readings(src: &str) -> Vec<(String, NumberReading)> {
    match Lexer::tokenize_spanned(src) {
        Ok(tokens) => number_texts(&tokens).into_iter().map(|t| (t.clone(), read_number(&t))).collect(),
        Err(_) => Vec::new(),
    }
}

fn compile_ok(src: &str) -> Policy {
    compile(src, readings(src)).unwrap().unwrap()
}

fn compile_host(src: &str, names: &[&str]) -> Policy {
    let host: Vec<String> = names.iter().map(|s| s.to_string()).collect();
    compile_with_host_asserts(src, &host, readings(src)).unwrap().unwrap()
}

fn answers(pairs: &[(&str, bool)]) -> Vec<(String, bool)> {
    pairs.iter().map(|(n, b)| (n.to_string(), *b)).collect()
}

const ALLOW: Option<Effect> = Some(Effect::Allow);
const DENY: Option<Effect> = Some(Effect::Deny);

#[test]
fn test_compile_simple_rule() {
    let policy = compile_ok("allow access;");
    assert_eq!(policy.rules.len(), 1);
    assert_eq!(policy.evaluate(&j("{}")), ALLOW);
}

#[test]
fn test_compile_with_condition() {
    let policy = compile_ok(r#"allow read if action == "read";"#);
    assert_eq!(policy.evaluate(&j(r#"{"action": "read"}"#)), ALLOW);
    assert_eq!(policy.evaluate(&j(r#"{"action": "write"}"#)), DENY);
}

#[test]
fn test_compile_and_conditions() {
    let policy = compile_ok(r#"allow admin if role == "admin" and active == true;"#);
    assert_eq!(policy.evaluate(&j(r#"{"role": "admin", "active": true}"#)), ALLOW);
    assert_eq!(policy.evaluate(&j(r#"{"role": "admin", "active": false}"#)), DENY);
    assert_eq!(policy.evaluate(&j(r#"{"role": "user", "active": true}"#)), DENY);
}

#[test]
fn test_compile_in_expression() {
    let policy = compile_ok(r#"allow access if {name: "admin"} in roles;"#);
    assert_eq!(policy.evaluate(&j(r#"{"roles": [{"name": "user"}, {"name": "admin"}]}"#)), ALLOW);
    assert_eq!(policy.evaluate(&j(r#"{"roles": [{"name": "user"}]}"#)), DENY);
}

#[test]
fn test_compile_path_in_path() {
    let policy = compile_ok(r#"allow admin if principal.id in resource.adminIds;"#);
    assert_eq!(
        policy.evaluate(&j(r#"{"principal": {"id": "alice"}, "resource": {"adminIds": ["bob", "alice", "charlie"]}}"#)),
        ALLOW
    );
    assert_eq!(
        policy.evaluate(&j(r#"{"principal": {"id": "eve"}, "resource": {"adminIds": ["bob", "alice", "charlie"]}}"#)),
        DENY
    );
}

#[test]
fn test_compile_comparison_operators() {
    let policy = compile_ok(r#"allow adult if age >= 18;"#);
    assert_eq!(policy.evaluate(&j(r#"{"age": 18}"#)), ALLOW);
    assert_eq!(policy.evaluate(&j(r#"{"age": 21}"#)), ALLOW);
    assert_eq!(policy.evaluate(&j(r#"{"age": 17}"#)), DENY);
}

#[test]
fn test_compile_nested_path() {
    let policy = compile_ok(r#"allow access if user.profile.verified == true;"#);
    assert_eq!(policy.evaluate(&j(r#"{"user": {"profile": {"verified": true}}}"#)), ALLOW);
    assert_eq!(policy.evaluate(&j(r#"{"user": {"profile": {"verified": false}}}"#)), DENY);
}

#[test]
fn test_compile_deny_overrides() {
    let policy = compile_ok(
        r#"
            allow access if role == "admin";
            deny blocked if banned == true;
        "#,
    );
    assert_eq!(policy.evaluate(&j(r#"{"role": "admin", "banned": false}"#)), ALLOW);
    assert_eq!(policy.evaluate(&j(r#"{"role": "admin", "banned": true}"#)), DENY);
}

#[test]
fn test_compile_readme_example() {
    let policy = compile_ok(
        r#"
            allow access if
                action == "call" and
                { name: "lhs", value: 10 } in resource.context.namedArguments;
        "#,
    );
    let input = j(r#"{
        "principal": "alice",
        "action": "call",
        "resource": {
            "method": "add",
            "context": {
                "namedArguments": [
                    {"name": "random_junk", "value": 999},
                    {"name": "lhs", "value": 10, "type": "int"},
                    {"name": "rhs", "value": 5, "type": "int"}
                ]
            }
        }
    }"#);
    assert_eq!(policy.evaluate(&input), ALLOW);
}

#[test]
fn test_compile_not_in() {
    let policy = compile_ok(
        r#"
            allow safe if "safe" in tags;
            deny blocked if not "safe" in tags;
        "#,
    );
    assert_eq!(policy.evaluate(&j(r#"{"tags": ["dangerous", "risky"]}"#)), DENY);
    assert_eq!(policy.evaluate(&j(r#"{"tags": ["safe", "verified"]}"#)), ALLOW);
}

#[test]
fn test_compile_exists_with_variable_binding() {
    let policy = compile_ok(
        r#"
            allow read if
                action == "read" and
                exists ancestor in resource.ancestors:
                    "reader" in principal.resourceRoles[ancestor];
        "#,
    );
    assert_eq!(
        policy.evaluate(&j(r#"{
            "action": "read",
            "resource": {"ancestors": ["folder:src", "repo:backend"]},
            "principal": {"resourceRoles": {"repo:backend": ["reader", "committer"]}}
        }"#)),
        ALLOW
    );
    assert_eq!(
        policy.evaluate(&j(r#"{
            "action": "read",
            "resource": {"ancestors": ["folder:src", "repo:backend"]},
            "principal": {"resourceRoles": {"other:thing": ["reader"]}}
        }"#)),
        DENY
    );
    assert_eq!(
        policy.evaluate(&j(r#"{
            "action": "read",
            "resource": {"ancestors": ["folder:src", "repo:backend"]},
            "principal": {"resourceRoles": {"folder:src": ["reader"]}}
        }"#)),
        ALLOW
    );
}

#[test]
fn test_compile_forall_with_variable_binding() {
    let policy = compile_ok(
        r#"
            allow full_read if
                exists ancestor in resource.ancestors:
                    "admin" in principal.resourceRoles[ancestor];
        "#,
    );
    assert_eq!(
        policy.evaluate(&j(r#"{
            "resource": {"ancestors": ["folder:src", "repo:backend"]},
            "principal": {"resourceRoles": {
                "folder:src": ["admin"],
                "repo:backend": ["admin"]
            }}
        }"#)),
        ALLOW
    );
}

#[test]
fn test_compile_path_expression_in_brackets() {
    let policy = compile_ok(
        r#"
            allow admin if
                "admin" in principal.resourceRoles[resource.id];
        "#,
    );
    assert_eq!(
        policy.evaluate(&j(r#"{
            "principal": {"resourceRoles": {"repo:anvil": ["admin", "member"]}},
            "resource": {"id": "repo:anvil"}
        }"#)),
        ALLOW
    );
    assert_eq!(
        policy.evaluate(&j(r#"{
            "principal": {"resourceRoles": {"repo:other": ["admin"]}},
            "resource": {"id": "repo:anvil"}
        }"#)),
        DENY
    );
    assert_eq!(
        policy.evaluate(&j(r#"{
            "principal": {"resourceRoles": {"repo:anvil": ["member"]}},
            "resource": {"id": "repo:anvil"}
        }"#)),
        DENY
    );
}

#[test]
fn test_or_basic() {
    let policy = compile_ok(r#"allow access if action == "read" or action == "write";"#);
    assert_eq!(policy.evaluate(&j(r#"{"action": "read"}"#)), ALLOW);
    assert_eq!(policy.evaluate(&j(r#"{"action": "write"}"#)), ALLOW);
    assert_eq!(policy.evaluate(&j(r#"{"action": "delete"}"#)), DENY);
}

#[test]
fn test_or_with_and() {
    let policy = compile_ok(r#"allow access if (action == "read" or action == "write") and role == "user";"#);
    assert_eq!(policy.evaluate(&j(r#"{"action": "read", "role": "user"}"#)), ALLOW);
    assert_eq!(policy.evaluate(&j(r#"{"action": "write", "role": "user"}"#)), ALLOW);
    assert_eq!(policy.evaluate(&j(r#"{"action": "read", "role": "guest"}"#)), DENY);
    assert_eq!(policy.evaluate(&j(r#"{"action": "delete", "role": "user"}"#)), DENY);
}

#[test]
fn test_not_or() {
    let policy = compile_ok(
        r#"
            allow access if role == "admin" or role == "moderator";
            deny block if not (role == "admin" or role == "moderator");
            "#,
    );
    assert_eq!(policy.evaluate(&j(r#"{"role": "admin"}"#)), ALLOW);
    assert_eq!(policy.evaluate(&j(r#"{"role": "guest"}"#)), DENY);
}

#[test]
fn test_complex_or_and_not() {
    let policy = compile_ok(
        r#"deny foobar if (action == "fizz" or action == "buzz") and not (resource == "bar" or resource == "baz");"#,
    );
    assert_eq!(policy.evaluate(&j(r#"{"action": "fizz", "resource": "qux"}"#)), DENY);
    assert_eq!(policy.evaluate(&j(r#"{"action": "buzz", "resource": "qux"}"#)), DENY);
    let policy2 = compile_ok(
        r#"
            allow ok;
            deny foobar if (action == "fizz" or action == "buzz") and not (resource == "bar" or resource == "baz");
            "#,
    );
    assert_eq!(policy2.evaluate(&j(r#"{"action": "fizz", "resource": "bar"}"#)), ALLOW);
    assert_eq!(policy2.evaluate(&j(r#"{"action": "fizz", "resource": "qux"}"#)), DENY);
    assert_eq!(policy2.evaluate(&j(r#"{"action": "other", "resource": "qux"}"#)), ALLOW);
}

#[test]
fn test_compile_assertion_untyped() {
    let src = "assert is_admin if principal.role == \"admin\";\nallow manage if is_admin and action == \"manage\";\n";
    let policy = compile_ok(src);
    assert_eq!(policy.evaluate(&j(r#"{"principal": {"role": "admin"}, "action": "manage"}"#)), ALLOW);
    assert_eq!(policy.evaluate(&j(r#"{"principal": {"role": "user"}, "action": "manage"}"#)), DENY);
}

#[test]
fn test_compile_assertion_inlining() {
    let src = "use schema;\nassert is_admin if principal.role == \"admin\";\nallow access if is_admin;\n";
    let policy = compile_ok(src);
    assert_eq!(policy.rules.len(), 1);
    assert_eq!(policy.evaluate(&j(r#"{"principal": {"role": "admin"}}"#)), ALLOW);
    assert_eq!(policy.evaluate(&j(r#"{"principal": {"role": "user"}}"#)), DENY);
}

#[test]
fn test_compile_type_ref_rule() {
    let src = "use schema;\nallow do_delete if Ns:Delete and principal.role == \"admin\";\n";
    let policy = compile_ok(src);
    assert_eq!(policy.rules.len(), 1);
    assert_eq!(policy.evaluate(&j(r#"{"action": "Delete", "principal": {"role": "admin"}}"#)), ALLOW);
    assert_eq!(policy.evaluate(&j(r#"{"action": "Read", "principal": {"role": "admin"}}"#)), DENY);
    assert_eq!(policy.evaluate(&j(r#"{"action": "Delete", "principal": {"role": "user"}}"#)), DENY);
}

#[test]
fn test_compile_assertion_with_type_ref() {
    let src = "use schema;\nassert is_owner if principal.name == resource.owner;\nallow do_delete if Ns:Delete and is_owner;\n";
    let policy = compile_ok(src);
    assert_eq!(
        policy.evaluate(&j(r#"{"action": "Delete", "resource": {"owner": "alice"}, "principal": {"name": "alice"}}"#)),
        ALLOW
    );
    assert_eq!(
        policy.evaluate(&j(r#"{"action": "Delete", "resource": {"owner": "bob"}, "principal": {"name": "alice"}}"#)),
        DENY
    );
}

#[test]
fn test_compile_assertion_in_and() {
    let src = "use schema;\nassert is_admin if principal.role == \"admin\";\nallow manage if is_admin and action == \"manage\";\n";
    let policy = compile_ok(src);
    assert_eq!(policy.evaluate(&j(r#"{"principal": {"role": "admin"}, "action": "manage"}"#)), ALLOW);
    assert_eq!(policy.evaluate(&j(r#"{"principal": {"role": "user"}, "action": "manage"}"#)), DENY);
    assert_eq!(policy.evaluate(&j(r#"{"principal": {"role": "admin"}, "action": "read"}"#)), DENY);
}

#[test]
fn test_compile_nested_assertion_inlining() {
    let src = "use schema;\nassert has_role if principal has role;\nassert is_admin if has_role and principal.role == \"admin\";\nallow access if is_admin;\n";
    let policy = compile_ok(src);
    assert_eq!(policy.evaluate(&j(r#"{"principal": {"role": "admin"}}"#)), ALLOW);
    assert_eq!(policy.evaluate(&j(r#"{"principal": {"role": "user"}}"#)), DENY);
    assert_eq!(policy.evaluate(&j(r#"{"principal": {}}"#)), DENY);
}

#[test]
fn test_compile_type_ref_unconditional() {
    let src = "use schema;\nallow do_delete if Ns:Delete;";
    let policy = compile_ok(src);
    assert_eq!(policy.evaluate(&j(r#"{"action": "Delete"}"#)), ALLOW);
    assert_eq!(policy.evaluate(&j(r#"{"action": "Read"}"#)), DENY);
}

#[test]
fn test_compile_host_assert_bare_identifier() {
    let src = r#"allow ro if resource_is_package_local;"#;
    let policy = compile_host(src, &["resource_is_package_local"]);
    assert_eq!(policy.evaluate(&j(r#"{"action": "ro"}"#)), DENY);
    assert_eq!(
        policy.evaluate_with_host(&j(r#"{"action": "ro"}"#), &answers(&[("resource_is_package_local", true)])),
        ALLOW
    );
    assert_eq!(
        policy.evaluate_with_host(&j(r#"{"action": "ro"}"#), &answers(&[("resource_is_package_local", false)])),
        DENY
    );
}

#[test]
fn test_host_assert_combined_with_conditions() {
    let src = r#"allow access if action == "read" and is_local;"#;
    let policy = compile_host(src, &["is_local"]);
    let ctx = answers(&[("is_local", true)]);
    assert_eq!(policy.evaluate_with_host(&j(r#"{"action": "read"}"#), &ctx), ALLOW);
    assert_eq!(policy.evaluate_with_host(&j(r#"{"action": "write"}"#), &ctx), DENY);
}

#[test]
fn test_unknown_bare_identifier_without_host_assert() {
    let src = r#"allow check if some_flag;"#;
    let policy = compile_ok(src);
    assert_eq!(policy.evaluate(&j(r#"{"some_flag": true}"#)), ALLOW);
    assert_eq!(policy.evaluate(&j(r#"{"some_flag": false}"#)), DENY);
}

#[test]
fn test_host_assert_takes_priority_over_path_check() {
    let src = r#"allow access if my_check;"#;
    let policy = compile_host(src, &["my_check"]);
    assert_eq!(policy.evaluate(&j(r#"{"my_check": true}"#)), DENY);
    assert_eq!(policy.evaluate_with_host(&j("{}"), &answers(&[("my_check", true)])), ALLOW);
}

#[test]
fn test_forall_with_dot_path_body() {
    let policy = compile_ok(
        r#"
            allow batch if
                forall item in resource.items:
                    item.approved == true;
        "#,
    );
    assert_eq!(
        policy.evaluate(&j(r#"{"resource": {"items": [{"id": 1, "approved": true}, {"id": 2, "approved": true}]}}"#)),
        ALLOW
    );
    assert_eq!(
        policy.evaluate(&j(r#"{"resource": {"items": [{"id": 1, "approved": true}, {"id": 2, "approved": false}]}}"#)),
        DENY
    );
}

#[test]
fn test_exists_with_dot_path_body() {
    let policy = compile_ok(
        r#"
            allow ok;
            deny flagged if
                exists tag in resource.tags:
                    tag == "blocked";
        "#,
    );
    assert_eq!(policy.evaluate(&j(r#"{"resource": {"tags": ["normal", "reviewed"]}}"#)), ALLOW);
    assert_eq!(policy.evaluate(&j(r#"{"resource": {"tags": ["normal", "blocked"]}}"#)), DENY);
}

// ---------------------------------------------------------------------------

#[test]
fn circular_assertions_are_an_error() {
    let src = "assert a if b;\nassert b if a;\nallow x if a;";
    let err = compile(src, readings(src)).unwrap().unwrap_err();
    assert_eq!(err.message, "circular assertion reference: `a` references itself");
    assert_eq!((err.line, err.column), (0, 0));
    assert!(err.token.is_none());
}

#[test]
fn assertion_used_twice_side_by_side_is_no_cycle() {
    let src = "assert a if role == \"x\";\nallow r if a and a;";
    let policy = compile_ok(src);
    assert_eq!(policy.evaluate(&j(r#"{"role": "x"}"#)), ALLOW);
}

#[test]
fn is_check_of_unknown_type_is_an_error() {
    let src = "allow r if resource is File;";
    let err = compile(src, readings(src)).unwrap().unwrap_err();
    assert_eq!(err.message, "unknown type `File` in `is` expression");
}

#[test]
fn type_ref_compiles_to_action_check() {
    let policy = compile_ok("allow d if Ns:Delete;");
    match &policy.rules[0].body {
        Some(ConditionExpr::Leaf { op, .. }) => assert_eq!(*op, Operator::Eq),
        _ => panic!("expected a leaf"),
    }
}

#[test]
fn comparison_with_a_fraction_is_undecided() {
    let policy = compile_ok("allow a if n < 3;");
    assert_eq!(policy.evaluate(&j(r#"{"n": 2.5}"#)), None);
    assert_eq!(policy.evaluate(&j(r#"{"n": 2}"#)), ALLOW);
    assert_eq!(policy.evaluate(&j(r#"{"n": "2"}"#)), DENY);
}

#[test]
fn like_matches_by_glob() {
    let policy = compile_ok(r#"allow a if name like "ad*";"#);
    assert_eq!(policy.evaluate(&j(r#"{"name": "admin"}"#)), ALLOW);
    assert_eq!(policy.evaluate(&j(r#"{"name": "user"}"#)), DENY);
}

#[test]
fn no_rules_deny_by_default() {
    let policy = compile_ok("");
    assert_eq!(policy.evaluate(&j("{}")), DENY);
}
