use karu::ast::{EffectAst, ExprAst, OpAst, PathAst, PathSegmentAst, PatternAst};
use karu::cedar_import::{from_cedar, from_cedar_to_source, from_cedar_with_schema, from_cedarschema, path_to_string};
use karu::json::{Number, Value};
use karu::compiler::{compile_program, Policy};
use karu::rule::Effect;

fn conv(v: &serde_json::Value) -> Value {
    match v {
        serde_json::Value::Null => Value::Null,
        serde_json::Value::Bool(b) => Value::Bool(*b),
        serde_json::Value::Number(n) => {
            if let Some(u) = n.as_u64() {
                Value::Number(Number::PosInt(u))
            } else if let Some(i) = n.as_i64() {
                Value::Number(Number::NegInt(i))
            } else {
                Value::Number(Number::FloatBits(n.as_f64().unwrap().to_bits()))
            }
        }
        serde_json::Value::String(s) => Value::String(s.clone()),
        serde_json::Value::Array(a) => Value::Array(a.iter().map(conv).collect()),
        serde_json::Value::Object(m) => Value::Object(m.iter().map(|(k, v)| (k.clone(), conv(v))).collect()),
    }
}

/// The value a JSON text stands for.
fn j(s: &str) -> Value {
    conv(&serde_json::from_str::<serde_json::Value>(s).unwrap())
}

fn compiled(program: &karu::ast::Program) -> Policy {
    compile_program(program, &Vec::new()).expect("should compile")
}

fn is_str(p: &PatternAst, want: &str) -> bool {
    matches!(p, PatternAst::Literal(Value::String(s)) if s == want)
}

#[test]
fn cedar_import_test_simple_permit() {
    let program = from_cedar(r#"permit(principal, action, resource);"#).unwrap();
    assert_eq!(program.rules.len(), 1);
    assert_eq!(program.rules[0].effect, EffectAst::Allow);
    assert!(program.rules[0].body.is_none());
}

#[test]
fn test_forbid() {
    let program = from_cedar(r#"forbid(principal, action, resource);"#).unwrap();
    assert_eq!(program.rules[0].effect, EffectAst::Deny);
}

#[test]
fn test_with_entity() {
    let program = from_cedar(r#"permit(principal == User::"alice", action, resource);"#).unwrap();
    if let Some(ExprAst::Compare { left, op, right }) = &program.rules[0].body {
        assert_eq!(path_to_string(left), "principal");
        assert_eq!(*op, OpAst::Eq);
        assert!(is_str(right, "alice"));
    } else {
        panic!("Expected Compare expression");
    }
}

#[test]
fn test_action_constraint() {
    let program = from_cedar(r#"permit(principal, action == Action::"view", resource);"#).unwrap();
    if let Some(ExprAst::Compare { left, .. }) = &program.rules[0].body {
        assert_eq!(path_to_string(left), "action");
    } else {
        panic!("Expected Compare expression");
    }
}

#[test]
fn cedar_import_test_action_in_list() {
    let program =
        from_cedar(r#"permit(principal, action in [Action::"view", Action::"edit"], resource);"#)
            .unwrap();
    if let Some(ExprAst::Or(parts)) = &program.rules[0].body {
        assert_eq!(parts.len(), 2);
    } else {
        panic!("Expected Or expression for action list");
    }
}

#[test]
fn cedar_import_test_when_condition() {
    let program =
        from_cedar(r#"permit(principal, action, resource) when { resource.public == true };"#)
            .unwrap();
    assert!(program.rules[0].body.is_some());
}

#[test]
fn test_unless_negated() {
    let program = from_cedar(
        r#"forbid(principal, action, resource) unless { principal == resource.owner };"#,
    )
    .unwrap();
    if let Some(ExprAst::Not(_)) = &program.rules[0].body {
    } else {
        panic!("Expected Not expression for unless");
    }
}

#[test]
fn test_combined_scope_and_when() {
    let program = from_cedar(
        r#"permit(principal == User::"alice", action == Action::"view", resource)
               when { resource.public == true };"#,
    )
    .unwrap();
    if let Some(ExprAst::And(parts)) = &program.rules[0].body {
        assert_eq!(parts.len(), 3);
    } else {
        panic!("Expected And with 3 parts");
    }
}

#[test]
fn test_annotation_as_name() {
    let program = from_cedar(r#"@id("admin_policy") permit(principal, action, resource);"#).unwrap();
    assert_eq!(program.rules[0].name, "admin_policy");
}

#[test]
fn test_auto_name() {
    let program = from_cedar(r#"permit(principal, action, resource);"#).unwrap();
    assert_eq!(program.rules[0].name, "policy_0");
}

#[test]
fn test_contains_to_in() {
    let program = from_cedar(
        r#"permit(principal, action, resource)
               when { resource.admins.contains(principal) };"#,
    )
    .unwrap();
    if let Some(ExprAst::In { pattern, path }) = &program.rules[0].body {
        assert!(matches!(pattern, PatternAst::PathRef(_)));
        assert_eq!(path_to_string(path), "resource.admins");
    } else {
        panic!("Expected In expression, got {:?}", program.rules[0].body);
    }
}

#[test]
fn test_complex_when_and() {
    let program = from_cedar(
        r#"permit(principal, action, resource) 
               when { principal.department == "Engineering" && principal.level >= 5 };"#,
    )
    .unwrap();
    if let Some(ExprAst::And(parts)) = &program.rules[0].body {
        assert_eq!(parts.len(), 2);
    } else {
        panic!("Expected And expression");
    }
}

#[test]
fn test_template_slot_unsupported() {
    let result = from_cedar(r#"permit(principal == ?principal, action, resource);"#);
    assert!(result.is_err());
    assert!(result.unwrap_err().message.contains("Template slot"));
}

#[test]
fn cedar_import_test_multiple_policies() {
    let program = from_cedar(
        r#"
            permit(principal == User::"alice", action, resource);
            forbid(principal, action, resource) when { resource.private == true };
            "#,
    )
    .unwrap();
    assert_eq!(program.rules.len(), 2);
    assert_eq!(program.rules[0].effect, EffectAst::Allow);
    assert_eq!(program.rules[1].effect, EffectAst::Deny);
}

#[test]
fn test_to_source() {
    let source = from_cedar_to_source(
        r#"permit(principal == User::"alice", action == Action::"view", resource)
               when { resource.public == true };"#,
    )
    .unwrap();
    assert!(source.contains("allow"));
    assert!(source.contains("principal == \"alice\""));
    assert!(source.contains("action == \"view\""));
    assert!(source.contains("resource.public == true"));
}

#[test]
fn test_cedar_arithmetic_constant_fold() {
    let result = from_cedar(
        r#"permit(principal, action, resource)
               when { 2 + 3 == 5 };"#,
    );
    result.unwrap();
}

#[test]
fn test_is_type_principal_scope() {
    let program = from_cedar(r#"permit(principal is User, action, resource);"#).unwrap();
    assert_eq!(program.rules.len(), 1);
    if let Some(ExprAst::Compare { left, op, right }) = &program.rules[0].body {
        assert_eq!(path_to_string(left), "principal.type");
        assert_eq!(*op, OpAst::Eq);
        assert!(is_str(right, "User"));
    } else {
        panic!("Expected Compare on principal.type, got {:?}", program.rules[0].body);
    }
}

#[test]
fn test_is_type_resource_scope() {
    let program = from_cedar(r#"permit(principal, action, resource is Document);"#).unwrap();
    assert_eq!(program.rules.len(), 1);
    if let Some(ExprAst::Compare { left, op, right }) = &program.rules[0].body {
        assert_eq!(path_to_string(left), "resource.type");
        assert_eq!(*op, OpAst::Eq);
        assert!(is_str(right, "Document"));
    } else {
        panic!("Expected Compare on resource.type, got {:?}", program.rules[0].body);
    }
}

#[test]
fn test_is_type_principal_in_group() {
    let program =
        from_cedar(r#"permit(principal is Admin in Group::"admins", action, resource);"#).unwrap();
    if let Some(ExprAst::And(parts)) = &program.rules[0].body {
        assert_eq!(parts.len(), 2);
        if let ExprAst::Compare { left, op, right } = &parts[0] {
            assert_eq!(path_to_string(left), "principal.type");
            assert_eq!(*op, OpAst::Eq);
            assert!(is_str(right, "Admin"));
        } else {
            panic!("Expected Compare for type check");
        }
        if let ExprAst::In { pattern, path } = &parts[1] {
            assert!(is_str(pattern, "admins"));
            assert_eq!(path_to_string(path), "principal.groups");
        } else {
            panic!("Expected In for group check");
        }
    } else {
        panic!("Expected And expression, got {:?}", program.rules[0].body);
    }
}

#[test]
fn test_is_type_in_when_clause() {
    let program =
        from_cedar(r#"permit(principal, action, resource) when { principal is User };"#).unwrap();
    if let Some(ExprAst::Compare { left, op, right }) = &program.rules[0].body {
        assert_eq!(path_to_string(left), "principal.type");
        assert_eq!(*op, OpAst::Eq);
        assert!(is_str(right, "User"));
    } else {
        panic!("Expected Compare on principal.type");
    }
}

// ---------------------------------------------------------------------------

#[test]
fn import_has_like_and_is_in_group() {
    let program = from_cedar(
        r#"permit(principal, action, resource) when { context has readOnly && principal.name like "j*" && resource is Doc in Folder::"f" };"#,
    )
    .unwrap();
    match &program.rules[0].body {
        Some(ExprAst::And(parts)) => {
            assert_eq!(parts.len(), 3);
            assert!(matches!(&parts[0], ExprAst::Has { path } if path_to_string(path) == "context.readOnly"));
            assert!(matches!(&parts[1], ExprAst::Like { path, pattern } if path_to_string(path) == "principal.name" && pattern == "j*"));
            match &parts[2] {
                ExprAst::And(inner) => {
                    assert!(matches!(&inner[0], ExprAst::Compare { left, .. } if path_to_string(left) == "resource.type"));
                    assert!(matches!(&inner[1], ExprAst::In { path, pattern } if path_to_string(path) == "resource.groups" && is_str(pattern, "f")));
                }
                other => panic!("unexpected {:?}", other),
            }
        }
        other => panic!("unexpected {:?}", other),
    }
}

#[test]
fn import_resource_in_uses_lowercased_container_field() {
    let program = from_cedar(r#"permit(principal, action, resource in Album::"vacation");"#).unwrap();
    match &program.rules[0].body {
        Some(ExprAst::Compare { left, right, .. }) => {
            assert_eq!(path_to_string(left), "resource.album");
            assert!(is_str(right, "vacation"));
        }
        other => panic!("unexpected {:?}", other),
    }
    let program = from_cedar(r#"permit(principal in Team::"t", action in Action::"read", resource is Photo in Album::"a");"#).unwrap();
    match &program.rules[0].body {
        Some(ExprAst::And(parts)) => {
            assert_eq!(parts.len(), 4);
            assert!(matches!(&parts[0], ExprAst::In { path, pattern } if path_to_string(path) == "principal.groups" && is_str(pattern, "t")));
            assert!(matches!(&parts[1], ExprAst::Compare { left, right, .. } if path_to_string(left) == "action" && is_str(right, "read")));
            assert!(matches!(&parts[2], ExprAst::Compare { left, .. } if path_to_string(left) == "resource.type"));
            assert!(matches!(&parts[3], ExprAst::Compare { left, .. } if path_to_string(left) == "resource.album"));
        }
        other => panic!("unexpected {:?}", other),
    }
}

#[test]
fn import_extension_methods() {
    let program = from_cedar(
        r#"permit(principal, action, resource) when { ip(context.srcIp).isInRange(ip("10.0.0.0/8")) && ip(context.a).isIpv4() && decimal(context.score).lessThan(decimal("0.75")) };"#,
    )
    .unwrap();
    match &program.rules[0].body {
        Some(ExprAst::And(parts)) => {
            assert!(matches!(&parts[0], ExprAst::Compare { left, op: OpAst::IpIsInRange, right } if path_to_string(left) == "context.srcIp" && is_str(right, "10.0.0.0/8")));
            assert!(matches!(&parts[1], ExprAst::Compare { op: OpAst::IsIpv4, right: PatternAst::Wildcard, .. }));
            assert!(matches!(&parts[2], ExprAst::Compare { op: OpAst::DecimalLt, right, .. } if is_str(right, "0.75")));
        }
        other => panic!("unexpected {:?}", other),
    }
}

#[test]
fn import_contains_all_builds_array_literal() {
    let program = from_cedar(
        r#"permit(principal, action, resource) when { resource.tags.containsAll(["admin", 2, true]) };"#,
    )
    .unwrap();
    match &program.rules[0].body {
        Some(ExprAst::Compare { left, op, right: PatternAst::Literal(Value::Array(vs)) }) => {
            assert_eq!(path_to_string(left), "resource.tags");
            assert_eq!(*op, OpAst::ContainsAll);
            assert_eq!(vs.len(), 3);
            assert!(matches!(&vs[1], Value::Number(Number::PosInt(2))));
        }
        other => panic!("unexpected {:?}", other),
    }
    let source = from_cedar_to_source(
        r#"permit(principal, action, resource) when { resource.tags.containsAny(["a\"b", -3]) };"#,
    )
    .unwrap();
    assert_eq!(source, "allow policy_0 if\n    resource.tags containsAny [\"a\\\"b\",-3];\n");
}

#[test]
fn import_if_then_else_shapes() {
    let p = from_cedar(r#"permit(principal, action, resource) when { if context.blocked then false else true };"#).unwrap();
    assert!(matches!(&p.rules[0].body, Some(ExprAst::Not(_))));
    let p = from_cedar(r#"permit(principal, action, resource) when { if context.a then context.b else false };"#).unwrap();
    assert!(matches!(&p.rules[0].body, Some(ExprAst::And(parts)) if parts.len() == 2));
    let p = from_cedar(r#"permit(principal, action, resource) when { if context.a then true else context.b };"#).unwrap();
    assert!(matches!(&p.rules[0].body, Some(ExprAst::Or(parts)) if parts.len() == 2));
    let e = from_cedar(r#"permit(principal, action, resource) when { if context.a then context.b else context.c };"#)
        .unwrap_err();
    assert_eq!(e.message, "General if-then-else not supported: one branch must be true or false");
    assert_eq!(e.line, None);
}

#[test]
fn import_constant_folding() {
    let p = from_cedar(r#"permit(principal, action, resource) when { 2 * 3 < 5 };"#).unwrap();
    match &p.rules[0].body {
        Some(ExprAst::Not(inner)) => {
            assert!(matches!(&**inner, ExprAst::Compare { left, right: PatternAst::Wildcard, .. } if path_to_string(left) == "_always"));
        }
        other => panic!("unexpected {:?}", other),
    }
    let p = from_cedar(r#"permit(principal, action, resource) when { -(4 - 6) };"#).unwrap();
    assert!(matches!(&p.rules[0].body, Some(ExprAst::Compare { right: PatternAst::Literal(Value::Number(Number::PosInt(2))), .. })));
}

#[test]
fn import_errors() {
    let e = from_cedar(r#"permit(principal, action, resource) when { context.x + 1 == 2 };"#).unwrap_err();
    assert_eq!(e.message, "Cannot convert expression to path: Add(Access(Var(\"context\"), \"x\"), Add, Int(1))");
    assert!(e.line.is_none());
    let e = from_cedar(r#"permit(principal, action, resource) when { context.x + 1 };"#).unwrap_err();
    assert_eq!(e.message, "Arithmetic '+' with non-literal operands not yet supported");
    let e = from_cedar(r#"permit(principal, action, resource) when { context.x * 2 };"#).unwrap_err();
    assert_eq!(e.message, "Arithmetic '*' with non-literal operands not yet supported");
    let e = from_cedar(r#"permit(principal, action, resource) when { context["k"] };"#).unwrap_err();
    assert_eq!(e.message, "Index access '[\"k\"]' not directly supported");
    let e = from_cedar(r#"permit(principal, action, resource) when { resource.x.foo() };"#).unwrap_err();
    assert_eq!(e.message, "Method call '.foo()' not supported");
    let e = from_cedar(r#"permit(principal, action, resource) when { resource.x.containsAll(1) };"#).unwrap_err();
    assert_eq!(e.message, "containsAll() argument must be a set literal");
    let e = from_cedar(r#"permit(principal, action, resource) when { resource.x.containsAny([]) };"#).unwrap_err();
    assert_eq!(e.message, "containsAny() with empty set");
    let e = from_cedar(r#"permit(principal, action, resource) when { resource.x.containsAny([resource.y]) };"#).unwrap_err();
    assert_eq!(e.message, "containsAny() elements must be literals");
    let e = from_cedar(r#"permit(principal, action, resource) when { resource.x.contains(1, 2) };"#).unwrap_err();
    assert_eq!(e.message, "contains() expects exactly one argument");
    let e = from_cedar(r#"permit(principal, action, resource) when { 5 };"#).unwrap_err();
    assert_eq!(e.message, "Standalone literal not supported as condition");
    let e = from_cedar(r#"permit(principal, action, resource) when { ip("1.2.3.4") };"#).unwrap_err();
    assert_eq!(e.message, "Extension function 'ip' not supported");
    let e = from_cedar(r#"permit(principal, action, resource) when { decimal(context.a).lessThan(decimal(context.b)) };"#).unwrap_err();
    assert_eq!(e.message, "decimal() argument must be a string literal");
    let e = from_cedar(r#"permit(principal, action, resource) when { User::"a".x == 1 };"#).unwrap_err();
    assert_eq!(e.message, "Cannot convert expression to path: Access(Entity(CedarEntityRef { path: [\"User\"], id: \"a\" }), \"x\")");
    let e = from_cedar(r#"permit(principal, action, resource) when { 1 in User::"a" };"#).unwrap_err();
    assert_eq!(e.message, "Entity reference User::\"a\" cannot be used as a path");
    let e = from_cedar(r#"permit(principal, action, resource) when { 9223372036854775807 + 1 == 0 };"#).unwrap_err();
    assert!(e.message.starts_with("Cannot convert expression to path: "));
    assert_eq!(e.to_string(), format!("ImportError: {}", e.message));
}

#[test]
fn import_parse_error_keeps_line() {
    let e = from_cedar("permit(principal, action, resource)\n when { ; };").unwrap_err();
    assert_eq!(e.line, Some(2));
    assert!(e.to_string().starts_with("ImportError at line 2: "));
}

#[test]
fn import_schema_and_combined() {
    let ms = from_cedarschema("namespace App { entity User; }").unwrap();
    assert_eq!(ms[0].name.as_deref(), Some("App"));
    let e = from_cedarschema("namespace App {").unwrap_err();
    assert_eq!(e.line, Some(1));
    let p = from_cedar_with_schema("permit(principal, action, resource);", "entity User;").unwrap();
    assert!(p.use_schema);
    assert_eq!(p.modules.len(), 1);
    assert_eq!(p.rules.len(), 1);
}

#[test]
fn to_source_layout() {
    let s = from_cedar_to_source(
        r#"@id("r1") permit(principal, action, resource); forbid(principal == User::"bob", action, resource) when { context.a || context.b };"#,
    )
    .unwrap();
    assert_eq!(
        s,
        "allow r1;\ndeny policy_1 if\n    principal == \"bob\" and\n    (    context.a == true or     context.b == true);\n"
    );
}

#[test]
fn make_path_and_path_text() {
    let p = PathAst {
        segments: vec![
            PathSegmentAst::Field("a".into()),
            PathSegmentAst::Index(3),
            PathSegmentAst::Variable("v".into()),
        ],
    };
    assert_eq!(path_to_string(&p), "a.[3].v");
    assert_eq!(path_to_string(&karu::cedar_import::make_path("x..y")), "x..y");
    assert_eq!(karu::cedar_import::make_path("x..y").segments.len(), 3);
}

#[test]
fn test_has_supported() {
    let result = from_cedar(r#"permit(principal, action, resource) when { context has readOnly };"#);
    assert!(result.is_ok(), "has should be supported: {:?}", result.err());
    let program = result.unwrap();
    assert!(matches!(&program.rules[0].body, Some(ExprAst::Has { path }) if path_to_string(path) == "context.readOnly"));
    let policy = compiled(&program);
    assert_eq!(policy.evaluate(&j(r#"{"context": {"readOnly": true}}"#)), Some(Effect::Allow));
    assert_eq!(policy.evaluate(&j(r#"{"context": {}}"#)), Some(Effect::Deny));
}

#[test]
fn test_like_supported() {
    let result = from_cedar(r#"permit(principal, action, resource) when { principal.name like "j*" };"#);
    assert!(result.is_ok(), "like should be supported: {:?}", result.err());
    let program = result.unwrap();
    assert!(matches!(&program.rules[0].body, Some(ExprAst::Like { path, pattern }) if path_to_string(path) == "principal.name" && pattern == "j*"));
    let policy = compiled(&program);
    assert_eq!(policy.evaluate(&j(r#"{"principal": {"name": "john"}}"#)), Some(Effect::Allow));
    assert_eq!(policy.evaluate(&j(r#"{"principal": {"name": "alice"}}"#)), Some(Effect::Deny));
}

#[test]
fn test_contains_all() {
    let program = from_cedar(
        r#"permit(principal, action, resource)
               when { resource.tags.containsAll(["admin", "beta"]) };"#,
    )
    .unwrap();
    match &program.rules[0].body {
        Some(ExprAst::Compare { left, op: OpAst::ContainsAll, right: PatternAst::Literal(Value::Array(vs)) }) => {
            assert_eq!(path_to_string(left), "resource.tags");
            assert_eq!(vs.len(), 2);
            assert!(matches!(&vs[0], Value::String(x) if x == "admin"));
            assert!(matches!(&vs[1], Value::String(x) if x == "beta"));
        }
        other => panic!("unexpected {:?}", other),
    }
    let policy = compiled(&program);
    assert_eq!(policy.evaluate(&j(r#"{"resource": {"tags": ["admin", "beta", "prod"]}}"#)), Some(Effect::Allow));
    assert_eq!(policy.evaluate(&j(r#"{"resource": {"tags": ["admin", "prod"]}}"#)), Some(Effect::Deny));
}

#[test]
fn test_contains_any() {
    let program = from_cedar(
        r#"permit(principal, action, resource)
               when { resource.tags.containsAny(["admin", "superuser"]) };"#,
    )
    .unwrap();
    match &program.rules[0].body {
        Some(ExprAst::Compare { left, op: OpAst::ContainsAny, right: PatternAst::Literal(Value::Array(vs)) }) => {
            assert_eq!(path_to_string(left), "resource.tags");
            assert_eq!(vs.len(), 2);
            assert!(matches!(&vs[0], Value::String(x) if x == "admin"));
            assert!(matches!(&vs[1], Value::String(x) if x == "superuser"));
        }
        other => panic!("unexpected {:?}", other),
    }
    let policy = compiled(&program);
    assert_eq!(policy.evaluate(&j(r#"{"resource": {"tags": ["admin", "viewer"]}}"#)), Some(Effect::Allow));
    assert_eq!(policy.evaluate(&j(r#"{"resource": {"tags": ["viewer", "editor"]}}"#)), Some(Effect::Deny));
}

#[test]
fn test_ip_is_in_range() {
    let program = from_cedar(
        r#"permit(principal, action, resource)
               when { ip(context.srcIp).isInRange(ip("10.0.0.0/8")) };"#,
    )
    .unwrap();
    assert!(matches!(&program.rules[0].body, Some(ExprAst::Compare { left, op: OpAst::IpIsInRange, right }) if path_to_string(left) == "context.srcIp" && is_str(right, "10.0.0.0/8")));
}

#[test]
fn test_ip_is_ipv4() {
    let program = from_cedar(
        r#"permit(principal, action, resource)
               when { ip(context.addr).isIpv4() };"#,
    )
    .unwrap();
    assert!(matches!(&program.rules[0].body, Some(ExprAst::Compare { left, op: OpAst::IsIpv4, right: PatternAst::Wildcard }) if path_to_string(left) == "context.addr"));
}

#[test]
fn test_decimal_less_than() {
    let program = from_cedar(
        r#"permit(principal, action, resource)
               when { decimal(context.score).lessThan(decimal("0.75")) };"#,
    )
    .unwrap();
    assert!(matches!(&program.rules[0].body, Some(ExprAst::Compare { left, op: OpAst::DecimalLt, right }) if path_to_string(left) == "context.score" && is_str(right, "0.75")));
}

#[test]
fn test_if_then_else_basic() {
    // if principal == Admin then true else false → simplifies to principal == Admin
    let program = from_cedar(
        r#"permit(principal, action, resource)
               when { if principal == Admin::"admin" then true else false };"#,
    )
    .unwrap();
    match &program.rules[0].body {
        Some(ExprAst::Compare { left, op: OpAst::Eq, right }) => {
            assert_eq!(path_to_string(left), "principal");
            assert!(is_str(right, "admin"));
        }
        other => panic!("unexpected {:?}", other),
    }
    let policy = compiled(&program);
    assert_eq!(policy.evaluate(&j(r#"{"principal": "admin"}"#)), Some(Effect::Allow));
    assert_eq!(policy.evaluate(&j(r#"{"principal": "user"}"#)), Some(Effect::Deny));
}

#[test]
fn test_if_then_else_inverted() {
    // if cond then false else true → Not(cond)
    let program = from_cedar(
        r#"permit(principal, action, resource)
               when { if context.blocked then false else true };"#,
    )
    .unwrap();
    match &program.rules[0].body {
        Some(ExprAst::Not(inner)) => {
            assert!(matches!(inner.as_ref(), ExprAst::Compare { left, op: OpAst::Eq, right: PatternAst::Literal(Value::Bool(true)) } if path_to_string(left) == "context.blocked"));
        }
        other => panic!("unexpected {:?}", other),
    }
    let policy = compiled(&program);
    assert_eq!(policy.evaluate(&j(r#"{"context": {"blocked": true}}"#)), Some(Effect::Deny));
}

#[test]
fn import_error_message_prints_the_expression() {
    let e = from_cedar(r#"permit(principal, action, resource) when { principal in 1 };"#).unwrap_err();
    assert_eq!(e.message, "Cannot convert expression to path: Int(1)");
    let e = from_cedar(r#"permit(principal, action, resource) when { principal in [context.a, -2, "x\"y"].f };"#).unwrap_err();
    assert_eq!(
        e.message,
        r#"Cannot convert expression to path: Set([Access(Var("context"), "a"), Int(-2), Str("x\"y")])"#
    );
    let e = from_cedar(r#"permit(principal, action, resource) when { principal.f(1).g == 2 };"#).unwrap_err();
    assert_eq!(
        e.message,
        r#"Cannot convert expression to path: Access(MethodCall(Var("principal"), "f", [Int(1)]), "g")"#
    );
    let e = from_cedar(r#"permit(principal, action, resource) when { principal.f(1) };"#).unwrap_err();
    assert_eq!(e.message, "Method call '.f()' not supported");
}

#[test]
fn test_compile_cedar_roundtrip() {
    let program = from_cedar(
        r#"permit(principal, action == Action::"view", resource)
               when { resource.public == true };"#,
    )
    .unwrap();
    let policy = compiled(&program);
    let result = policy.evaluate(&j(r#"{"action": "view", "resource": {"public": true}}"#));
    assert_eq!(result, Some(Effect::Allow));
}

#[test]
fn test_is_type_evaluates_correctly() {
    let program = from_cedar(r#"permit(principal is Admin, action, resource);"#).unwrap();
    let policy = compiled(&program);
    assert_eq!(policy.evaluate(&j(r#"{"principal": {"type": "Admin", "id": "alice"}}"#)), Some(Effect::Allow));
    assert_eq!(policy.evaluate(&j(r#"{"principal": {"type": "User", "id": "bob"}}"#)), Some(Effect::Deny));
    assert_eq!(policy.evaluate(&j(r#"{"principal": {"id": "charlie"}}"#)), Some(Effect::Deny));
}

#[test]
fn test_is_type_in_group_evaluates_correctly() {
    let program = from_cedar(r#"permit(principal is Admin in Group::"superusers", action, resource);"#).unwrap();
    let policy = compiled(&program);
    assert_eq!(
        policy.evaluate(&j(r#"{"principal": {"type": "Admin", "groups": ["superusers", "staff"]}}"#)),
        Some(Effect::Allow)
    );
    assert_eq!(policy.evaluate(&j(r#"{"principal": {"type": "Admin", "groups": ["staff"]}}"#)), Some(Effect::Deny));
    assert_eq!(policy.evaluate(&j(r#"{"principal": {"type": "User", "groups": ["superusers"]}}"#)), Some(Effect::Deny));
}

#[test]
fn ip_and_decimal_comparisons_are_left_undecided() {
    let program = from_cedar(
        r#"permit(principal, action, resource)
               when { decimal(context.score).lessThan(decimal("0.75")) };"#,
    )
    .unwrap();
    let policy = compiled(&program);
    assert_eq!(policy.evaluate(&j(r#"{"context": {"score": "0.5"}}"#)), None);
}
