use karu::ast::{EffectAst, ExpectedOutcome, ExprAst, OpAst, PathSegmentAst, PatternAst, Program};
use karu::json::{Number, Value};
use karu::karu_lexer::Lexer;
use karu::karu_parser::{number_texts, parse_input_ok, parse_source, NumberReading, ParseError, Parser};
use karu::schema::{EntityKind, TypeRef};

fn float_value(n: f64) -> Value {
    if n.is_finite() {
        Value::Number(Number::FloatBits(n.to_bits()))
    } else {
        Value::Null
    }
}

fn read_number(text: &str) -> NumberReading {
    let n: f64 = text.parse().unwrap();
    let pattern = if n.fract() == 0.0 && n >= i64::MIN as f64 && n <= i64::MAX as f64 {
        let i = n as i64;
        if i >= 0 {
            Value::Number(Number::PosInt(i as u64))
        } else {
            Value::Number(Number::NegInt(i))
        }
    } else {
        float_value(n)
    };
    NumberReading { index: n as usize, pattern, value: float_value(n), display: format!("{}", n) }
}

fn parse_text(src: &str, with_tests: bool) -> Result<Program, ParseError> {
    let tokens = Lexer::tokenize_spanned(src).map_err(ParseError::from_lex_error)?;
    let numbers: Vec<(String, NumberReading)> =
        number_texts(&tokens).into_iter().map(|t| (t.clone(), read_number(&t))).collect();
    assert!(parse_input_ok(&tokens, &numbers));
    Parser::parse_tokens(tokens, numbers, with_tests)
}

fn parse(src: &str) -> Result<Program, ParseError> {
    parse_text(src, false)
}

fn parse_with_tests(src: &str) -> Result<Program, ParseError> {
    parse_text(src, true)
}

#[test]
fn parser_test_parse_simple_allow() {
    let prog = parse("allow access;").unwrap();
    assert_eq!(prog.rules.len(), 1);
    assert_eq!(prog.rules[0].name, "access");
    assert_eq!(prog.rules[0].effect, EffectAst::Allow);
    assert!(prog.rules[0].body.is_none());
}

#[test]
fn parser_test_parse_with_condition() {
    let prog = parse(r#"allow read if action == "read";"#).unwrap();
    assert!(prog.rules[0].body.is_some());
    if let Some(ExprAst::Compare { left, op, right }) = &prog.rules[0].body {
        assert_eq!(left.segments.len(), 1);
        assert_eq!(op, &OpAst::Eq);
        assert!(matches!(right, PatternAst::Literal(_)));
    } else {
        panic!("Expected Compare expression");
    }
}

#[test]
fn parser_test_parse_and_expression() {
    let prog = parse(r#"allow access if action == "read" and role == "admin";"#).unwrap();
    if let Some(ExprAst::And(exprs)) = &prog.rules[0].body {
        assert_eq!(exprs.len(), 2);
    } else {
        panic!("Expected And expression");
    }
}

#[test]
fn parser_test_parse_or_expression() {
    let prog = parse(r#"allow access if role == "admin" or role == "superuser";"#).unwrap();
    if let Some(ExprAst::Or(exprs)) = &prog.rules[0].body {
        assert_eq!(exprs.len(), 2);
    } else {
        panic!("Expected Or expression");
    }
}

#[test]
fn test_parse_not_expression() {
    let prog = parse(r#"deny blocked if not active == true;"#).unwrap();
    if let Some(ExprAst::Not(_)) = &prog.rules[0].body {
    } else {
        panic!("Expected Not expression");
    }
}

#[test]
fn test_parse_in_expression() {
    let prog = parse(r#"allow access if {name: "admin"} in roles;"#).unwrap();
    if let Some(ExprAst::In { pattern, path }) = &prog.rules[0].body {
        assert!(matches!(pattern, PatternAst::Object(_)));
        assert_eq!(path.segments.len(), 1);
    } else {
        panic!("Expected In expression");
    }
}

#[test]
fn test_parse_nested_path() {
    let prog = parse(r#"allow access if resource.context.args == "test";"#).unwrap();
    if let Some(ExprAst::Compare { left, .. }) = &prog.rules[0].body {
        assert_eq!(left.segments.len(), 3);
    } else {
        panic!("Expected Compare expression");
    }
}

#[test]
fn test_parse_object_pattern() {
    let prog = parse(r#"allow access if {name: "lhs", value: x} in args;"#).unwrap();
    if let Some(ExprAst::In { pattern, .. }) = &prog.rules[0].body {
        if let PatternAst::Object(fields) = pattern {
            assert_eq!(fields.len(), 2);
            assert!(matches!(&fields[0].1, PatternAst::Literal(_)));
            assert!(matches!(&fields[1].1, PatternAst::Variable(_)));
        } else {
            panic!("Expected Object pattern");
        }
    } else {
        panic!("Expected In expression");
    }
}

#[test]
fn test_parse_wildcard() {
    let prog = parse(r#"allow access if value == _;"#).unwrap();
    if let Some(ExprAst::Compare { right, .. }) = &prog.rules[0].body {
        assert!(matches!(right, PatternAst::Wildcard));
    } else {
        panic!("Expected Compare expression");
    }
}

#[test]
fn test_parse_comparison_operators() {
    let prog = parse(r#"allow access if age >= 18 and level < 100;"#).unwrap();
    if let Some(ExprAst::And(exprs)) = &prog.rules[0].body {
        assert_eq!(exprs.len(), 2);
        if let ExprAst::Compare { op, .. } = &exprs[0] {
            assert_eq!(op, &OpAst::Ge);
        }
        if let ExprAst::Compare { op, .. } = &exprs[1] {
            assert_eq!(op, &OpAst::Lt);
        }
    } else {
        panic!("Expected And expression");
    }
}

#[test]
fn parser_test_parse_multiple_rules() {
    let prog = parse(
        r#"
            allow read_access if action == "read";
            deny delete_access if action == "delete";
            "#,
    )
    .unwrap();
    assert_eq!(prog.rules.len(), 2);
    assert_eq!(prog.rules[0].effect, EffectAst::Allow);
    assert_eq!(prog.rules[1].effect, EffectAst::Deny);
}

#[test]
fn test_parse_readme_example() {
    let src = r#"
            // The Rule
            allow access if
                action == "call" and
                // The Pattern Match
                { name: "lhs", value: 10 } in resource.context.namedArguments;
        "#;
    let prog = parse(src).unwrap();
    assert_eq!(prog.rules.len(), 1);
    assert_eq!(prog.rules[0].name, "access");
}

#[test]
fn test_error_position_line_column() {
    let src = "allow access";
    let err = parse(src).unwrap_err();
    assert_eq!(err.line, 1);
    assert_eq!(err.column, 13);
    assert!(err.message.contains("Expected"));
}

#[test]
fn test_error_position_multiline() {
    let src = "allow one;\nbad";
    let err = parse(src).unwrap_err();
    assert_eq!(err.line, 2);
    assert_eq!(err.column, 1);
}

#[test]
fn test_fail_fast_on_first_error() {
    let src = r#"
            allow broken if ==;
            allow valid if action == "read";
        "#;
    assert!(parse(src).is_err());
}

#[test]
fn test_fail_fast_multiple_errors() {
    let src = r#"
            allow bad1 if ==;
            deny bad2 if;
            allow good;
        "#;
    assert!(parse(src).is_err());
}

#[test]
fn test_no_errors_on_valid_program() {
    let src = r#"
            allow one;
            deny two;
        "#;
    let prog = parse(src).unwrap();
    assert_eq!(prog.rules.len(), 2);
}

#[test]
fn parser_test_parse_path_in_path() {
    let prog = parse(r#"allow admin if principal.id in resource.adminIds;"#).unwrap();
    if let Some(ExprAst::In { pattern, path }) = &prog.rules[0].body {
        assert!(matches!(pattern, PatternAst::PathRef(_)));
        if let PatternAst::PathRef(p) = pattern {
            assert_eq!(p.segments.len(), 2);
        }
        assert_eq!(path.segments.len(), 2);
    } else {
        panic!("Expected In expression");
    }
}

#[test]
fn test_parse_multiline_condition() {
    let policy = r#"allow view if
        principal == "alice" and
        action == "view";"#;
    let prog = parse(policy).unwrap();
    assert_eq!(prog.rules.len(), 1);
    assert_eq!(prog.rules[0].name, "view");
}

#[test]
fn test_parse_assert_untyped_mode() {
    let src = "assert is_admin if principal.role == \"admin\";\nallow manage if is_admin and action == \"manage\";\n";
    let prog = parse(src).unwrap();
    assert!(!prog.use_schema);
    assert_eq!(prog.assertions.len(), 1);
    assert_eq!(prog.assertions[0].name, "is_admin");
    assert_eq!(prog.rules.len(), 1);
}

#[test]
fn test_parse_skips_test_blocks() {
    let policy = r#"
        allow view if principal == "alice";
        test "something" {
            resource { id: "doc1", type: "document", }
            principal { id: "alice", type: "user", }
            action { id: "view", type: "action", }
            expect allow
        }
        deny delete if action == "delete";
    "#;
    let prog = parse(policy).unwrap();
    assert_eq!(prog.rules.len(), 2);
    assert_eq!(prog.tests.len(), 0);
}

#[test]
fn test_parse_with_tests_extracts_tests() {
    let policy = r#"
        allow view if principal == "alice";
        test "alice can view" {
            resource { id: "doc1", type: "document", }
            principal { id: "alice", type: "user", }
            action { id: "view", type: "action", }
            expect allow
        }
    "#;
    let prog = parse_with_tests(policy).unwrap();
    assert_eq!(prog.rules.len(), 1);
    assert_eq!(prog.tests.len(), 1);
    assert_eq!(prog.tests[0].name, "alice can view");
    assert_eq!(prog.tests[0].entities.len(), 3);
    assert!(matches!(prog.tests[0].expected, ExpectedOutcome::Simple(EffectAst::Allow)));
}

#[test]
fn test_parse_with_tests_entity_fields() {
    let policy = r#"
        allow access;
        test "field test" {
            principal { id: "bob", role: "admin", }
            expect allow
        }
    "#;
    let prog = parse_with_tests(policy).unwrap();
    assert_eq!(prog.tests[0].entities.len(), 1);
    let entity = &prog.tests[0].entities[0];
    assert_eq!(entity.kind, "principal");
    assert_eq!(entity.fields.len(), 2);
    assert_eq!(entity.fields[0].0, "id");
    assert!(matches!(&entity.fields[0].1, Value::String(s) if s == "bob"));
    assert_eq!(entity.fields[1].0, "role");
    assert!(matches!(&entity.fields[1].1, Value::String(s) if s == "admin"));
}

#[test]
fn test_parse_no_tests() {
    let policy = r#"allow view; deny delete;"#;
    let prog = parse_with_tests(policy).unwrap();
    assert_eq!(prog.rules.len(), 2);
    assert_eq!(prog.tests.len(), 0);
}

#[test]
fn parser_test_parse_use_schema() {
    let prog = parse("use schema;\nallow access;").unwrap();
    assert!(prog.use_schema);
    assert_eq!(prog.rules.len(), 1);
}

#[test]
fn test_parse_without_use_schema() {
    let prog = parse("allow access;").unwrap();
    assert!(!prog.use_schema);
}

#[test]
fn test_parse_empty_module() {
    let src = "use schema;\nmod MyNs {};";
    let prog = parse(src).unwrap();
    assert_eq!(prog.modules.len(), 1);
    assert_eq!(prog.modules[0].name.as_deref(), Some("MyNs"));
    assert!(prog.modules[0].entities.is_empty());
    assert!(prog.modules[0].actions.is_empty());
}

#[test]
fn test_parse_entity_actor() {
    let src = "use schema;\nmod NS {\n    actor User {\n        name String,\n        email String\n    };\n};";
    let prog = parse(src).unwrap();
    assert_eq!(prog.modules[0].entities.len(), 1);
    let entity = &prog.modules[0].entities[0];
    assert_eq!(entity.kind, EntityKind::Actor);
    assert_eq!(entity.name, "User");
    assert_eq!(entity.fields.len(), 2);
    assert_eq!(entity.fields[0].name, "name");
    assert!(!entity.fields[0].optional);
}

#[test]
fn test_parse_entity_with_parent() {
    let src = "use schema;\nmod NS { resource File in Folder { name String }; };";
    let prog = parse(src).unwrap();
    let entity = &prog.modules[0].entities[0];
    assert_eq!(entity.kind, EntityKind::Resource);
    assert_eq!(entity.name, "File");
    assert_eq!(entity.parents, vec!["Folder"]);
}

#[test]
fn test_parse_entity_empty_fields() {
    let src = "use schema;\nmod NS { resource Folder {}; };";
    let prog = parse(src).unwrap();
    let entity = &prog.modules[0].entities[0];
    assert_eq!(entity.name, "Folder");
    assert!(entity.fields.is_empty());
}

#[test]
fn test_parse_optional_field() {
    let src = "use schema;\nmod NS { actor User { email? String }; };";
    let prog = parse(src).unwrap();
    let field = &prog.modules[0].entities[0].fields[0];
    assert_eq!(field.name, "email");
    assert!(field.optional);
}

#[test]
fn test_parse_nullable_field() {
    let src = "use schema;\nmod NS { actor User { email String | null }; };";
    let prog = parse(src).unwrap();
    let field = &prog.modules[0].entities[0].fields[0];
    assert!(!field.optional);
    assert!(matches!(&field.ty, TypeRef::Union(types) if types.len() == 2));
}

#[test]
fn test_parse_action_basic() {
    let src = "use schema;\nmod NS {\n    action \"Delete\" appliesTo {\n        actor User,\n        resource File | Folder\n    };\n};";
    let prog = parse(src).unwrap();
    let action = &prog.modules[0].actions[0];
    assert_eq!(action.name, "Delete");
    let at = action.applies_to.as_ref().unwrap();
    assert_eq!(at.actors, vec!["User"]);
    assert_eq!(at.resources, vec!["File", "Folder"]);
    assert!(at.context.is_none());
}

#[test]
fn test_parse_action_with_context() {
    let src = "use schema;\nmod NS {\n    action \"Update\" appliesTo {\n        actor User,\n        resource Doc,\n        context {\n            authenticated Boolean,\n            tags? Set<String>\n        }\n    };\n};";
    let prog = parse(src).unwrap();
    let ctx = prog.modules[0].actions[0].applies_to.as_ref().unwrap().context.as_ref().unwrap();
    assert_eq!(ctx.len(), 2);
    assert_eq!(ctx[0].name, "authenticated");
    assert!(!ctx[0].optional);
    assert_eq!(ctx[1].name, "tags");
    assert!(ctx[1].optional);
    assert!(matches!(&ctx[1].ty, TypeRef::SetOf(_)));
}

#[test]
fn parser_test_parse_set_type() {
    let src = "use schema;\nmod NS { actor User { roles Set<String> }; };";
    let prog = parse(src).unwrap();
    let ty = &prog.modules[0].entities[0].fields[0].ty;
    if let TypeRef::SetOf(inner) = ty {
        assert!(matches!(inner.as_ref(), TypeRef::Named(n) if n == "String"));
    } else {
        panic!("Expected Set type, got {:?}", ty);
    }
}

#[test]
fn parser_test_parse_assert_with_type_params() {
    let src = "use schema;\nassert user_is_owner<User, action, File> if actor.name == resource.owner.name;";
    let prog = parse(src).unwrap();
    assert_eq!(prog.assertions.len(), 1);
    let a = &prog.assertions[0];
    assert_eq!(a.name, "user_is_owner");
    assert_eq!(a.type_params, vec!["User", "action", "File"]);
    assert!(matches!(&a.body, ExprAst::Compare { .. }));
}

#[test]
fn test_parse_assert_is() {
    let src = "use schema;\nassert user_has_roles is actor has roles;";
    let prog = parse(src).unwrap();
    let a = &prog.assertions[0];
    assert_eq!(a.name, "user_has_roles");
    assert!(a.type_params.is_empty());
}

#[test]
fn test_parse_type_ref_rule() {
    let src = "use schema;\nallow delete_file if MyCedarNamespace:Delete and context.authenticated;";
    let prog = parse(src).unwrap();
    let rule = &prog.rules[0];
    assert_eq!(rule.name, "delete_file");
    assert_eq!(rule.effect, EffectAst::Allow);
    assert!(rule.body.is_some());
}

#[test]
fn test_parse_full_typed_schema() {
    let src = "use schema;\nmod MyCedarNamespace {\n    actor User { name String };\n    resource Folder {};\n    resource File in Folder { owner User, name String, modified String };\n    action \"Delete\" appliesTo {\n        actor User,\n        resource File | Folder,\n        context { authenticated Boolean, somethingOptional? String, somethingNullable String | null }\n    };\n    abstract Ownable { owner User };\n};\nassert user_is_owner<User, action, File> if actor.name == resource.owner.name;\nassert user_has_roles is actor has roles;\nallow delete_file if MyCedarNamespace:Delete and context.authenticated and user_is_owner;\n";
    let prog = parse(src).unwrap();
    assert!(prog.use_schema);
    assert_eq!(prog.modules.len(), 1);
    assert_eq!(prog.modules[0].entities.len(), 3);
    assert_eq!(prog.modules[0].actions.len(), 1);
    assert_eq!(prog.modules[0].abstracts.len(), 1);
    assert_eq!(prog.modules[0].abstracts[0].name, "Ownable");
    assert_eq!(prog.assertions.len(), 2);
    assert_eq!(prog.rules.len(), 1);
}

#[test]
fn test_parse_unnamed_module() {
    let src = "use schema;\nmod { actor User { name String }; };";
    let prog = parse(src).unwrap();
    assert_eq!(prog.modules.len(), 1);
    assert!(prog.modules[0].name.is_none());
    assert_eq!(prog.modules[0].entities.len(), 1);
}

#[test]
fn test_parse_entity_with_trait() {
    let src = "use schema;\nmod Ns {\n    abstract Ownable { owner String };\n    resource File is Ownable { name String };\n};\n";
    let prog = parse(src).unwrap();
    let file_entity = &prog.modules[0].entities[0];
    assert_eq!(file_entity.name, "File");
    assert_eq!(file_entity.traits, vec!["Ownable"]);
    assert_eq!(file_entity.fields.len(), 1);
}

#[test]
fn test_parse_type_ref_expression() {
    let src = "use schema;\nallow do_delete if MyCedarNamespace:Delete;";
    let prog = parse(src).unwrap();
    assert_eq!(prog.rules.len(), 1);
    let body = prog.rules[0].body.as_ref().unwrap();
    match body {
        ExprAst::TypeRef { namespace, name } => {
            assert_eq!(namespace.as_deref(), Some("MyCedarNamespace"));
            assert_eq!(name, "Delete");
        }
        _ => panic!("Expected TypeRef, got {:?}", body),
    }
}

#[test]
fn test_parse_import() {
    let prog = parse(
        r#"import "rules.karu";
allow view;"#,
    )
    .unwrap();
    assert_eq!(prog.imports.len(), 1);
    assert_eq!(prog.imports[0], "rules.karu");
    assert_eq!(prog.rules.len(), 1);
}

#[test]
fn test_parse_multiple_imports() {
    let prog = parse(
        r#"import "a.karu";
import "b.karu";
import "c.karu";
allow view;"#,
    )
    .unwrap();
    assert_eq!(prog.imports.len(), 3);
    assert_eq!(prog.imports[0], "a.karu");
    assert_eq!(prog.imports[1], "b.karu");
    assert_eq!(prog.imports[2], "c.karu");
}

#[test]
fn test_parse_import_with_schema() {
    let prog = parse(
        r#"use schema;
import "types.karu";
mod { actor User {}; };
allow view;"#,
    )
    .unwrap();
    assert!(prog.use_schema);
    assert_eq!(prog.imports.len(), 1);
    assert_eq!(prog.imports[0], "types.karu");
}

#[test]
fn test_parse_import_after_rule_fails() {
    let result = parse(
        r#"allow view;
import "late.karu";"#,
    );
    assert!(result.is_err());
    let err = result.unwrap_err();
    assert!(
        err.message.contains("import statements must appear at the top"),
        "Expected ordering error, got: {}",
        err.message
    );
}

#[test]
fn test_no_imports_field_empty() {
    let prog = parse("allow view;").unwrap();
    assert!(prog.imports.is_empty());
}

#[test]
fn parse_paths_numbers_and_messages() {
    let prog = parse(r#"allow a if items[0].tags.1 == 2.5 and users[k] == x and m[r.id.2] == -3;"#).unwrap();
    if let Some(ExprAst::And(es)) = &prog.rules[0].body {
        assert_eq!(es.len(), 3);
        if let ExprAst::Compare { left, right, .. } = &es[0] {
            assert!(matches!(left.segments[1], PathSegmentAst::Index(0)));
            assert!(matches!(left.segments[3], PathSegmentAst::Index(1)));
            assert!(matches!(right, PatternAst::Literal(Value::Number(Number::FloatBits(b))) if *b == 2.5f64.to_bits()));
        } else {
            panic!("Expected Compare");
        }
        if let ExprAst::Compare { left, .. } = &es[1] {
            assert!(matches!(&left.segments[1], PathSegmentAst::Variable(v) if v == "k"));
        }
        if let ExprAst::Compare { left, right, .. } = &es[2] {
            assert!(matches!(&left.segments[1], PathSegmentAst::Variable(v) if v == "@path:r.id.2"));
            assert!(matches!(right, PatternAst::Literal(Value::Number(Number::NegInt(-3)))));
        }
    } else {
        panic!("Expected And");
    }
    let e = parse("allow x if a == ;").unwrap_err();
    assert_eq!(e.message, "Expected pattern, found ;");
    let e = parse("allow x if a == 1 2;").unwrap_err();
    assert_eq!(e.message, "Expected ;, found 2");
    let e = parse("allow x if a like 3;").unwrap_err();
    assert_eq!(e.message, "Expected string pattern after 'like'");
    let e = parse("allow \"\";").unwrap_err();
    assert_eq!(e.message, "Rule name must not be empty");
    let e = parse("frobnicate;").unwrap_err();
    assert_eq!(e.message, "Expected 'allow', 'deny', 'mod', 'assert', or 'test', found frobnicate");
    let prog = parse("deny if x;").unwrap();
    assert_eq!(prog.rules[0].name, "deny");
}

#[test]
fn parse_test_values_and_expect_blocks() {
    let prog = parse_with_tests(
        r#"allow view;
test "t" {
  principal "alice"
  resource { meta: { z: 1, a: 2, z: 3 }, list: [1, "x", true], }
  expect { allow view, deny other, }
}"#,
    )
    .unwrap();
    let t = &prog.tests[0];
    assert!(t.entities[0].shorthand);
    assert_eq!(t.entities[0].fields[0].0, "id");
    let meta = &t.entities[1].fields[0].1;
    if let Value::Object(es) = meta {
        let keys: Vec<&str> = es.iter().map(|e| e.0.as_str()).collect();
        assert_eq!(keys, vec!["a", "z"]);
        assert!(matches!(&es[1].1, Value::Number(Number::FloatBits(b)) if *b == 3.0f64.to_bits()));
    } else {
        panic!("Expected object");
    }
    match &t.expected {
        ExpectedOutcome::PerRule(es) => {
            assert_eq!(es.len(), 2);
            assert_eq!(es[1].0, EffectAst::Deny);
            assert_eq!(es[1].1, "other");
        }
        _ => panic!("Expected per-rule outcome"),
    }
    let e = parse_with_tests("test \"t\" { principal \"a\" }").unwrap_err();
    assert_eq!(e.message, "Test block missing 'expect allow' or 'expect deny'");
    let e = parse("test \"t\" { expect allow ").unwrap_err();
    assert_eq!(e.message, "Unexpected EOF inside test block");
}

#[test]
fn parse_source_needs_a_reading_for_every_number() {
    let src = "allow a if x == 42;";
    assert!(parse_source(src, vec![], false).is_none());
    let prog = parse_source(src, vec![("42".to_string(), read_number("42"))], false).unwrap().unwrap();
    if let Some(ExprAst::Compare { right: PatternAst::Literal(Value::Number(Number::PosInt(n))), .. }) =
        &prog.rules[0].body
    {
        assert_eq!(*n, 42);
    } else {
        panic!("Expected a comparison with 42");
    }
    let e = parse_source("allow a if x == \"open;", vec![], false).unwrap().unwrap_err();
    assert_eq!(e.message, "Unterminated string");
    assert_eq!(e.line, 1);
    assert!(e.token.is_none());
}

#[test]
fn parsing_without_tests_agrees_with_parsing_them() {
    let src = "allow a if x == 1;\ntest \"t\" { principal { id: \"p\", meta: { k: [1, {}] } } expect { allow a } }\ndeny b;";
    let with = parse_with_tests(src).unwrap();
    let without = parse(src).unwrap();
    assert_eq!(with.tests.len(), 1);
    assert!(without.tests.is_empty());
    let names = |p: &Program| p.rules.iter().map(|r| r.name.clone()).collect::<Vec<_>>();
    assert_eq!(names(&with), names(&without));
    assert_eq!(names(&without), vec!["a", "b"]);
}

#[test]
fn parse_error_formats_with_its_source_line() {
    let src = "allow a;\nallow x if;";
    let e = parse(src).unwrap_err();
    assert_eq!(e.to_string(), "2:11: Expected path identifier");
    assert_eq!(
        e.format_with_source(src),
        "error: Expected path identifier\n --> line 2:11\n  |\n2 | allow x if;\n  |           ^"
    );
}

#[test]
fn test_error_format_with_source() {
    let src = "allow access";
    let err = parse(src).unwrap_err();
    let formatted = err.format_with_source(src);
    assert!(formatted.contains("error:"));
    assert!(formatted.contains("--> line 1"));
    assert!(formatted.contains("allow access"));
    assert!(formatted.contains("^")); // Pointer
}

#[test]
fn parse_and_parse_with_tests_entry_points() {
    let src = "allow a;\ntest \"t\" { expect allow }";
    let p = Parser::parse(src, vec![]).unwrap().unwrap();
    let q = Parser::parse_with_tests(src, vec![]).unwrap().unwrap();
    assert!(p.tests.is_empty());
    assert_eq!(q.tests.len(), 1);
    assert_eq!(p.rules.len(), q.rules.len());
    let e = Parser::parse("allow x if;", vec![]).unwrap().unwrap_err();
    assert_eq!(e.token, Some((karu::karu_lexer::Token::Semi, String::new())));
    let e = Parser::parse("frob;", vec![]).unwrap().unwrap_err();
    assert!(matches!(&e.token, Some((karu::karu_lexer::Token::Ident, t)) if t == "frob"));
}
