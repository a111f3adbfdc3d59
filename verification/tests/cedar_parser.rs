use karu::cedar_parser::{
    parse, CedarActionConstraint, CedarAddOp, CedarEffect, CedarExpr, CedarRelOp,
    CedarScopeConstraint,
};

#[test]
fn cedar_parser_test_simple_permit() {
    let p = parse(r#"permit(principal, action, resource);"#).unwrap();
    assert_eq!(p.policies.len(), 1);
    assert_eq!(p.policies[0].effect, CedarEffect::Permit);
}

#[test]
fn test_simple_forbid() {
    let p = parse(r#"forbid(principal, action, resource);"#).unwrap();
    assert_eq!(p.policies.len(), 1);
    assert_eq!(p.policies[0].effect, CedarEffect::Forbid);
}

#[test]
fn test_entity_constraint() {
    let p = parse(r#"permit(principal == User::"alice", action, resource);"#).unwrap();
    if let CedarScopeConstraint::Eq(ref entity) = p.policies[0].scope.principal {
        assert_eq!(entity.path, vec!["User"]);
        assert_eq!(entity.id, "alice");
    } else {
        panic!("Expected Eq constraint");
    }
}

#[test]
fn test_action_eq() {
    let p = parse(r#"permit(principal, action == Action::"view", resource);"#).unwrap();
    if let CedarActionConstraint::Eq(ref entity) = p.policies[0].scope.action {
        assert_eq!(entity.id, "view");
    } else {
        panic!("Expected action Eq constraint");
    }
}

#[test]
fn cedar_parser_test_action_in_list() {
    let p = parse(r#"permit(principal, action in [Action::"view", Action::"edit"], resource);"#)
        .unwrap();
    if let CedarActionConstraint::InList(ref entities) = p.policies[0].scope.action {
        assert_eq!(entities.len(), 2);
        assert_eq!(entities[0].id, "view");
        assert_eq!(entities[1].id, "edit");
    } else {
        panic!("Expected InList constraint");
    }
}

#[test]
fn cedar_parser_test_when_condition() {
    let p = parse(r#"permit(principal, action, resource) when { resource.public == true };"#)
        .unwrap();
    assert_eq!(p.policies[0].conditions.len(), 1);
    assert!(p.policies[0].conditions[0].is_when);
}

#[test]
fn test_unless_condition() {
    let p = parse(r#"forbid(principal, action, resource) unless { principal == resource.owner };"#)
        .unwrap();
    assert_eq!(p.policies[0].conditions.len(), 1);
    assert!(!p.policies[0].conditions[0].is_when);
}

#[test]
fn test_when_and_unless() {
    let p = parse(
        r#"forbid(principal, action, resource) 
               when { resource.private == true }
               unless { principal == resource.owner };"#,
    )
    .unwrap();
    assert_eq!(p.policies[0].conditions.len(), 2);
    assert!(p.policies[0].conditions[0].is_when);
    assert!(!p.policies[0].conditions[1].is_when);
}

#[test]
fn test_annotation() {
    let p = parse(r#"@id("policy1") permit(principal, action, resource);"#).unwrap();
    assert_eq!(p.policies[0].annotations.len(), 1);
    assert_eq!(p.policies[0].annotations[0].key, "id");
    assert_eq!(p.policies[0].annotations[0].value, Some("policy1".into()));
}

#[test]
fn test_complex_when_expr() {
    let p = parse(
        r#"permit(principal, action, resource) 
               when { principal.department == "Engineering" && principal.level >= 5 };"#,
    )
    .unwrap();
    let cond = &p.policies[0].conditions[0];
    assert!(matches!(&cond.expr, CedarExpr::And(_, _)));
}

#[test]
fn test_has_operator() {
    let p = parse(
        r#"permit(principal, action, resource)
               when { context has readOnly && context.readOnly == true };"#,
    )
    .unwrap();
    let cond = &p.policies[0].conditions[0];
    if let CedarExpr::And(ref lhs, _) = cond.expr {
        assert!(matches!(lhs.as_ref(), CedarExpr::Has(_, _)));
    } else {
        panic!("Expected And expression");
    }
}

#[test]
fn test_or_expression() {
    let p = parse(
        r#"permit(principal, action, resource)
               when { action == Action::"view" || action == Action::"list" };"#,
    )
    .unwrap();
    let cond = &p.policies[0].conditions[0];
    assert!(matches!(&cond.expr, CedarExpr::Or(_, _)));
}

#[test]
fn test_not_expression() {
    let p = parse(
        r#"permit(principal, action, resource)
               when { !resource.private };"#,
    )
    .unwrap();
    let cond = &p.policies[0].conditions[0];
    assert!(matches!(&cond.expr, CedarExpr::Not(_)));
}

#[test]
fn test_method_call() {
    let p = parse(
        r#"permit(principal, action, resource)
               when { resource.admins.contains(principal) };"#,
    )
    .unwrap();
    let cond = &p.policies[0].conditions[0];
    if let CedarExpr::MethodCall(_, ref method, ref args) = cond.expr {
        assert_eq!(method, "contains");
        assert_eq!(args.len(), 1);
    } else {
        panic!("Expected MethodCall, got {:?}", cond.expr);
    }
}

#[test]
fn test_set_literal() {
    let p = parse(
        r#"permit(principal, action, resource)
               when { action in [Action::"view", Action::"edit"] };"#,
    )
    .unwrap();
    let cond = &p.policies[0].conditions[0];
    if let CedarExpr::InExpr { rhs, .. } = &cond.expr {
        assert!(matches!(rhs.as_ref(), CedarExpr::SetLiteral(_)));
    } else {
        panic!("Expected InExpr with Set");
    }
}

#[test]
fn cedar_parser_test_multiple_policies() {
    let p = parse(
        r#"
            permit(principal == User::"alice", action, resource);
            forbid(principal, action, resource)
              when { resource.private == true };
            "#,
    )
    .unwrap();
    assert_eq!(p.policies.len(), 2);
    assert_eq!(p.policies[0].effect, CedarEffect::Permit);
    assert_eq!(p.policies[1].effect, CedarEffect::Forbid);
}

#[test]
fn test_resource_in_entity() {
    let p = parse(r#"permit(principal, action, resource in Album::"vacation");"#).unwrap();
    if let CedarScopeConstraint::In(ref entity) = p.policies[0].scope.resource {
        assert_eq!(entity.path, vec!["Album"]);
        assert_eq!(entity.id, "vacation");
    } else {
        panic!("Expected In constraint");
    }
}

#[test]
fn test_principal_is_type() {
    let p = parse(r#"permit(principal is User, action, resource);"#).unwrap();
    if let CedarScopeConstraint::Is(ref type_path) = p.policies[0].scope.principal {
        assert_eq!(type_path, "User");
    } else {
        panic!("Expected Is constraint");
    }
}

#[test]
fn test_if_then_else() {
    let p = parse(
        r#"permit(principal, action, resource)
               when { if principal.admin then true else false };"#,
    )
    .unwrap();
    let cond = &p.policies[0].conditions[0];
    assert!(matches!(&cond.expr, CedarExpr::IfThenElse { .. }));
}

#[test]
fn test_extension_function() {
    let p = parse(
        r#"permit(principal, action, resource)
               when { ip("192.168.0.1").isInRange(ip("192.168.0.0/24")) };"#,
    )
    .unwrap();
    let cond = &p.policies[0].conditions[0];
    if let CedarExpr::MethodCall(ref base, ref method, _) = cond.expr {
        assert_eq!(method, "isInRange");
        assert!(matches!(base.as_ref(), CedarExpr::ExtFun(..)));
    } else {
        panic!("Expected MethodCall, got {:?}", cond.expr);
    }
}

#[test]
fn test_comments() {
    let p = parse(
        r#"
            // This is a comment
            permit(principal, action, resource); // inline comment
            /* block comment */
            forbid(principal, action, resource);
            "#,
    )
    .unwrap();
    assert_eq!(p.policies.len(), 2);
}

#[test]
fn test_like_operator() {
    let p = parse(
        r#"permit(principal, action, resource)
               when { principal.name like "j*" };"#,
    )
    .unwrap();
    let cond = &p.policies[0].conditions[0];
    if let CedarExpr::Like(_, ref pat) = cond.expr {
        assert_eq!(pat, "j*");
    } else {
        panic!("Expected Like expression");
    }
}

#[test]
fn test_parse_error_position() {
    let result = parse("permit(principal, action, );");
    assert!(result.is_err());
    let err = result.unwrap_err();
    assert!(err.line >= 1);
}

#[test]
fn test_unexpected_character() {
    let result = parse("permit(principal, action, resource) ^");
    assert!(result.is_err());
    let err = result.unwrap_err();
    assert_eq!(err.message, "Unexpected character: '^'");
}

#[test]
fn test_template_slot() {
    let p = parse(r#"permit(principal == ?principal, action, resource in ?resource);"#).unwrap();
    assert!(matches!(p.policies[0].scope.principal, CedarScopeConstraint::Slot(_)));
}

#[test]
fn test_member_index() {
    let p = parse(
        r#"permit(principal, action, resource)
               when { context["key"] == "value" };"#,
    )
    .unwrap();
    let cond = &p.policies[0].conditions[0];
    if let CedarExpr::Relation { ref lhs, .. } = cond.expr {
        assert!(matches!(lhs.as_ref(), CedarExpr::Index(_, _)));
    } else {
        panic!("Expected Relation with Index");
    }
}

// ---------------------------------------------------------------------------
// Further cases: messages, positions, precedence and literals
// ---------------------------------------------------------------------------

#[test]
fn cedar_error_expected_token_message() {
    let err = parse("permit(principal, action, );").unwrap_err();
    assert_eq!(err.message, "Expected Resource, found RParen");
    assert_eq!((err.line, err.column), (1, 27));
}

#[test]
fn cedar_error_positions_count_lines() {
    let err = parse("permit(principal, action, resource)\n  when { x }\n ^").unwrap_err();
    assert_eq!(err.message, "Unexpected character: '^'");
    assert_eq!((err.line, err.column), (3, 2));
}

#[test]
fn cedar_error_unterminated_string() {
    let err = parse("permit(principal == User::\"ab").unwrap_err();
    assert_eq!(err.message, "Unterminated string");
    assert_eq!((err.line, err.column), (1, 30));
}

#[test]
fn cedar_error_unknown_slot() {
    let err = parse("permit(principal == ?group, action, resource);").unwrap_err();
    assert_eq!(err.message, "Unknown template slot: ?group");
}

#[test]
fn cedar_error_integer_overflow() {
    let err = parse("permit(principal, action, resource) when { 99999999999999999999 };")
        .unwrap_err();
    assert_eq!(err.message, "Invalid integer: 99999999999999999999");
}

#[test]
fn cedar_error_effect() {
    let err = parse("allow(principal, action, resource);").unwrap_err();
    assert_eq!(err.message, "Expected 'permit' or 'forbid'");
}

#[test]
fn cedar_error_entity_without_id() {
    let err = parse("permit(principal == User::Admin, action, resource);").unwrap_err();
    assert_eq!(
        err.message,
        "Expected entity reference (Type::\"id\"), got path [\"User\", \"Admin\"] without string ID"
    );
}

#[test]
fn cedar_error_unexpected_token_debug() {
    let err = parse("permit(principal, action, resource) when { ; };").unwrap_err();
    assert_eq!(err.message, "Unexpected token: Semi");
    let err = parse("permit(principal, action, resource) when { a.5 };").unwrap_err();
    assert_eq!(err.message, "Expected identifier, found Int(5)");
    let err = parse("permit(principal, action, resource) when { a like b };").unwrap_err();
    assert_eq!(err.message, "Expected string, found Ident(\"b\")");
}

#[test]
fn cedar_error_path_without_id() {
    let err = parse("permit(principal, action, resource) when { A::B };").unwrap_err();
    assert_eq!(err.message, "Unexpected path [\"A\", \"B\"] without entity ID");
}

#[test]
fn cedar_empty_source_has_no_policies() {
    let p = parse("  // nothing here\n").unwrap();
    assert_eq!(p.policies.len(), 0);
}

#[test]
fn cedar_negative_literal_and_precedence() {
    let p = parse("permit(principal, action, resource) when { -3 + 2 * 4 < 10 };").unwrap();
    let cond = &p.policies[0].conditions[0];
    if let CedarExpr::Relation { lhs, op, rhs } = &cond.expr {
        assert_eq!(*op, CedarRelOp::Lt);
        assert!(matches!(rhs.as_ref(), CedarExpr::Int(10)));
        if let CedarExpr::Add(a, addop, b) = lhs.as_ref() {
            assert_eq!(*addop, CedarAddOp::Add);
            assert!(matches!(a.as_ref(), CedarExpr::Int(-3)));
            assert!(matches!(b.as_ref(), CedarExpr::Mul(_, _)));
        } else {
            panic!("Expected Add, got {:?}", lhs);
        }
    } else {
        panic!("Expected Relation, got {:?}", cond.expr);
    }
}

#[test]
fn cedar_string_escapes() {
    let p = parse(r#"permit(principal, action, resource) when { "a\nb\t\"\\\*\q" };"#).unwrap();
    if let CedarExpr::Str(s) = &p.policies[0].conditions[0].expr {
        assert_eq!(s, "a\nb\t\"\\*\\q");
    } else {
        panic!("Expected string literal");
    }
}

#[test]
fn cedar_record_and_namespaced_call() {
    let p = parse(
        r#"permit(principal, action, resource) when { {a: 1, "b": decimal::parse("1.5")} == {} };"#,
    )
    .unwrap();
    if let CedarExpr::Relation { lhs, rhs, .. } = &p.policies[0].conditions[0].expr {
        if let CedarExpr::Record(fields) = lhs.as_ref() {
            assert_eq!(fields.len(), 2);
            assert_eq!(fields[0].0, "a");
            assert_eq!(fields[1].0, "b");
            if let CedarExpr::ExtFun(name, args) = &fields[1].1 {
                assert_eq!(name, "decimal::parse");
                assert_eq!(args.len(), 1);
            } else {
                panic!("Expected ExtFun");
            }
        } else {
            panic!("Expected Record");
        }
        assert!(matches!(rhs.as_ref(), CedarExpr::Record(f) if f.is_empty()));
    } else {
        panic!("Expected Relation");
    }
}

#[test]
fn cedar_is_in_scope_and_expr() {
    let p = parse(
        r#"permit(principal is Ns::User in Group::"g", action in Action::"a", resource)
           when { resource is Doc in Folder::"f" };"#,
    )
    .unwrap();
    if let CedarScopeConstraint::IsIn(t, e) = &p.policies[0].scope.principal {
        assert_eq!(t, "Ns::User");
        assert_eq!(e.id, "g");
    } else {
        panic!("Expected IsIn");
    }
    assert!(matches!(p.policies[0].scope.action, CedarActionConstraint::In(_)));
    if let CedarExpr::Is { entity_type, in_expr, .. } = &p.policies[0].conditions[0].expr {
        assert_eq!(entity_type, "Doc");
        assert!(in_expr.is_some());
    } else {
        panic!("Expected Is");
    }
}

#[test]
fn cedar_unterminated_block_comment_keeps_last_char() {
    // An unterminated block comment stops before the last character, which is then lexed.
    let err = parse("/* never closed ^").unwrap_err();
    assert_eq!(err.message, "Unexpected character: '^'");
}
