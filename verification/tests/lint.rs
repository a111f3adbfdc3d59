use karu::ast::{EffectAst, ExprAst, OpAst, PathAst, PathSegmentAst, PatternAst, Program, RuleAst};
use karu::json::Value;
use karu::lint::lint;

fn path(dotted: &str) -> PathAst {
    PathAst { segments: dotted.split('.').map(|s| PathSegmentAst::Field(s.to_string())).collect() }
}

fn eq(p: &str, v: Value) -> ExprAst {
    ExprAst::Compare { left: path(p), op: OpAst::Eq, right: PatternAst::Literal(v) }
}

fn for_all(var: &str, over: &str, body: ExprAst) -> ExprAst {
    ExprAst::Forall { var: var.to_string(), path: path(over), body: Box::new(body) }
}

fn program(effect: EffectAst, name: &str, body: ExprAst) -> Program {
    Program {
        use_schema: false,
        imports: vec![],
        modules: vec![],
        assertions: vec![],
        rules: vec![RuleAst { name: name.to_string(), effect, body: Some(body) }],
        tests: vec![],
    }
}

#[test]
fn lint_unguarded_forall_emits_w001() {
    let p = program(EffectAst::Allow, "access", for_all("user", "users", eq("user.verified", Value::Bool(true))));
    let w = lint(&p);
    assert_eq!(w.len(), 1);
    assert_eq!(w[0].code, "W001");
    assert!(w[0].message.contains("users"));
    assert_eq!(
        w[0].message,
        "forall over `users` is vacuously true when the collection is empty - this may unintentionally grant access"
    );
    assert_eq!(w[0].rule_name, "access");
    assert_eq!(w[0].suggestion.as_deref(), Some("Add a guard: `has users and forall ...`"));
    assert_eq!(w[0].forall_path.as_deref(), Some("users"));
}

#[test]
fn lint_guards_suppress_w001() {
    let body = |guard: ExprAst| {
        ExprAst::And(vec![guard, for_all("user", "users", eq("user.verified", Value::Bool(true)))])
    };
    let guards = vec![
        ExprAst::Has { path: path("users") },
        ExprAst::Compare { left: path("users"), op: OpAst::Ne, right: PatternAst::Literal(Value::Null) },
        ExprAst::In { pattern: PatternAst::Literal(Value::String("admin".into())), path: path("users") },
        ExprAst::Compare { left: path("users.count"), op: OpAst::Gt, right: PatternAst::Wildcard },
        ExprAst::Not(Box::new(ExprAst::Has { path: path("users") })),
    ];
    for g in guards {
        assert_eq!(lint(&program(EffectAst::Allow, "access", body(g))).len(), 0);
    }
    let unrelated = body(ExprAst::Has { path: path("groups") });
    assert_eq!(lint(&program(EffectAst::Allow, "access", unrelated)).len(), 1);
}

#[test]
fn lint_exists_and_plain_conditions_do_not_warn() {
    let e = ExprAst::Exists {
        var: "user".into(),
        path: path("users"),
        body: Box::new(eq("user.verified", Value::Bool(true))),
    };
    assert!(lint(&program(EffectAst::Allow, "access", e)).is_empty());
    let plain = ExprAst::And(vec![
        eq("action", Value::String("read".into())),
        eq("role", Value::String("admin".into())),
    ]);
    assert!(lint(&program(EffectAst::Allow, "access", plain)).is_empty());
}

#[test]
fn lint_multiple_and_nested_foralls() {
    let two = ExprAst::And(vec![
        for_all("user", "users", eq("user.active", Value::Bool(true))),
        for_all("role", "roles", eq("role.valid", Value::Bool(true))),
    ]);
    let w = lint(&program(EffectAst::Allow, "access", two));
    assert_eq!(w.len(), 2);
    assert_eq!(w[1].forall_path.as_deref(), Some("roles"));
    let nested = for_all("group", "groups", for_all("user", "group.members", eq("user.active", Value::Bool(true))));
    let w = lint(&program(EffectAst::Allow, "access", nested));
    assert_eq!(w.len(), 2);
    assert_eq!(w[0].forall_path.as_deref(), Some("groups"));
    assert_eq!(w[1].forall_path.as_deref(), Some("group.members"));
}

#[test]
fn lint_deny_rules_and_disjunctions_warn() {
    let w = lint(&program(EffectAst::Deny, "block", for_all("user", "users", eq("user.banned", Value::Bool(true)))));
    assert_eq!(w.len(), 1);
    assert_eq!(w[0].rule_name, "block");
    let or = ExprAst::Or(vec![ExprAst::Has { path: path("users") }, for_all("u", "users", eq("u.ok", Value::Bool(true)))]);
    assert_eq!(lint(&program(EffectAst::Allow, "r", or)).len(), 1);
}

#[test]
fn lint_prints_indices_and_variables_in_brackets() {
    let p = PathAst {
        segments: vec![
            PathSegmentAst::Field("a".into()),
            PathSegmentAst::Index(2),
            PathSegmentAst::Variable("k".into()),
        ],
    };
    let e = ExprAst::Forall { var: "x".into(), path: p, body: Box::new(eq("x", Value::Null)) };
    let w = lint(&program(EffectAst::Allow, "r", e));
    assert_eq!(w[0].forall_path.as_deref(), Some("a.[2].[k]"));
}

fn lint_source(source: &str) -> Vec<karu::lint::LintWarning> {
    let tokens = karu::karu_lexer::Lexer::tokenize_spanned(source).expect("lex failed");
    let numbers: Vec<(String, karu::karu_parser::NumberReading)> = karu::karu_parser::number_texts(&tokens)
        .into_iter()
        .map(|t| {
            let n: u64 = t.parse().unwrap();
            let r = karu::karu_parser::NumberReading {
                index: n as usize,
                pattern: Value::Number(karu::json::Number::PosInt(n)),
                value: Value::Number(karu::json::Number::FloatBits((n as f64).to_bits())),
                display: format!("{}", n),
            };
            (t, r)
        })
        .collect();
    let program = karu::karu_parser::parse_source(source, numbers, false).unwrap().expect("parse failed");
    lint(&program)
}

#[test]
fn forall_without_guard_emits_w001() {
    let warnings = lint_source(r#"allow access if forall user in users: user.verified == true;"#);
    assert_eq!(warnings.len(), 1);
    assert_eq!(warnings[0].code, "W001");
    assert!(warnings[0].message.contains("users"));
    assert_eq!(warnings[0].rule_name, "access");
    assert!(warnings[0].suggestion.is_some());
}

#[test]
fn forall_with_has_guard_no_warning() {
    let warnings = lint_source(r#"allow access if has users and forall user in users: user.verified == true;"#);
    assert_eq!(warnings.len(), 0, "has guard should suppress W001");
}

#[test]
fn forall_with_length_guard_no_warning() {
    // A comparison on users (e.g. users != null or any reference) counts as a guard
    let warnings = lint_source(r#"allow access if users != null and forall user in users: user.verified == true;"#);
    assert_eq!(warnings.len(), 0, "comparison guard should suppress W001");
}

#[test]
fn forall_with_in_guard_no_warning() {
    // Using `in` on the same path as a guard
    let warnings = lint_source(r#"allow access if "admin" in users and forall user in users: user.active == true;"#);
    assert_eq!(warnings.len(), 0, "in-check guard should suppress W001");
}

#[test]
fn exists_does_not_trigger_w001() {
    let warnings = lint_source(r#"allow access if exists user in users: user.verified == true;"#);
    assert_eq!(warnings.len(), 0, "exists should not trigger W001");
}

#[test]
fn multiple_forall_emits_multiple_warnings() {
    let warnings = lint_source(
        r#"allow access if forall user in users: user.active == true and forall role in roles: role.valid == true;"#,
    );
    // Should warn about both unguarded foralls
    assert!(warnings.len() >= 2, "should have at least 2 warnings, got {}", warnings.len());
}

#[test]
fn nested_forall_emits_warnings() {
    let warnings =
        lint_source(r#"allow access if forall group in groups: forall user in group.members: user.active == true;"#);
    // Outer and inner forall are both unguarded
    assert!(warnings.len() >= 2, "nested foralls should both warn");
}

#[test]
fn forall_in_deny_still_warns() {
    let warnings = lint_source(r#"deny block if forall user in users: user.banned == true;"#);
    assert_eq!(warnings.len(), 1, "deny rules with forall should also warn");
    assert_eq!(warnings[0].code, "W001");
}

#[test]
fn no_forall_no_warnings() {
    let warnings = lint_source(r#"allow access if action == "read" and role == "admin";"#);
    assert_eq!(warnings.len(), 0);
}

#[test]
fn forall_guarded_by_subpath_no_warning() {
    // A check on users.count references a sub-path of users - still counts as guard
    let warnings = lint_source(r#"allow access if users.count > 0 and forall user in users: user.active == true;"#);
    assert_eq!(warnings.len(), 0, "sub-path guard should suppress W001");
}
