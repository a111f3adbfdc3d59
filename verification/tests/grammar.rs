use karu::cedar_grammar::grammar as cg;
use karu::cedar_parser::{CedarActionConstraint, CedarEffect, CedarExpr, CedarRelOp, CedarScopeConstraint};
use karu::cedar_schema_grammar::grammar as sg;
use karu::schema::TypeRef;

fn entity(path: &str, id: &str) -> cg::EntityRef {
    cg::EntityRef { path: path.to_string(), id: id.to_string() }
}

fn scope(p: Option<cg::ScopeConstraint>, a: Option<cg::ActionConstraint>, r: Option<cg::ScopeConstraint>) -> cg::Scope {
    cg::Scope {
        principal: cg::PrincipalScope { constraint: p },
        action: cg::ActionScope { constraint: a },
        resource: cg::ResourceScope { constraint: r },
    }
}

#[test]
fn cedar_grammar_roundtrip_to_ast() {
    let cond = cg::Expr::Relation(
        Box::new(cg::Expr::MemberAccess(
            Box::new(cg::Expr::Context(())),
            (),
            "authenticated".to_string(),
            None,
        )),
        cg::RelOp::Eq(()),
        Box::new(cg::Expr::True(())),
    );
    let ps = cg::PolicySet {
        policies: vec![cg::Policy {
            annotations: vec![cg::Annotation {
                key: "id".to_string(),
                value: Some(cg::AnnotationValue { value: "\"policy1\"".to_string() }),
            }],
            effect: cg::Effect::Permit(()),
            scope: scope(None, None, None),
            conditions: vec![cg::Condition::When((), (), cond, ())],
        }],
    };
    let ast = ps.to_ast();
    assert_eq!(ast.policies.len(), 1);
    let p = &ast.policies[0];
    assert_eq!(p.effect, CedarEffect::Permit);
    assert_eq!(p.annotations[0].key, "id");
    assert_eq!(p.annotations[0].value.as_deref(), Some("policy1"));
    assert!(matches!(p.scope.principal, CedarScopeConstraint::Any));
    assert!(matches!(p.scope.action, CedarActionConstraint::Any));
    assert_eq!(p.conditions.len(), 1);
    assert!(p.conditions[0].is_when);
    match &p.conditions[0].expr {
        CedarExpr::Relation { lhs, op, rhs } => {
            assert_eq!(*op, CedarRelOp::Eq);
            assert!(matches!(&**lhs, CedarExpr::Access(b, f) if f == "authenticated" && matches!(&**b, CedarExpr::Var(v) if v == "context")));
            assert!(matches!(&**rhs, CedarExpr::Bool(true)));
        }
        other => panic!("unexpected {:?}", other),
    }
}

fn negated_false() -> cg::Expr {
    let inner = cg::Expr::Not((), Box::new(cg::Expr::False(())));
    cg::Expr::Group((), Box::new(inner), ())
}

#[test]
fn cedar_grammar_scope_entities_are_split_and_unquoted() {
    let ps = cg::PolicySet {
        policies: vec![cg::Policy {
            annotations: vec![],
            effect: cg::Effect::Forbid(()),
            scope: scope(
                Some(cg::ScopeConstraint::Eq((), entity("App::User", "\"alice\""))),
                Some(cg::ActionConstraint::InList((), (), vec![entity("Action", "\"read\""), entity("Action", "\"write\"")], ())),
                Some(cg::ScopeConstraint::In((), entity("Folder", "\"f1\""))),
            ),
            conditions: vec![cg::Condition::Unless((), (), negated_false(), ())],
        }],
    };
    let ast = ps.to_ast();
    let p = &ast.policies[0];
    assert_eq!(p.effect, CedarEffect::Forbid);
    match &p.scope.principal {
        CedarScopeConstraint::Eq(e) => {
            assert_eq!(e.path, vec!["App", "User"]);
            assert_eq!(e.id, "alice");
        }
        other => panic!("unexpected {:?}", other),
    }
    match &p.scope.action {
        CedarActionConstraint::InList(es) => {
            assert_eq!(es.len(), 2);
            assert_eq!(es[1].id, "write");
        }
        other => panic!("unexpected {:?}", other),
    }
    assert!(matches!(&p.scope.resource, CedarScopeConstraint::In(e) if e.id == "f1"));
    assert!(!p.conditions[0].is_when);
    assert!(matches!(&p.conditions[0].expr, CedarExpr::Not(b) if matches!(&**b, CedarExpr::Bool(false))));
}

#[test]
fn cedar_grammar_expressions_convert() {
    let e = cg::Expr::Like(Box::new(cg::Expr::Ident("x".to_string())), (), "\"a*\"".to_string());
    assert!(matches!(e.to_ast(), CedarExpr::Like(_, p) if p == "a*"));
    let e = cg::Expr::HasStr(Box::new(cg::Expr::Principal(())), (), "\"k\"".to_string());
    assert!(matches!(e.to_ast(), CedarExpr::Has(_, f) if f == "k"));
    let e = cg::Expr::SetLit((), vec![cg::Expr::IntLit(1), cg::Expr::StrLit("\"s\"".to_string())], ());
    match e.to_ast() {
        CedarExpr::SetLiteral(items) => {
            assert!(matches!(items[0], CedarExpr::Int(1)));
            assert!(matches!(&items[1], CedarExpr::Str(s) if s == "s"));
        }
        other => panic!("unexpected {:?}", other),
    }
    let e = cg::Expr::RecordLit(
        (),
        vec![cg::RecordField { key: "\"a\"".to_string(), value: cg::Expr::Neg((), Box::new(cg::Expr::IntLit(2))) }],
        (),
    );
    match e.to_ast() {
        CedarExpr::Record(fs) => {
            assert_eq!(fs[0].0, "a");
            assert!(matches!(&fs[0].1, CedarExpr::Neg(_)));
        }
        other => panic!("unexpected {:?}", other),
    }
    let e = cg::Expr::MemberAccess(
        Box::new(cg::Expr::Resource(())),
        (),
        "contains".to_string(),
        Some(cg::CallArgs { args: vec![cg::Expr::Action(())] }),
    );
    assert!(matches!(e.to_ast(), CedarExpr::MethodCall(_, m, args) if m == "contains" && args.len() == 1));
    let e = cg::Expr::Sub(Box::new(cg::Expr::IntLit(3)), (), Box::new(cg::Expr::IntLit(1)));
    assert!(matches!(e.to_ast(), CedarExpr::Add(_, karu::cedar_parser::CedarAddOp::Sub, _)));
    assert_eq!(cg::RelOp::Gte(()).to_ast(), CedarRelOp::Gte);
}

fn tpath(head: &str, tail: &[&str]) -> sg::TypePath {
    sg::TypePath {
        head: head.to_string(),
        tail: tail.iter().map(|s| sg::TypePathSegment { name: s.to_string() }).collect(),
    }
}

#[test]
fn schema_grammar_to_modules() {
    let user = sg::EntityDecl {
        name: "User".to_string(),
        extra_names: vec![sg::ExtraName { name: "Admin".to_string() }],
        parents: Some(sg::EntityParents::List((), (), vec![tpath("Acme", &["Group"])], ())),
        body: Some(sg::RecordType {
            fields: vec![
                sg::FieldDecl { name: "name".to_string(), optional: None, ty: sg::TypeExpr::Named(tpath("String", &[])) },
                sg::FieldDecl {
                    name: "\"tags\"".to_string(),
                    optional: Some(sg::QuestionMark),
                    ty: sg::TypeExpr::SetType((), (), Box::new(sg::TypeExpr::Named(tpath("String", &[]))), ()),
                },
            ],
        }),
    };
    let action = sg::ActionDecl {
        name: "\"view\"".to_string(),
        extra_names: vec![],
        parents: None,
        applies_to: Some(sg::AppliesTo {
            decls: vec![
                sg::AppliesToDecl::Principal((), (), sg::TypeExpr::Named(tpath("User", &[])), None),
                sg::AppliesToDecl::Resource((), (), sg::TypeExpr::Named(tpath("Photo", &[])), None),
            ],
        }),
    };
    let schema = sg::Schema {
        items: vec![
            sg::SchemaItem::Namespace(sg::NamespaceDecl {
                path: "Acme".to_string(),
                decls: vec![sg::NamespaceInnerDecl::Entity(user), sg::NamespaceInnerDecl::Action(action)],
            }),
            sg::SchemaItem::TypeDecl(sg::TypeAliasDecl {
                name: "Addr".to_string(),
                ty: sg::TypeExpr::Record(sg::RecordType { fields: vec![] }),
            }),
        ],
    };
    let modules = schema.to_schema_ast();
    assert_eq!(modules.len(), 2);
    assert!(modules[0].name.is_none());
    assert_eq!(modules[0].abstracts[0].name, "Addr");
    let m = &modules[1];
    assert_eq!(m.name, Some("Acme".to_string()));
    assert_eq!(m.entities.len(), 2);
    assert_eq!(m.entities[1].name, "Admin");
    assert_eq!(m.entities[0].parents, vec!["Acme::Group"]);
    assert_eq!(m.entities[0].fields[1].name, "tags");
    assert!(m.entities[0].fields[1].optional);
    assert!(matches!(&m.entities[0].fields[1].ty, TypeRef::SetOf(b) if matches!(&**b, TypeRef::Named(n) if n == "String")));
    assert_eq!(m.actions[0].name, "view");
    let at = m.actions[0].applies_to.as_ref().unwrap();
    assert_eq!(at.actors, vec!["User"]);
    assert_eq!(at.resources, vec!["Photo"]);
    assert!(at.context.is_none());
    assert_eq!(tpath("A", &["B", "C"]).full_path(), "A::B::C");
}

#[test]
fn schema_grammar_without_bare_declarations_has_no_unnamed_module() {
    let schema = sg::Schema {
        items: vec![sg::SchemaItem::Namespace(sg::NamespaceDecl { path: "N".to_string(), decls: vec![] })],
    };
    let modules = schema.to_schema_ast();
    assert_eq!(modules.len(), 1);
    assert_eq!(modules[0].name, Some("N".to_string()));
}
