use karu::cedar_schema_parser::parse_cedarschema;
use karu::schema::{EntityKind, TypeRef};

#[test]
fn test_empty_namespace() {
    let modules = parse_cedarschema("namespace Foo {}").unwrap();
    assert_eq!(modules.len(), 1);
    assert_eq!(modules[0].name, Some("Foo".to_string()));
    assert!(modules[0].entities.is_empty());
}

#[test]
fn test_entity_simple() {
    let modules = parse_cedarschema(
        r#"
            namespace PhotoApp {
                entity User {};
            }
        "#,
    )
    .unwrap();
    assert_eq!(modules.len(), 1);
    assert_eq!(modules[0].entities.len(), 1);
    assert_eq!(modules[0].entities[0].name, "User");
    assert!(modules[0].entities[0].fields.is_empty());
}

#[test]
fn test_entity_with_fields() {
    let modules = parse_cedarschema(
        r#"
            namespace App {
                entity User {
                    name: String,
                    age: Long,
                    active?: Bool,
                };
            }
        "#,
    )
    .unwrap();
    let user = &modules[0].entities[0];
    assert_eq!(user.fields.len(), 3);
    assert_eq!(user.fields[0].name, "name");
    assert!(!user.fields[0].optional);
    assert_eq!(user.fields[2].name, "active");
    assert!(user.fields[2].optional);
}

#[test]
fn test_entity_in_parent() {
    let modules = parse_cedarschema(
        r#"
            namespace App {
                entity Folder {};
                entity File in [Folder] {
                    owner: User,
                    name: String,
                };
            }
        "#,
    )
    .unwrap();
    let file = &modules[0].entities[1];
    assert_eq!(file.name, "File");
    assert_eq!(file.parents, vec!["Folder"]);
    assert_eq!(file.fields.len(), 2);
}

#[test]
fn test_action_simple() {
    let modules = parse_cedarschema(
        r#"
            namespace App {
                entity User {};
                entity Photo {};
                action "viewPhoto" appliesTo {
                    principal: User,
                    resource: Photo,
                };
            }
        "#,
    )
    .unwrap();
    assert_eq!(modules[0].actions.len(), 1);
    assert_eq!(modules[0].actions[0].name, "viewPhoto");
    let at = modules[0].actions[0].applies_to.as_ref().unwrap();
    assert_eq!(at.actors, vec!["User"]);
    assert_eq!(at.resources, vec!["Photo"]);
}

#[test]
fn test_action_with_context() {
    let modules = parse_cedarschema(
        r#"
            namespace App {
                entity User {};
                entity File {};
                action "delete" appliesTo {
                    principal: User,
                    resource: File,
                    context: {
                        authenticated: Bool,
                        ip?: String,
                    },
                };
            }
        "#,
    )
    .unwrap();
    let ctx = modules[0].actions[0]
        .applies_to
        .as_ref()
        .unwrap()
        .context
        .as_ref()
        .unwrap();
    assert_eq!(ctx.len(), 2);
    assert_eq!(ctx[0].name, "authenticated");
    assert!(!ctx[0].optional);
    assert_eq!(ctx[1].name, "ip");
    assert!(ctx[1].optional);
}

#[test]
fn test_type_decl() {
    let modules = parse_cedarschema(
        r#"
            namespace App {
                type Address = {
                    street: String,
                    city: String,
                };
            }
        "#,
    )
    .unwrap();
    assert_eq!(modules[0].abstracts.len(), 1);
    assert_eq!(modules[0].abstracts[0].name, "Address");
    assert_eq!(modules[0].abstracts[0].fields.len(), 2);
}

#[test]
fn test_set_type() {
    let modules = parse_cedarschema(
        r#"
            namespace App {
                entity User {
                    tags: Set<String>,
                };
            }
        "#,
    )
    .unwrap();
    let field = &modules[0].entities[0].fields[0];
    assert_eq!(field.name, "tags");
    assert!(matches!(field.ty, TypeRef::SetOf(_)));
}

#[test]
fn test_annotations_skipped() {
    let modules = parse_cedarschema(
        r#"
            @doc("This is a schema")
            namespace App {
                @doc("A user")
                entity User {
                    @doc("The name")
                    name: String,
                };
            }
        "#,
    )
    .unwrap();
    assert_eq!(modules[0].entities[0].name, "User");
    assert_eq!(modules[0].entities[0].fields.len(), 1);
}

#[test]
fn test_bare_declarations() {
    let modules = parse_cedarschema(
        r#"
            entity User {};
            entity Photo {
                owner: User,
            };
        "#,
    )
    .unwrap();
    assert_eq!(modules.len(), 1);
    assert!(modules[0].name.is_none());
    assert_eq!(modules[0].entities.len(), 2);
}

#[test]
fn test_multiple_namespaces() {
    let modules = parse_cedarschema(
        r#"
            namespace Auth {
                entity User {};
            }
            namespace Content {
                entity Photo {};
            }
        "#,
    )
    .unwrap();
    assert_eq!(modules.len(), 2);
    assert_eq!(modules[0].name, Some("Auth".to_string()));
    assert_eq!(modules[1].name, Some("Content".to_string()));
}

#[test]
fn test_entity_with_eq_syntax() {
    let modules = parse_cedarschema(
        r#"
            namespace App {
                entity User = {
                    name: String,
                };
            }
        "#,
    )
    .unwrap();
    assert_eq!(modules[0].entities[0].fields.len(), 1);
}

#[test]
fn test_action_with_parent() {
    let modules = parse_cedarschema(
        r#"
            namespace App {
                entity User {};
                entity Photo {};
                action "readPhoto" appliesTo {
                    principal: User,
                    resource: Photo,
                };
                action "listPhotos" in "readPhoto" appliesTo {
                    principal: User,
                    resource: Photo,
                };
            }
        "#,
    )
    .unwrap();
    assert_eq!(modules[0].actions.len(), 2);
    assert_eq!(modules[0].actions[1].name, "listPhotos");
}

#[test]
fn test_union_type() {
    let modules = parse_cedarschema(
        r#"
            namespace App {
                entity Folder {};
                entity File {};
                action "delete" appliesTo {
                    principal: [User],
                    resource: [File, Folder],
                };
                entity User {};
            }
        "#,
    )
    .unwrap();
    let at = modules[0].actions[0].applies_to.as_ref().unwrap();
    assert_eq!(at.resources, vec!["File", "Folder"]);
}

#[test]
fn test_nested_path_namespace() {
    let modules = parse_cedarschema(
        r#"
            namespace Acme::Auth {
                entity User {};
            }
        "#,
    )
    .unwrap();
    assert_eq!(modules[0].name, Some("Acme::Auth".to_string()));
}

#[test]
fn test_comments_skipped() {
    let modules = parse_cedarschema(
        r#"
            // This is a comment
            namespace App {
                // Entity comment
                entity User {};
                /* block comment */
                entity Photo {};
            }
        "#,
    )
    .unwrap();
    assert_eq!(modules[0].entities.len(), 2);
}

#[test]
fn schema_multi_entity_declaration_shares_parents_and_fields() {
    let modules = parse_cedarschema("entity A, B in [C, D] { x: Long };").unwrap();
    let es = &modules[0].entities;
    assert_eq!(es.len(), 2);
    assert_eq!(es[0].name, "A");
    assert_eq!(es[1].name, "B");
    for e in es {
        assert_eq!(e.kind, EntityKind::Actor);
        assert_eq!(e.parents, vec!["C", "D"]);
        assert!(e.traits.is_empty());
        assert_eq!(e.fields.len(), 1);
        assert_eq!(e.fields[0].name, "x");
    }
}

#[test]
fn schema_union_and_named_types() {
    let modules = parse_cedarschema("type T = A::B | Set<C> | { f?: D };").unwrap();
    let t = &modules[0].abstracts[0];
    assert_eq!(t.name, "T");
    assert!(t.fields.is_empty());
    let modules = parse_cedarschema("entity E { u: A | B };").unwrap();
    match &modules[0].entities[0].fields[0].ty {
        TypeRef::Union(vs) => {
            assert_eq!(vs.len(), 2);
            assert!(matches!(&vs[0], TypeRef::Named(n) if n == "A"));
            assert!(matches!(&vs[1], TypeRef::Named(n) if n == "B"));
        }
        _ => panic!("expected a union"),
    }
}

#[test]
fn schema_tags_and_action_parent_lists_are_dropped() {
    let modules = parse_cedarschema(
        r#"entity E tags String; action "a", b in ["x", y] appliesTo { context: Ctx };"#,
    )
    .unwrap();
    assert_eq!(modules.len(), 1);
    assert_eq!(modules[0].entities[0].name, "E");
    assert!(modules[0].entities[0].fields.is_empty());
    assert_eq!(modules[0].actions.len(), 2);
    assert_eq!(modules[0].actions[0].name, "a");
    assert_eq!(modules[0].actions[1].name, "b");
    let at = modules[0].actions[1].applies_to.as_ref().unwrap();
    assert!(at.actors.is_empty());
    assert!(at.context.is_none());
}

#[test]
fn schema_bare_declarations_after_namespace_open_new_module() {
    let modules =
        parse_cedarschema("entity A {}; namespace N { entity B {}; } entity C {}; type D = E;")
            .unwrap();
    assert_eq!(modules.len(), 3);
    assert!(modules[0].name.is_none());
    assert_eq!(modules[1].name, Some("N".to_string()));
    assert!(modules[2].name.is_none());
    assert_eq!(modules[2].entities[0].name, "C");
    assert_eq!(modules[2].abstracts[0].name, "D");
}

#[test]
fn schema_action_parent_entity_reference_is_rejected_by_path() {
    let err = parse_cedarschema(r#"action a in Action::"x";"#).unwrap_err();
    assert_eq!(err.message, "expected identifier, got Str(\"x\")");
}

#[test]
fn schema_error_expected_token() {
    let err = parse_cedarschema("namespace Foo { entity User {} }").unwrap_err();
    assert_eq!(err.message, "expected Semi, got RBrace");
    assert_eq!(err.line, 1);
    assert_eq!(err.column, 32);
    assert_eq!(err.to_string(), "Cedar schema error at line 1:32: expected Semi, got RBrace");
}

#[test]
fn schema_error_unknown_top_level() {
    let err = parse_cedarschema("\n  policy x;").unwrap_err();
    assert_eq!(
        err.message,
        "expected 'namespace', 'entity', 'action', or 'type', got Ident(\"policy\")"
    );
    assert_eq!((err.line, err.column), (2, 3));
}

#[test]
fn schema_error_bad_type_and_applies() {
    let err = parse_cedarschema("entity E { a: 5 };").unwrap_err();
    assert_eq!(err.message, "expected type, got Int(5)");
    let err = parse_cedarschema("action a appliesTo { who: User };").unwrap_err();
    assert_eq!(
        err.message,
        "expected 'principal', 'resource', or 'context' in appliesTo, got Ident(\"who\")"
    );
    let err = parse_cedarschema("namespace { }").unwrap_err();
    assert_eq!(err.message, "expected identifier, got LBrace");
    let err = parse_cedarschema("action 3;").unwrap_err();
    assert_eq!(err.message, "expected name (ident or string), got Int(3)");
}

#[test]
fn schema_lexer_errors() {
    let err = parse_cedarschema("entity \"a\\q\" {};").unwrap_err();
    assert_eq!(err.message, "Invalid escape sequence");
    assert_eq!((err.line, err.column), (1, 11));
    let err = parse_cedarschema("entity \"abc").unwrap_err();
    assert_eq!(err.message, "Unterminated string");
    let err = parse_cedarschema("entity A # {};").unwrap_err();
    assert_eq!(err.message, "Unexpected character: '#'");
    assert_eq!((err.line, err.column), (1, 10));
    let err = parse_cedarschema("entity A { x: 99999999999999999999 };").unwrap_err();
    assert_eq!(err.message, "Invalid integer: 99999999999999999999");
}

#[test]
fn schema_string_names_and_escapes() {
    let modules =
        parse_cedarschema("action \"say \\\"hi\\\"\\n\" appliesTo { resource: [R] };").unwrap();
    assert_eq!(modules[0].actions[0].name, "say \"hi\"\n");
    let at = modules[0].actions[0].applies_to.as_ref().unwrap();
    assert_eq!(at.resources, vec!["R"]);
}
