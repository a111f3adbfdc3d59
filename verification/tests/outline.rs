use karu::ast::{EffectAst, ExpectedOutcome, Program, RuleAst, TestDef};
use karu::karu_parser::NumberReading;
use karu::lsp::{DocumentSymbol, Position, Range, SymbolKind};
use karu::outline::{document_symbols, document_symbols_of_source};

fn outline(source: &str) -> Vec<DocumentSymbol> {
    let numbers: Vec<(String, NumberReading)> = Vec::new();
    document_symbols_of_source(source, numbers).unwrap()
}

fn range(l1: u32, c1: u32, l2: u32, c2: u32) -> Range {
    Range { start: Position { line: l1, character: c1 }, end: Position { line: l2, character: c2 } }
}

fn program(rules: &[(&str, EffectAst)], tests: &[&str]) -> Program {
    Program {
        use_schema: false,
        imports: vec![],
        modules: vec![],
        assertions: vec![],
        rules: rules
            .iter()
            .map(|(n, e)| RuleAst { name: n.to_string(), effect: *e, body: None })
            .collect(),
        tests: tests
            .iter()
            .map(|n| TestDef {
                name: n.to_string(),
                entities: vec![],
                expected: ExpectedOutcome::Simple(EffectAst::Allow),
            })
            .collect(),
    }
}

#[test]
fn test_document_symbols() {
    let policy = r#"
            allow view if action == "view";
            deny delete if action == "delete";
            allow admin;
        "#;
    let symbols = outline(policy);
    assert_eq!(symbols.len(), 1); // One "Rules" group
    assert_eq!(symbols[0].name, "Rules");

    let children = symbols[0].children.as_ref().unwrap();
    assert_eq!(children.len(), 3);
    let names: Vec<&str> = children.iter().map(|s| s.name.as_str()).collect();
    assert!(names.contains(&"view"));
    assert!(names.contains(&"delete"));
    assert!(names.contains(&"admin"));
}

#[test]
fn test_document_symbols_invalid_policy() {
    let policy = r#"allow broken if"#;
    let symbols = outline(policy);
    assert!(symbols.is_empty()); // Invalid policy returns no symbols
}

#[test]
fn rule_symbols_carry_effect_line_and_name_selection() {
    let policy = "\n            allow view if action == \"view\";\n            deny delete if action == \"delete\";\n";
    let symbols = outline(policy);
    let rules = &symbols[0];
    assert_eq!(rules.detail.as_deref(), Some("2 rules"));
    assert_eq!(rules.kind, SymbolKind::Namespace);
    assert_eq!(rules.range, range(1, 0, 2, 46));
    assert_eq!(rules.selection_range, range(1, 0, 1, 5));
    let children = rules.children.as_ref().unwrap();
    assert_eq!(children[0].detail.as_deref(), Some("Allow rule"));
    assert_eq!(children[0].kind, SymbolKind::Function);
    assert_eq!(children[0].range, range(1, 0, 1, 43));
    assert_eq!(children[0].selection_range, range(1, 0, 1, 4));
    assert_eq!(children[1].detail.as_deref(), Some("Deny rule"));
    assert_eq!(children[1].range, range(2, 0, 2, 46));
}

#[test]
fn schema_group_holds_modules_entities_and_asserts() {
    let source = "use schema;\nmod Shop {\n    actor User {\n        name: String,\n    };\n    resource Doc;\n    action \"View\";\n};\nassert is_owner<User> if principal.id == resource.owner;\nallow view if is_owner;";
    let symbols = document_symbols(source, &program(&[("view", EffectAst::Allow)], &[]));
    assert_eq!(symbols.len(), 2);
    let schema = &symbols[0];
    assert_eq!(schema.name, "Schema");
    assert_eq!(schema.detail.as_deref(), Some("2 items"));
    assert_eq!(schema.range, range(0, 0, 8, 56));
    assert_eq!(schema.selection_range, range(0, 0, 0, 11));
    let items = schema.children.as_ref().unwrap();
    assert_eq!(items.len(), 2);
    assert_eq!(items[0].name, "mod Shop");
    assert_eq!(items[0].kind, SymbolKind::Module);
    assert_eq!(items[0].range, range(1, 0, 7, 2));
    assert_eq!(items[0].selection_range, range(1, 0, 1, 10));
    let entities = items[0].children.as_ref().unwrap();
    assert_eq!(entities.len(), 3);
    assert_eq!(entities[0].name, "actor User");
    assert_eq!(entities[0].kind, SymbolKind::Class);
    assert_eq!(entities[0].range, range(2, 0, 4, 6));
    assert_eq!(entities[0].selection_range, range(2, 0, 2, 10));
    assert_eq!(entities[1].name, "resource Doc");
    assert_eq!(entities[1].kind, SymbolKind::Struct);
    assert_eq!(entities[1].range, range(5, 0, 5, 17));
    assert_eq!(entities[2].name, "action View");
    assert_eq!(entities[2].kind, SymbolKind::Event);
    assert_eq!(entities[2].selection_range, range(6, 0, 6, 11));
    assert_eq!(items[1].name, "assert is_owner");
    assert_eq!(items[1].kind, SymbolKind::Constant);
    assert_eq!(items[1].range, range(8, 0, 8, 56));
    assert_eq!(items[1].selection_range, range(8, 0, 8, 15));
    assert!(items[1].children.is_none());
    assert_eq!(symbols[1].name, "Rules");
    assert_eq!(symbols[1].range, range(9, 0, 9, 23));
}

#[test]
fn tests_group_spans_each_test_block() {
    let source = "allow a;\ntest \"t1\" {\n  expect allow\n}";
    let symbols = document_symbols(source, &program(&[("a", EffectAst::Allow)], &["t1"]));
    assert_eq!(symbols.len(), 2);
    let tests = &symbols[1];
    assert_eq!(tests.name, "Tests");
    assert_eq!(tests.detail.as_deref(), Some("1 tests"));
    assert_eq!(tests.range, range(1, 0, 3, 1));
    let t = &tests.children.as_ref().unwrap()[0];
    assert_eq!(t.name, "t1");
    assert_eq!(t.kind, SymbolKind::Method);
    assert_eq!(t.detail.as_deref(), Some("test"));
    assert_eq!(t.range, range(1, 0, 3, 1));
    assert_eq!(t.selection_range, range(1, 0, 1, 9));
}

#[test]
fn rule_without_a_declaring_line_has_no_symbol() {
    let symbols = document_symbols("allow other;", &program(&[("missing", EffectAst::Deny)], &[]));
    assert!(symbols.is_empty());
}

#[test]
fn selection_is_clamped_into_a_short_range() {
    // No line declares the test: it lands on line 0, shorter than its name.
    let source = "x";
    let symbols = document_symbols(source, &program(&[], &["long_name"]));
    let t = &symbols[0].children.as_ref().unwrap()[0];
    assert_eq!(t.range, range(0, 0, 0, 1));
    assert_eq!(t.selection_range, range(0, 0, 0, 1));
}
