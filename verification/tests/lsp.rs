use karu::json::{Number, Value};
use karu::karu_lexer::{Lexer, Token};
use karu::karu_parser::NumberReading;
use karu::lsp::{
    cedar_document_symbols, cedar_parse_diagnostics, cedar_scan_checks, cedar_semantic_tokens, find_definition,
    find_rule_locations, Position, Range, RuleLocation, SymbolKind,
};
use karu::lsp_core::{SemanticToken, SemanticTokenType};
use karu::lsp_core::Severity;

#[test]
fn cedar_diagnostics_are_empty_for_an_importable_policy() {
    assert!(cedar_parse_diagnostics("permit(principal, action, resource);").is_empty());
}

#[test]
fn cedar_parse_error_is_an_error_at_its_position() {
    let diags = cedar_parse_diagnostics("permit(principal, action, resource)\nwhen { };");
    assert_eq!(diags.len(), 1);
    assert_eq!(diags[0].severity, Severity::Error);
    assert_eq!(diags[0].line, 1);
    assert_eq!(diags[0].end_col, diags[0].col + 11);
    assert_eq!(diags[0].code, None);
}

#[test]
fn cedar_import_error_is_a_warning() {
    let diags = cedar_parse_diagnostics("permit(principal == ?principal, action, resource);");
    assert_eq!(diags.len(), 1);
    assert_eq!(diags[0].severity, Severity::Warning);
    assert!(diags[0].message.starts_with("Karu import: "));
    assert_eq!((diags[0].line, diags[0].col, diags[0].end_col), (0, 0, 80));
}

#[test]
fn cedar_outline_names_each_policy() {
    let source = "@id(\"first\")\npermit(principal, action, resource);\n\nforbid (principal, action, resource);";
    let symbols = cedar_document_symbols(source);
    assert_eq!(symbols.len(), 2);
    assert_eq!(symbols[0].name, "first");
    assert_eq!(symbols[0].detail.as_deref(), Some("permit policy"));
    assert_eq!(symbols[0].kind, SymbolKind::Function);
    let line1 = Range { start: Position { line: 1, character: 0 }, end: Position { line: 1, character: 36 } };
    assert_eq!(symbols[0].range, line1);
    assert_eq!(
        symbols[0].selection_range,
        Range { start: Position { line: 1, character: 0 }, end: Position { line: 1, character: 5 } }
    );
    assert_eq!(symbols[1].name, "policy_1");
    assert_eq!(symbols[1].detail.as_deref(), Some("forbid policy"));
    assert_eq!(symbols[1].range.start.line, 3);
    assert_eq!(symbols[1].selection_range.end.character, 8);
    assert!(cedar_document_symbols("permit(").is_empty());
}

#[test]
fn cedar_outline_clamps_long_names_to_the_line() {
    let source = "@id(\"a-very-long-policy-name\") permit(principal, action, resource);";
    let symbols = cedar_document_symbols(source);
    assert_eq!(symbols[0].range.end.character, 67);
    assert_eq!(symbols[0].selection_range.end.character, 23);
    let short = "@id(\"a-name-longer-than-the-line\")\npermit (\n  principal, action, resource);";
    let symbols = cedar_document_symbols(short);
    assert_eq!(symbols[0].range, Range { start: Position { line: 1, character: 0 }, end: Position { line: 1, character: 8 } });
    assert_eq!(symbols[0].selection_range.end, Position { line: 1, character: 8 });
}

fn readings(source: &str) -> Vec<(String, NumberReading)> {
    let mut lexer = Lexer::new(source);
    let mut out = Vec::new();
    while let Ok(t) = lexer.next_spanned() {
        match t.token {
            Token::Eof => break,
            Token::Number => {
                let n: f64 = t.text.parse().unwrap();
                let r = NumberReading {
                    index: n as usize,
                    pattern: Value::Number(Number::PosInt(n as u64)),
                    value: Value::Number(Number::FloatBits(n.to_bits())),
                    display: format!("{}", n),
                };
                out.push((t.text, r));
            }
            _ => {}
        }
    }
    out
}

fn locations(source: &str) -> Vec<RuleLocation> {
    find_rule_locations(source, readings(source)).unwrap()
}

#[test]
fn test_find_rule_locations() {
    let policy = r#"
allow view if action == "view";
deny delete if action == "delete";
allow admin;
"#;
    let locations = locations(policy);
    assert_eq!(locations.len(), 3);

    assert_eq!(locations[0].name, "view");
    assert_eq!(locations[0].line, 1); // 0-indexed

    assert_eq!(locations[1].name, "delete");
    assert_eq!(locations[1].line, 2);

    assert_eq!(locations[2].name, "admin");
    assert_eq!(locations[2].line, 3);
}

#[test]
fn test_find_definition_rule_name() {
    let policy = r#"allow my_rule if action == "test";"#;

    // Cursor on "my_rule" (starts at column 6)
    let def = find_definition(policy, 0, 7, readings(policy));
    assert!(def.is_some());

    let loc = def.unwrap();
    assert_eq!(loc.line, 0);
}

#[test]
fn rule_locations_give_byte_columns() {
    let policy = "// é\n  deny   x;\n  allow é_rule if a == 1;\ndeny x2;";
    let ls = locations(policy);
    assert_eq!(ls.len(), 3);
    assert_eq!((ls[0].line, ls[0].column, ls[0].end_column), (3, 5, 6));
    assert_eq!((ls[1].line, ls[1].column, ls[1].end_column), (2, 8, 15));
    assert_eq!((ls[2].line, ls[2].column, ls[2].end_column), (3, 5, 7));
    assert!(locations("allow x if").is_empty());
    assert!(find_rule_locations("allow x if a == 1;", vec![]).is_none());
}

#[test]
fn definition_needs_a_rule_word_under_the_cursor() {
    let policy = "allow view;\nallow edit if view == 1;";
    assert_eq!(find_definition(policy, 1, 14, readings(policy)).unwrap().line, 0);
    assert!(find_definition(policy, 1, 12, readings(policy)).is_none());
    assert!(find_definition(policy, 1, 19, readings(policy)).is_none());
    assert!(find_definition(policy, 5, 0, readings(policy)).is_none());
    assert!(find_definition(policy, 0, 40, readings(policy)).is_none());
}

fn st(line: u32, start: u32, length: u32, token_type: SemanticTokenType) -> SemanticToken {
    SemanticToken { line, start, length, token_type }
}

#[test]
fn cedar_semantic_tokens_of_a_policy() {
    let src = r#"permit(principal == User::"a", action, resource) when { context.x >= 1 }; // c"#;
    assert!(cedar_scan_checks(src));
    let toks = cedar_semantic_tokens(src);
    assert_eq!(
        toks,
        vec![
            st(0, 0, 6, SemanticTokenType::Keyword),
            st(0, 7, 9, SemanticTokenType::Variable),
            st(0, 17, 2, SemanticTokenType::Operator),
            st(0, 20, 4, SemanticTokenType::Property),
            st(0, 24, 2, SemanticTokenType::Operator),
            st(0, 26, 3, SemanticTokenType::String),
            st(0, 31, 6, SemanticTokenType::Variable),
            st(0, 39, 8, SemanticTokenType::Variable),
            st(0, 49, 4, SemanticTokenType::Keyword),
            st(0, 56, 7, SemanticTokenType::Variable),
            st(0, 64, 1, SemanticTokenType::Property),
            st(0, 66, 2, SemanticTokenType::Operator),
            st(0, 69, 1, SemanticTokenType::Number),
            st(0, 74, 4, SemanticTokenType::Comment),
        ]
    );
}

#[test]
fn cedar_semantic_tokens_strings_span_lines() {
    let src = "permit(principal, action, resource) when { context.s == \"a\nb\" };";
    let toks = cedar_semantic_tokens(src);
    let s = toks.iter().find(|t| t.token_type == SemanticTokenType::String).unwrap();
    assert_eq!(*s, st(1, 56, 5, SemanticTokenType::String));
}

#[test]
fn cedar_scan_checks_rejects_a_split_character() {
    assert!(!cedar_scan_checks("a é b"));
    assert!(cedar_scan_checks("a \"é\" b"));
    assert!(cedar_scan_checks("x é"));
}
