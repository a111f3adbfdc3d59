use karu::diff::{PolicyDiff, RuleModification, RuleSummary};
use karu::json::{Number, Value};
use karu::karu_lexer::{Lexer, Token};
use karu::karu_parser::{number_texts, NumberReading};
use karu::lsp_core::{
    keyword_completions, keyword_hover, parse_diagnostics, semantic_tokens, LspDiagnostic, SemanticToken,
    SemanticTokenType, Severity,
};
use karu::rule::Effect;

#[test]
fn lsp_core_test_keyword_hover_allow() {
    let hover = keyword_hover("allow");
    assert!(hover.is_some());
    assert!(hover.unwrap().contains("permit"));
}

#[test]
fn lsp_core_test_keyword_hover_unknown() {
    assert!(keyword_hover("foobar").is_none());
}

#[test]
fn test_keyword_completions_not_empty() {
    let completions = keyword_completions();
    assert!(!completions.is_empty());
    assert!(completions.iter().any(|c| c.label == "allow"));
    assert!(completions.iter().any(|c| c.label == "deny"));
    assert!(completions.iter().any(|c| c.label == "forall"));
}

#[test]
fn keyword_hover_covers_every_keyword_it_completes() {
    for c in keyword_completions() {
        if c.kind == "keyword" {
            assert!(keyword_hover(&c.label).is_some(), "no hover for {}", c.label);
        }
    }
    assert!(keyword_hover("").is_none());
    assert!(keyword_hover("Allow").is_none());
}

#[test]
fn keyword_completions_have_distinct_labels() {
    let completions = keyword_completions();
    assert_eq!(completions.len(), 15);
    for (i, a) in completions.iter().enumerate() {
        for b in completions.iter().skip(i + 1) {
            assert_ne!(a.label, b.label);
        }
    }
}

fn summary(name: &str, effect: Effect, n: usize) -> RuleSummary {
    RuleSummary { name: name.to_string(), effect, condition_count: n }
}

#[test]
fn diff_summary_and_changes() {
    let empty = PolicyDiff { added: vec![], removed: vec![], modified: vec![], unchanged: vec![] };
    assert!(!empty.has_changes());
    assert_eq!(empty.summary(), "+0 added, -0 removed, ~0 modified, =0 unchanged");

    let only_unchanged = PolicyDiff {
        added: vec![],
        removed: vec![],
        modified: vec![],
        unchanged: vec!["a".to_string(), "b".to_string()],
    };
    assert!(!only_unchanged.has_changes());
    assert_eq!(only_unchanged.summary(), "+0 added, -0 removed, ~0 modified, =2 unchanged");

    let diff = PolicyDiff {
        added: vec![summary("rule3", Effect::Allow, 1)],
        removed: vec![summary("rule2", Effect::Deny, 0), summary("rule4", Effect::Allow, 2)],
        modified: vec![RuleModification {
            name: "rule1".to_string(),
            old_effect: Effect::Allow,
            new_effect: Effect::Deny,
            old_conditions: 1,
            new_conditions: 1,
            effect_changed: true,
            conditions_changed: false,
        }],
        unchanged: vec!["rule5".to_string()],
    };
    assert!(diff.has_changes());
    assert_eq!(diff.summary(), "+1 added, -2 removed, ~1 modified, =1 unchanged");

    let removed_only = PolicyDiff {
        added: vec![],
        removed: vec![summary("x", Effect::Allow, 0)],
        modified: vec![],
        unchanged: vec![],
    };
    assert!(removed_only.has_changes());
}

fn float_value(n: f64) -> Value {
    if n.is_finite() {
        Value::Number(Number::FloatBits(n.to_bits()))
    } else {
        Value::Null
    }
}

fn read_number(text: &str) -> NumberReading {
    let n: f64 = text.parse().unwrap();
    let pattern = if n.fract() == 0.0 && n >= i64::MIN as f64 && n <= i64::MAX as f64 {
        let i = n as i64;
        if i >= 0 {
            Value::Number(Number::PosInt(i as u64))
        } else {
            Value::Number(Number::NegInt(i))
        }
    } else {
        float_value(n)
    };
    NumberReading { index: n as usize, pattern, value: float_value(n), display: format!("{}", n) }
}

fn diagnostics(source: &str) -> Vec<LspDiagnostic> {
    let numbers: Vec<(String, NumberReading)> = match Lexer::tokenize_spanned(source) {
        Ok(tokens) => number_texts(&tokens).into_iter().map(|t| (t.clone(), read_number(&t))).collect(),
        Err(_) => vec![],
    };
    parse_diagnostics(source, numbers).unwrap()
}

#[test]
fn lsp_core_test_parse_diagnostics_valid() {
    let source = r#"allow access if role == "admin";"#;
    let diags = diagnostics(source);
    assert!(diags.is_empty(), "expected no diagnostics, got: {:?}", diags);
}

#[test]
fn lsp_core_test_parse_diagnostics_invalid() {
    let source = "allow access if;";
    let diags = diagnostics(source);
    assert!(!diags.is_empty(), "expected diagnostics for invalid policy");
    assert_eq!(diags[0].severity, Severity::Error);
}

#[test]
fn test_parse_diagnostics_unterminated_string() {
    let source = r#"allow access if role == "admin;"#;
    let diags = diagnostics(source);
    assert!(!diags.is_empty());
    assert!(diags[0].message.contains("Unterminated string"));
}

#[test]
fn parse_error_diagnostic_is_placed_zero_based() {
    let diags = diagnostics("allow access if;");
    assert_eq!(diags.len(), 1);
    assert_eq!((diags[0].line, diags[0].col, diags[0].end_col), (0, 15, 16));
    assert_eq!(diags[0].code, None);
}

#[test]
fn unterminated_strings_are_reported_per_line() {
    let diags = diagnostics("allow a if x == \"open;\nallow b if y == \"ok\";\ndeny c if z == \"é;");
    assert_eq!(diags.len(), 2);
    assert_eq!((diags[0].line, diags[0].col, diags[0].end_col), (0, 16, 22));
    assert_eq!(diags[1].line, 2);
    assert_eq!(diags[1].col, 15);
    assert_eq!(diags[1].end_col, 19);
    assert!(diags.iter().all(|d| d.severity == Severity::Error));
}

#[test]
fn unknown_rule_in_expect_block_is_reported() {
    let source = "allow view;\ntest \"t\" {\n  principal \"alice\"\n  expect { allow view, deny ghost }\n}";
    let diags = diagnostics(source);
    assert_eq!(diags.len(), 1);
    assert_eq!(diags[0].message, "Unknown rule 'ghost' in expect block");
    assert_eq!((diags[0].line, diags[0].col, diags[0].end_col), (3, 28, 33));
    assert_eq!(diags[0].severity, Severity::Error);
}

#[test]
fn lint_warning_points_at_the_forall() {
    let source = "allow access if\n    forall u in users: u.verified == true;";
    let diags = diagnostics(source);
    assert_eq!(diags.len(), 1);
    assert_eq!(diags[0].severity, Severity::Warning);
    assert_eq!(diags[0].code.as_deref(), Some("W001"));
    assert_eq!((diags[0].line, diags[0].col, diags[0].end_col), (1, 4, 10));
}

#[test]
fn at_most_five_diagnostics_are_reported() {
    let mut source = String::new();
    for i in 0..7 {
        source.push_str(&format!("allow r{} if forall u in users: u.ok == true;\n", i));
    }
    let diags = diagnostics(&source);
    assert_eq!(diags.len(), 5);
}

fn readings_until_error(source: &str) -> Vec<(String, NumberReading)> {
    let mut lexer = Lexer::new(source);
    let mut out = Vec::new();
    while let Ok(t) = lexer.next_spanned() {
        match t.token {
            Token::Eof => break,
            Token::Number => {
                let r = read_number(&t.text);
                out.push((t.text, r));
            }
            _ => {}
        }
    }
    out
}

fn tokens_of(source: &str) -> Vec<SemanticToken> {
    semantic_tokens(source, &readings_until_error(source)).unwrap()
}

fn tok(line: u32, start: u32, length: u32, token_type: SemanticTokenType) -> SemanticToken {
    SemanticToken { line, start, length, token_type }
}

#[test]
fn lsp_core_test_semantic_tokens_basic() {
    let source = r#"allow access if role == "admin";"#;
    let tokens = tokens_of(source);
    assert!(!tokens.is_empty());
    // First token should be "allow" keyword
    assert_eq!(tokens[0].token_type, SemanticTokenType::Keyword);
    assert_eq!(tokens[0].start, 0);
    assert_eq!(tokens[0].length, 5);
}

#[test]
fn lsp_core_test_semantic_tokens_comment() {
    let source = "// this is a comment\nallow access;";
    let tokens = tokens_of(source);
    let comment = tokens.iter().find(|t| t.token_type == SemanticTokenType::Comment);
    assert!(comment.is_some(), "should find a comment token");
}

#[test]
fn semantic_tokens_of_a_rule() {
    let tokens = tokens_of(r#"allow access if role == "admin";"#);
    assert_eq!(
        tokens,
        vec![
            tok(0, 0, 5, SemanticTokenType::Keyword),
            tok(0, 6, 6, SemanticTokenType::Property),
            tok(0, 13, 2, SemanticTokenType::Keyword),
            tok(0, 16, 4, SemanticTokenType::Property),
            tok(0, 21, 2, SemanticTokenType::Operator),
            tok(0, 24, 7, SemanticTokenType::String),
        ]
    );
}

#[test]
fn semantic_tokens_of_comments_variables_and_numbers() {
    let tokens = tokens_of("// this is a comment\ndeny r if principal.n >= 1.50 and resource has x;");
    assert_eq!(
        tokens,
        vec![
            tok(0, 0, 20, SemanticTokenType::Comment),
            tok(1, 0, 4, SemanticTokenType::Keyword),
            tok(1, 5, 1, SemanticTokenType::Property),
            tok(1, 7, 2, SemanticTokenType::Keyword),
            tok(1, 10, 9, SemanticTokenType::Variable),
            tok(1, 20, 1, SemanticTokenType::Property),
            tok(1, 22, 2, SemanticTokenType::Operator),
            tok(1, 25, 3, SemanticTokenType::Number),
            tok(1, 30, 3, SemanticTokenType::Keyword),
            tok(1, 34, 8, SemanticTokenType::Variable),
            tok(1, 47, 1, SemanticTokenType::Property),
        ]
    );
}

#[test]
fn semantic_tokens_stop_at_a_lexer_error() {
    let tokens = tokens_of("allow a if x == \"open");
    assert_eq!(
        tokens,
        vec![tok(0, 0, 5, SemanticTokenType::Keyword), tok(0, 6, 1, SemanticTokenType::Property), tok(0, 8, 2, SemanticTokenType::Keyword), tok(0, 11, 1, SemanticTokenType::Property), tok(0, 13, 2, SemanticTokenType::Operator)]
    );
}

#[test]
fn semantic_tokens_need_a_reading_for_each_number() {
    assert!(semantic_tokens("allow a if x == 7;", &vec![]).is_none());
    assert_eq!(semantic_tokens("allow a;", &vec![]).unwrap().len(), 2);
}
