use karu::compiler::compile;
use karu::inline_tests::{run_inline_tests as run_tests, InlineTestResults};
use karu::json::{Number, Value};
use karu::karu_lexer::Lexer;
use karu::karu_parser::{number_texts, NumberReading, Parser};

fn float_value(n: f64) -> Value {
    Value::Number(Number::FloatBits(n.to_bits()))
}

fn read_number(text: &str) -> NumberReading {
    let n: f64 = text.parse().unwrap();
    let pattern = if n.fract() == 0.0 && n >= 0.0 && n <= u64::MAX as f64 {
        Value::Number(Number::PosInt(n as u64))
    } else {
        float_value(n)
    };
    NumberReading { index: n as usize, pattern, value: float_value(n), display: format!("{}", n) }
}

fn readings(src: &str) -> Vec<(String, NumberReading)> {
    match Lexer::tokenize_spanned(src) {
        Ok(tokens) => number_texts(&tokens).into_iter().map(|t| (t.clone(), read_number(&t))).collect(),
        Err(_) => Vec::new(),
    }
}

/// Parses with tests, compiles, and runs the tests; `None` where the
/// source does not parse or compile, or has no tests.
fn run_inline_tests(source: &str) -> Option<InlineTestResults> {
    let program = Parser::parse_with_tests(source, readings(source))?.ok()?;
    let policy = compile(source, readings(source))?.ok()?;
    run_tests(source, &program, &policy)
}

#[test]
fn test_run_inline_tests_pass() {
    let source = r#"
allow view if
    principal == "alice" and
    action == "view";

test "alice can view" {
    principal {
        id: "alice",
    }
    action {
        id: "view",
    }
    resource {
        id: "doc1",
    }
    expect allow
}
"#;
    let results = run_inline_tests(source);
    assert!(results.is_some());
    let results = results.unwrap();
    assert_eq!(results.tests.len(), 1);
    assert!(results.tests[0].passed, "test should pass: {}", results.tests[0].message);
}

#[test]
fn test_run_inline_tests_no_tests() {
    let source = r#"allow access if role == "admin";"#;
    assert!(run_inline_tests(source).is_none());
}

#[test]
fn failing_test_reports_expected_and_actual() {
    let source = "allow view if principal == \"alice\";\ntest \"bob views\" {\n    principal { id: \"bob\" }\n    expect allow\n}\n";
    let results = run_inline_tests(source).unwrap();
    assert_eq!(results.tests[0].name, "bob views");
    assert_eq!(results.tests[0].line, 1);
    assert!(!results.tests[0].passed);
    assert_eq!(results.tests[0].message, "expected Allow, got Deny");
}

#[test]
fn coverage_counts_positive_and_negative_tests() {
    let source = "allow view if principal == \"alice\";\ntest \"a\" {\n    principal { id: \"alice\" }\n    expect allow\n}\ntest \"b\" {\n    principal { id: \"bob\" }\n    expect deny\n}\n";
    let results = run_inline_tests(source).unwrap();
    assert_eq!(results.tests.len(), 2);
    assert!(results.tests.iter().all(|t| t.passed));
    assert_eq!(results.coverage.len(), 1);
    let c = &results.coverage[0];
    assert_eq!(c.name, "view");
    assert_eq!(c.line, 0);
    assert!(c.has_positive && c.has_negative);
    assert_eq!(c.status, "full");
}

#[test]
fn entity_fields_are_flattened_under_their_kind() {
    let source = "allow view if principal.role == \"x\";\ntest \"t\" {\n    principal { id: \"alice\", role: \"admin\" }\n    expect allow\n}\n";
    // `principal` holds the id, so `principal.role` finds nothing there.
    let results = run_inline_tests(source).unwrap();
    assert!(!results.tests[0].passed);
    assert_eq!(results.coverage[0].status, "partial");
    assert!(!results.coverage[0].has_positive);
}

#[test]
fn per_rule_expectation_names_a_missing_rule() {
    let source = "allow view if principal == \"alice\";\ntest \"p\" {\n    principal { id: \"alice\" }\n    expect { allow view, deny missing }\n}\n";
    let results = run_inline_tests(source).unwrap();
    assert!(!results.tests[0].passed);
    assert_eq!(results.tests[0].message, "rule 'missing' not found");
}
