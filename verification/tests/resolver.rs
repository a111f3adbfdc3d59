use std::collections::HashMap;

use karu::ast::Program;
use karu::json::{Number, Value};
use karu::karu_lexer::{Lexer, Token};
use karu::karu_parser::NumberReading;
use karu::resolver::{import_target_exec, normalize_path, resolve_step, ResolveAction, ResolveError, ResolveState};

fn reading(text: &str) -> NumberReading {
    let n: f64 = text.parse().unwrap();
    NumberReading {
        index: n as usize,
        pattern: Value::Number(Number::PosInt(n as u64)),
        value: Value::Number(Number::FloatBits(n.to_bits())),
        display: format!("{}", n),
    }
}

fn readings(source: &str) -> Vec<(String, NumberReading)> {
    let mut lexer = Lexer::new(source);
    let mut out = Vec::new();
    while let Ok(t) = lexer.next_spanned() {
        match t.token {
            Token::Eof => break,
            Token::Number => {
                let r = reading(&t.text);
                out.push((t.text, r));
            }
            _ => {}
        }
    }
    out
}

struct MemoryLoader {
    files: HashMap<String, String>,
    loads: Vec<String>,
}

fn resolve_with(entry: &str, files: &[(&str, &str)]) -> (Result<Program, ResolveError>, Vec<String>) {
    let mut loader = MemoryLoader {
        files: files.iter().map(|(k, v)| (k.to_string(), v.to_string())).collect(),
        loads: Vec::new(),
    };
    let mut state = ResolveState::new(entry);
    let mut event: Result<String, String> = Ok(String::new());
    loop {
        let numbers = match &event {
            Ok(text) => readings(text),
            Err(_) => Vec::new(),
        };
        let (next, action) = resolve_step(state, event, numbers).expect("readings cover the text");
        state = next;
        match action {
            ResolveAction::Load(path) => {
                loader.loads.push(path.clone());
                event = loader.files.get(&path).cloned().ok_or_else(|| "File not found".to_string());
            }
            ResolveAction::Done(p) => return (Ok(p), loader.loads),
            ResolveAction::Fail(e) => return (Err(e), loader.loads),
            ResolveAction::Idle => panic!("resolution already ended"),
        }
    }
}

fn resolve(entry: &str, files: &[(&str, &str)]) -> Result<Program, ResolveError> {
    resolve_with(entry, files).0
}

#[test]
fn test_single_file_no_imports() {
    let program = resolve("/policy.karu", &[("/policy.karu", r#"allow view if action == "view";"#)]).unwrap();
    assert_eq!(program.rules.len(), 1);
    assert!(program.imports.is_empty());
}

#[test]
fn test_single_import() {
    let files = [
        ("/main.karu", "\nimport \"rules.karu\";\nallow view if action == \"view\";\n"),
        ("/rules.karu", r#"allow edit if action == "edit";"#),
    ];
    let program = resolve("/main.karu", &files).unwrap();
    assert_eq!(program.rules.len(), 2);
}

#[test]
fn test_transitive_imports() {
    let files = [
        ("/a.karu", "\nimport \"b.karu\";\nallow a if action == \"a\";\n"),
        ("/b.karu", "\nimport \"c.karu\";\nallow b if action == \"b\";\n"),
        ("/c.karu", r#"allow c if action == "c";"#),
    ];
    let program = resolve("/a.karu", &files).unwrap();
    assert_eq!(program.rules.len(), 3);
}

#[test]
fn test_circular_import_detection() {
    let files = [
        ("/a.karu", "\nimport \"b.karu\";\nallow a if action == \"a\";\n"),
        ("/b.karu", "\nimport \"a.karu\";\nallow b if action == \"b\";\n"),
    ];
    let err = resolve("/a.karu", &files).unwrap_err();
    assert!(err.message.contains("Circular import"), "Expected circular import error, got: {}", err.message);
}

#[test]
fn test_circular_import_three_files() {
    let files = [
        ("/a.karu", "import \"b.karu\";\nallow a;"),
        ("/b.karu", "import \"c.karu\";\nallow b;"),
        ("/c.karu", "import \"a.karu\";\nallow c;"),
    ];
    let err = resolve("/a.karu", &files).unwrap_err();
    assert!(err.message.contains("Circular import"), "Expected circular import error, got: {}", err.message);
}

#[test]
fn test_schema_cannot_import_non_schema() {
    let files = [
        ("/schema.karu", "\nuse schema;\nimport \"rules.karu\";\nmod { actor User {}; };\n"),
        ("/rules.karu", r#"allow view if action == "view";"#),
    ];
    let err = resolve("/schema.karu", &files).unwrap_err();
    assert!(
        err.message.contains("Schema file cannot import non-schema"),
        "Expected schema constraint error, got: {}",
        err.message
    );
}

#[test]
fn test_non_schema_can_import_schema() {
    let files = [
        ("/main.karu", "\nimport \"schema.karu\";\nallow view if action == \"view\";\n"),
        ("/schema.karu", "\nuse schema;\nmod { actor User {}; };\nallow edit;\n"),
    ];
    let program = resolve("/main.karu", &files).unwrap();
    assert_eq!(program.rules.len(), 2);
    // The imported schema modules should be merged in
    assert!(!program.modules.is_empty());
}

#[test]
fn test_schema_can_import_schema() {
    let files = [
        ("/main.karu", "\nuse schema;\nimport \"types.karu\";\nmod { resource Document {}; };\nallow view;\n"),
        ("/types.karu", "\nuse schema;\nmod { actor User {}; };\n"),
    ];
    let program = resolve("/main.karu", &files).unwrap();
    assert!(program.use_schema);
    assert!(program.modules.len() >= 2);
}

#[test]
fn test_diamond_import_deduplication() {
    // A imports B and C; both B and C import D
    // D's rules should only appear once
    let files = [
        ("/a.karu", "import \"b.karu\";\nimport \"c.karu\";\nallow a;"),
        ("/b.karu", "import \"d.karu\";\nallow b;"),
        ("/c.karu", "import \"d.karu\";\nallow c;"),
        ("/d.karu", "allow d;"),
    ];
    let program = resolve("/a.karu", &files).unwrap();
    // Should have a, b, c, d - each once
    let rule_names: Vec<&str> = program.rules.iter().map(|r| r.name.as_str()).collect();
    assert_eq!(
        rule_names.iter().filter(|&&n| n == "d").count(),
        1,
        "Rule 'd' should appear exactly once, but found: {:?}",
        rule_names
    );
    assert_eq!(program.rules.len(), 4);
}

#[test]
fn test_import_not_found() {
    let files = [("/main.karu", "import \"missing.karu\";\nallow view;")];
    let err = resolve("/main.karu", &files).unwrap_err();
    assert!(
        err.message.contains("not found") || err.message.contains("Cannot read"),
        "Expected file not found error, got: {}",
        err.message
    );
}

#[test]
fn test_relative_path_resolution() {
    let files = [
        ("/project/main.karu", "import \"lib/rules.karu\";\nallow main;"),
        ("/project/lib/rules.karu", "allow lib_rule;"),
    ];
    let program = resolve("/project/main.karu", &files).unwrap();
    assert_eq!(program.rules.len(), 2);
}

#[test]
fn resolution_merges_in_load_order_and_reports_exact_errors() {
    let files = [
        ("/a.karu", "import \"b.karu\";\nimport \"c.karu\";\nallow a;"),
        ("/b.karu", "import \"d.karu\";\nallow b;"),
        ("/c.karu", "import \"d.karu\";\nallow c;"),
        ("/d.karu", "allow d;"),
    ];
    let (program, loads) = resolve_with("/a.karu", &files);
    let names: Vec<String> = program.unwrap().rules.iter().map(|r| r.name.clone()).collect();
    assert_eq!(names, vec!["a", "b", "d", "c"]);
    // Each import is loaded once to check it and once more to follow it,
    // except a file already followed.
    assert_eq!(loads, vec!["/a.karu", "/b.karu", "/b.karu", "/d.karu", "/d.karu", "/c.karu", "/c.karu", "/d.karu"]);

    let cycle = [("/a.karu", "import \"b.karu\";\nallow a;"), ("/b.karu", "import \"./a.karu\";\nallow b;")];
    let err = resolve("/a.karu", &cycle).unwrap_err();
    assert_eq!(err.message, "Circular import detected: /a.karu -> /b.karu -> /a.karu");
    assert_eq!(err.path, "/a.karu");

    let schema = [("/s.karu", "use schema;\nimport \"r.karu\";"), ("/r.karu", "allow r;")];
    let err = resolve("/s.karu", &schema).unwrap_err();
    assert_eq!(
        err.message,
        "Schema file cannot import non-schema file 'r.karu'. When `use schema;` is active, all imports must also use `use schema;`."
    );
    assert_eq!(err.path, "/s.karu");

    let broken = [("/m.karu", "allow x if;")];
    let err = resolve("/m.karu", &broken).unwrap_err();
    assert_eq!(err.message, "Parse error: 1:11: Expected path identifier");
    assert_eq!(err.path, "/m.karu");
}

#[test]
fn paths_are_normalized() {
    assert_eq!(normalize_path("/a/./b/../c//d"), "/a/c/d");
    assert_eq!(normalize_path("a/../../b"), "b");
    assert_eq!(normalize_path("/.."), "");
    assert_eq!(import_target_exec("/project/main.karu", "../lib/x.karu"), "/lib/x.karu");
    assert_eq!(import_target_exec("/project/main.karu", "/abs/y.karu"), "/abs/y.karu");
    assert_eq!(import_target_exec("main.karu", "x.karu"), "x.karu");
}
