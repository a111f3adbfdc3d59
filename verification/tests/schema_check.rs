use karu::ast::Program;
use karu::json::{Number, Value};
use karu::karu_lexer::Lexer;
use karu::karu_parser::{number_texts, NumberReading, Parser};
use karu::lsp_core::Severity;
use karu::schema_check::{check_schema_field_access, Finding};

fn read_number(text: &str) -> NumberReading {
    let n: f64 = text.parse().unwrap();
    let float = Value::Number(Number::FloatBits(n.to_bits()));
    let pattern = if n.fract() == 0.0 && n >= 0.0 { Value::Number(Number::PosInt(n as u64)) } else { float.clone_value() };
    NumberReading { index: n as usize, pattern, value: float, display: format!("{}", n) }
}

trait CloneValue {
    fn clone_value(&self) -> Value;
}

impl CloneValue for Value {
    fn clone_value(&self) -> Value {
        karu::json_ops::copy_value(self)
    }
}

fn program(src: &str) -> Program {
    let tokens = Lexer::tokenize_spanned(src).unwrap();
    let numbers: Vec<(String, NumberReading)> =
        number_texts(&tokens).into_iter().map(|t| (t.clone(), read_number(&t))).collect();
    Parser::parse_with_tests(src, numbers).unwrap().unwrap()
}

fn findings(src: &str) -> Vec<Finding> {
    check_schema_field_access(&program(src))
}

const SCHEMA: &str = "use schema;\nmod NS { actor User { name String }; resource File { owner User, size Long }; };\n";

#[test]
fn unguarded_field_read_needs_a_type_guard() {
    let f = findings(&format!("{}allow a if actor.name == \"x\";", SCHEMA));
    assert_eq!(f.len(), 1);
    assert_eq!(f[0].severity, Severity::Error);
    assert_eq!(
        f[0].message,
        "Field 'name' on 'actor' requires a type guard - base actor has no fields. Use 'actor is <Type> and ...' or add type parameter to assert"
    );
    assert_eq!(f[0].anchor, "actor.name");
}

#[test]
fn guarded_field_read_of_a_known_field_is_fine() {
    assert!(findings(&format!("{}allow b if actor is User and actor.name == \"x\";", SCHEMA)).is_empty());
}

#[test]
fn guarded_read_of_a_missing_field_is_an_error() {
    let f = findings(&format!("{}allow c if actor is User and actor.age == \"x\";", SCHEMA));
    assert_eq!(f.len(), 1);
    assert_eq!(f[0].message, "Field 'age' does not exist on type 'User'");
}

#[test]
fn comparing_a_string_field_with_a_number_is_a_warning() {
    let f = findings(&format!("{}allow d if actor is User and actor.name == 5;", SCHEMA));
    assert_eq!(f.len(), 1);
    assert_eq!(f[0].severity, Severity::Warning);
    assert_eq!(f[0].message, "Type mismatch: comparing String with Long");
    assert_eq!(f[0].anchor, "actor");
}

#[test]
fn guard_of_the_wrong_kind_is_an_error() {
    let f = findings(&format!("{}allow e if resource is User;", SCHEMA));
    assert_eq!(f.len(), 1);
    assert_eq!(f[0].message, "'resource' cannot be 'User' - 'User' is an actor type, but resource is a resource built-in");
    assert_eq!(f[0].anchor, "resource is User");
}

#[test]
fn guard_of_an_unknown_type_is_an_error() {
    let f = findings(&format!("{}allow f if actor is Ghost;", SCHEMA));
    assert_eq!(f.len(), 1);
    assert_eq!(
        f[0].message,
        "Unknown type 'Ghost' in type guard - no entity or abstract with this name is defined in the schema"
    );
}

#[test]
fn assertion_type_parameters_narrow_its_roots() {
    assert!(findings(&format!("{}assert big<File> if resource.size == 1;", SCHEMA)).is_empty());
    let f = findings(&format!("{}assert bad<File> if resource.nope == 1;", SCHEMA));
    assert_eq!(f.len(), 1);
    assert_eq!(f[0].message, "Field 'nope' does not exist on type 'File'");
}

#[test]
fn without_use_schema_nothing_is_checked() {
    assert!(findings("allow a if actor.name == \"x\";").is_empty());
}

#[test]
fn check_expr_field_access_appends_in_order() {
    let p = program(&format!("{}allow a if actor.name == \"x\" and resource.size == 1;", SCHEMA));
    let mut out = Vec::new();
    let narrowed = vec![("resource".to_string(), "File".to_string())];
    karu::schema_check::check_expr_field_access(p.rules[0].body.as_ref().unwrap(), &p.modules, &narrowed, &mut out);
    assert_eq!(out.len(), 1);
    assert_eq!(out[0].anchor, "actor.name");
}
