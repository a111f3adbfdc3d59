//! Editor support that needs no language-server runtime: diagnostics types,
//! keyword hover documentation and keyword completions.
use vstd::prelude::*;
use crate::json::str_eq;
use crate::text::{
    chars_of, lines_exec, lines_of, find_exec, find_from, contains_seq, utf8_len, utf8_len_exec,
    is_alnum_spec, is_alnum, lemma_utf8_sub, lemma_lines_utf8, lemma_utf8_len_prefix, lemma_find_from,
    lemma_utf8_len_ge,
};
use crate::ast::{Program, RuleAst, TestDef, ExpectedOutcome, EffectAst};
use crate::karu_parser::{
    ParseError, NumberReading, parse_source, source_program, parsed_view, readings_view, find_reading,
};
use crate::karu_lexer::{Lexer, Token, Spanned, SSpanned, next_spec, lemma_next_end};
use crate::karu_syntax::{SReading, reading};
use vstd::utf8::encode_utf8;
use crate::karu_syntax::SParseError;
use crate::lint::{lint, program_warnings, SLintWarning, warnings_view};

verus! {

/// Severity level for a diagnostic.
#[derive(Debug, Clone, Copy, PartialEq, Eq, Structural)]
pub enum Severity {
    Error,
    Warning,
    Info,
    Hint,
}

/// A diagnostic message (parse error, lint warning, etc.).
#[derive(Debug)]
pub struct LspDiagnostic {
    /// 0-indexed line number.
    pub line: u32,
    /// 0-indexed start column.
    pub col: u32,
    /// 0-indexed end column.
    pub end_col: u32,
    pub severity: Severity,
    pub message: String,
    /// Optional diagnostic code (e.g. lint rule ID).
    pub code: Option<String>,
}

/// A completion item.
#[derive(Debug)]
pub struct LspCompletion {
    pub label: String,
    pub detail: String,
    /// Text to insert (may contain snippet placeholders like `${1:name}`).
    pub insert_text: Option<String>,
    /// "keyword", "operator", "variable", "snippet"
    pub kind: String,
}

/// The content of a completion item.
pub struct SCompletion {
    pub label: Seq<char>,
    pub detail: Seq<char>,
    pub insert_text: Option<Seq<char>>,
    pub kind: Seq<char>,
}

impl View for LspCompletion {
    type V = SCompletion;

    open spec fn view(&self) -> SCompletion {
        SCompletion {
            label: self.label@,
            detail: self.detail@,
            insert_text: match self.insert_text {
                Some(t) => Some(t@),
                None => None,
            },
            kind: self.kind@,
        }
    }
}

/// The hover documentation of each keyword.
pub open spec fn hover_doc(word: Seq<char>) -> Option<Seq<char>> {
    if word == "allow"@ {
        Some("**allow** - Declares a rule that permits access when conditions match."@)
    } else if word == "deny"@ {
        Some("**deny** - Declares a rule that denies access when conditions match. Deny rules take precedence over allow rules."@)
    } else if word == "if"@ {
        Some("**if** - Introduces the condition clause of a rule."@)
    } else if word == "and"@ {
        Some("**and** - Logical AND operator. All conditions must be true."@)
    } else if word == "or"@ {
        Some("**or** - Logical OR operator. At least one condition must be true."@)
    } else if word == "not"@ {
        Some("**not** - Logical NOT operator. Negates the following condition."@)
    } else if word == "in"@ {
        Some("**in** - Membership operator. Checks if a pattern exists in a collection."@)
    } else if word == "forall"@ {
        Some("**forall** - Universal quantifier. Checks if all items in a collection match a condition."@)
    } else if word == "exists"@ {
        Some("**exists** - Existential quantifier. Checks if any item in a collection matches a condition. Supports variable binding: `exists x in path: condition[x]`."@)
    } else if word == "true"@ {
        Some("**true** - Boolean literal."@)
    } else if word == "false"@ {
        Some("**false** - Boolean literal."@)
    } else if word == "null"@ {
        Some("**null** - Null literal."@)
    } else if word == "principal"@ {
        Some("**principal** - The entity making the request (e.g., a user)."@)
    } else if word == "action"@ {
        Some("**action** - The operation being requested (e.g., \"read\", \"write\")."@)
    } else if word == "resource"@ {
        Some("**resource** - The target of the operation (e.g., a document, folder)."@)
    } else if word == "context"@ {
        Some("**context** - Request-time attributes (e.g., IP address, time, device)."@)
    } else if word == "test"@ {
        Some("**test** - Declares an inline test block. Tests are run with `karu test` and shown live in the editor."@)
    } else if word == "expect"@ {
        Some("**expect** - Specifies the expected effect (`allow` or `deny`) for a test case."@)
    } else if word == "has"@ {
        Some("**has** - Attribute existence check. Returns true if the path exists in the input."@)
    } else if word == "like"@ {
        Some("**like** - Glob-style pattern matching operator for string values."@)
    } else if word == "is"@ {
        Some("**is** - Type check operator. Verifies an entity's type."@)
    } else if word == "use"@ {
        Some("**use** - Enables a feature for the file, e.g. `use schema;`."@)
    } else if word == "schema"@ {
        Some("**schema** - Schema mode. When enabled with `use schema;`, activates type-checked entity access."@)
    } else if word == "mod"@ {
        Some("**mod** - Declares a schema module containing entity and action definitions."@)
    } else if word == "import"@ {
        Some("**import** - Imports definitions from another file."@)
    } else if word == "assert"@ {
        Some("**assert** - Declares a static assertion that must hold for all evaluations."@)
    } else {
        None
    }
}

/// Hover documentation for a Karu keyword, in markdown; `None` for other words.
pub fn keyword_hover(word: &str) -> (r: Option<&'static str>)
    ensures
        match r {
            Some(s) => hover_doc(word@) == Some(s@),
            None => hover_doc(word@) is None,
        },
{
    if str_eq(word, "allow") {
        Some("**allow** - Declares a rule that permits access when conditions match.")
    } else if str_eq(word, "deny") {
        Some("**deny** - Declares a rule that denies access when conditions match. Deny rules take precedence over allow rules.")
    } else if str_eq(word, "if") {
        Some("**if** - Introduces the condition clause of a rule.")
    } else if str_eq(word, "and") {
        Some("**and** - Logical AND operator. All conditions must be true.")
    } else if str_eq(word, "or") {
        Some("**or** - Logical OR operator. At least one condition must be true.")
    } else if str_eq(word, "not") {
        Some("**not** - Logical NOT operator. Negates the following condition.")
    } else if str_eq(word, "in") {
        Some("**in** - Membership operator. Checks if a pattern exists in a collection.")
    } else if str_eq(word, "forall") {
        Some("**forall** - Universal quantifier. Checks if all items in a collection match a condition.")
    } else if str_eq(word, "exists") {
        Some("**exists** - Existential quantifier. Checks if any item in a collection matches a condition. Supports variable binding: `exists x in path: condition[x]`.")
    } else if str_eq(word, "true") {
        Some("**true** - Boolean literal.")
    } else if str_eq(word, "false") {
        Some("**false** - Boolean literal.")
    } else if str_eq(word, "null") {
        Some("**null** - Null literal.")
    } else if str_eq(word, "principal") {
        Some("**principal** - The entity making the request (e.g., a user).")
    } else if str_eq(word, "action") {
        Some("**action** - The operation being requested (e.g., \"read\", \"write\").")
    } else if str_eq(word, "resource") {
        Some("**resource** - The target of the operation (e.g., a document, folder).")
    } else if str_eq(word, "context") {
        Some("**context** - Request-time attributes (e.g., IP address, time, device).")
    } else if str_eq(word, "test") {
        Some("**test** - Declares an inline test block. Tests are run with `karu test` and shown live in the editor.")
    } else if str_eq(word, "expect") {
        Some("**expect** - Specifies the expected effect (`allow` or `deny`) for a test case.")
    } else if str_eq(word, "has") {
        Some("**has** - Attribute existence check. Returns true if the path exists in the input.")
    } else if str_eq(word, "like") {
        Some("**like** - Glob-style pattern matching operator for string values.")
    } else if str_eq(word, "is") {
        Some("**is** - Type check operator. Verifies an entity's type.")
    } else if str_eq(word, "use") {
        Some("**use** - Enables a feature for the file, e.g. `use schema;`.")
    } else if str_eq(word, "schema") {
        Some("**schema** - Schema mode. When enabled with `use schema;`, activates type-checked entity access.")
    } else if str_eq(word, "mod") {
        Some("**mod** - Declares a schema module containing entity and action definitions.")
    } else if str_eq(word, "import") {
        Some("**import** - Imports definitions from another file.")
    } else if str_eq(word, "assert") {
        Some("**assert** - Declares a static assertion that must hold for all evaluations.")
    } else {
        None
    }
}

/// The keyword completions, in order.
pub open spec fn completion_table() -> Seq<SCompletion> {
    seq![
        SCompletion { label: "allow"@, detail: "Permit access rule"@, insert_text: Some("allow ${1:rule_name} if\n    ${2:condition};"@), kind: "keyword"@ },
        SCompletion { label: "deny"@, detail: "Deny access rule"@, insert_text: Some("deny ${1:rule_name} if\n    ${2:condition};"@), kind: "keyword"@ },
        SCompletion { label: "if"@, detail: "Condition clause"@, insert_text: None, kind: "keyword"@ },
        SCompletion { label: "and"@, detail: "Logical AND"@, insert_text: None, kind: "operator"@ },
        SCompletion { label: "or"@, detail: "Logical OR"@, insert_text: None, kind: "operator"@ },
        SCompletion { label: "not"@, detail: "Logical NOT"@, insert_text: None, kind: "operator"@ },
        SCompletion { label: "in"@, detail: "Membership check"@, insert_text: None, kind: "operator"@ },
        SCompletion { label: "forall"@, detail: "Universal quantifier"@, insert_text: Some("forall ${1:x} in ${2:collection}: ${3:condition}"@), kind: "keyword"@ },
        SCompletion { label: "exists"@, detail: "Existential quantifier"@, insert_text: Some("exists ${1:x} in ${2:collection}: ${3:condition}"@), kind: "keyword"@ },
        SCompletion { label: "principal"@, detail: "Request principal"@, insert_text: None, kind: "variable"@ },
        SCompletion { label: "action"@, detail: "Request action"@, insert_text: None, kind: "variable"@ },
        SCompletion { label: "resource"@, detail: "Request resource"@, insert_text: None, kind: "variable"@ },
        SCompletion { label: "context"@, detail: "Request context"@, insert_text: None, kind: "variable"@ },
        SCompletion { label: "test"@, detail: "Inline test block"@, insert_text: Some("test \"${1:test name}\" {\n    ${2:input_json}\n    expect ${3:allow}\n}"@), kind: "snippet"@ },
        SCompletion { label: "has"@, detail: "Attribute existence check"@, insert_text: Some("has ${1:path}"@), kind: "keyword"@ },
    ]
}

fn completion(label: &str, detail: &str, insert_text: Option<&str>, kind: &str) -> (c: LspCompletion)
    ensures
        c@ == (SCompletion {
            label: label@,
            detail: detail@,
            insert_text: match insert_text {
                Some(t) => Some(t@),
                None => None,
            },
            kind: kind@,
        }),
{
    LspCompletion {
        label: String::from_str(label),
        detail: String::from_str(detail),
        insert_text: match insert_text {
            Some(t) => Some(String::from_str(t)),
            None => None,
        },
        kind: String::from_str(kind),
    }
}

/// Completion items for the Karu keywords.
pub fn keyword_completions() -> (r: Vec<LspCompletion>)
    ensures
        r@.map_values(|c: LspCompletion| c@) == completion_table(),
{
    let mut v: Vec<LspCompletion> = Vec::new();
    v.push(completion("allow", "Permit access rule", Some("allow ${1:rule_name} if\n    ${2:condition};"), "keyword"));
    v.push(completion("deny", "Deny access rule", Some("deny ${1:rule_name} if\n    ${2:condition};"), "keyword"));
    v.push(completion("if", "Condition clause", None, "keyword"));
    v.push(completion("and", "Logical AND", None, "operator"));
    v.push(completion("or", "Logical OR", None, "operator"));
    v.push(completion("not", "Logical NOT", None, "operator"));
    v.push(completion("in", "Membership check", None, "operator"));
    v.push(completion("forall", "Universal quantifier", Some("forall ${1:x} in ${2:collection}: ${3:condition}"), "keyword"));
    v.push(completion("exists", "Existential quantifier", Some("exists ${1:x} in ${2:collection}: ${3:condition}"), "keyword"));
    v.push(completion("principal", "Request principal", None, "variable"));
    v.push(completion("action", "Request action", None, "variable"));
    v.push(completion("resource", "Request resource", None, "variable"));
    v.push(completion("context", "Request context", None, "variable"));
    v.push(completion("test", "Inline test block", Some("test \"${1:test name}\" {\n    ${2:input_json}\n    expect ${3:allow}\n}"), "snippet"));
    v.push(completion("has", "Attribute existence check", Some("has ${1:path}"), "keyword"));
    assert(v@.map_values(|c: LspCompletion| c@) =~= completion_table());
    v
}


// ----------------------------------------------------------------------------
// Diagnostics
// ----------------------------------------------------------------------------

/// The content of a diagnostic.
pub struct SDiagnostic {
    pub line: u32,
    pub col: u32,
    pub end_col: u32,
    pub severity: Severity,
    pub message: Seq<char>,
    pub code: Option<Seq<char>>,
}

impl View for LspDiagnostic {
    type V = SDiagnostic;

    open spec fn view(&self) -> SDiagnostic {
        SDiagnostic {
            line: self.line,
            col: self.col,
            end_col: self.end_col,
            severity: self.severity,
            message: self.message@,
            code: match self.code {
                Some(c) => Some(c@),
                None => None,
            },
        }
    }
}

pub open spec fn diags_view(v: Seq<LspDiagnostic>) -> Seq<SDiagnostic> {
    v.map_values(|d: LspDiagnostic| d@)
}

/// At most this many diagnostics are reported.
pub open spec fn max_diagnostics() -> nat {
    5
}

/// The index after the closing quote of a string whose contents start at
/// `j`, skipping escaped characters; `None` when the line ends first.
pub open spec fn quote_end(l: Seq<char>, j: int) -> Option<int>
    decreases l.len() - j,
{
    if j < 0 || j >= l.len() {
        None
    } else if l[j] == '\\' && j + 1 < l.len() {
        quote_end(l, j + 2)
    } else if l[j] == '"' {
        Some(j + 1)
    } else {
        quote_end(l, j + 1)
    }
}

/// Where an unterminated string starts in a line, from index `i` on; the
/// rest of a line after `//` is a comment.
pub open spec fn unclosed_quote(l: Seq<char>, i: int) -> Option<int>
    decreases l.len() - i,
{
    if i < 0 || i >= l.len() {
        None
    } else if l[i] == '"' {
        match quote_end(l, i + 1) {
            None => Some(i),
            Some(e) => if i < e <= l.len() {
                unclosed_quote(l, e)
            } else {
                None
            },
        }
    } else if l[i] == '/' && i + 1 < l.len() && l[i + 1] == '/' {
        None
    } else {
        unclosed_quote(l, i + 1)
    }
}

/// The byte offset of character index `k` of a line.
pub open spec fn byte_col(l: Seq<char>, k: int) -> nat {
    utf8_len(l.subrange(0, k))
}

/// The unterminated-string diagnostics of the first `n` lines.
pub open spec fn string_diags(ls: Seq<Seq<char>>, n: nat) -> Seq<SDiagnostic>
    decreases n,
{
    if n == 0 || n > ls.len() {
        Seq::empty()
    } else {
        string_diags(ls, (n - 1) as nat) + match unclosed_quote(ls[n - 1], 0) {
            Some(k) => seq![
                SDiagnostic {
                    line: ((n - 1) as int) as u32,
                    col: byte_col(ls[n - 1], k) as u32,
                    end_col: utf8_len(ls[n - 1]) as u32,
                    severity: Severity::Error,
                    message: "Unterminated string literal"@,
                    code: None,
                },
            ],
            None => Seq::empty(),
        }
    }
}

/// Whether a character can be part of a word, byte by byte: an ASCII letter,
/// digit or underscore.
pub open spec fn word_char(c: char) -> bool {
    is_alnum_spec(c) || c == '_'
}

/// Where the rule name `ident` stands as a whole word in or after the block
/// of test `test_name`, from line `i` on: the line and the byte column.
pub open spec fn find_ident_from(
    ls: Seq<Seq<char>>,
    ident: Seq<char>,
    test_name: Seq<char>,
    i: int,
    in_test: bool,
) -> Option<(nat, nat)>
    decreases ls.len() - i,
{
    if i < 0 || i >= ls.len() {
        None
    } else {
        let l = ls[i];
        let now = in_test || (contains_seq(l, "test"@) && contains_seq(
            l,
            seq!['"'] + test_name + seq!['"'],
        ));
        match find_from(l, ident, 0) {
            Some(col) => if now && (col == 0 || !word_char(l[col - 1])) && (col + ident.len()
                >= l.len() || !word_char(l[col + ident.len()])) {
                Some((i as nat, byte_col(l, col)))
            } else {
                find_ident_from(ls, ident, test_name, i + 1, now)
            },
            None => find_ident_from(ls, ident, test_name, i + 1, now),
        }
    }
}

/// The first line from `i` on that declares rule `name`.
pub open spec fn rule_line(ls: Seq<Seq<char>>, name: Seq<char>, i: int) -> Option<int>
    decreases ls.len() - i,
{
    if i < 0 || i >= ls.len() {
        None
    } else if contains_seq(ls[i], "allow "@ + name) || contains_seq(ls[i], "deny "@ + name) {
        Some(i)
    } else {
        rule_line(ls, name, i + 1)
    }
}

/// The first `forall` from line `i` on, on a line holding `path` when one is
/// given: its line, byte column and end column.
pub open spec fn forall_from(ls: Seq<Seq<char>>, path: Option<Seq<char>>, i: int) -> Option<
    (nat, nat, nat),
>
    decreases ls.len() - i,
{
    if i < 0 || i >= ls.len() {
        None
    } else {
        match find_from(ls[i], "forall"@, 0) {
            Some(col) => if path matches Some(p) && !contains_seq(ls[i], p) {
                forall_from(ls, path, i + 1)
            } else {
                Some((i as nat, byte_col(ls[i], col), byte_col(ls[i], col) + 6))
            },
            None => forall_from(ls, path, i + 1),
        }
    }
}

/// Where the `forall` a warning of rule `name` is about stands.
pub open spec fn forall_pos(ls: Seq<Seq<char>>, name: Seq<char>, path: Option<Seq<char>>) -> Option<
    (nat, nat, nat),
> {
    match rule_line(ls, name, 0) {
        None => None,
        Some(s) => forall_from(ls, path, s),
    }
}

/// Whether some rule is named `name`.
pub open spec fn has_rule(rules: Seq<RuleAst>, name: Seq<char>) -> bool {
    exists|i: int| 0 <= i < rules.len() && rules[i].name@ == name
}

/// The diagnostics for the first `n` entries of an expect block of test
/// `test_name` that name no rule.
pub open spec fn entry_diags(
    ls: Seq<Seq<char>>,
    rules: Seq<RuleAst>,
    test_name: Seq<char>,
    es: Seq<(EffectAst, String)>,
    n: nat,
) -> Seq<SDiagnostic>
    decreases n,
{
    if n == 0 || n > es.len() {
        Seq::empty()
    } else {
        let name = es[n - 1].1@;
        entry_diags(ls, rules, test_name, es, (n - 1) as nat) + if has_rule(rules, name) {
            Seq::empty()
        } else {
            match find_ident_from(ls, name, test_name, 0, false) {
                Some((l, c)) => seq![
                    SDiagnostic {
                        line: l as u32,
                        col: c as u32,
                        end_col: (c + utf8_len(name)) as u32,
                        severity: Severity::Error,
                        message: "Unknown rule '"@ + name + "' in expect block"@,
                        code: None,
                    },
                ],
                None => Seq::empty(),
            }
        }
    }
}

/// The diagnostics for the expect blocks of the first `n` tests.
pub open spec fn test_diags(ls: Seq<Seq<char>>, rules: Seq<RuleAst>, tests: Seq<TestDef>, n: nat) -> Seq<
    SDiagnostic,
>
    decreases n,
{
    if n == 0 || n > tests.len() {
        Seq::empty()
    } else {
        test_diags(ls, rules, tests, (n - 1) as nat) + match tests[n - 1].expected {
            ExpectedOutcome::PerRule(es) => entry_diags(ls, rules, tests[n - 1].name@, es@, es@.len()),
            ExpectedOutcome::Simple(_) => Seq::empty(),
        }
    }
}

/// The diagnostic of a lint warning.
pub open spec fn lint_diag(ls: Seq<Seq<char>>, w: SLintWarning) -> SDiagnostic {
    let (l, c, e) = match forall_pos(ls, w.rule_name, w.forall_path) {
        Some(t) => t,
        None => (0nat, 0nat, 6nat),
    };
    SDiagnostic {
        line: l as u32,
        col: c as u32,
        end_col: e as u32,
        severity: Severity::Warning,
        message: w.message,
        code: Some(w.code),
    }
}

/// The diagnostic of a parse error, at its 0-based position.
pub open spec fn error_diag(e: SParseError) -> SDiagnostic {
    let line: nat = if e.line > 0 {
        (e.line - 1) as nat
    } else {
        0
    };
    let col: nat = if e.column > 0 {
        (e.column - 1) as nat
    } else {
        0
    };
    SDiagnostic {
        line: line as u32,
        col: col as u32,
        end_col: (col + 1) as u32,
        severity: Severity::Error,
        message: e.message,
        code: None,
    }
}

/// The diagnostics of a Karu source, given how it parsed (tests included):
/// unterminated strings first and alone; else the parse error; else expect
/// entries naming no rule, then the lint warnings, at most five in all.
pub open spec fn diagnostics_spec(cs: Seq<char>, parsed: Result<Program, ParseError>) -> Seq<
    SDiagnostic,
> {
    let ls = lines_of(cs);
    let sd = string_diags(ls, ls.len());
    if sd.len() > 0 {
        sd
    } else {
        match parsed {
            Err(e) => seq![error_diag(e@)],
            Ok(p) => {
                let ws = program_warnings(p.rules@, p.rules@.len());
                let all = test_diags(ls, p.rules@, p.tests@, p.tests@.len()) + ws.map_values(
                    |w: SLintWarning| lint_diag(ls, w),
                );
                if all.len() > max_diagnostics() {
                    all.take(max_diagnostics() as int)
                } else {
                    all
                }
            },
        }
    }
}


/// `quote_end`, computed.
fn quote_end_exec(l: &Vec<char>, j: usize) -> (r: Option<usize>)
    requires
        j <= l.len(),
    ensures
        match r {
            Some(e) => quote_end(l@, j as int) == Some(e as int) && j < e <= l.len(),
            None => quote_end(l@, j as int) is None,
        },
{
    let mut k = j;
    while k < l.len()
        invariant
            j <= k <= l.len(),
            quote_end(l@, j as int) == quote_end(l@, k as int),
        decreases l.len() - k,
    {
        if l[k] == '\\' && k + 1 < l.len() {
            k = k + 2;
        } else if l[k] == '"' {
            return Some(k + 1);
        } else {
            k = k + 1;
        }
    }
    None
}

/// `unclosed_quote` from the start of a line, computed.
fn unclosed_quote_exec(l: &Vec<char>) -> (r: Option<usize>)
    ensures
        match r {
            Some(k) => unclosed_quote(l@, 0) == Some(k as int) && k < l.len(),
            None => unclosed_quote(l@, 0) is None,
        },
{
    let mut i: usize = 0;
    while i < l.len()
        invariant
            i <= l.len(),
            unclosed_quote(l@, 0) == unclosed_quote(l@, i as int),
        decreases l.len() - i,
    {
        if l[i] == '"' {
            match quote_end_exec(l, i + 1) {
                None => {
                    return Some(i);
                },
                Some(e) => {
                    i = e;
                },
            }
        } else if l[i] == '/' && i + 1 < l.len() && l[i + 1] == '/' {
            return None;
        } else {
            i = i + 1;
        }
    }
    None
}

pub open spec fn lines_view(ls: Seq<Vec<char>>) -> Seq<Seq<char>> {
    ls.map_values(|l: Vec<char>| l@)
}

/// Lines no longer in bytes than `isize::MAX`.
pub open spec fn lines_fit(ls: Seq<Seq<char>>) -> bool {
    forall|k: int| 0 <= k < ls.len() ==> utf8_len(#[trigger] ls[k]) <= isize::MAX
}

/// The byte offset of character `k` of a line.
pub(crate) fn byte_col_exec(l: &Vec<char>, k: usize) -> (c: usize)
    requires
        k <= l.len(),
        utf8_len(l@) <= isize::MAX,
    ensures
        c == byte_col(l@, k as int),
        c <= utf8_len(l@),
{
    proof {
        lemma_utf8_len_prefix(l@, k as int);
    }
    utf8_len_exec(l, 0, k)
}

fn detect_unterminated_strings(ls: &Vec<Vec<char>>) -> (r: Vec<LspDiagnostic>)
    requires
        lines_fit(lines_view(ls@)),
    ensures
        diags_view(r@) == string_diags(lines_view(ls@), ls@.len()),
{
    let ghost lv = lines_view(ls@);
    let mut r: Vec<LspDiagnostic> = Vec::new();
    let mut i: usize = 0;
    assert(diags_view(r@) =~= Seq::<SDiagnostic>::empty());
    while i < ls.len()
        invariant
            i <= ls.len(),
            lv == lines_view(ls@),
            lines_fit(lv),
            diags_view(r@) == string_diags(lv, i as nat),
        decreases ls.len() - i,
    {
        let l = &ls[i];
        assert(lv[i as int] == l@);
        assert(utf8_len(lv[i as int]) <= isize::MAX);
        match unclosed_quote_exec(l) {
            Some(k) => {
                let col = byte_col_exec(l, k);
                let end = byte_col_exec(l, l.len());
                assert(l@.subrange(0, l@.len() as int) =~= l@);
                let d = LspDiagnostic {
                    line: i as u32,
                    col: col as u32,
                    end_col: end as u32,
                    severity: Severity::Error,
                    message: String::from_str("Unterminated string literal"),
                    code: None,
                };
                let ghost before = r@;
                r.push(d);
                assert(diags_view(r@) =~= diags_view(before).push(d@));
            },
            None => {},
        }
        i += 1;
    }
    r
}

fn word_char_exec(c: char) -> (r: bool)
    ensures
        r == word_char(c),
{
    is_alnum(c) || c == '_'
}

/// The characters of `"name"`, quoted.
fn quoted_chars(name: &Vec<char>) -> (r: Vec<char>)
    ensures
        r@ == seq!['"'] + name@ + seq!['"'],
{
    let mut r: Vec<char> = Vec::new();
    r.push('"');
    let mut k: usize = 0;
    while k < name.len()
        invariant
            k <= name.len(),
            r@ == seq!['"'] + name@.subrange(0, k as int),
        decreases name.len() - k,
    {
        r.push(name[k]);
        assert(name@.subrange(0, k + 1) =~= name@.subrange(0, k as int).push(name@[k as int]));
        k += 1;
    }
    r.push('"');
    assert(name@.subrange(0, k as int) =~= name@);
    r
}

/// `prefix` followed by the characters of `name`.
pub(crate) fn prefixed(prefix: &str, name: &Vec<char>) -> (r: Vec<char>)
    ensures
        r@ == prefix@ + name@,
{
    let mut r = chars_of(prefix);
    let mut k: usize = 0;
    let ghost p = r@;
    while k < name.len()
        invariant
            k <= name.len(),
            r@ == p + name@.subrange(0, k as int),
        decreases name.len() - k,
    {
        r.push(name[k]);
        assert(name@.subrange(0, k + 1) =~= name@.subrange(0, k as int).push(name@[k as int]));
        k += 1;
    }
    assert(name@.subrange(0, k as int) =~= name@);
    r
}

fn find_ident_in_source(ls: &Vec<Vec<char>>, ident: &Vec<char>, test_name: &Vec<char>) -> (r: Option<
    (usize, usize),
>)
    requires
        lines_fit(lines_view(ls@)),
    ensures
        match r {
            Some((l, c)) => find_ident_from(lines_view(ls@), ident@, test_name@, 0, false) == Some(
                (l as nat, c as nat),
            ) && l < ls.len() && c + utf8_len(ident@) <= utf8_len(ls@[l as int]@),
            None => find_ident_from(lines_view(ls@), ident@, test_name@, 0, false) is None,
        },
{
    let ghost lv = lines_view(ls@);
    let test_word = chars_of("test");
    let quoted = quoted_chars(test_name);
    let mut in_test = false;
    let mut i: usize = 0;
    while i < ls.len()
        invariant
            i <= ls.len(),
            lv == lines_view(ls@),
            lines_fit(lv),
            test_word@ == "test"@,
            quoted@ == seq!['"'] + test_name@ + seq!['"'],
            find_ident_from(lv, ident@, test_name@, 0, false) == find_ident_from(
                lv,
                ident@,
                test_name@,
                i as int,
                in_test,
            ),
        decreases ls.len() - i,
    {
        let l = &ls[i];
        assert(lv[i as int] == l@);
        let now = in_test || (find_exec(l, &test_word).is_some() && find_exec(l, &quoted).is_some());
        let fc = find_exec(l, ident);
        match fc {
            Some(col) => {
                proof {
                    assert(find_from(l@, ident@, 0) == Some(col as int));
                    lemma_find_from(l@, ident@, 0);
                    assert(col + ident@.len() <= l@.len());
                }
                let before_ok = col == 0 || !word_char_exec(l[col - 1]);
                assert(col + ident.len() <= l.len());
                let after: usize = col + ident.len();
                let after_ok = after >= l.len() || !word_char_exec(l[after]);
                if now && before_ok && after_ok {
                    let c = byte_col_exec(l, col);
                    proof {
                        lemma_utf8_sub(l@, col as int, after as int);
                        lemma_utf8_sub(l@, 0, after as int);
                        assert(l@.subrange(0, after as int).subrange(0, col as int) =~= l@.subrange(0, col as int));
                        assert(l@.subrange(0, after as int).subrange(col as int, after as int) =~= l@.subrange(col as int, after as int));
                        lemma_utf8_sub(l@.subrange(0, after as int), col as int, after as int);
                        lemma_utf8_sub(l@, 0, after as int);
                        assert(l@.subrange(0, l@.len() as int) =~= l@);
                    }
                    return Some((i, c));
                }
            },
            None => {},
        }
        in_test = now;
        i += 1;
    }
    None
}

/// The first line that declares the rule: holds `allow name` or `deny name`.
fn rule_line_exec(ls: &Vec<Vec<char>>, allow_pat: &Vec<char>, deny_pat: &Vec<char>, Ghost(name): Ghost<Seq<char>>) -> (r: Option<usize>)
    requires
        allow_pat@ == "allow "@ + name,
        deny_pat@ == "deny "@ + name,
    ensures
        match r {
            Some(s) => rule_line(lines_view(ls@), name, 0) == Some(s as int) && s < ls.len(),
            None => rule_line(lines_view(ls@), name, 0) is None,
        },
{
    let ghost lv = lines_view(ls@);
    let mut i: usize = 0;
    while i < ls.len()
        invariant
            i <= ls.len(),
            lv == lines_view(ls@),
            allow_pat@ == "allow "@ + name,
            deny_pat@ == "deny "@ + name,
            rule_line(lv, name, 0) == rule_line(lv, name, i as int),
        decreases ls.len() - i,
    {
        assert(lv[i as int] == ls@[i as int]@);
        if find_exec(&ls[i], allow_pat).is_some() || find_exec(&ls[i], deny_pat).is_some() {
            return Some(i);
        }
        i += 1;
    }
    None
}

fn find_forall_in_rule(ls: &Vec<Vec<char>>, rule_name: &str, forall_path: Option<&str>) -> (r: Option<
    (usize, usize, usize),
>)
    requires
        lines_fit(lines_view(ls@)),
    ensures
        match r {
            Some((l, c, e)) => forall_pos(
                lines_view(ls@),
                rule_name@,
                match forall_path {
                    Some(p) => Some(p@),
                    None => None,
                },
            ) == Some((l as nat, c as nat, e as nat)),
            None => forall_pos(
                lines_view(ls@),
                rule_name@,
                match forall_path {
                    Some(p) => Some(p@),
                    None => None,
                },
            ) is None,
        },
{
    let ghost lv = lines_view(ls@);
    let ghost path = match forall_path {
        Some(p) => Some(p@),
        None => None,
    };
    let name = chars_of(rule_name);
    let allow_pat = prefixed("allow ", &name);
    let deny_pat = prefixed("deny ", &name);
    let s = match rule_line_exec(ls, &allow_pat, &deny_pat, Ghost(rule_name@)) {
        Some(s) => s,
        None => {
            return None;
        },
    };
    let forall_word = chars_of("forall");
    let path_chars = match forall_path {
        Some(p) => Some(chars_of(p)),
        None => None,
    };
    let mut k = s;
    while k < ls.len()
        invariant
            s <= k <= ls.len(),
            lv == lines_view(ls@),
            lines_fit(lv),
            forall_word@ == "forall"@,
            path == (match forall_path {
                Some(p) => Some(p@),
                None => None,
            }),
            rule_line(lv, rule_name@, 0) == Some(s as int),
            match path_chars {
                Some(pc) => path == Some(pc@),
                None => path is None,
            },
            forall_from(lv, path, s as int) == forall_from(lv, path, k as int),
        decreases ls.len() - k,
    {
        let l = &ls[k];
        assert(lv[k as int] == l@);
        let fc = find_exec(l, &forall_word);
        match fc {
            Some(col) => {
                proof {
                    assert(find_from(l@, "forall"@, 0) == Some(col as int));
                    lemma_find_from(l@, "forall"@, 0);
                }
                let skip = match &path_chars {
                    Some(pc) => find_exec(l, pc).is_none(),
                    None => false,
                };
                if !skip {
                    let c = byte_col_exec(l, col);
                    return Some((k, c, c + 6));
                }
            },
            None => {},
        }
        k += 1;
    }
    None
}

fn parse_error_to_diagnostic(e: &ParseError) -> (d: LspDiagnostic)
    ensures
        d@ == error_diag(e@),
{
    let line = if e.line > 0 {
        e.line - 1
    } else {
        0
    };
    let col = if e.column > 0 {
        e.column - 1
    } else {
        0
    };
    LspDiagnostic {
        line: line as u32,
        col: col as u32,
        end_col: (col + 1) as u32,
        severity: Severity::Error,
        message: e.message.clone(),
        code: None,
    }
}

/// Whether some rule of the program is named `name`.
fn has_rule_exec(rules: &Vec<RuleAst>, name: &str) -> (r: bool)
    ensures
        r == has_rule(rules@, name@),
{
    let mut i: usize = 0;
    while i < rules.len()
        invariant
            i <= rules.len(),
            forall|j: int| 0 <= j < i ==> rules@[j].name@ != name@,
        decreases rules.len() - i,
    {
        if str_eq(rules[i].name.as_str(), name) {
            return true;
        }
        i += 1;
    }
    false
}

/// The diagnostics of a Karu source, its numbers read by `numbers`: those of
/// `diagnostics_of` for what the source parses to with its tests. `None`
/// when `numbers` lacks the reading of a number that the source holds.
pub fn parse_diagnostics(source: &str, numbers: Vec<(String, NumberReading)>) -> (r: Option<Vec<LspDiagnostic>>)
    requires
        utf8_len(source@) <= isize::MAX,
    ensures
        match r {
            Some(d) => exists|p: Result<Program, ParseError>|
                source_program(source@, readings_view(numbers@), true) == Some(parsed_view(p))
                    && diags_view(d@) == #[trigger] diagnostics_spec(source@, p),
            None => source_program(source@, readings_view(numbers@), true) is None,
        },
{
    proof {
        lemma_utf8_len_ge(source@);
    }
    match parse_source(source, numbers, true) {
        Some(p) => Some(diagnostics_of(source, &p)),
        None => None,
    }
}

/// The diagnostics of a Karu source, given how it parsed with its tests:
/// unterminated string literals alone when there are any, else the parse
/// error, else expect entries that name no rule and the lint warnings, at
/// most five in all. Lines and columns are 0-based; columns count bytes.
pub fn diagnostics_of(source: &str, parsed: &Result<Program, ParseError>) -> (r: Vec<LspDiagnostic>)
    requires
        utf8_len(source@) <= isize::MAX,
    ensures
        diags_view(r@) == diagnostics_spec(source@, *parsed),
{
    let cs = chars_of(source);
    let ls = lines_exec(&cs);
    let ghost lv = lines_of(cs@);
    proof {
        assert(lines_view(ls@) == lv);
        lemma_lines_utf8(cs@, 0);
        assert forall|k: int| 0 <= k < lv.len() implies utf8_len(#[trigger] lv[k]) <= isize::MAX by {
        }
    }
    let sd = detect_unterminated_strings(&ls);
    if sd.len() > 0 {
        return sd;
    }
    let program = match parsed {
        Err(e) => {
            let d = parse_error_to_diagnostic(e);
            let v = vec![d];
            assert(diags_view(v@) =~= seq![d@]);
            return v;
        },
        Ok(p) => p,
    };
    let mut diags: Vec<LspDiagnostic> = Vec::new();
    assert(diags_view(diags@) =~= Seq::<SDiagnostic>::empty());
    let mut t: usize = 0;
    while t < program.tests.len()
        invariant
            t <= program.tests.len(),
            lv == lines_view(ls@),
            lines_fit(lv),
            diags_view(diags@) == test_diags(lv, program.rules@, program.tests@, t as nat),
        decreases program.tests.len() - t,
    {
        match &program.tests[t].expected {
            ExpectedOutcome::PerRule(es) => {
                let tn = chars_of(program.tests[t].name.as_str());
                let ghost base = diags_view(diags@);
                let mut k: usize = 0;
                while k < es.len()
                    invariant
                        k <= es.len(),
                        lv == lines_view(ls@),
                        lines_fit(lv),
                        tn@ == program.tests@[t as int].name@,
                        diags_view(diags@) == base + entry_diags(
                            lv,
                            program.rules@,
                            program.tests@[t as int].name@,
                            es@,
                            k as nat,
                        ),
                    decreases es.len() - k,
                {
                    let name = es[k].1.as_str();
                    if !has_rule_exec(&program.rules, name) {
                        let nc = chars_of(name);
                        match find_ident_in_source(&ls, &nc, &tn) {
                            Some((l, c)) => {
                                proof {
                                    assert(lv[l as int] == ls@[l as int]@);
                                    lemma_utf8_len_prefix(nc@, nc@.len() as int);
                                    assert(nc@.subrange(0, nc@.len() as int) =~= nc@);
                                }
                                let nb = utf8_len_exec(&nc, 0, nc.len());
                                let mut m = String::from_str("Unknown rule '");
                                m.append(name);
                                m.append("' in expect block");
                                let d = LspDiagnostic {
                                    line: l as u32,
                                    col: c as u32,
                                    end_col: (c + nb) as u32,
                                    severity: Severity::Error,
                                    message: m,
                                    code: None,
                                };
                                let ghost before = diags@;
                                diags.push(d);
                                assert(diags_view(diags@) =~= diags_view(before).push(d@));
                            },
                            None => {},
                        }
                    }
                    k += 1;
                }
            },
            ExpectedOutcome::Simple(_) => {},
        }
        t += 1;
    }
    let warnings = lint(program);
    let ghost ws = program_warnings(program.rules@, program.rules@.len());
    let ghost base = diags_view(diags@);
    let mut w: usize = 0;
    while w < warnings.len()
        invariant
            w <= warnings.len(),
            lv == lines_view(ls@),
            lines_fit(lv),
            warnings_view(warnings@) == ws,
            diags_view(diags@) == base + ws.take(w as int).map_values(|x: SLintWarning| lint_diag(lv, x)),
        decreases warnings.len() - w,
    {
        let wr = &warnings[w];
        assert(ws[w as int] == wr@);
        let fp = match &wr.forall_path {
            Some(p) => Some(p.as_str()),
            None => None,
        };
        let (l, c, e) = match find_forall_in_rule(&ls, wr.rule_name.as_str(), fp) {
            Some(x) => x,
            None => (0, 0, 6),
        };
        let d = LspDiagnostic {
            line: l as u32,
            col: c as u32,
            end_col: e as u32,
            severity: Severity::Warning,
            message: wr.message.clone(),
            code: Some(String::from_str(wr.code)),
        };
        let ghost before = diags@;
        diags.push(d);
        assert(ws.take(w + 1) =~= ws.take(w as int).push(ws[w as int]));
        assert(diags_view(diags@) =~= diags_view(before).push(d@));
        assert(diags_view(diags@) =~= base + ws.take(w + 1).map_values(|x: SLintWarning| lint_diag(lv, x)));
        w += 1;
    }
    assert(ws.take(w as int) =~= ws);
    diags.truncate(5);
    diags
}


// ----------------------------------------------------------------------------
// Semantic tokens
// ----------------------------------------------------------------------------

/// Semantic token types used by the Karu LSP.
#[derive(Debug, Clone, Copy, PartialEq, Eq, Structural)]
pub enum SemanticTokenType {
    Keyword,
    Function,
    Variable,
    Property,
    Operator,
    String,
    Number,
    Comment,
}

/// A semantic token with position and type info.
#[derive(Debug, Clone, Copy, PartialEq, Eq, Structural)]
pub struct SemanticToken {
    /// 0-indexed line number.
    pub line: u32,
    /// 0-indexed start column.
    pub start: u32,
    pub length: u32,
    pub token_type: SemanticTokenType,
}

/// The semantic type of a token, if it has one: keywords, the schema words
/// that are also request variables, identifiers, literals, comparison
/// operators and comments.
pub open spec fn semantic_type(t: Token, text: Seq<char>) -> Option<SemanticTokenType> {
    match t {
        Token::Allow | Token::Deny | Token::If | Token::And | Token::Or | Token::Not | Token::In
        | Token::Forall | Token::Exists | Token::True | Token::False | Token::Null | Token::Use
        | Token::Schema | Token::Mod | Token::Assert | Token::Import | Token::On | Token::Is
        | Token::Test | Token::Expect => Some(SemanticTokenType::Keyword),
        Token::Actor | Token::Resource | Token::Action => Some(SemanticTokenType::Variable),
        Token::Ident => if text == "principal"@ || text == "context"@ {
            Some(SemanticTokenType::Variable)
        } else {
            Some(SemanticTokenType::Property)
        },
        Token::Str => Some(SemanticTokenType::String),
        Token::Number => Some(SemanticTokenType::Number),
        Token::Eq | Token::Ne | Token::Lt | Token::Gt | Token::Le | Token::Ge => Some(
            SemanticTokenType::Operator,
        ),
        Token::Comment => Some(SemanticTokenType::Comment),
        _ => None,
    }
}

/// The length of a token written as a fixed word or symbol.
pub open spec fn word_length(t: Token) -> nat {
    match t {
        Token::Allow => 5,
        Token::Deny => 4,
        Token::If => 2,
        Token::And => 3,
        Token::Or => 2,
        Token::Not => 3,
        Token::In => 2,
        Token::Forall => 6,
        Token::Exists => 6,
        Token::Has => 3,
        Token::Like => 4,
        Token::True => 4,
        Token::False => 5,
        Token::Null => 4,
        Token::Use => 3,
        Token::Schema => 6,
        Token::Mod => 3,
        Token::Actor => 5,
        Token::Resource => 8,
        Token::Action => 6,
        Token::Assert => 6,
        Token::Abstract => 8,
        Token::Import => 6,
        Token::On => 2,
        Token::Is => 2,
        Token::Test => 4,
        Token::Expect => 6,
        Token::Eq | Token::Ne | Token::Le | Token::Ge => 2,
        _ => 1,
    }
}

/// The number of UTF-8 bytes of `s`, as a `usize`.
pub open spec fn byte_len(s: Seq<char>) -> nat {
    (encode_utf8(s).len() as usize) as nat
}

/// The low 32 bits of `n`.
pub open spec fn low32(n: nat) -> u32 {
    (n % 0x1_0000_0000) as u32
}

/// The length of a token: the bytes of an identifier, of a string with its
/// quotes, of a comment with its `// ` and of how a number prints; `None`
/// for a number without a reading.
pub open spec fn token_length(t: SSpanned, nums: Seq<(Seq<char>, SReading)>) -> Option<u32> {
    match t.token {
        Token::Ident => Some(low32(byte_len(t.text))),
        Token::Str => Some(low32(byte_len(t.text) + 2)),
        Token::Comment => Some(low32(byte_len(t.text) + 3)),
        Token::Number => match reading(nums, t.text) {
            Some(r) => Some(low32(byte_len(r.display))),
            None => None,
        },
        _ => Some(word_length(t.token) as u32),
    }
}

/// The semantic token of one lexed token: none for a token without a
/// semantic type; `None` for a number without a reading.
pub open spec fn semantic_of(t: SSpanned, nums: Seq<(Seq<char>, SReading)>) -> Option<Seq<SemanticToken>> {
    match semantic_type(t.token, t.text) {
        None => Some(Seq::empty()),
        Some(tt) => match token_length(t, nums) {
            None => None,
            Some(length) => Some(
                seq![
                    SemanticToken {
                        line: (t.line - 1) as u32,
                        start: (t.column - 1) as u32,
                        length,
                        token_type: tt,
                    },
                ],
            ),
        },
    }
}

/// `a` before what `o` holds.
pub open spec fn prepend(a: Seq<SemanticToken>, o: Option<Seq<SemanticToken>>) -> Option<Seq<SemanticToken>> {
    match o {
        Some(b) => Some(a + b),
        None => None,
    }
}

/// The semantic tokens of the source from index `i`, read until the end or
/// the first lexer error.
pub open spec fn semantic_from(cs: Seq<char>, i: int, nums: Seq<(Seq<char>, SReading)>) -> Option<
    Seq<SemanticToken>,
>
    decreases cs.len() - i,
{
    if !(0 <= i <= cs.len()) {
        Some(Seq::empty())
    } else {
        match next_spec(cs, i) {
            Err(_) => Some(Seq::empty()),
            Ok((t, e)) => if t.token == Token::Eof || !(i < e <= cs.len()) {
                Some(Seq::empty())
            } else {
                match semantic_of(t, nums) {
                    None => None,
                    Some(a) => prepend(a, semantic_from(cs, e, nums)),
                }
            },
        }
    }
}

/// The semantic type of a token, computed.
fn semantic_type_exec(t: Token, text: &str) -> (r: Option<SemanticTokenType>)
    ensures
        r == semantic_type(t, text@),
{
    match t {
        Token::Allow | Token::Deny | Token::If | Token::And | Token::Or | Token::Not | Token::In
        | Token::Forall | Token::Exists | Token::True | Token::False | Token::Null | Token::Use
        | Token::Schema | Token::Mod | Token::Assert | Token::Import | Token::On | Token::Is
        | Token::Test | Token::Expect => Some(SemanticTokenType::Keyword),
        Token::Actor | Token::Resource | Token::Action => Some(SemanticTokenType::Variable),
        Token::Ident => if str_eq(text, "principal") || str_eq(text, "context") {
            Some(SemanticTokenType::Variable)
        } else {
            Some(SemanticTokenType::Property)
        },
        Token::Str => Some(SemanticTokenType::String),
        Token::Number => Some(SemanticTokenType::Number),
        Token::Eq | Token::Ne | Token::Lt | Token::Gt | Token::Le | Token::Ge => Some(
            SemanticTokenType::Operator,
        ),
        Token::Comment => Some(SemanticTokenType::Comment),
        _ => None,
    }
}

/// The low 32 bits of `n + extra`.
pub(crate) fn low32_plus(n: usize, extra: u64) -> (r: u32)
    requires
        extra < 16,
    ensures
        r == low32((n + extra) as nat),
{
    let m: u64 = (n as u64) % 0x1_0000_0000;
    proof {
        vstd::arithmetic::div_mod::lemma_add_mod_noop(n as int, extra as int, 0x1_0000_0000);
        vstd::arithmetic::div_mod::lemma_small_mod(extra as nat, 0x1_0000_0000);
    }
    ((m + extra) % 0x1_0000_0000) as u32
}

/// The length of a token, computed.
fn token_length_exec(t: &Spanned, numbers: &Vec<(String, NumberReading)>) -> (r: Option<u32>)
    ensures
        r == token_length(t@, readings_view(numbers@)),
{
    match t.token {
        Token::Ident => Some(low32_plus(t.text.as_str().len(), 0)),
        Token::Str => Some(low32_plus(t.text.as_str().len(), 2)),
        Token::Comment => Some(low32_plus(t.text.as_str().len(), 3)),
        Token::Number => match find_reading(numbers, t.text.as_str()) {
            Some(r) => Some(low32_plus(r.display.as_str().len(), 0)),
            None => None,
        },
        Token::Allow => Some(5),
        Token::Deny => Some(4),
        Token::If => Some(2),
        Token::And => Some(3),
        Token::Or => Some(2),
        Token::Not => Some(3),
        Token::In => Some(2),
        Token::Forall => Some(6),
        Token::Exists => Some(6),
        Token::Has => Some(3),
        Token::Like => Some(4),
        Token::True => Some(4),
        Token::False => Some(5),
        Token::Null => Some(4),
        Token::Use => Some(3),
        Token::Schema => Some(6),
        Token::Mod => Some(3),
        Token::Actor => Some(5),
        Token::Resource => Some(8),
        Token::Action => Some(6),
        Token::Assert => Some(6),
        Token::Abstract => Some(8),
        Token::Import => Some(6),
        Token::On => Some(2),
        Token::Is => Some(2),
        Token::Test => Some(4),
        Token::Expect => Some(6),
        Token::Eq | Token::Ne | Token::Le | Token::Ge => Some(2),
        _ => Some(1),
    }
}

/// The semantic tokens of a Karu source, comments included, read until the
/// end or the first lexer error; its numbers are measured by how `numbers`
/// prints them. `None` when a number read has no entry in `numbers`.
pub fn semantic_tokens(source: &str, numbers: &Vec<(String, NumberReading)>) -> (r: Option<Vec<SemanticToken>>)
    requires
        source@.len() < usize::MAX,
    ensures
        match r {
            Some(v) => semantic_from(source@, 0, readings_view(numbers@)) == Some(v@),
            None => semantic_from(source@, 0, readings_view(numbers@)) is None,
        },
{
    let ghost cs = source@;
    let ghost nums = readings_view(numbers@);
    let mut lexer = Lexer::new(source);
    let mut result: Vec<SemanticToken> = Vec::new();
    loop
        invariant
            lexer.wf(),
            lexer.source() == cs,
            cs == source@,
            nums == readings_view(numbers@),
            semantic_from(cs, 0, nums) == prepend(result@, semantic_from(cs, lexer.position(), nums)),
        decreases cs.len() - lexer.position(),
    {
        let ghost p0 = lexer.position();
        proof {
            lexer.lemma_wf();
            lemma_next_end(cs, p0);
        }
        match lexer.next_spanned() {
            Err(_) => {
                assert(result@ + Seq::<SemanticToken>::empty() =~= result@);
                return Some(result);
            },
            Ok(t) => {
                if t.token == Token::Eof {
                    assert(result@ + Seq::<SemanticToken>::empty() =~= result@);
                    return Some(result);
                }
                match semantic_type_exec(t.token, t.text.as_str()) {
                    None => {
                        assert(Seq::<SemanticToken>::empty() + result@ =~= result@);
                        assert(semantic_of(t@, nums) == Some(Seq::<SemanticToken>::empty()));
                        proof {
                            let rest = semantic_from(cs, lexer.position(), nums);
                            if let Some(b) = rest {
                                assert(Seq::<SemanticToken>::empty() + b =~= b);
                            }
                        }
                    },
                    Some(tt) => match token_length_exec(&t, numbers) {
                        None => {
                            return None;
                        },
                        Some(length) => {
                            let st = SemanticToken {
                                line: (t.line - 1) as u32,
                                start: (t.column - 1) as u32,
                                length,
                                token_type: tt,
                            };
                            let ghost before = result@;
                            result.push(st);
                            proof {
                                let rest = semantic_from(cs, lexer.position(), nums);
                                if let Some(b) = rest {
                                    assert(before + (seq![st] + b) =~= result@ + b);
                                }
                            }
                        },
                    },
                }
            },
        }
    }
}

} // verus!
