//! Editor support for Cedar policy files: diagnostics from the Cedar parser
//! and the import into Karu, and an outline with one symbol per policy.
use vstd::prelude::*;
use crate::lsp_core::{
    LspDiagnostic, SDiagnostic, Severity, diags_view, byte_len, low32, low32_plus, byte_col, byte_col_exec,
    prefixed, lines_view, lines_fit,
};
use crate::ast::SRule;
use crate::karu_parser::{NumberReading, parse_source, source_program, readings_view};
use crate::karu_syntax::SReading;
use crate::cedar_parser::{parse, CedarEffect, SPolicy};
use crate::cedar_syntax::parse_spec;
use crate::cedar_import::{from_cedar, policy_name};
use crate::cedar_translation::{import_program, rule_name};
use crate::text::{
    chars_of, lines_exec, lines_of, contains_seq, find_exec, find_from, string_of, utf8_len, utf8_len_exec,
    lemma_find_from, lemma_utf8_sub, lemma_utf8_add, lemma_lines_utf8, lemma_utf8_len_ge, letter_or_digit,
    is_alphanumeric,
};
use crate::json::str_eq;
use crate::lsp_core::{SemanticToken, SemanticTokenType};
use crate::text::push_char;
use vstd::utf8::encode_utf8;

verus! {

// ----------------------------------------------------------------------------
// Diagnostics
// ----------------------------------------------------------------------------

/// `n - 1`, or 0 for 0.
pub open spec fn sat_dec(n: nat) -> nat {
    if n > 0 {
        (n - 1) as nat
    } else {
        0
    }
}

/// The diagnostics of a Cedar policy file: a Cedar parse error at its
/// 0-based position, spanning ten more columns; else a warning on the line
/// of an import error, if the import into Karu fails; else none.
pub open spec fn cedar_diagnostics_spec(cs: Seq<char>) -> Seq<SDiagnostic> {
    match parse_spec(cs) {
        Err(e) => seq![
            SDiagnostic {
                line: sat_dec(e.line) as u32,
                col: sat_dec(e.column) as u32,
                end_col: low32(e.column + 10),
                severity: Severity::Error,
                message: e.message,
                code: None,
            },
        ],
        Ok(_) => match import_program(cs) {
            Ok(_) => Seq::empty(),
            Err(e) => seq![
                SDiagnostic {
                    line: match e.line {
                        Some(l) => sat_dec(l) as u32,
                        None => 0,
                    },
                    col: 0,
                    end_col: 80,
                    severity: Severity::Warning,
                    message: "Karu import: "@ + e.message,
                    code: None,
                },
            ],
        },
    }
}

/// Diagnostics for a Cedar policy file.
pub fn cedar_parse_diagnostics(source: &str) -> (r: Vec<LspDiagnostic>)
    requires
        source@.len() < usize::MAX,
    ensures
        diags_view(r@) == cedar_diagnostics_spec(source@),
{
    match parse(source) {
        Ok(_) => match from_cedar(source) {
            Ok(_) => {
                let r: Vec<LspDiagnostic> = Vec::new();
                assert(diags_view(r@) =~= Seq::<SDiagnostic>::empty());
                r
            },
            Err(e) => {
                let line: u32 = match e.line {
                    Some(l) => if l > 0 {
                        (l - 1) as u32
                    } else {
                        0
                    },
                    None => 0,
                };
                let mut message = String::from_str("Karu import: ");
                message.append(e.message.as_str());
                let d = LspDiagnostic {
                    line,
                    col: 0,
                    end_col: 80,
                    severity: Severity::Warning,
                    message,
                    code: None,
                };
                let r = vec![d];
                assert(diags_view(r@) =~= seq![d@]);
                r
            },
        },
        Err(e) => {
            let line: u32 = if e.line > 0 {
                (e.line - 1) as u32
            } else {
                0
            };
            let col: u32 = if e.column > 0 {
                (e.column - 1) as u32
            } else {
                0
            };
            let d = LspDiagnostic {
                line,
                col,
                end_col: low32_plus(e.column, 10),
                severity: Severity::Error,
                message: e.message,
                code: None,
            };
            let r = vec![d];
            assert(diags_view(r@) =~= seq![d@]);
            r
        },
    }
}

// ----------------------------------------------------------------------------
// Outline
// ----------------------------------------------------------------------------

/// A position in a document: 0-based line and character.
#[derive(Debug, Clone, Copy, PartialEq, Eq, Structural)]
pub struct Position {
    pub line: u32,
    pub character: u32,
}

/// A range in a document.
#[derive(Debug, Clone, Copy, PartialEq, Eq, Structural)]
pub struct Range {
    pub start: Position,
    pub end: Position,
}

/// The kind of an outline symbol.
#[derive(Debug, Clone, Copy, PartialEq, Eq, Structural)]
pub enum SymbolKind {
    Function,
    Method,
    Namespace,
    Module,
    Constant,
    Class,
    Struct,
    Event,
    Interface,
}

/// A symbol of the document outline.
#[derive(Debug)]
pub struct DocumentSymbol {
    pub name: String,
    pub detail: Option<String>,
    pub kind: SymbolKind,
    pub range: Range,
    pub selection_range: Range,
    /// The symbols nested under this one.
    pub children: Option<Vec<DocumentSymbol>>,
}

pub struct SSymbol {
    pub name: Seq<char>,
    pub detail: Option<Seq<char>>,
    pub kind: SymbolKind,
    pub range: Range,
    pub selection_range: Range,
    pub children: Option<Seq<SSymbol>>,
}

pub open spec fn symbol_view(s: DocumentSymbol) -> SSymbol
    decreases s, 0nat,
{
    SSymbol {
        name: s.name@,
        detail: match s.detail {
            Some(d) => Some(d@),
            None => None,
        },
        kind: s.kind,
        range: s.range,
        selection_range: s.selection_range,
        children: match s.children {
            Some(v) => Some(symbols_upto(v@, v@.len())),
            None => None,
        },
    }
}

/// The contents of the first `n` symbols of `v`.
pub open spec fn symbols_upto(v: Seq<DocumentSymbol>, n: nat) -> Seq<SSymbol>
    decreases v, n,
{
    if n == 0 || n > v.len() {
        Seq::empty()
    } else {
        symbols_upto(v, (n - 1) as nat).push(symbol_view(v[n - 1]))
    }
}

impl View for DocumentSymbol {
    type V = SSymbol;

    open spec fn view(&self) -> SSymbol {
        symbol_view(*self)
    }
}

pub proof fn lemma_symbols_upto(v: Seq<DocumentSymbol>, n: nat)
    requires
        n <= v.len(),
    ensures
        symbols_upto(v, n) == symbols_view(v.take(n as int)),
    decreases n,
{
    if n > 0 {
        lemma_symbols_upto(v, (n - 1) as nat);
        assert(v.take(n as int).drop_last() =~= v.take(n - 1));
        assert(symbols_view(v.take(n as int)) =~= symbols_view(v.take(n - 1)).push(v[n - 1]@));
    } else {
        assert(symbols_view(v.take(0)) =~= Seq::<SSymbol>::empty());
    }
}

pub open spec fn symbols_view(v: Seq<DocumentSymbol>) -> Seq<SSymbol> {
    v.map_values(|s: DocumentSymbol| s@)
}

/// Whether `a` comes before `b`.
pub open spec fn pos_lt(a: Position, b: Position) -> bool {
    a.line < b.line || (a.line == b.line && a.character < b.character)
}

/// The selection range `s` brought inside the range `r`: its start and end
/// clamped to `r`, and its end no earlier than its start.
pub open spec fn clamp(r: Range, s: Range) -> Range {
    let s1 = if pos_lt(s.start, r.start) {
        Range { start: r.start, ..s }
    } else {
        s
    };
    let s2 = if pos_lt(r.end, s1.end) {
        Range { end: r.end, ..s1 }
    } else {
        s1
    };
    if pos_lt(s2.end, s2.start) {
        Range { end: s2.start, ..s2 }
    } else {
        s2
    }
}

/// The word of a policy effect.
pub open spec fn effect_text(e: CedarEffect) -> Seq<char> {
    match e {
        CedarEffect::Permit => "permit"@,
        CedarEffect::Forbid => "forbid"@,
    }
}

/// The first line from `i` on that holds the effect word and `principal`
/// or `(`.
pub open spec fn policy_line(ls: Seq<Seq<char>>, eff: Seq<char>, i: int) -> Option<int>
    decreases ls.len() - i,
{
    if i < 0 || i >= ls.len() {
        None
    } else if contains_seq(ls[i], eff) && (contains_seq(ls[i], "principal"@) || contains_seq(ls[i], "("@)) {
        Some(i)
    } else {
        policy_line(ls, eff, i + 1)
    }
}

/// The outline symbol of the policy `p` at index `i`: named as its rule
/// would be, on the first line that looks like the start of a policy with
/// its effect (or line 0).
pub open spec fn cedar_symbol(ls: Seq<Seq<char>>, p: SPolicy, i: nat) -> SSymbol {
    let name = rule_name(p, i);
    let eff = effect_text(p.effect);
    let (fl, fe) = match policy_line(ls, eff, 0) {
        Some(k) => (k as u32, byte_len(ls[k]) as u32),
        None => (0u32, 0u32),
    };
    let range = Range {
        start: Position { line: fl, character: 0 },
        end: Position { line: fl, character: fe },
    };
    SSymbol {
        name,
        detail: Some(eff + " policy"@),
        kind: SymbolKind::Function,
        range,
        selection_range: clamp(
            range,
            Range {
                start: Position { line: fl, character: 0 },
                end: Position { line: fl, character: byte_len(name) as u32 },
            },
        ),
        children: None,
    }
}

/// The outline of a Cedar policy file: one symbol per policy, none when the
/// file does not parse.
pub open spec fn cedar_symbols_spec(cs: Seq<char>) -> Seq<SSymbol> {
    match parse_spec(cs) {
        Err(_) => Seq::empty(),
        Ok(ps) => Seq::new(ps.len(), |i: int| cedar_symbol(lines_of(cs), ps[i], i as nat)),
    }
}

fn pos_lt_exec(a: Position, b: Position) -> (r: bool)
    ensures
        r == pos_lt(a, b),
{
    a.line < b.line || (a.line == b.line && a.character < b.character)
}

pub(crate) fn clamp_exec(r: Range, s: Range) -> (c: Range)
    ensures
        c == clamp(r, s),
{
    let s1 = if pos_lt_exec(s.start, r.start) {
        Range { start: r.start, end: s.end }
    } else {
        s
    };
    let s2 = if pos_lt_exec(r.end, s1.end) {
        Range { start: s1.start, end: r.end }
    } else {
        s1
    };
    if pos_lt_exec(s2.end, s2.start) {
        Range { start: s2.start, end: s2.start }
    } else {
        s2
    }
}

/// `policy_line` from line 0, computed.
fn policy_line_exec(ls: &Vec<Vec<char>>, eff: &Vec<char>, Ghost(lv): Ghost<Seq<Seq<char>>>) -> (r: Option<usize>)
    requires
        lv == ls@.map_values(|l: Vec<char>| l@),
    ensures
        match r {
            Some(k) => policy_line(lv, eff@, 0) == Some(k as int) && k < ls.len(),
            None => policy_line(lv, eff@, 0) is None,
        },
{
    let principal = chars_of("principal");
    let paren = chars_of("(");
    let mut i: usize = 0;
    while i < ls.len()
        invariant
            i <= ls.len(),
            lv == ls@.map_values(|l: Vec<char>| l@),
            principal@ == "principal"@,
            paren@ == "("@,
            policy_line(lv, eff@, 0) == policy_line(lv, eff@, i as int),
        decreases ls.len() - i,
    {
        assert(lv[i as int] == ls@[i as int]@);
        if find_exec(&ls[i], eff).is_some() && (find_exec(&ls[i], &principal).is_some() || find_exec(
            &ls[i],
            &paren,
        ).is_some()) {
            return Some(i);
        }
        i += 1;
    }
    None
}

/// The outline of a Cedar policy file: one symbol per policy, named by its
/// `@id` annotation or `policy_<index>`; none when the file does not parse.
pub fn cedar_document_symbols(source: &str) -> (r: Vec<DocumentSymbol>)
    requires
        source@.len() < usize::MAX,
    ensures
        symbols_view(r@) == cedar_symbols_spec(source@),
{
    let policy_set = match parse(source) {
        Ok(ps) => ps,
        Err(_) => {
            let r: Vec<DocumentSymbol> = Vec::new();
            assert(symbols_view(r@) =~= Seq::<SSymbol>::empty());
            return r;
        },
    };
    let ghost ps = parse_spec(source@)->Ok_0;
    let cs = chars_of(source);
    let ls = lines_exec(&cs);
    let ghost lv = lines_of(cs@);
    let mut symbols: Vec<DocumentSymbol> = Vec::new();
    let mut i: usize = 0;
    while i < policy_set.policies.len()
        invariant
            i <= policy_set.policies.len(),
            ps == policy_set@,
            ps.len() == policy_set.policies.len(),
            lv == ls@.map_values(|l: Vec<char>| l@),
            lv == lines_of(source@),
            symbols@.len() == i,
            forall|j: int| 0 <= j < i ==> #[trigger] symbols@[j]@ == cedar_symbol(lv, ps[j], j as nat),
        decreases policy_set.policies.len() - i,
    {
        let policy = &policy_set.policies[i];
        assert(ps[i as int] == policy@);
        let name = policy_name(policy, i);
        let eff: &str = match policy.effect {
            CedarEffect::Permit => "permit",
            CedarEffect::Forbid => "forbid",
        };
        assert(eff@ == effect_text(policy@.effect));
        let eff_chars = chars_of(eff);
        let (fl, fe): (u32, u32) = match policy_line_exec(&ls, &eff_chars, Ghost(lv)) {
            Some(k) => {
                assert(lv[k as int] == ls@[k as int]@);
                let line = string_of(&ls[k], 0, ls[k].len());
                assert(ls@[k as int]@.subrange(0, ls@[k as int]@.len() as int) =~= ls@[k as int]@);
                (k as u32, line.as_str().len() as u32)
            },
            None => (0, 0),
        };
        let range = Range {
            start: Position { line: fl, character: 0 },
            end: Position { line: fl, character: fe },
        };
        let name_len = name.as_str().len() as u32;
        let selection = clamp_exec(
            range,
            Range {
                start: Position { line: fl, character: 0 },
                end: Position { line: fl, character: name_len },
            },
        );
        let mut detail = String::from_str(eff);
        detail.append(" policy");
        symbols.push(
            DocumentSymbol {
                name,
                detail: Some(detail),
                kind: SymbolKind::Function,
                range,
                selection_range: selection,
                children: None,
            },
        );
        i += 1;
    }
    assert(symbols_view(symbols@) =~= cedar_symbols_spec(source@));
    symbols
}


// ----------------------------------------------------------------------------
// Rule locations
// ----------------------------------------------------------------------------

/// Where a rule is defined: its name, 0-based line, and the byte columns
/// where its name starts and ends.
#[derive(Debug)]
pub struct RuleLocation {
    pub name: String,
    pub line: u32,
    pub column: u32,
    pub end_column: u32,
}

pub struct SRuleLocation {
    pub name: Seq<char>,
    pub line: u32,
    pub column: u32,
    pub end_column: u32,
}

impl View for RuleLocation {
    type V = SRuleLocation;

    open spec fn view(&self) -> SRuleLocation {
        SRuleLocation { name: self.name@, line: self.line, column: self.column, end_column: self.end_column }
    }
}

pub open spec fn locations_view(v: Seq<RuleLocation>) -> Seq<SRuleLocation> {
    v.map_values(|l: RuleLocation| l@)
}

/// The location of rule `name` at byte column `col` of line `i`.
pub open spec fn loc_at(name: Seq<char>, i: int, col: nat) -> SRuleLocation {
    SRuleLocation { name, line: i as u32, column: col as u32, end_column: (col + utf8_len(name)) as u32 }
}

/// The first line from `i` on that holds `allow name` (or else, on the same
/// line, `deny name`), and the name's place there.
pub open spec fn rule_loc_from(ls: Seq<Seq<char>>, name: Seq<char>, i: int) -> Option<SRuleLocation>
    decreases ls.len() - i,
{
    if i < 0 || i >= ls.len() {
        None
    } else {
        match find_from(ls[i], "allow "@ + name, 0) {
            Some(k) => Some(loc_at(name, i, byte_col(ls[i], k) + 6)),
            None => match find_from(ls[i], "deny "@ + name, 0) {
                Some(k) => Some(loc_at(name, i, byte_col(ls[i], k) + 5)),
                None => rule_loc_from(ls, name, i + 1),
            },
        }
    }
}

/// The locations of the first `n` rules that some line declares.
pub open spec fn locations_upto(ls: Seq<Seq<char>>, rules: Seq<SRule>, n: nat) -> Seq<SRuleLocation>
    decreases n,
{
    if n == 0 || n > rules.len() {
        Seq::empty()
    } else {
        locations_upto(ls, rules, (n - 1) as nat) + match rule_loc_from(ls, rules[n - 1].name, 0) {
            Some(l) => seq![l],
            None => Seq::empty(),
        }
    }
}

/// The rule locations of a Karu source, its numbers read by `nums`: none
/// when it does not parse; `None` when a number has no reading.
pub open spec fn rule_locations_spec(cs: Seq<char>, nums: Seq<(Seq<char>, SReading)>) -> Option<
    Seq<SRuleLocation>,
> {
    match source_program(cs, nums, false) {
        None => None,
        Some(Err(_)) => Some(Seq::empty()),
        Some(Ok(p)) => Some(locations_upto(lines_of(cs), p.rules, p.rules.len())),
    }
}

/// Where `pat` occurs in the line, with its byte offset; the offset plus the
/// bytes of the pattern fit in the line.
fn find_with_bytes(l: &Vec<char>, pat: &Vec<char>) -> (r: Option<(usize, usize)>)
    requires
        utf8_len(l@) <= isize::MAX,
    ensures
        match r {
            Some((k, b)) => find_from(l@, pat@, 0) == Some(k as int) && b == byte_col(l@, k as int)
                && b + utf8_len(pat@) <= utf8_len(l@),
            None => find_from(l@, pat@, 0) is None,
        },
{
    match find_exec(l, pat) {
        Some(k) => {
            proof {
                lemma_find_from(l@, pat@, 0);
                lemma_utf8_sub(l@, k as int, k + pat@.len());
                lemma_utf8_sub(l@, 0, k + pat@.len());
                assert(l@.subrange(0, k + pat@.len()).subrange(0, k as int) =~= l@.subrange(0, k as int));
                assert(l@.subrange(0, k + pat@.len()).subrange(k as int, k + pat@.len()) =~= l@.subrange(
                    k as int,
                    k + pat@.len(),
                ));
                lemma_utf8_sub(l@.subrange(0, k + pat@.len()), k as int, k + pat@.len());
                assert(l@.subrange(0, l@.len() as int) =~= l@);
            }
            let b = byte_col_exec(l, k);
            Some((k, b))
        },
        None => None,
    }
}

/// The location of rule `name`, from line 0.
fn rule_location(ls: &Vec<Vec<char>>, name: &String) -> (r: Option<RuleLocation>)
    requires
        lines_fit(lines_view(ls@)),
    ensures
        match r {
            Some(l) => rule_loc_from(lines_view(ls@), name@, 0) == Some(l@),
            None => rule_loc_from(lines_view(ls@), name@, 0) is None,
        },
{
    let ghost lv = lines_view(ls@);
    let nc = chars_of(name.as_str());
    let allow_pat = prefixed("allow ", &nc);
    let deny_pat = prefixed("deny ", &nc);
    let mut i: usize = 0;
    while i < ls.len()
        invariant
            i <= ls.len(),
            lv == lines_view(ls@),
            lines_fit(lv),
            nc@ == name@,
            allow_pat@ == "allow "@ + name@,
            deny_pat@ == "deny "@ + name@,
            rule_loc_from(lv, name@, 0) == rule_loc_from(lv, name@, i as int),
        decreases ls.len() - i,
    {
        assert(lv[i as int] == ls@[i as int]@);
        proof {
            lemma_utf8_add("allow "@, name@);
            lemma_utf8_add("deny "@, name@);
            reveal_strlit("allow ");
            reveal_strlit("deny ");
            assert(utf8_len("allow "@) == 6) by {
                reveal_with_fuel(utf8_len, 7);
            }
            assert(utf8_len("deny "@) == 5) by {
                reveal_with_fuel(utf8_len, 6);
            }
        }
        if let Some((_k, b)) = find_with_bytes(&ls[i], &allow_pat) {
            proof {
                assert(nc@.subrange(0, nc@.len() as int) =~= nc@);
                assert(utf8_len(ls@[i as int]@) <= isize::MAX);
                assert(utf8_len(allow_pat@) == 6 + utf8_len(name@));
            }
            let nb = utf8_len_exec(&nc, 0, nc.len());
            let col = b + 6;
            return Some(
                RuleLocation { name: name.clone(), line: i as u32, column: col as u32, end_column: (col + nb) as u32 },
            );
        }
        if let Some((_k, b)) = find_with_bytes(&ls[i], &deny_pat) {
            proof {
                assert(nc@.subrange(0, nc@.len() as int) =~= nc@);
                assert(utf8_len(ls@[i as int]@) <= isize::MAX);
                assert(utf8_len(deny_pat@) == 5 + utf8_len(name@));
            }
            let nb = utf8_len_exec(&nc, 0, nc.len());
            let col = b + 5;
            return Some(
                RuleLocation { name: name.clone(), line: i as u32, column: col as u32, end_column: (col + nb) as u32 },
            );
        }
        i += 1;
    }
    None
}

/// The locations of the rules of a Karu source, its numbers read by
/// `numbers`: for each rule, the first line that declares it (`allow name`
/// or `deny name`) and the byte columns of its name there. No locations
/// when the source does not parse; `None` when a number has no reading.
pub fn find_rule_locations(source: &str, numbers: Vec<(String, NumberReading)>) -> (r: Option<Vec<RuleLocation>>)
    requires
        utf8_len(source@) <= isize::MAX,
    ensures
        match r {
            Some(v) => rule_locations_spec(source@, readings_view(numbers@)) == Some(locations_view(v@)),
            None => rule_locations_spec(source@, readings_view(numbers@)) is None,
        },
{
    proof {
        lemma_utf8_len_ge(source@);
    }
    let program = match parse_source(source, numbers, false) {
        None => return None,
        Some(Err(_)) => {
            let v: Vec<RuleLocation> = Vec::new();
            assert(locations_view(v@) =~= Seq::<SRuleLocation>::empty());
            return Some(v);
        },
        Some(Ok(p)) => p,
    };
    let cs = chars_of(source);
    let ls = lines_exec(&cs);
    let ghost lv = lines_of(cs@);
    proof {
        assert(lines_view(ls@) == lv);
        lemma_lines_utf8(cs@, 0);
        assert forall|k: int| 0 <= k < lv.len() implies utf8_len(#[trigger] lv[k]) <= isize::MAX by {}
    }
    let ghost rules = crate::ast::rules_view(program.rules@);
    let mut out: Vec<RuleLocation> = Vec::new();
    let mut j: usize = 0;
    while j < program.rules.len()
        invariant
            j <= program.rules.len(),
            rules == crate::ast::rules_view(program.rules@),
            lv == lines_view(ls@),
            lv == lines_of(source@),
            lines_fit(lv),
            locations_view(out@) == locations_upto(lv, rules, j as nat),
        decreases program.rules.len() - j,
    {
        assert(rules[j as int].name == program.rules@[j as int].name@);
        let ghost before = out@;
        match rule_location(&ls, &program.rules[j].name) {
            Some(l) => {
                let ghost lw = l@;
                out.push(l);
                assert(locations_view(out@) =~= locations_view(before) + seq![lw]);
            },
            None => {
                assert(locations_view(out@) =~= locations_view(before) + Seq::<SRuleLocation>::empty());
            },
        }
        j += 1;
    }
    Some(out)
}


// ----------------------------------------------------------------------------
// Go to definition
// ----------------------------------------------------------------------------

/// A character of a word: alphanumeric or `_`.
pub open spec fn word_char_def(c: char) -> bool {
    letter_or_digit(c) || c == '_'
}

/// The start of the word around index `k`.
pub open spec fn word_start(l: Seq<char>, k: int) -> int
    decreases k,
{
    if 0 < k <= l.len() && word_char_def(l[k - 1]) {
        word_start(l, k - 1)
    } else {
        k
    }
}

/// The end of the word from index `k`.
pub open spec fn word_end(l: Seq<char>, k: int) -> int
    decreases l.len() - k,
{
    if 0 <= k < l.len() && word_char_def(l[k]) {
        word_end(l, k + 1)
    } else {
        k
    }
}

/// The first location from `i` on for the rule named `w`.
pub open spec fn first_named(locs: Seq<SRuleLocation>, w: Seq<char>, i: int) -> Option<SRuleLocation>
    decreases locs.len() - i,
{
    if i < 0 || i >= locs.len() {
        None
    } else if locs[i].name == w {
        Some(locs[i])
    } else {
        first_named(locs, w, i + 1)
    }
}

/// The definition of the rule whose name is the word at character `col` of
/// line `line`: none off the text, on no word, or on a word that names no
/// rule (and none when a number has no reading).
pub open spec fn definition_spec(cs: Seq<char>, line: nat, col: nat, nums: Seq<(Seq<char>, SReading)>) -> Option<
    SRuleLocation,
> {
    let ls = lines_of(cs);
    if line >= ls.len() || col >= ls[line as int].len() {
        None
    } else {
        let l = ls[line as int];
        let w = l.subrange(word_start(l, col as int), word_end(l, col as int));
        if w.len() == 0 {
            None
        } else {
            match rule_locations_spec(cs, nums) {
                None => None,
                Some(locs) => first_named(locs, w, 0),
            }
        }
    }
}

proof fn lemma_word_bounds(l: Seq<char>, k: int)
    requires
        0 <= k <= l.len(),
    ensures
        0 <= word_start(l, k) <= k,
        k <= word_end(l, k) <= l.len(),
    decreases l.len() + k,
{
    if 0 < k && word_char_def(l[k - 1]) {
        lemma_word_bounds(l, k - 1);
    }
    if k < l.len() && word_char_def(l[k]) {
        lemma_word_end_bound(l, k + 1);
    }
}

proof fn lemma_word_end_bound(l: Seq<char>, k: int)
    requires
        0 <= k <= l.len(),
    ensures
        k <= word_end(l, k) <= l.len(),
    decreases l.len() - k,
{
    if k < l.len() && word_char_def(l[k]) {
        lemma_word_end_bound(l, k + 1);
    }
}

/// The definition location of the rule named by the word at character `col`
/// of line `line` (both 0-based), if the source declares one.
pub fn find_definition(source: &str, line: u32, col: u32, numbers: Vec<(String, NumberReading)>) -> (r: Option<
    RuleLocation,
>)
    requires
        utf8_len(source@) <= isize::MAX,
    ensures
        match r {
            Some(l) => definition_spec(source@, line as nat, col as nat, readings_view(numbers@)) == Some(l@),
            None => definition_spec(source@, line as nat, col as nat, readings_view(numbers@)) is None,
        },
{
    let cs = chars_of(source);
    let ls = lines_exec(&cs);
    let ghost lv = lines_of(cs@);
    assert(lines_view(ls@) == lv);
    let li = line as usize;
    if li >= ls.len() {
        return None;
    }
    let l = &ls[li];
    assert(lv[li as int] == l@);
    let c = col as usize;
    if c >= l.len() {
        return None;
    }
    proof {
        lemma_word_bounds(l@, c as int);
    }
    let mut start = c;
    while start > 0 && (is_alphanumeric(l[start - 1]) || l[start - 1] == '_')
        invariant
            start <= c < l.len(),
            word_start(l@, c as int) == word_start(l@, start as int),
        decreases start,
    {
        start -= 1;
    }
    let mut end = c;
    while end < l.len() && (is_alphanumeric(l[end]) || l[end] == '_')
        invariant
            c <= end <= l.len(),
            word_end(l@, c as int) == word_end(l@, end as int),
        decreases l.len() - end,
    {
        end += 1;
    }
    if start == end {
        return None;
    }
    let word = string_of(l, start, end);
    let locations = match find_rule_locations(source, numbers) {
        None => return None,
        Some(v) => v,
    };
    let ghost locs = locations_view(locations@);
    assert(word@ == l@.subrange(word_start(l@, c as int), word_end(l@, c as int)));
    assert(definition_spec(source@, line as nat, col as nat, readings_view(numbers@)) == first_named(
        locs,
        word@,
        0,
    ));
    let mut i: usize = 0;
    let mut rest = locations;
    let ghost n = locs.len();
    assert(n == rest.len());
    while rest.len() > 0
        invariant
            i + rest.len() == n,
            n == locs.len(),
            n <= usize::MAX,
            locations_view(rest@) == locs.skip(i as int),
            first_named(locs, word@, 0) == first_named(locs, word@, i as int),
            definition_spec(source@, line as nat, col as nat, readings_view(numbers@)) == first_named(
                locs,
                word@,
                0,
            ),
        decreases rest.len(),
    {
        let ghost before = rest@;
        let loc = rest.remove(0);
        assert(locs[i as int] == loc@) by {
            assert(locations_view(before)[0] == loc@);
        }
        assert(locations_view(rest@) =~= locs.skip(i + 1)) by {
            assert(locations_view(rest@) =~= locations_view(before).drop_first());
        }
        if str_eq(loc.name.as_str(), word.as_str()) {
            return Some(loc);
        }
        i += 1;
    }
    None
}


// ----------------------------------------------------------------------------
// Cedar semantic tokens
// ----------------------------------------------------------------------------

/// ASCII whitespace: space, tab, newline, form feed, carriage return.
pub open spec fn ascii_ws(b: u8) -> bool {
    b == 32 || b == 9 || b == 10 || b == 12 || b == 13
}

pub open spec fn ascii_digit(b: u8) -> bool {
    48 <= b <= 57
}

pub open spec fn ascii_alpha(b: u8) -> bool {
    (65 <= b <= 90) || (97 <= b <= 122)
}

/// A byte that starts a character or ends the text: no UTF-8 continuation byte.
pub open spec fn boundary(bs: Seq<u8>, k: int) -> bool {
    k == 0 || k == bs.len() || (0 <= k < bs.len() && !(128 <= bs[k] < 192))
}

/// The end of a `//` comment from `i`: the next newline or the end.
pub open spec fn comment_end(bs: Seq<u8>, i: int) -> int
    decreases bs.len() - i,
{
    if 0 <= i < bs.len() && bs[i] != 10 {
        comment_end(bs, i + 1)
    } else {
        i
    }
}

/// The end of a run of digits from `i`.
pub open spec fn digits_end(bs: Seq<u8>, i: int) -> int
    decreases bs.len() - i,
{
    if 0 <= i < bs.len() && ascii_digit(bs[i]) {
        digits_end(bs, i + 1)
    } else {
        i
    }
}

/// The end of a word (letters, digits, `_`) from `i`.
pub open spec fn cedar_word_end(bs: Seq<u8>, i: int) -> int
    decreases bs.len() - i,
{
    if 0 <= i < bs.len() && (ascii_alpha(bs[i]) || ascii_digit(bs[i]) || bs[i] == 95) {
        cedar_word_end(bs, i + 1)
    } else {
        i
    }
}

/// The inside of a string from `i` up to its closing quote (or the end),
/// with the line and column reached; an escape takes two bytes.
pub open spec fn string_scan(bs: Seq<u8>, i: int, line: nat, col: nat) -> (int, nat, nat)
    decreases bs.len() - i,
{
    if i < 0 || i >= bs.len() || bs[i] == 34 {
        (i, line, col)
    } else if bs[i] == 92 && i + 1 < bs.len() {
        string_scan(bs, i + 2, line, col + 2)
    } else if bs[i] == 10 {
        string_scan(bs, i + 1, line + 1, 0)
    } else {
        string_scan(bs, i + 1, line, col + 1)
    }
}

/// A two-byte operator at `i`: `==`, `!=`, `<=`, `>=`, `&&`, `||` or `::`.
pub open spec fn two_op(bs: Seq<u8>, i: int) -> bool {
    0 <= i && i + 1 < bs.len() && (
    (bs[i] == 61 && bs[i + 1] == 61) || (bs[i] == 33 && bs[i + 1] == 61) || (bs[i] == 60 && bs[i + 1] == 61)
        || (bs[i] == 62 && bs[i + 1] == 61) || (bs[i] == 38 && bs[i + 1] == 38) || (bs[i] == 124 && bs[i + 1]
        == 124) || (bs[i] == 58 && bs[i + 1] == 58))
}

/// The characters of ASCII bytes.
pub open spec fn ascii_text(bs: Seq<u8>) -> Seq<char> {
    bs.map_values(|b: u8| b as char)
}

/// The type of a Cedar word: keyword, request variable, or property.
pub open spec fn cedar_word_type(w: Seq<char>) -> SemanticTokenType {
    if w == "permit"@ || w == "forbid"@ || w == "when"@ || w == "unless"@ || w == "if"@ || w == "then"@
        || w == "else"@ || w == "in"@ || w == "like"@ || w == "has"@ || w == "is"@ || w == "true"@
        || w == "false"@ {
        SemanticTokenType::Keyword
    } else if w == "principal"@ || w == "action"@ || w == "resource"@ || w == "context"@ {
        SemanticTokenType::Variable
    } else {
        SemanticTokenType::Property
    }
}

pub open spec fn sem_tok(line: nat, col: nat, len: int, tt: SemanticTokenType) -> SemanticToken {
    SemanticToken { line: line as u32, start: col as u32, length: len as u32, token_type: tt }
}

/// The semantic tokens of Cedar source bytes from `i`, at `line` and `col`:
/// comments, strings, numbers, words and two-byte operators; whitespace and
/// other punctuation give none.
pub open spec fn cedar_sem(bs: Seq<u8>, i: int, line: nat, col: nat) -> Seq<SemanticToken>
    decreases bs.len() - i,
{
    if i < 0 || i >= bs.len() {
        Seq::empty()
    } else {
        let b = bs[i];
        if b == 47 && i + 1 < bs.len() && bs[i + 1] == 47 {
            let e = comment_end(bs, i);
            if !(i < e <= bs.len()) {
                Seq::empty()
            } else {
                seq![sem_tok(line, col, e - i, SemanticTokenType::Comment)] + cedar_sem(
                    bs,
                    e,
                    line,
                    (col + (e - i)) as nat,
                )
            }
        } else if b == 10 {
            cedar_sem(bs, i + 1, line + 1, 0)
        } else if ascii_ws(b) {
            cedar_sem(bs, i + 1, line, col + 1)
        } else if b == 34 {
            let (j, l2, c2) = string_scan(bs, i + 1, line, col + 1);
            let (e, c3) = if j < bs.len() {
                (j + 1, c2 + 1)
            } else {
                (j, c2)
            };
            if !(i < e <= bs.len()) {
                Seq::empty()
            } else {
                seq![sem_tok(l2, col, e - i, SemanticTokenType::String)] + cedar_sem(bs, e, l2, c3)
            }
        } else if ascii_digit(b) {
            let e = digits_end(bs, i);
            if !(i < e <= bs.len()) {
                Seq::empty()
            } else {
                seq![sem_tok(line, col, e - i, SemanticTokenType::Number)] + cedar_sem(
                    bs,
                    e,
                    line,
                    (col + (e - i)) as nat,
                )
            }
        } else if ascii_alpha(b) || b == 95 {
            let e = cedar_word_end(bs, i);
            if !(i < e <= bs.len()) {
                Seq::empty()
            } else {
                seq![sem_tok(line, col, e - i, cedar_word_type(ascii_text(bs.subrange(i, e))))]
                    + cedar_sem(bs, e, line, (col + (e - i)) as nat)
            }
        } else if two_op(bs, i) {
            seq![sem_tok(line, col, 2, SemanticTokenType::Operator)] + cedar_sem(bs, i + 2, line, col + 2)
        } else {
            cedar_sem(bs, i + 1, line, col + 1)
        }
    }
}

/// The scan never slices the text off a character boundary: wherever it
/// looks at two bytes as an operator, both ends are boundaries.
pub open spec fn cedar_scan_ok(bs: Seq<u8>, i: int) -> bool
    decreases bs.len() - i,
{
    if i < 0 || i >= bs.len() {
        true
    } else {
        let b = bs[i];
        if b == 47 && i + 1 < bs.len() && bs[i + 1] == 47 {
            let e = comment_end(bs, i);
            i < e <= bs.len() && cedar_scan_ok(bs, e)
        } else if ascii_ws(b) {
            cedar_scan_ok(bs, i + 1)
        } else if b == 34 {
            let j = string_scan(bs, i + 1, 0, 0).0;
            let e = if j < bs.len() {
                j + 1
            } else {
                j
            };
            i < e <= bs.len() && cedar_scan_ok(bs, e)
        } else if ascii_digit(b) {
            let e = digits_end(bs, i);
            i < e <= bs.len() && cedar_scan_ok(bs, e)
        } else if ascii_alpha(b) || b == 95 {
            let e = cedar_word_end(bs, i);
            i < e <= bs.len() && cedar_scan_ok(bs, e)
        } else if i + 1 < bs.len() {
            boundary(bs, i) && boundary(bs, i + 2) && if two_op(bs, i) {
                cedar_scan_ok(bs, i + 2)
            } else {
                cedar_scan_ok(bs, i + 1)
            }
        } else {
            cedar_scan_ok(bs, i + 1)
        }
    }
}

proof fn lemma_comment_end(bs: Seq<u8>, i: int)
    requires
        0 <= i <= bs.len(),
    ensures
        i <= comment_end(bs, i) <= bs.len(),
    decreases bs.len() - i,
{
    if i < bs.len() && bs[i] != 10 {
        lemma_comment_end(bs, i + 1);
    }
}

proof fn lemma_digits_end(bs: Seq<u8>, i: int)
    requires
        0 <= i <= bs.len(),
    ensures
        i <= digits_end(bs, i) <= bs.len(),
    decreases bs.len() - i,
{
    if i < bs.len() && ascii_digit(bs[i]) {
        lemma_digits_end(bs, i + 1);
    }
}

proof fn lemma_word_end_cedar(bs: Seq<u8>, i: int)
    requires
        0 <= i <= bs.len(),
    ensures
        i <= cedar_word_end(bs, i) <= bs.len(),
    decreases bs.len() - i,
{
    if i < bs.len() && (ascii_alpha(bs[i]) || ascii_digit(bs[i]) || bs[i] == 95) {
        lemma_word_end_cedar(bs, i + 1);
    }
}

proof fn lemma_string_scan(bs: Seq<u8>, i: int, line: nat, col: nat, l0: nat, c0: nat)
    requires
        0 <= i <= bs.len(),
    ensures
        i <= string_scan(bs, i, line, col).0 <= bs.len(),
        string_scan(bs, i, line, col).0 == string_scan(bs, i, l0, c0).0,
        line <= i ==> string_scan(bs, i, line, col).1 <= string_scan(bs, i, line, col).0,
        col <= i ==> string_scan(bs, i, line, col).2 <= string_scan(bs, i, line, col).0,
    decreases bs.len() - i,
{
    if i < bs.len() && bs[i] != 34 {
        if bs[i] == 92 && i + 1 < bs.len() {
            lemma_string_scan(bs, i + 2, line, col + 2, l0, c0 + 2);
        } else if bs[i] == 10 {
            lemma_string_scan(bs, i + 1, line + 1, 0, l0 + 1, 0);
        } else {
            lemma_string_scan(bs, i + 1, line, col + 1, l0, c0 + 1);
        }
    }
}

fn comment_end_exec(b: &[u8], i: usize) -> (r: usize)
    requires
        i <= b@.len(),
    ensures
        r == comment_end(b@, i as int),
{
    let mut k = i;
    while k < b.len() && b[k] != 10
        invariant
            i <= k <= b@.len(),
            comment_end(b@, i as int) == comment_end(b@, k as int),
        decreases b@.len() - k,
    {
        k += 1;
    }
    k
}

fn digits_end_exec(b: &[u8], i: usize) -> (r: usize)
    requires
        i <= b@.len(),
    ensures
        r == digits_end(b@, i as int),
{
    let mut k = i;
    while k < b.len() && 48 <= b[k] && b[k] <= 57
        invariant
            i <= k <= b@.len(),
            digits_end(b@, i as int) == digits_end(b@, k as int),
        decreases b@.len() - k,
    {
        k += 1;
    }
    k
}

fn word_end_exec(b: &[u8], i: usize) -> (r: usize)
    requires
        i <= b@.len(),
    ensures
        r == cedar_word_end(b@, i as int),
{
    let mut k = i;
    while k < b.len() && ((65 <= b[k] && b[k] <= 90) || (97 <= b[k] && b[k] <= 122) || (48 <= b[k] && b[k]
        <= 57) || b[k] == 95)
        invariant
            i <= k <= b@.len(),
            cedar_word_end(b@, i as int) == cedar_word_end(b@, k as int),
        decreases b@.len() - k,
    {
        k += 1;
    }
    k
}

fn string_scan_exec(b: &[u8], i: usize, line: u32, col: u32) -> (r: (usize, u32, u32))
    requires
        i <= b@.len() < u32::MAX,
        line <= i,
        col <= i,
    ensures
        (r.0 as int, r.1 as nat, r.2 as nat) == string_scan(b@, i as int, line as nat, col as nat),
        r.1 <= r.0,
        r.2 <= r.0,
        r.0 <= b@.len(),
{
    let mut k = i;
    let mut l = line;
    let mut c = col;
    while k < b.len() && b[k] != 34
        invariant
            i <= k <= b@.len() < u32::MAX,
            l <= k,
            c <= k,
            string_scan(b@, i as int, line as nat, col as nat) == string_scan(b@, k as int, l as nat, c as nat),
        decreases b@.len() - k,
    {
        if b[k] == 92 && k + 1 < b.len() {
            k = k + 2;
            c = c + 2;
        } else if b[k] == 10 {
            k = k + 1;
            l = l + 1;
            c = 0;
        } else {
            k = k + 1;
            c = c + 1;
        }
    }
    (k, l, c)
}

fn cedar_word_type_exec(w: &str) -> (t: SemanticTokenType)
    ensures
        t == cedar_word_type(w@),
{
    if str_eq(w, "permit") || str_eq(w, "forbid") || str_eq(w, "when") || str_eq(w, "unless") || str_eq(
        w,
        "if",
    ) || str_eq(w, "then") || str_eq(w, "else") || str_eq(w, "in") || str_eq(w, "like") || str_eq(w, "has")
        || str_eq(w, "is") || str_eq(w, "true") || str_eq(w, "false") {
        SemanticTokenType::Keyword
    } else if str_eq(w, "principal") || str_eq(w, "action") || str_eq(w, "resource") || str_eq(w, "context") {
        SemanticTokenType::Variable
    } else {
        SemanticTokenType::Property
    }
}

/// The text of ASCII bytes `b[from..to]`.
fn ascii_string(b: &[u8], from: usize, to: usize) -> (s: String)
    requires
        from <= to <= b@.len(),
    ensures
        s@ == ascii_text(b@.subrange(from as int, to as int)),
{
    let mut s = String::new();
    let mut k = from;
    while k < to
        invariant
            from <= k <= to <= b@.len(),
            s@ == ascii_text(b@.subrange(from as int, k as int)),
        decreases to - k,
    {
        push_char(&mut s, b[k] as char);
        assert(ascii_text(b@.subrange(from as int, k + 1)) =~= ascii_text(b@.subrange(from as int, k as int)).push(
            b[k as int] as char,
        ));
        k += 1;
    }
    s
}

/// Semantic tokens for a Cedar policy file, by a light scan of its bytes:
/// `//` comments, string literals (which may span lines), digit runs, words
/// (keywords, the request variables, other names) and the two-byte
/// operators. Lines and columns are 0-based; columns and lengths count
/// bytes.
#[verifier::rlimit(80)]
#[verifier::spinoff_prover]
pub fn cedar_semantic_tokens(source: &str) -> (r: Vec<SemanticToken>)
    requires
        encode_utf8(source@).len() < u32::MAX,
        cedar_scan_ok(encode_utf8(source@), 0),
    ensures
        r@ == cedar_sem(encode_utf8(source@), 0, 0, 0),
{
    let b = source.as_bytes();
    let ghost bs = b@;
    let n = b.len();
    let mut result: Vec<SemanticToken> = Vec::new();
    let mut i: usize = 0;
    let mut line: u32 = 0;
    let mut col: u32 = 0;
    while i < n
        invariant
            bs == b@,
            bs == encode_utf8(source@),
            n == bs.len(),
            n < u32::MAX,
            i <= n,
            line <= i,
            col <= i,
            cedar_scan_ok(bs, i as int),
            result@ + cedar_sem(bs, i as int, line as nat, col as nat) == cedar_sem(bs, 0, 0, 0),
        decreases n - i,
    {
        let ghost before = result@;
        let ghost (i0, l0, c0) = (i as int, line as nat, col as nat);
        let c = b[i];
        if c == 47 && i + 1 < n && b[i + 1] == 47 {
            let e = comment_end_exec(b, i);
            proof {
                lemma_comment_end(bs, i as int);
            }
            let t = SemanticToken { line, start: col, length: (e - i) as u32, token_type: SemanticTokenType::Comment };
            result.push(t);
            col = col + (e - i) as u32;
            i = e;
            assert(result@ + cedar_sem(bs, i as int, line as nat, col as nat) =~= before + cedar_sem(bs, i0, l0, c0));
        } else if c == 10 {
            i = i + 1;
            line = line + 1;
            col = 0;
        } else if c == 32 || c == 9 || c == 12 || c == 13 {
            i = i + 1;
            col = col + 1;
        } else if c == 34 {
            proof {
                lemma_string_scan(bs, i + 1, (line + 0) as nat, (col + 1) as nat, 0, 0);
            }
            let (j, l2, c2) = string_scan_exec(b, i + 1, line, col + 1);
            let (e, c3) = if j < n {
                (j + 1, c2 + 1)
            } else {
                (j, c2)
            };
            let t = SemanticToken { line: l2, start: col, length: (e - i) as u32, token_type: SemanticTokenType::String };
            result.push(t);
            i = e;
            line = l2;
            col = c3;
            assert(result@ + cedar_sem(bs, i as int, line as nat, col as nat) =~= before + cedar_sem(bs, i0, l0, c0));
        } else if 48 <= c && c <= 57 {
            let e = digits_end_exec(b, i);
            proof {
                lemma_digits_end(bs, i as int);
            }
            let t = SemanticToken { line, start: col, length: (e - i) as u32, token_type: SemanticTokenType::Number };
            result.push(t);
            col = col + (e - i) as u32;
            i = e;
            assert(result@ + cedar_sem(bs, i as int, line as nat, col as nat) =~= before + cedar_sem(bs, i0, l0, c0));
        } else if (65 <= c && c <= 90) || (97 <= c && c <= 122) || c == 95 {
            let e = word_end_exec(b, i);
            proof {
                lemma_word_end_cedar(bs, i as int);
            }
            let w = ascii_string(b, i, e);
            let tt = cedar_word_type_exec(w.as_str());
            let t = SemanticToken { line, start: col, length: (e - i) as u32, token_type: tt };
            result.push(t);
            col = col + (e - i) as u32;
            i = e;
            assert(result@ + cedar_sem(bs, i as int, line as nat, col as nat) =~= before + cedar_sem(bs, i0, l0, c0));
        } else if i + 1 < n && ((c == 61 && b[i + 1] == 61) || (c == 33 && b[i + 1] == 61) || (c == 60 && b[i + 1] == 61)
            || (c == 62 && b[i + 1] == 61) || (c == 38 && b[i + 1] == 38) || (c == 124 && b[i + 1] == 124) || (c
            == 58 && b[i + 1] == 58)) {
            let t = SemanticToken { line, start: col, length: 2, token_type: SemanticTokenType::Operator };
            result.push(t);
            i = i + 2;
            col = col + 2;
            assert(result@ + cedar_sem(bs, i as int, line as nat, col as nat) =~= before + cedar_sem(bs, i0, l0, c0));
        } else {
            i = i + 1;
            col = col + 1;
        }
    }
    assert(result@ + Seq::<SemanticToken>::empty() =~= result@);
    result
}

/// Whether `cedar_semantic_tokens` can scan `source`: it never looks at two
/// bytes as an operator across a character boundary.
pub fn cedar_scan_checks(source: &str) -> (r: bool)
    ensures
        r == cedar_scan_ok(encode_utf8(source@), 0),
{
    let b = source.as_bytes();
    let ghost bs = b@;
    let n = b.len();
    let mut i: usize = 0;
    while i < n
        invariant
            bs == b@,
            bs == encode_utf8(source@),
            n == bs.len(),
            i <= n,
            cedar_scan_ok(bs, i as int) == cedar_scan_ok(bs, 0),
        decreases n - i,
    {
        let c = b[i];
        if c == 47 && i + 1 < n && b[i + 1] == 47 {
            proof {
                lemma_comment_end(bs, i + 1);
            }
            i = comment_end_exec(b, i);
        } else if c == 10 || c == 32 || c == 9 || c == 12 || c == 13 {
            i = i + 1;
        } else if c == 34 {
            proof {
                lemma_string_scan(bs, i + 1, 0, 0, 0, 0);
            }
            let j = string_scan_exec_pos(b, i + 1);
            i = if j < n {
                j + 1
            } else {
                j
            };
        } else if 48 <= c && c <= 57 {
            proof {
                lemma_digits_end(bs, i + 1);
            }
            i = digits_end_exec(b, i);
        } else if (65 <= c && c <= 90) || (97 <= c && c <= 122) || c == 95 {
            proof {
                lemma_word_end_cedar(bs, i + 1);
            }
            i = word_end_exec(b, i);
        } else if i + 1 < n {
            let start_ok = i == 0 || !(128 <= c && c < 192);
            let end_ok = i + 2 == n || !(128 <= b[i + 2] && b[i + 2] < 192);
            if !(start_ok && end_ok) {
                return false;
            }
            if (c == 61 && b[i + 1] == 61) || (c == 33 && b[i + 1] == 61) || (c == 60 && b[i + 1] == 61) || (c
                == 62 && b[i + 1] == 61) || (c == 38 && b[i + 1] == 38) || (c == 124 && b[i + 1] == 124) || (c
                == 58 && b[i + 1] == 58) {
                i = i + 2;
            } else {
                i = i + 1;
            }
        } else {
            i = i + 1;
        }
    }
    true
}

/// Where the inside of a string from `i` ends.
fn string_scan_exec_pos(b: &[u8], i: usize) -> (r: usize)
    requires
        i <= b@.len(),
    ensures
        r as int == string_scan(b@, i as int, 0, 0).0,
        r <= b@.len(),
{
    let mut k = i;
    let ghost mut l: nat = 0;
    let ghost mut c: nat = 0;
    while k < b.len() && b[k] != 34
        invariant
            i <= k <= b@.len(),
            string_scan(b@, i as int, 0, 0) == string_scan(b@, k as int, l, c),
        decreases b@.len() - k,
    {
        if b[k] == 92 && k + 1 < b.len() {
            k = k + 2;
            proof {
                c = c + 2;
            }
        } else if b[k] == 10 {
            k = k + 1;
            proof {
                l = l + 1;
                c = 0;
            }
        } else {
            k = k + 1;
            proof {
                c = c + 1;
            }
        }
    }
    k
}
} // verus!
