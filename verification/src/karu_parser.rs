//! Parser for Karu's Polar-inspired syntax: a token stream to a program AST.
//!
//! ```text
//! program     := ('use' 'schema' ';')? import* (rule | mod | assert | test)*
//! rule        := effect IDENT? ('if' expr)? ';'
//! expr        := or_expr
//! or_expr     := and_expr ('or' and_expr)*
//! and_expr    := unary_expr ('and' unary_expr)*
//! unary_expr  := 'not' unary_expr | primary_expr
//! primary_expr:= comparison | membership | forall | exists | has | '(' expr ')'
//! path        := IDENT ('.' IDENT | '.' NUMBER | '[' (NUMBER | IDENT | path) ']')*
//! pattern     := literal | IDENT | '_' | object_pattern | array_pattern
//! ```
//!
//! Numbers are read through a table of readings, one per number text; the
//! parser fails fast on the first error.
use vstd::prelude::*;
use crate::karu_lexer::{Token, Spanned, LexError, Lexer, spanned_view, spanned_wf, karu_lex_spec};
use crate::karu_syntax::{
    SReading, PIn, SParseError, SItems, tk, tx, perr, reading, readings_cover, token_word, show, expect_tok, as_ident, expect_ident, expect_ident_or_string, skip_opt, field_def, field_list, type_ref, union_rest, fields_block, entity, abstract_def, pipe_names, applies_items, action_def, mod_items, module, path, path_rest, bracket_path, is_root_name, pattern, object_pattern, object_fields, array_pattern, array_items, op_of, or_of, and_of, expr, or_expr, or_rest, and_expr, and_rest, unary, quantified, primary, primary_tail, in_list, rule, type_params, assert_def, test_name, skip_braces, skip_test, test_rest, str_lt, map_insert, test_value, value_entries, value_items, entity_fields, expect_entries, test_items, test_block, imports, items, program,
};
use crate::ast::{
    EffectAst, OpAst, PathAst, PathSegmentAst, PatternAst, ExprAst, RuleAst, TestEntity, TestDef,
    ExpectedOutcome, Program, SPattern, SExprAst, SRule, SExpected, STestEntity, STest, SProgram,
    pattern_pairs_view, patterns_view, lemma_pattern_pairs_view, seg_ast_view,
    lemma_exprs_of_ast_push, lemma_patterns_of_push, lemma_expr_asts_view, exprs_of_ast, patterns_of,
    test_entities_view, tests_view, asserts_view, rules_view,
};
use crate::schema::{
    type_view, ModuleDef, EntityDef, EntityKind, ActionDef, ActionAppliesTo, TypeRef, FieldDef, AbstractDef,
    AssertDef, SType, SField, SEntity, SAppliesTo, SAction, SAbstract, SModule, SAssert, fields_view,
    types_view_n, lemma_types_view_n, lemma_fields_view_push, entities_view,
    actions_view, abstracts_view, modules_view,
};
use crate::json::{Value, JsonV, jv_obj, jv_arr, lemma_jv_obj, lemma_jv_arr, str_eq};
use crate::json_ops::copy_value;
use crate::path::SegV;
use crate::text::{strings_view, usize_to_string, decimal, chars_of, lines_exec, lines_of, string_of, push_char};
use crate::cedar_syntax::join;

verus! {

/// How the text of a number reads: the index it selects in a path, the JSON
/// value it stands for in a pattern and in a test entity, and how it is printed.
#[derive(Debug)]
pub struct NumberReading {
    pub index: usize,
    pub pattern: Value,
    pub value: Value,
    pub display: String,
}

impl View for NumberReading {
    type V = SReading;

    open spec fn view(&self) -> SReading {
        SReading {
            index: self.index as nat,
            pattern: self.pattern@,
            value: self.value@,
            display: self.display@,
        }
    }
}

pub open spec fn readings_view(v: Seq<(String, NumberReading)>) -> Seq<(Seq<char>, SReading)> {
    v.map_values(|e: (String, NumberReading)| (e.0@, e.1@))
}

/// A parse error with the 1-based line and column where it was found, and
/// the token found there (none for an error of the lexer).
#[derive(Debug)]
pub struct ParseError {
    pub message: String,
    pub line: usize,
    pub column: usize,
    pub token: Option<(Token, String)>,
}

impl View for ParseError {
    type V = SParseError;

    open spec fn view(&self) -> SParseError {
        SParseError {
            message: self.message@,
            line: self.line as nat,
            column: self.column as nat,
            token: match self.token {
                Some((t, s)) => Some((t, s@)),
                None => None,
            },
        }
    }
}

/// How a parse error prints: `line:column: message`.
pub open spec fn parse_error_text(e: SParseError) -> Seq<char> {
    decimal(e.line as int) + ":"@ + decimal(e.column as int) + ": "@ + e.message
}

/// `n` spaces.
pub open spec fn spaces(n: nat) -> Seq<char>
    decreases n,
{
    if n == 0 {
        Seq::empty()
    } else {
        spaces((n - 1) as nat).push(' ')
    }
}

/// The error shown with its source line and a caret under its column.
pub open spec fn error_with_source_text(e: SParseError, cs: Seq<char>) -> Seq<char> {
    let ls = lines_of(cs);
    let k: int = if e.line > 0 {
        e.line - 1
    } else {
        0
    };
    let src_line = if k < ls.len() {
        ls[k]
    } else {
        Seq::empty()
    };
    let pointer = spaces(
        if e.column > 0 {
            (e.column - 1) as nat
        } else {
            0
        },
    ).push('^');
    "error: "@ + e.message + "\n --> line "@ + decimal(e.line as int) + ":"@ + decimal(e.column as int)
        + "\n  |\n"@ + decimal(e.line as int) + " | "@ + src_line + "\n  | "@ + pointer
}

impl ParseError {
    /// The error with source context for display: the message, its
    /// position, the source line and a caret under the column.
    pub fn format_with_source(&self, source: &str) -> (s: String)
        ensures
            s@ == error_with_source_text(self@, source@),
    {
        let cs = chars_of(source);
        let ls = lines_exec(&cs);
        let k: usize = if self.line > 0 {
            self.line - 1
        } else {
            0
        };
        let src_line: String = if k < ls.len() {
            let r = string_of(&ls[k], 0, ls[k].len());
            assert(ls@[k as int]@.subrange(0, ls@[k as int]@.len() as int) =~= ls@[k as int]@);
            r
        } else {
            String::new()
        };
        let n: usize = if self.column > 0 {
            self.column - 1
        } else {
            0
        };
        let mut pointer = String::new();
        let mut i: usize = 0;
        while i < n
            invariant
                i <= n,
                pointer@ == spaces(i as nat),
            decreases n - i,
        {
            push_char(&mut pointer, ' ');
            i += 1;
        }
        push_char(&mut pointer, '^');
        let mut s = String::from_str("error: ");
        s.append(self.message.as_str());
        s.append("\n --> line ");
        s.append(usize_to_string(self.line).as_str());
        s.append(":");
        s.append(usize_to_string(self.column).as_str());
        s.append("\n  |\n");
        s.append(usize_to_string(self.line).as_str());
        s.append(" | ");
        s.append(src_line.as_str());
        s.append("\n  | ");
        s.append(pointer.as_str());
        s
    }

    /// The error as text: `line:column: message`.
    pub fn to_string(&self) -> (s: String)
        ensures
            s@ == parse_error_text(self@),
    {
        let mut s = usize_to_string(self.line);
        s.append(":");
        s.append(usize_to_string(self.column).as_str());
        s.append(": ");
        s.append(self.message.as_str());
        s
    }

    /// The parse error a lexer error becomes.
    pub fn from_lex_error(e: LexError) -> (r: ParseError)
        ensures
            r@ == (SParseError { message: e.message@, line: e.line as nat, column: e.column as nat, token: None }),
    {
        ParseError { message: e.message, line: e.line, column: e.column, token: None }
    }
}

/// A parsing step's result against what the grammar says: the same value
/// and, on success, a next position past `pos` and before the end.
pub open spec fn adv<T: View>(
    r: Result<(T, usize), ParseError>,
    s: Result<(T::V, int), SParseError>,
    pos: usize,
    len: nat,
) -> bool {
    match r {
        Ok((v, p)) => s == Ok::<(T::V, int), SParseError>((v@, p as int)) && pos < p < len,
        Err(e) => s == Err::<(T::V, int), SParseError>(e@),
    }
}

/// As `adv`, for a step that may consume nothing.
pub open spec fn adv0<T: View>(
    r: Result<(T, usize), ParseError>,
    s: Result<(T::V, int), SParseError>,
    pos: usize,
    len: nat,
) -> bool {
    match r {
        Ok((v, p)) => s == Ok::<(T::V, int), SParseError>((v@, p as int)) && pos <= p < len,
        Err(e) => s == Err::<(T::V, int), SParseError>(e@),
    }
}

/// Karu parser: a well-formed token stream and the readings of its numbers.
pub struct Parser {
    tokens: Vec<Spanned>,
    numbers: Vec<(String, NumberReading)>,
}

impl Parser {
    /// What the parser reads.
    pub closed spec fn inp(&self) -> PIn {
        PIn { ts: spanned_view(self.tokens@), nums: readings_view(self.numbers@) }
    }

    pub closed spec fn wf(&self) -> bool {
        &&& spanned_wf(self.inp().ts)
        &&& readings_cover(self.inp())
        &&& self.tokens@.len() < usize::MAX
    }

    spec fn len(&self) -> nat {
        self.tokens@.len()
    }

    proof fn lemma_tok(&self, pos: int)
        requires
            0 <= pos < self.tokens@.len(),
        ensures
            self.inp().ts[pos] == self.tokens@[pos]@,
            tk(self.inp(), pos) == self.tokens@[pos].token,
            tx(self.inp(), pos) == self.tokens@[pos].text@,
    {
    }

    /// A token before the last is not `Eof`, so there is a token after it.
    proof fn lemma_next(&self, pos: int)
        requires
            self.wf(),
            0 <= pos < self.tokens@.len(),
            self.tokens@[pos].token != Token::Eof,
        ensures
            pos + 1 < self.tokens@.len(),
    {
        assert(self.inp().ts[pos] == self.tokens@[pos]@);
    }

    fn tok(&self, pos: usize) -> (t: Token)
        requires
            pos < self.tokens.len(),
        ensures
            t == tk(self.inp(), pos as int),
    {
        self.tokens[pos].token
    }

    fn err(&self, pos: usize, message: String) -> (e: ParseError)
        requires
            pos < self.tokens.len(),
        ensures
            e@ == perr(self.inp(), pos as int, message@),
    {
        ParseError {
            message,
            line: self.tokens[pos].line,
            column: self.tokens[pos].column,
            token: Some((self.tokens[pos].token, self.tokens[pos].text.clone())),
        }
    }

    /// The reading of the number token at `pos`.
    fn reading_at(&self, pos: usize) -> (r: &NumberReading)
        requires
            self.wf(),
            pos < self.tokens.len(),
            self.tokens@[pos as int].token == Token::Number,
        ensures
            reading(self.inp().nums, tx(self.inp(), pos as int)) == Some(r@),
    {
        let ghost nums = self.inp().nums;
        let ghost t = tx(self.inp(), pos as int);
        proof {
            assert(self.inp().ts[pos as int].token == Token::Number);
        }
        let text = self.tokens[pos].text.as_str();
        let mut i: usize = 0;
        assert(nums.skip(0) =~= nums);
        while i < self.numbers.len()
            invariant
                i <= self.numbers.len(),
                nums == readings_view(self.numbers@),
                nums == self.inp().nums,
                t == tx(self.inp(), pos as int),
                t == text@,
                reading(nums, t) == reading(nums.skip(i as int), t),
                reading(nums, t) is Some,
            decreases self.numbers.len() - i,
        {
            assert(nums.skip(i as int)[0] == (self.numbers@[i as int].0@, self.numbers@[i as int].1@));
            if str_eq(self.numbers[i].0.as_str(), text) {
                assert(nums.skip(i as int).len() > 0);
                assert(nums.skip(i as int)[0].0 == t);
                assert(reading(nums.skip(i as int), t) == Some(nums.skip(i as int)[0].1));
                assert(nums.skip(i as int)[0].1 == self.numbers@[i as int].1@);
                return &self.numbers[i].1;
            }
            assert(nums.skip(i as int).drop_first() =~= nums.skip(i + 1));
            i += 1;
        }
        assert(nums.skip(i as int) =~= Seq::<(Seq<char>, SReading)>::empty());
        proof {
            assert(false);
        }
        &self.numbers[0].1
    }

    /// How the token at `pos` is printed in an error message.
    fn show(&self, pos: usize) -> (s: String)
        requires
            self.wf(),
            pos < self.tokens.len(),
        ensures
            s@ == show(self.inp(), pos as int),
    {
        let t = self.tokens[pos].token;
        match t {
            Token::Ident => self.tokens[pos].text.clone(),
            Token::Str => {
                let mut s = String::from_str("\"");
                s.append(self.tokens[pos].text.as_str());
                s.append("\"");
                s
            },
            Token::Number => self.reading_at(pos).display.clone(),
            Token::Comment => {
                let mut s = String::from_str("// ");
                s.append(self.tokens[pos].text.as_str());
                s
            },
            _ => String::from_str(token_word_of(t)),
        }
    }

    /// `Expected <what>, found <token>` at `pos`.
    fn expected(&self, pos: usize, what: &str) -> (e: ParseError)
        requires
            self.wf(),
            pos < self.tokens.len(),
        ensures
            e@ == perr(self.inp(), pos as int, what@ + show(self.inp(), pos as int)),
    {
        let mut m = String::from_str(what);
        let f = self.show(pos);
        m.append(f.as_str());
        self.err(pos, m)
    }

    fn expect(&self, pos: usize, t: Token) -> (r: Result<usize, ParseError>)
        requires
            self.wf(),
            pos < self.tokens.len(),
            t != Token::Eof,
        ensures
            match r {
                Ok(p) => expect_tok(self.inp(), pos as int, t) == Ok::<int, SParseError>(p as int)
                    && p == pos + 1 && p < self.tokens.len(),
                Err(e) => expect_tok(self.inp(), pos as int, t) == Err::<int, SParseError>(e@),
            },
    {
        if self.tokens[pos].token == t {
            proof {
                self.lemma_next(pos as int);
            }
            Ok(pos + 1)
        } else {
            let mut m = String::from_str("Expected ");
            m.append(token_word_of(t));
            m.append(", found ");
            let f = self.show(pos);
            m.append(f.as_str());
            Err(self.err(pos, m))
        }
    }

    fn token_as_ident(&self, pos: usize) -> (r: Option<String>)
        requires
            pos < self.tokens.len(),
        ensures
            match r {
                Some(s) => as_ident(self.inp(), pos as int) == Some(s@),
                None => as_ident(self.inp(), pos as int) is None,
            },
    {
        match self.tokens[pos].token {
            Token::Ident => Some(self.tokens[pos].text.clone()),
            Token::Actor => Some(String::from_str("actor")),
            Token::Resource => Some(String::from_str("resource")),
            Token::Action => Some(String::from_str("action")),
            Token::Schema => Some(String::from_str("schema")),
            _ => None,
        }
    }

    fn expect_ident(&self, pos: usize) -> (r: Result<(String, usize), ParseError>)
        requires
            self.wf(),
            pos < self.tokens.len(),
        ensures
            adv(r, expect_ident(self.inp(), pos as int), pos, self.len()),
    {
        match self.token_as_ident(pos) {
            Some(n) => {
                proof {
                    self.lemma_next(pos as int);
                }
                Ok((n, pos + 1))
            },
            None => Err(self.expected(pos, "Expected identifier, found ")),
        }
    }

    fn expect_ident_or_string(&self, pos: usize) -> (r: Result<(String, usize), ParseError>)
        requires
            self.wf(),
            pos < self.tokens.len(),
        ensures
            adv(r, expect_ident_or_string(self.inp(), pos as int), pos, self.len()),
    {
        match self.token_as_ident(pos) {
            Some(n) => {
                proof {
                    self.lemma_next(pos as int);
                }
                Ok((n, pos + 1))
            },
            None => {
                if self.tokens[pos].token == Token::Str {
                    proof {
                        self.lemma_next(pos as int);
                    }
                    Ok((self.tokens[pos].text.clone(), pos + 1))
                } else {
                    Err(self.expected(pos, "Expected identifier or string, found "))
                }
            },
        }
    }

    fn skip_opt(&self, pos: usize, t: Token) -> (p: usize)
        requires
            self.wf(),
            pos < self.tokens.len(),
            t != Token::Eof,
        ensures
            p == skip_opt(self.inp(), pos as int, t),
            pos <= p < self.tokens.len(),
    {
        if self.tokens[pos].token == t {
            proof {
                self.lemma_next(pos as int);
            }
            pos + 1
        } else {
            pos
        }
    }
}

/// How a token without text is printed.
fn token_word_of(t: Token) -> (s: &'static str)
    ensures
        s@ == token_word(t),
{
    match t {
        Token::Allow => "allow",
        Token::Deny => "deny",
        Token::If => "if",
        Token::And => "and",
        Token::Or => "or",
        Token::Not => "not",
        Token::In => "in",
        Token::Forall => "forall",
        Token::Exists => "exists",
        Token::Has => "has",
        Token::Like => "like",
        Token::Use => "use",
        Token::Schema => "schema",
        Token::Mod => "mod",
        Token::Actor => "actor",
        Token::Resource => "resource",
        Token::Action => "action",
        Token::Assert => "assert",
        Token::Abstract => "abstract",
        Token::Import => "import",
        Token::On => "on",
        Token::Test => "test",
        Token::Expect => "expect",
        Token::Is => "is",
        Token::True => "true",
        Token::False => "false",
        Token::Null => "null",
        Token::Eq => "==",
        Token::Ne => "!=",
        Token::Lt => "<",
        Token::Gt => ">",
        Token::Le => "<=",
        Token::Ge => ">=",
        Token::Dot => ".",
        Token::Comma => ",",
        Token::Colon => ":",
        Token::Semi => ";",
        Token::Pipe => "|",
        Token::Question => "?",
        Token::LParen => "(",
        Token::RParen => ")",
        Token::LBrace => "{",
        Token::RBrace => "}",
        Token::LBracket => "[",
        Token::RBracket => "]",
        Token::Underscore => "_",
        Token::Eof => "EOF",
        _ => "",
    }
}


// ----------------------------------------------------------------------------
// Schema
// ----------------------------------------------------------------------------

impl Parser {
    fn parse_field_def(&self, pos: usize) -> (r: Result<(FieldDef, usize), ParseError>)
        requires
            self.wf(),
            pos < self.tokens.len(),
        ensures
            adv(r, field_def(self.inp(), pos as int), pos, self.len()),
        decreases self.tokens@.len() - pos, 5nat,
    {
        let (name, p1) = match self.expect_ident(pos) {
            Ok(x) => x,
            Err(e) => return Err(e),
        };
        let optional = self.tokens[p1].token == Token::Question;
        let p2 = if optional {
            proof {
                self.lemma_next(p1 as int);
            }
            p1 + 1
        } else {
            p1
        };
        let (ty, p3) = match self.parse_type_ref(p2) {
            Ok(x) => x,
            Err(e) => return Err(e),
        };
        Ok((FieldDef { name, ty, optional }, p3))
    }

    /// Field definitions up to a `}`, which is not consumed.
    fn parse_field_list(&self, pos: usize) -> (r: Result<(Vec<FieldDef>, usize), ParseError>)
        requires
            self.wf(),
            pos < self.tokens.len(),
        ensures
            match r {
                Ok((fs, p)) => field_list(self.inp(), pos as int, Seq::empty()) == Ok::<
                    (Seq<SField>, int),
                    SParseError,
                >((fields_view(fs@), p as int)) && pos <= p < self.len(),
                Err(e) => field_list(self.inp(), pos as int, Seq::empty()) == Err::<
                    (Seq<SField>, int),
                    SParseError,
                >(e@),
            },
        decreases self.tokens@.len() - pos, 7nat,
    {
        let mut acc: Vec<FieldDef> = Vec::new();
        let mut p = pos;
        assert(fields_view(acc@) =~= Seq::<SField>::empty());
        loop
            invariant
                self.wf(),
                pos <= p < self.tokens.len(),
                field_list(self.inp(), pos as int, Seq::empty()) == field_list(
                    self.inp(),
                    p as int,
                    fields_view(acc@),
                ),
            decreases self.tokens@.len() - p,
        {
            if self.tokens[p].token == Token::RBrace {
                return Ok((acc, p));
            }
            let (f, p1) = match self.parse_field_def(p) {
                Ok(x) => x,
                Err(e) => return Err(e),
            };
            let p2 = self.skip_opt(p1, Token::Comma);
            proof {
                lemma_fields_view_push(acc@, f);
            }
            acc.push(f);
            p = p2;
        }
    }

    #[verifier::loop_isolation(false)]
    fn parse_type_ref(&self, pos: usize) -> (r: Result<(TypeRef, usize), ParseError>)
        requires
            self.wf(),
            pos < self.tokens.len(),
        ensures
            adv(r, type_ref(self.inp(), pos as int), pos, self.len()),
        decreases self.tokens@.len() - pos, 6nat,
    {
        let t = self.tokens[pos].token;
        let (base, p1) = if t == Token::LBrace {
            proof {
                self.lemma_next(pos as int);
            }
            let (fs, q1) = match self.parse_field_list(pos + 1) {
                Ok(x) => x,
                Err(e) => return Err(e),
            };
            let q2 = match self.expect(q1, Token::RBrace) {
                Ok(x) => x,
                Err(e) => return Err(e),
            };
            (TypeRef::Record(fs), q2)
        } else if t == Token::Null || t == Token::Ident {
            proof {
                self.lemma_next(pos as int);
            }
            let name = if t == Token::Null {
                String::from_str("null")
            } else {
                self.tokens[pos].text.clone()
            };
            if str_eq(name.as_str(), "Set") && self.tokens[pos + 1].token == Token::Lt {
                proof {
                    self.lemma_next(pos + 1);
                }
                let (inner, q1) = match self.parse_type_ref(pos + 2) {
                    Ok(x) => x,
                    Err(e) => return Err(e),
                };
                let q2 = match self.expect(q1, Token::Gt) {
                    Ok(x) => x,
                    Err(e) => return Err(e),
                };
                (TypeRef::SetOf(Box::new(inner)), q2)
            } else {
                (TypeRef::Named(name), pos + 1)
            }
        } else {
            return Err(self.expected(pos, "Expected type name, found "));
        };
        if self.tokens[p1].token != Token::Pipe {
            return Ok((base, p1));
        }
        let ghost c = self.inp();
        let mut types: Vec<TypeRef> = Vec::new();
        let ghost b = base@;
        types.push(base);
        let mut p = p1;
        proof {
            lemma_types_view_n(types@, 1);
            assert(types_view_n(types@, types@.len()) =~= seq![b]);
        }
        loop
            invariant
                self.wf(),
                c == self.inp(),
                pos < p < self.tokens.len(),
                union_rest(c, p1 as int, seq![b]) == union_rest(
                    c,
                    p as int,
                    types_view_n(types@, types@.len()),
                ),
            decreases self.tokens@.len() - p,
        {
            if self.tokens[p].token != Token::Pipe {
                proof {
                    assert(type_view(TypeRef::Union(types)) == SType::Union(
                        types_view_n(types@, types@.len()),
                    ));
                }
                return Ok((TypeRef::Union(types), p));
            }
            proof {
                self.lemma_next(p as int);
            }
            let q = p + 1;
            let next = if self.tokens[q].token == Token::Null {
                TypeRef::Named(String::from_str("null"))
            } else if self.tokens[q].token == Token::Ident {
                TypeRef::Named(self.tokens[q].text.clone())
            } else {
                return Err(self.expected(q, "Expected type name after '|', found "));
            };
            proof {
                self.lemma_next(q as int);
                lemma_types_view_n(types@.push(next), types@.len() + 1);
                lemma_types_view_n(types@, types@.len());
                assert(types_view_n(types@.push(next), types@.len() + 1) =~= types_view_n(
                    types@,
                    types@.len(),
                ).push(next@));
            }
            types.push(next);
            p = q + 1;
        }
    }

    /// `{ fields }` when present, and an optional `;`.
    fn parse_fields_block(&self, pos: usize) -> (r: Result<(Vec<FieldDef>, usize), ParseError>)
        requires
            self.wf(),
            pos < self.tokens.len(),
        ensures
            match r {
                Ok((fs, p)) => fields_block(self.inp(), pos as int) == Ok::<
                    (Seq<SField>, int),
                    SParseError,
                >((fields_view(fs@), p as int)) && pos <= p < self.len(),
                Err(e) => fields_block(self.inp(), pos as int) == Err::<
                    (Seq<SField>, int),
                    SParseError,
                >(e@),
            },
    {
        if self.tokens[pos].token == Token::LBrace {
            proof {
                self.lemma_next(pos as int);
            }
            let (fs, p1) = match self.parse_field_list(pos + 1) {
                Ok(x) => x,
                Err(e) => return Err(e),
            };
            let p2 = match self.expect(p1, Token::RBrace) {
                Ok(x) => x,
                Err(e) => return Err(e),
            };
            Ok((fs, self.skip_opt(p2, Token::Semi)))
        } else {
            let fs: Vec<FieldDef> = Vec::new();
            assert(fields_view(fs@) =~= Seq::<SField>::empty());
            Ok((fs, self.skip_opt(pos, Token::Semi)))
        }
    }

    /// An optional `in Parent` or `is Trait` clause, introduced by `t`.
    fn parse_opt_clause(&self, pos: usize, t: Token) -> (r: Result<(Vec<String>, usize), ParseError>)
        requires
            self.wf(),
            pos < self.tokens.len(),
            t != Token::Eof,
        ensures
            match r {
                Ok((v, p)) => pos <= p < self.len() && if tk(self.inp(), pos as int) == t {
                    expect_ident(self.inp(), pos + 1) == Ok::<(Seq<char>, int), SParseError>(
                        (v@[0]@, p as int),
                    ) && v@.len() == 1
                } else {
                    v@.len() == 0 && p == pos
                },
                Err(e) => tk(self.inp(), pos as int) == t && expect_ident(self.inp(), pos + 1)
                    == Err::<(Seq<char>, int), SParseError>(e@),
            },
    {
        let mut v: Vec<String> = Vec::new();
        if self.tokens[pos].token == t {
            proof {
                self.lemma_next(pos as int);
            }
            let (n, p1) = match self.expect_ident(pos + 1) {
                Ok(x) => x,
                Err(e) => return Err(e),
            };
            v.push(n);
            Ok((v, p1))
        } else {
            Ok((v, pos))
        }
    }

    fn parse_entity(&self, pos: usize) -> (r: Result<(EntityDef, usize), ParseError>)
        requires
            self.wf(),
            pos < self.tokens.len(),
        ensures
            adv(r, entity(self.inp(), pos as int), pos, self.len()),
    {
        let t = self.tokens[pos].token;
        let kind = if t == Token::Actor {
            EntityKind::Actor
        } else if t == Token::Resource {
            EntityKind::Resource
        } else {
            return Err(self.expected(pos, "Expected 'actor' or 'resource', found "));
        };
        proof {
            self.lemma_next(pos as int);
        }
        let (name, p1) = match self.expect_ident(pos + 1) {
            Ok(x) => x,
            Err(e) => return Err(e),
        };
        let (parents, p2) = match self.parse_opt_clause(p1, Token::In) {
            Ok(x) => x,
            Err(e) => return Err(e),
        };
        let (traits, p3) = match self.parse_opt_clause(p2, Token::Is) {
            Ok(x) => x,
            Err(e) => return Err(e),
        };
        let (fields, p4) = match self.parse_fields_block(p3) {
            Ok(x) => x,
            Err(e) => return Err(e),
        };
        proof {
            if parents@.len() == 1 {
                assert(strings_view(parents@) =~= seq![parents@[0]@]);
            } else {
                assert(strings_view(parents@) =~= Seq::<Seq<char>>::empty());
            }
            if traits@.len() == 1 {
                assert(strings_view(traits@) =~= seq![traits@[0]@]);
            } else {
                assert(strings_view(traits@) =~= Seq::<Seq<char>>::empty());
            }
        }
        Ok((EntityDef { kind, name, parents, traits, fields }, p4))
    }

    fn parse_abstract(&self, pos: usize) -> (r: Result<(AbstractDef, usize), ParseError>)
        requires
            self.wf(),
            pos < self.tokens.len(),
        ensures
            adv(r, abstract_def(self.inp(), pos as int), pos, self.len()),
    {
        let p1 = match self.expect(pos, Token::Abstract) {
            Ok(x) => x,
            Err(e) => return Err(e),
        };
        let (name, p2) = match self.expect_ident(p1) {
            Ok(x) => x,
            Err(e) => return Err(e),
        };
        let (fields, p3) = match self.parse_fields_block(p2) {
            Ok(x) => x,
            Err(e) => return Err(e),
        };
        Ok((AbstractDef { name, fields }, p3))
    }

    /// Names after `actor` or `resource` in an `appliesTo` block: one, then `| Name` more.
    #[verifier::loop_isolation(false)]
    fn parse_pipe_names(&self, pos: usize, acc: Vec<String>) -> (r: Result<(Vec<String>, usize), ParseError>)
        requires
            self.wf(),
            pos < self.tokens.len(),
        ensures
            match r {
                Ok((v, p)) => pipe_names(self.inp(), pos as int, strings_view(acc@)) == Ok::<
                    (Seq<Seq<char>>, int),
                    SParseError,
                >((strings_view(v@), p as int)) && pos <= p < self.len(),
                Err(e) => pipe_names(self.inp(), pos as int, strings_view(acc@)) == Err::<
                    (Seq<Seq<char>>, int),
                    SParseError,
                >(e@),
            },
    {
        let mut acc = acc;
        let mut p = pos;
        let ghost a0 = strings_view(acc@);
        loop
            invariant
                self.wf(),
                pos <= p < self.tokens.len(),
                pipe_names(self.inp(), pos as int, a0) == pipe_names(
                    self.inp(),
                    p as int,
                    strings_view(acc@),
                ),
            decreases self.tokens@.len() - p,
        {
            if self.tokens[p].token != Token::Pipe {
                return Ok((acc, p));
            }
            proof {
                self.lemma_next(p as int);
            }
            let (n, p1) = match self.expect_ident(p + 1) {
                Ok(x) => x,
                Err(e) => return Err(e),
            };
            let ghost before = acc@;
            acc.push(n);
            assert(strings_view(acc@) =~= strings_view(before).push(n@));
            p = p1;
        }
    }

    fn parse_action_applies_to(&self, pos: usize) -> (r: Result<(ActionAppliesTo, usize), ParseError>)
        requires
            self.wf(),
            pos < self.tokens.len(),
        ensures
            adv0(
                r,
                applies_items(
                    self.inp(),
                    pos as int,
                    SAppliesTo { actors: Seq::empty(), resources: Seq::empty(), context: None },
                ),
                pos,
                self.len(),
            ),
    {
        let mut acc = ActionAppliesTo { actors: Vec::new(), resources: Vec::new(), context: None };
        let mut p = pos;
        proof {
            assert(strings_view(acc.actors@) =~= Seq::<Seq<char>>::empty());
            assert(strings_view(acc.resources@) =~= Seq::<Seq<char>>::empty());
        }
        loop
            invariant
                self.wf(),
                pos <= p < self.tokens.len(),
                applies_items(
                    self.inp(),
                    pos as int,
                    SAppliesTo { actors: Seq::empty(), resources: Seq::empty(), context: None },
                ) == applies_items(self.inp(), p as int, acc@),
            decreases self.tokens@.len() - p,
        {
            let t = self.tokens[p].token;
            if t == Token::RBrace {
                return Ok((acc, p));
            }
            let ghost a = acc@;
            let p1 = if t == Token::Actor {
                proof {
                    self.lemma_next(p as int);
                }
                let (n, q1) = match self.expect_ident(p + 1) {
                    Ok(x) => x,
                    Err(e) => return Err(e),
                };
                let mut actors = acc.actors;
                let ghost before = actors@;
                actors.push(n);
                assert(strings_view(actors@) =~= strings_view(before).push(n@));
                let (actors, q2) = match self.parse_pipe_names(q1, actors) {
                    Ok(x) => x,
                    Err(e) => return Err(e),
                };
                acc = ActionAppliesTo { actors, resources: acc.resources, context: acc.context };
                q2
            } else if t == Token::Resource {
                proof {
                    self.lemma_next(p as int);
                }
                let (n, q1) = match self.expect_ident(p + 1) {
                    Ok(x) => x,
                    Err(e) => return Err(e),
                };
                let mut resources = acc.resources;
                let ghost before = resources@;
                resources.push(n);
                assert(strings_view(resources@) =~= strings_view(before).push(n@));
                let (resources, q2) = match self.parse_pipe_names(q1, resources) {
                    Ok(x) => x,
                    Err(e) => return Err(e),
                };
                acc = ActionAppliesTo { actors: acc.actors, resources, context: acc.context };
                q2
            } else if t == Token::Ident && str_eq(self.tokens[p].text.as_str(), "context") {
                proof {
                    self.lemma_next(p as int);
                }
                let q1 = match self.expect(p + 1, Token::LBrace) {
                    Ok(x) => x,
                    Err(e) => return Err(e),
                };
                let (fs, q2) = match self.parse_field_list(q1) {
                    Ok(x) => x,
                    Err(e) => return Err(e),
                };
                let q3 = match self.expect(q2, Token::RBrace) {
                    Ok(x) => x,
                    Err(e) => return Err(e),
                };
                acc = ActionAppliesTo { actors: acc.actors, resources: acc.resources, context: Some(fs) };
                q3
            } else {
                return Err(
                    self.expected(
                        p,
                        "Expected 'actor', 'resource', or 'context' in appliesTo block, found ",
                    ),
                );
            };
            p = self.skip_opt(p1, Token::Comma);
        }
    }

    fn parse_action(&self, pos: usize) -> (r: Result<(ActionDef, usize), ParseError>)
        requires
            self.wf(),
            pos < self.tokens.len(),
        ensures
            adv(r, action_def(self.inp(), pos as int), pos, self.len()),
    {
        let p1 = match self.expect(pos, Token::Action) {
            Ok(x) => x,
            Err(e) => return Err(e),
        };
        let (name, p2) = match self.expect_ident_or_string(p1) {
            Ok(x) => x,
            Err(e) => return Err(e),
        };
        if name.unicode_len() == 0 {
            return Err(self.err(p2, String::from_str("Action name must not be empty")));
        }
        if self.tokens[p2].token == Token::Ident && str_eq(self.tokens[p2].text.as_str(), "appliesTo") {
            proof {
                self.lemma_next(p2 as int);
            }
            let p3 = match self.expect(p2 + 1, Token::LBrace) {
                Ok(x) => x,
                Err(e) => return Err(e),
            };
            let (a, p4) = match self.parse_action_applies_to(p3) {
                Ok(x) => x,
                Err(e) => return Err(e),
            };
            let p5 = match self.expect(p4, Token::RBrace) {
                Ok(x) => x,
                Err(e) => return Err(e),
            };
            Ok((ActionDef { name, applies_to: Some(a) }, self.skip_opt(p5, Token::Semi)))
        } else {
            Ok((ActionDef { name, applies_to: None }, self.skip_opt(p2, Token::Semi)))
        }
    }

    fn parse_module(&self, pos: usize) -> (r: Result<(ModuleDef, usize), ParseError>)
        requires
            self.wf(),
            pos < self.tokens.len(),
        ensures
            adv(r, module(self.inp(), pos as int), pos, self.len()),
    {
        let p1 = match self.expect(pos, Token::Mod) {
            Ok(x) => x,
            Err(e) => return Err(e),
        };
        let (name, p2) = if self.tokens[p1].token != Token::LBrace {
            match self.expect_ident(p1) {
                Ok((n, q)) => (Some(n), q),
                Err(e) => return Err(e),
            }
        } else {
            (None, p1)
        };
        let p3 = match self.expect(p2, Token::LBrace) {
            Ok(x) => x,
            Err(e) => return Err(e),
        };
        let mut m = ModuleDef { name, entities: Vec::new(), actions: Vec::new(), abstracts: Vec::new() };
        let ghost m0 = m@;
        proof {
            assert(entities_view(m.entities@) =~= Seq::<SEntity>::empty());
            assert(actions_view(m.actions@) =~= Seq::<SAction>::empty());
            assert(abstracts_view(m.abstracts@) =~= Seq::<SAbstract>::empty());
        }
        let mut p = p3;
        loop
            invariant
                self.wf(),
                pos < p3 <= p < self.tokens.len(),
                module(self.inp(), pos as int) == (match mod_items(self.inp(), p3 as int, m0) {
                    Err(e) => Err(e),
                    Ok((mm, p4)) => match expect_tok(self.inp(), p4, Token::RBrace) {
                        Err(e) => Err(e),
                        Ok(p5) => Ok((mm, skip_opt(self.inp(), p5, Token::Semi))),
                    },
                }),
                mod_items(self.inp(), p3 as int, m0) == mod_items(self.inp(), p as int, m@),
            ensures
                self.wf(),
                pos < p3 <= p < self.tokens.len(),
                module(self.inp(), pos as int) == (match mod_items(self.inp(), p3 as int, m0) {
                    Err(e) => Err(e),
                    Ok((mm, p4)) => match expect_tok(self.inp(), p4, Token::RBrace) {
                        Err(e) => Err(e),
                        Ok(p5) => Ok((mm, skip_opt(self.inp(), p5, Token::Semi))),
                    },
                }),
                mod_items(self.inp(), p3 as int, m0) == Ok::<(SModule, int), SParseError>((m@, p as int)),
                tk(self.inp(), p as int) == Token::RBrace,
            decreases self.tokens@.len() - p,
        {
            let t = self.tokens[p].token;
            if t == Token::RBrace {
                break;
            }
            if t == Token::Actor || t == Token::Resource {
                let (en, q) = match self.parse_entity(p) {
                    Ok(x) => x,
                    Err(e) => return Err(e),
                };
                let ghost before = m.entities@;
                m.entities.push(en);
                assert(entities_view(m.entities@) =~= entities_view(before).push(m.entities@.last()@));
                p = q;
            } else if t == Token::Action {
                let (a, q) = match self.parse_action(p) {
                    Ok(x) => x,
                    Err(e) => return Err(e),
                };
                let ghost before = m.actions@;
                m.actions.push(a);
                assert(actions_view(m.actions@) =~= actions_view(before).push(m.actions@.last()@));
                p = q;
            } else if t == Token::Abstract {
                let (a, q) = match self.parse_abstract(p) {
                    Ok(x) => x,
                    Err(e) => return Err(e),
                };
                let ghost before = m.abstracts@;
                m.abstracts.push(a);
                assert(abstracts_view(m.abstracts@) =~= abstracts_view(before).push(m.abstracts@.last()@));
                p = q;
            } else {
                return Err(
                    self.expected(
                        p,
                        "Expected 'actor', 'resource', 'action', or 'abstract' in mod block, found ",
                    ),
                );
            }
        }
        let p5 = match self.expect(p, Token::RBrace) {
            Ok(x) => x,
            Err(e) => return Err(e),
        };
        Ok((m, self.skip_opt(p5, Token::Semi)))
    }
}


// ----------------------------------------------------------------------------
// Paths, patterns, expressions
// ----------------------------------------------------------------------------

pub open spec fn segs_view(v: Seq<PathSegmentAst>) -> Seq<SegV> {
    v.map_values(|s: PathSegmentAst| seg_ast_view(s))
}

/// `l or r`, flattening a left `or`.
fn or_exec(l: ExprAst, r: ExprAst) -> (e: ExprAst)
    ensures
        e@ == or_of(l@, r@),
{
    match l {
        ExprAst::Or(es) => {
            let mut es = es;
            proof {
                lemma_exprs_of_ast_push(es@, r);
            }
            es.push(r);
            ExprAst::Or(es)
        },
        other => {
            let ghost o = other@;
            let v = vec![other, r];
            proof {
                lemma_expr_asts_view(v@, 2);
                assert(exprs_of_ast(v@) =~= seq![o, r@]);
            }
            ExprAst::Or(v)
        },
    }
}

/// `l and r`, flattening a left `and`.
fn and_exec(l: ExprAst, r: ExprAst) -> (e: ExprAst)
    ensures
        e@ == and_of(l@, r@),
{
    match l {
        ExprAst::And(es) => {
            let mut es = es;
            proof {
                lemma_exprs_of_ast_push(es@, r);
            }
            es.push(r);
            ExprAst::And(es)
        },
        other => {
            let ghost o = other@;
            let v = vec![other, r];
            proof {
                lemma_expr_asts_view(v@, 2);
                assert(exprs_of_ast(v@) =~= seq![o, r@]);
            }
            ExprAst::And(v)
        },
    }
}

fn op_exec(t: Token) -> (r: Option<OpAst>)
    ensures
        r == op_of(t),
{
    match t {
        Token::Eq => Some(OpAst::Eq),
        Token::Ne => Some(OpAst::Ne),
        Token::Lt => Some(OpAst::Lt),
        Token::Gt => Some(OpAst::Gt),
        Token::Le => Some(OpAst::Le),
        Token::Ge => Some(OpAst::Ge),
        _ => None,
    }
}

fn is_root_name_exec(n: &str) -> (r: bool)
    ensures
        r == is_root_name(n@),
{
    str_eq(n, "actor") || str_eq(n, "resource") || str_eq(n, "principal") || str_eq(n, "action")
        || str_eq(n, "context")
}

impl Parser {
    /// The pieces of a path written inside brackets after its first name,
    /// joined into the `@path:` variable name that stands for it.
    #[verifier::loop_isolation(false)]
    fn parse_bracket_path(&self, pos: usize, first: String) -> (r: Result<(String, usize), ParseError>)
        requires
            self.wf(),
            pos < self.tokens.len(),
        ensures
            match r {
                Ok((s, p)) => bracket_path(self.inp(), pos as int, seq![first@]) matches Ok(
                    (ps, pp),
                ) && pp == p && s@ == "@path:"@ + join(ps, "."@) && pos <= p < self.len(),
                Err(e) => bracket_path(self.inp(), pos as int, seq![first@]) == Err::<
                    (Seq<Seq<char>>, int),
                    SParseError,
                >(e@),
            },
    {
        let ghost c = self.inp();
        let mut s = String::from_str("@path:");
        let ghost mut pieces: Seq<Seq<char>> = seq![first@];
        s.append(first.as_str());
        assert(join(pieces, "."@) == first@);
        let mut p = pos;
        loop
            invariant
                self.wf(),
                c == self.inp(),
                pos <= p < self.tokens.len(),
                pieces.len() >= 1,
                s@ == "@path:"@ + join(pieces, "."@),
                bracket_path(c, pos as int, seq![first@]) == bracket_path(c, p as int, pieces),
            decreases self.tokens@.len() - p,
        {
            if self.tokens[p].token != Token::Dot {
                return Ok((s, p));
            }
            proof {
                self.lemma_next(p as int);
            }
            let q = p + 1;
            let piece = match self.token_as_ident(q) {
                Some(n) => n,
                None => {
                    if self.tokens[q].token == Token::Number {
                        let r = self.reading_at(q);
                        usize_to_string(r.index)
                    } else {
                        return Err(
                            self.err(q, String::from_str("Expected field name after dot in bracket path")),
                        );
                    }
                },
            };
            proof {
                self.lemma_next(q as int);
                assert(pieces.push(piece@).drop_last() =~= pieces);
            }
            let ghost old_s = s@;
            s.append(".");
            s.append(piece.as_str());
            proof {
                assert(join(pieces.push(piece@), "."@) == join(pieces, "."@) + "."@ + piece@);
                assert(s@ =~= "@path:"@ + join(pieces.push(piece@), "."@));
                pieces = pieces.push(piece@);
            }
            p = q + 1;
        }
    }

    #[verifier::loop_isolation(false)]
    fn parse_path(&self, pos: usize) -> (r: Result<(PathAst, usize), ParseError>)
        requires
            self.wf(),
            pos < self.tokens.len(),
        ensures
            adv(r, path(self.inp(), pos as int), pos, self.len()),
        decreases self.tokens@.len() - pos, 10nat,
    {
        let ghost c = self.inp();
        let first = match self.token_as_ident(pos) {
            Some(n) => n,
            None => return Err(self.err(pos, String::from_str("Expected path identifier"))),
        };
        proof {
            self.lemma_next(pos as int);
        }
        let mut segments: Vec<PathSegmentAst> = Vec::new();
        segments.push(PathSegmentAst::Field(first));
        assert(segs_view(segments@) =~= seq![SegV::Field(first@)]);
        let mut p = pos + 1;
        loop
            invariant
                self.wf(),
                c == self.inp(),
                pos < p < self.tokens.len(),
                path(c, pos as int) == path_rest(c, p as int, segs_view(segments@)),
            decreases self.tokens@.len() - p,
        {
            let t = self.tokens[p].token;
            if t == Token::Dot {
                proof {
                    self.lemma_next(p as int);
                }
                let q = p + 1;
                let seg = match self.token_as_ident(q) {
                    Some(n) => PathSegmentAst::Field(n),
                    None => {
                        if self.tokens[q].token == Token::Number {
                            let r = self.reading_at(q);
                            PathSegmentAst::Index(r.index)
                        } else {
                            return Err(self.err(q, String::from_str("Expected field name after dot")));
                        }
                    },
                };
                proof {
                    self.lemma_next(q as int);
                }
                let ghost before = segments@;
                segments.push(seg);
                assert(segs_view(segments@) =~= segs_view(before).push(seg_ast_view(segments@.last())));
                p = q + 1;
            } else if t == Token::LBracket {
                proof {
                    self.lemma_next(p as int);
                }
                let q = p + 1;
                let (seg, p1) = if self.tokens[q].token == Token::Number {
                    let r = self.reading_at(q);
                    proof {
                        self.lemma_next(q as int);
                    }
                    (PathSegmentAst::Index(r.index), q + 1)
                } else {
                    match self.token_as_ident(q) {
                        Some(first) => {
                            proof {
                                self.lemma_next(q as int);
                            }
                            if self.tokens[q + 1].token == Token::Dot {
                                match self.parse_bracket_path(q + 1, first) {
                                    Ok((name, p1)) => (PathSegmentAst::Variable(name), p1),
                                    Err(e) => return Err(e),
                                }
                            } else {
                                (PathSegmentAst::Variable(first), q + 1)
                            }
                        },
                        None => {
                            return Err(
                                self.err(q, String::from_str("Expected number or path in bracket index")),
                            );
                        },
                    }
                };
                let p2 = match self.expect(p1, Token::RBracket) {
                    Ok(x) => x,
                    Err(e) => return Err(e),
                };
                let ghost before = segments@;
                segments.push(seg);
                assert(segs_view(segments@) =~= segs_view(before).push(seg_ast_view(segments@.last())));
                p = p2;
            } else {
                let pa = PathAst { segments };
                assert(pa@ == segs_view(pa.segments@));
                return Ok((pa, p));
            }
        }
    }

    fn parse_pattern(&self, pos: usize) -> (r: Result<(PatternAst, usize), ParseError>)
        requires
            self.wf(),
            pos < self.tokens.len(),
        ensures
            adv(r, pattern(self.inp(), pos as int), pos, self.len()),
        decreases self.tokens@.len() - pos, 20nat,
    {
        let t = self.tokens[pos].token;
        if t == Token::Str || t == Token::Number || t == Token::True || t == Token::False || t
            == Token::Null || t == Token::Underscore {
            proof {
                self.lemma_next(pos as int);
            }
            let pt = if t == Token::Str {
                PatternAst::Literal(Value::String(self.tokens[pos].text.clone()))
            } else if t == Token::Number {
                PatternAst::Literal(copy_value(&self.reading_at(pos).pattern))
            } else if t == Token::True {
                PatternAst::Literal(Value::Bool(true))
            } else if t == Token::False {
                PatternAst::Literal(Value::Bool(false))
            } else if t == Token::Null {
                PatternAst::Literal(Value::Null)
            } else {
                PatternAst::Wildcard
            };
            return Ok((pt, pos + 1));
        }
        if self.token_as_ident(pos).is_some() {
            let (pa, p1) = match self.parse_path(pos) {
                Ok(x) => x,
                Err(e) => return Err(e),
            };
            assert(pa@ == segs_view(pa.segments@));
            if pa.segments.len() == 1 {
                let name = match &pa.segments[0] {
                    PathSegmentAst::Field(n) => n.clone(),
                    _ => return Err(self.err(p1, String::from_str("Expected pattern"))),
                };
                if is_root_name_exec(name.as_str()) {
                    return Ok((PatternAst::PathRef(pa), p1));
                } else {
                    return Ok((PatternAst::Variable(name), p1));
                }
            } else {
                return Ok((PatternAst::PathRef(pa), p1));
            }
        }
        if t == Token::LBrace {
            self.parse_object_pattern(pos)
        } else if t == Token::LBracket {
            self.parse_array_pattern(pos)
        } else {
            Err(self.expected(pos, "Expected pattern, found "))
        }
    }

    fn parse_object_pattern(&self, pos: usize) -> (r: Result<(PatternAst, usize), ParseError>)
        requires
            self.wf(),
            pos < self.tokens.len(),
        ensures
            adv(r, object_pattern(self.inp(), pos as int), pos, self.len()),
        decreases self.tokens@.len() - pos, 19nat,
    {
        let p1 = match self.expect(pos, Token::LBrace) {
            Ok(x) => x,
            Err(e) => return Err(e),
        };
        let (fields, p2) = if self.tokens[p1].token != Token::RBrace {
            match self.parse_object_fields(p1) {
                Ok(x) => x,
                Err(e) => return Err(e),
            }
        } else {
            let v: Vec<(String, PatternAst)> = Vec::new();
            assert(pattern_pairs_view(v@, 0) =~= Seq::<(Seq<char>, SPattern)>::empty());
            (v, p1)
        };
        let p3 = match self.expect(p2, Token::RBrace) {
            Ok(x) => x,
            Err(e) => return Err(e),
        };
        Ok((PatternAst::Object(fields), p3))
    }

    fn parse_object_fields(&self, pos: usize) -> (r: Result<(Vec<(String, PatternAst)>, usize), ParseError>)
        requires
            self.wf(),
            pos < self.tokens.len(),
        ensures
            match r {
                Ok((fs, p)) => object_fields(self.inp(), pos as int, Seq::empty()) == Ok::<
                    (Seq<(Seq<char>, SPattern)>, int),
                    SParseError,
                >((pattern_pairs_view(fs@, fs@.len()), p as int)) && pos < p < self.len(),
                Err(e) => object_fields(self.inp(), pos as int, Seq::empty()) == Err::<
                    (Seq<(Seq<char>, SPattern)>, int),
                    SParseError,
                >(e@),
            },
        decreases self.tokens@.len() - pos, 21nat,
    {
        let ghost c = self.inp();
        let mut fields: Vec<(String, PatternAst)> = Vec::new();
        let mut p = pos;
        assert(pattern_pairs_view(fields@, 0) =~= Seq::<(Seq<char>, SPattern)>::empty());
        loop
            invariant
                self.wf(),
                c == self.inp(),
                pos <= p < self.tokens.len(),
                object_fields(c, pos as int, Seq::empty()) == object_fields(
                    c,
                    p as int,
                    pattern_pairs_view(fields@, fields@.len()),
                ),
            decreases self.tokens@.len() - p,
        {
            let key = match self.token_as_ident(p) {
                Some(k) => k,
                None => {
                    if self.tokens[p].token == Token::Str {
                        self.tokens[p].text.clone()
                    } else {
                        return Err(self.expected(p, "Expected field name, found "));
                    }
                },
            };
            proof {
                self.lemma_next(p as int);
            }
            let q1 = match self.expect(p + 1, Token::Colon) {
                Ok(x) => x,
                Err(e) => return Err(e),
            };
            let (v, q2) = match self.parse_pattern(q1) {
                Ok(x) => x,
                Err(e) => return Err(e),
            };
            let ghost kv = key@;
            let ghost vv = v@;
            proof {
                lemma_pattern_pairs_view(fields@.push((key, v)), fields@.len() + 1);
                lemma_pattern_pairs_view(fields@, fields@.len());
            }
            let ghost before = fields@;
            fields.push((key, v));
            assert(pattern_pairs_view(fields@, fields@.len()) =~= pattern_pairs_view(
                before,
                before.len(),
            ).push((kv, vv)));
            if self.tokens[q2].token == Token::Comma {
                proof {
                    self.lemma_next(q2 as int);
                }
                p = q2 + 1;
            } else {
                return Ok((fields, q2));
            }
        }
    }

    fn parse_array_pattern(&self, pos: usize) -> (r: Result<(PatternAst, usize), ParseError>)
        requires
            self.wf(),
            pos < self.tokens.len(),
        ensures
            adv(r, array_pattern(self.inp(), pos as int), pos, self.len()),
        decreases self.tokens@.len() - pos, 17nat,
    {
        let p1 = match self.expect(pos, Token::LBracket) {
            Ok(x) => x,
            Err(e) => return Err(e),
        };
        let (elems, p2) = if self.tokens[p1].token != Token::RBracket {
            match self.parse_array_items(p1) {
                Ok(x) => x,
                Err(e) => return Err(e),
            }
        } else {
            let v: Vec<PatternAst> = Vec::new();
            assert(patterns_view(v@, 0) =~= Seq::<SPattern>::empty());
            (v, p1)
        };
        let p3 = match self.expect(p2, Token::RBracket) {
            Ok(x) => x,
            Err(e) => return Err(e),
        };
        Ok((PatternAst::Array(elems), p3))
    }

    fn parse_array_items(&self, pos: usize) -> (r: Result<(Vec<PatternAst>, usize), ParseError>)
        requires
            self.wf(),
            pos < self.tokens.len(),
        ensures
            match r {
                Ok((vs, p)) => array_items(self.inp(), pos as int, Seq::empty()) == Ok::<
                    (Seq<SPattern>, int),
                    SParseError,
                >((patterns_of(vs@), p as int)) && pos < p < self.len(),
                Err(e) => array_items(self.inp(), pos as int, Seq::empty()) == Err::<
                    (Seq<SPattern>, int),
                    SParseError,
                >(e@),
            },
        decreases self.tokens@.len() - pos, 21nat,
    {
        let ghost c = self.inp();
        let mut elems: Vec<PatternAst> = Vec::new();
        let mut p = pos;
        assert(patterns_of(elems@) =~= Seq::<SPattern>::empty());
        loop
            invariant
                self.wf(),
                c == self.inp(),
                pos <= p < self.tokens.len(),
                array_items(c, pos as int, Seq::empty()) == array_items(c, p as int, patterns_of(elems@)),
            decreases self.tokens@.len() - p,
        {
            let (v, q) = match self.parse_pattern(p) {
                Ok(x) => x,
                Err(e) => return Err(e),
            };
            proof {
                lemma_patterns_of_push(elems@, v);
            }
            elems.push(v);
            if self.tokens[q].token == Token::Comma {
                proof {
                    self.lemma_next(q as int);
                }
                p = q + 1;
            } else {
                return Ok((elems, q));
            }
        }
    }
}


impl Parser {
    fn parse_expr(&self, pos: usize) -> (r: Result<(ExprAst, usize), ParseError>)
        requires
            self.wf(),
            pos < self.tokens.len(),
        ensures
            adv(r, expr(self.inp(), pos as int), pos, self.len()),
        decreases self.tokens@.len() - pos, 30nat,
    {
        self.parse_or_expr(pos)
    }

    fn parse_or_expr(&self, pos: usize) -> (r: Result<(ExprAst, usize), ParseError>)
        requires
            self.wf(),
            pos < self.tokens.len(),
        ensures
            adv(r, or_expr(self.inp(), pos as int), pos, self.len()),
        decreases self.tokens@.len() - pos, 29nat,
    {
        let ghost c = self.inp();
        let (mut l, mut p) = match self.parse_and_expr(pos) {
            Ok(x) => x,
            Err(e) => return Err(e),
        };
        loop
            invariant
                self.wf(),
                c == self.inp(),
                pos < p < self.tokens.len(),
                or_expr(c, pos as int) == or_rest(c, p as int, l@),
            decreases self.tokens@.len() - p,
        {
            if self.tokens[p].token != Token::Or {
                return Ok((l, p));
            }
            proof {
                self.lemma_next(p as int);
            }
            let (r, p2) = match self.parse_and_expr(p + 1) {
                Ok(x) => x,
                Err(e) => return Err(e),
            };
            l = or_exec(l, r);
            p = p2;
        }
    }

    fn parse_and_expr(&self, pos: usize) -> (r: Result<(ExprAst, usize), ParseError>)
        requires
            self.wf(),
            pos < self.tokens.len(),
        ensures
            adv(r, and_expr(self.inp(), pos as int), pos, self.len()),
        decreases self.tokens@.len() - pos, 27nat,
    {
        let ghost c = self.inp();
        let (mut l, mut p) = match self.parse_unary_expr(pos) {
            Ok(x) => x,
            Err(e) => return Err(e),
        };
        loop
            invariant
                self.wf(),
                c == self.inp(),
                pos < p < self.tokens.len(),
                and_expr(c, pos as int) == and_rest(c, p as int, l@),
            decreases self.tokens@.len() - p,
        {
            if self.tokens[p].token != Token::And {
                return Ok((l, p));
            }
            proof {
                self.lemma_next(p as int);
            }
            let (r, p2) = match self.parse_unary_expr(p + 1) {
                Ok(x) => x,
                Err(e) => return Err(e),
            };
            l = and_exec(l, r);
            p = p2;
        }
    }

    fn parse_unary_expr(&self, pos: usize) -> (r: Result<(ExprAst, usize), ParseError>)
        requires
            self.wf(),
            pos < self.tokens.len(),
        ensures
            adv(r, unary(self.inp(), pos as int), pos, self.len()),
        decreases self.tokens@.len() - pos, 25nat,
    {
        if self.tokens[pos].token == Token::Not {
            proof {
                self.lemma_next(pos as int);
            }
            let (e, p1) = match self.parse_unary_expr(pos + 1) {
                Ok(x) => x,
                Err(e) => return Err(e),
            };
            Ok((ExprAst::Not(Box::new(e)), p1))
        } else {
            self.parse_primary_expr(pos)
        }
    }

    fn parse_quantified(&self, pos: usize, is_forall: bool) -> (r: Result<
        (String, PathAst, ExprAst, usize),
        ParseError,
    >)
        requires
            self.wf(),
            pos < self.tokens.len(),
        ensures
            match r {
                Ok((v, pa, body, p)) => quantified(self.inp(), pos as int, is_forall) == Ok::<
                    (Seq<char>, Seq<SegV>, SExprAst, int),
                    SParseError,
                >((v@, pa@, body@, p as int)) && pos < p < self.len(),
                Err(e) => quantified(self.inp(), pos as int, is_forall) == Err::<
                    (Seq<char>, Seq<SegV>, SExprAst, int),
                    SParseError,
                >(e@),
            },
        decreases self.tokens@.len() - pos, 23nat,
    {
        if self.tokens[pos].token != Token::Ident {
            let m = if is_forall {
                "Expected variable name in forall, found "
            } else {
                "Expected variable name in exists, found "
            };
            return Err(self.expected(pos, m));
        }
        proof {
            self.lemma_next(pos as int);
        }
        let var = self.tokens[pos].text.clone();
        let p1 = match self.expect(pos + 1, Token::In) {
            Ok(x) => x,
            Err(e) => return Err(e),
        };
        let (pa, p2) = match self.parse_path(p1) {
            Ok(x) => x,
            Err(e) => return Err(e),
        };
        let p3 = match self.expect(p2, Token::Colon) {
            Ok(x) => x,
            Err(e) => return Err(e),
        };
        let (body, p4) = match self.parse_expr(p3) {
            Ok(x) => x,
            Err(e) => return Err(e),
        };
        Ok((var, pa, body, p4))
    }

    fn parse_primary_expr(&self, pos: usize) -> (r: Result<(ExprAst, usize), ParseError>)
        requires
            self.wf(),
            pos < self.tokens.len(),
        ensures
            adv(r, primary(self.inp(), pos as int), pos, self.len()),
        decreases self.tokens@.len() - pos, 24nat,
    {
        let t = self.tokens[pos].token;
        if t == Token::LParen {
            proof {
                self.lemma_next(pos as int);
            }
            let (e, p1) = match self.parse_expr(pos + 1) {
                Ok(x) => x,
                Err(e) => return Err(e),
            };
            let p2 = match self.expect(p1, Token::RParen) {
                Ok(x) => x,
                Err(e) => return Err(e),
            };
            return Ok((e, p2));
        }
        if t == Token::Has {
            proof {
                self.lemma_next(pos as int);
            }
            let (pa, p1) = match self.parse_path(pos + 1) {
                Ok(x) => x,
                Err(e) => return Err(e),
            };
            return Ok((ExprAst::Has { path: pa }, p1));
        }
        if t == Token::Forall || t == Token::Exists {
            proof {
                self.lemma_next(pos as int);
            }
            let (var, pa, body, p1) = match self.parse_quantified(pos + 1, t == Token::Forall) {
                Ok(x) => x,
                Err(e) => return Err(e),
            };
            if t == Token::Forall {
                return Ok((ExprAst::Forall { var, path: pa, body: Box::new(body) }, p1));
            } else {
                return Ok((ExprAst::Exists { var, path: pa, body: Box::new(body) }, p1));
            }
        }
        if t == Token::LBrace || t == Token::LBracket || t == Token::Str || t == Token::Number || t
            == Token::True || t == Token::False || t == Token::Null || t == Token::Underscore {
            let (pt, p1) = match self.parse_pattern(pos) {
                Ok(x) => x,
                Err(e) => return Err(e),
            };
            let p2 = match self.expect(p1, Token::In) {
                Ok(x) => x,
                Err(e) => return Err(e),
            };
            let (pa, p3) = match self.parse_path(p2) {
                Ok(x) => x,
                Err(e) => return Err(e),
            };
            return Ok((ExprAst::In { pattern: pt, path: pa }, p3));
        }
        let (pa, p1) = match self.parse_path(pos) {
            Ok(x) => x,
            Err(e) => return Err(e),
        };
        self.parse_primary_tail(p1, pa)
    }

    fn parse_primary_tail(&self, pos: usize, pa: PathAst) -> (r: Result<(ExprAst, usize), ParseError>)
        requires
            self.wf(),
            pos < self.tokens.len(),
        ensures
            adv0(r, primary_tail(self.inp(), pos as int, pa@), pos, self.len()),
        decreases self.tokens@.len() - pos, 23nat,
    {
        let t = self.tokens[pos].token;
        assert(pa@ == segs_view(pa.segments@));
        match op_exec(t) {
            Some(op) => {
                proof {
                    self.lemma_next(pos as int);
                }
                let (pt, p1) = match self.parse_pattern(pos + 1) {
                    Ok(x) => x,
                    Err(e) => return Err(e),
                };
                return Ok((ExprAst::Compare { left: pa, op, right: pt }, p1));
            },
            None => {},
        }
        if t == Token::Like {
            proof {
                self.lemma_next(pos as int);
            }
            if self.tokens[pos + 1].token == Token::Str {
                proof {
                    self.lemma_next(pos + 1);
                }
                return Ok((ExprAst::Like { path: pa, pattern: self.tokens[pos + 1].text.clone() }, pos + 2));
            } else {
                return Err(self.err(pos + 1, String::from_str("Expected string pattern after 'like'")));
            }
        }
        if t == Token::In {
            proof {
                self.lemma_next(pos as int);
            }
            let q = pos + 1;
            if self.tokens[q].token == Token::LBracket {
                proof {
                    self.lemma_next(q as int);
                }
                let (vs, p1) = match self.parse_in_list(q + 1) {
                    Ok(x) => x,
                    Err(e) => return Err(e),
                };
                let p2 = match self.expect(p1, Token::RBracket) {
                    Ok(x) => x,
                    Err(e) => return Err(e),
                };
                return Ok((ExprAst::InLiteral { path: pa, values: vs }, p2));
            } else {
                let (container, p1) = match self.parse_path(q) {
                    Ok(x) => x,
                    Err(e) => return Err(e),
                };
                return Ok((ExprAst::In { pattern: PatternAst::PathRef(pa), path: container }, p1));
            }
        }
        if t == Token::Has {
            proof {
                self.lemma_next(pos as int);
            }
            let (attr, p1) = match self.parse_path(pos + 1) {
                Ok(x) => x,
                Err(e) => return Err(e),
            };
            let ghost a = pa@;
            let ghost b = attr@;
            assert(b == segs_view(attr.segments@));
            let mut segments = pa.segments;
            let mut k: usize = 0;
            let ghost s0 = segments@;
            while k < attr.segments.len()
                invariant
                    k <= attr.segments.len(),
                    segs_view(segments@) == a + b.take(k as int),
                    b == segs_view(attr.segments@),
                decreases attr.segments.len() - k,
            {
                let sg = match &attr.segments[k] {
                    PathSegmentAst::Field(f) => PathSegmentAst::Field(f.clone()),
                    PathSegmentAst::Index(ix) => PathSegmentAst::Index(*ix),
                    PathSegmentAst::Variable(v) => PathSegmentAst::Variable(v.clone()),
                };
                let ghost before = segments@;
                segments.push(sg);
                assert(segs_view(segments@) =~= segs_view(before).push(seg_ast_view(sg)));
                assert(b.take(k + 1) =~= b.take(k as int).push(b[k as int]));
                k += 1;
            }
            assert(b.take(k as int) =~= b);
            let full = PathAst { segments };
            assert(full@ == segs_view(full.segments@));
            return Ok((ExprAst::Has { path: full }, p1));
        }
        if t == Token::Colon && pa.segments.len() == 1 {
            match &pa.segments[0] {
                PathSegmentAst::Field(ns) => {
                    proof {
                        self.lemma_next(pos as int);
                    }
                    let namespace = ns.clone();
                    let (name, p1) = match self.expect_ident(pos + 1) {
                        Ok(x) => x,
                        Err(e) => return Err(e),
                    };
                    return Ok((ExprAst::TypeRef { namespace: Some(namespace), name }, p1));
                },
                _ => {},
            }
        }
        if t == Token::Is {
            proof {
                self.lemma_next(pos as int);
            }
            let (name, p1) = match self.expect_ident(pos + 1) {
                Ok(x) => x,
                Err(e) => return Err(e),
            };
            return Ok((ExprAst::IsType { path: pa, entity_type: name }, p1));
        }
        Ok(
            (
                ExprAst::Compare {
                    left: pa,
                    op: OpAst::Eq,
                    right: PatternAst::Literal(Value::Bool(true)),
                },
                pos,
            ),
        )
    }

    /// The patterns of `path in [ ... ]` up to the `]`.
    fn parse_in_list(&self, pos: usize) -> (r: Result<(Vec<PatternAst>, usize), ParseError>)
        requires
            self.wf(),
            pos < self.tokens.len(),
        ensures
            match r {
                Ok((vs, p)) => in_list(self.inp(), pos as int, Seq::empty()) == Ok::<
                    (Seq<SPattern>, int),
                    SParseError,
                >((patterns_of(vs@), p as int)) && pos <= p < self.len(),
                Err(e) => in_list(self.inp(), pos as int, Seq::empty()) == Err::<
                    (Seq<SPattern>, int),
                    SParseError,
                >(e@),
            },
        decreases self.tokens@.len() - pos, 22nat,
    {
        let ghost c = self.inp();
        let mut vs: Vec<PatternAst> = Vec::new();
        let mut p = pos;
        assert(patterns_of(vs@) =~= Seq::<SPattern>::empty());
        loop
            invariant
                self.wf(),
                c == self.inp(),
                pos <= p < self.tokens.len(),
                in_list(c, pos as int, Seq::empty()) == in_list(c, p as int, patterns_of(vs@)),
            decreases self.tokens@.len() - p,
        {
            if self.tokens[p].token == Token::RBracket {
                return Ok((vs, p));
            }
            let (v, q) = match self.parse_pattern(p) {
                Ok(x) => x,
                Err(e) => return Err(e),
            };
            proof {
                lemma_patterns_of_push(vs@, v);
            }
            vs.push(v);
            p = self.skip_opt(q, Token::Comma);
        }
    }
}


// ----------------------------------------------------------------------------
// Rules, assertions, tests, programs
// ----------------------------------------------------------------------------

pub open spec fn exp_view(o: Option<ExpectedOutcome>) -> Option<SExpected> {
    match o {
        Some(e) => Some(e@),
        None => None,
    }
}

pub open spec fn entries_view(v: Seq<(EffectAst, String)>) -> Seq<(EffectAst, Seq<char>)> {
    v.map_values(|p: (EffectAst, String)| (p.0, p.1@))
}

/// `jv_obj` of a list with one more entry.
proof fn lemma_jv_obj_push(es: Seq<(String, Value)>, e: (String, Value))
    ensures
        jv_obj(es.push(e), es.len() + 1) == jv_obj(es, es.len()).push((e.0@, e.1@)),
{
    lemma_jv_obj(es.push(e), es.len() + 1);
    lemma_jv_obj(es, es.len());
    assert(jv_obj(es.push(e), es.len() + 1) =~= jv_obj(es, es.len()).push((e.0@, e.1@)));
}

/// `jv_arr` of a list with one more value.
proof fn lemma_jv_arr_push(vs: Seq<Value>, v: Value)
    ensures
        jv_arr(vs.push(v), vs.len() + 1) == jv_arr(vs, vs.len()).push(v@),
{
    lemma_jv_arr(vs.push(v), vs.len() + 1);
    lemma_jv_arr(vs, vs.len());
    assert(jv_arr(vs.push(v), vs.len() + 1) =~= jv_arr(vs, vs.len()).push(v@));
}

proof fn lemma_str_lt_skip(a: Seq<char>, b: Seq<char>, i: int)
    requires
        0 <= i <= a.len(),
        i <= b.len(),
        forall|j: int| 0 <= j < i ==> a[j] == b[j],
    ensures
        str_lt(a, b) == str_lt(a.skip(i), b.skip(i)),
    decreases i,
{
    if i > 0 {
        lemma_str_lt_skip(a.drop_first(), b.drop_first(), i - 1);
        assert(a.drop_first().skip(i - 1) =~= a.skip(i));
        assert(b.drop_first().skip(i - 1) =~= b.skip(i));
    } else {
        assert(a.skip(0) =~= a);
        assert(b.skip(0) =~= b);
    }
}

/// Whether `a` comes before `b` in the order of strings.
fn str_lt_exec(a: &str, b: &str) -> (r: bool)
    ensures
        r == str_lt(a@, b@),
{
    let x = crate::text::chars_of(a);
    let y = crate::text::chars_of(b);
    let mut i: usize = 0;
    while i < x.len() && i < y.len()
        invariant
            i <= x.len(),
            i <= y.len(),
            x@ == a@,
            y@ == b@,
            forall|j: int| 0 <= j < i ==> x@[j] == y@[j],
        decreases x.len() - i,
    {
        if x[i] != y[i] {
            proof {
                lemma_str_lt_skip(a@, b@, i as int);
                assert(a@.skip(i as int)[0] == x@[i as int]);
                assert(b@.skip(i as int)[0] == y@[i as int]);
            }
            return x[i] < y[i];
        }
        i += 1;
    }
    proof {
        lemma_str_lt_skip(a@, b@, i as int);
    }
    i == x.len() && i < y.len()
}

proof fn lemma_map_insert_skip(es: Seq<(Seq<char>, JsonV)>, k: Seq<char>, v: JsonV, i: int)
    requires
        0 <= i <= es.len(),
        forall|j: int| 0 <= j < i ==> es[j].0 != k && !str_lt(k, es[j].0),
    ensures
        map_insert(es, k, v) == es.take(i) + map_insert(es.skip(i), k, v),
    decreases i,
{
    if i > 0 {
        lemma_map_insert_skip(es.drop_first(), k, v, i - 1);
        assert(es.drop_first().skip(i - 1) =~= es.skip(i));
        assert(es.take(i) =~= seq![es[0]] + es.drop_first().take(i - 1));
        assert(es.take(i) + map_insert(es.skip(i), k, v) =~= seq![es[0]] + (es.drop_first().take(i - 1)
            + map_insert(es.skip(i), k, v)));
    } else {
        assert(es.skip(0) =~= es);
        assert(es.take(0) + map_insert(es, k, v) =~= map_insert(es, k, v));
    }
}

/// Sets `k` to `v` in a map held as entries ordered by key.
fn map_insert_exec(es: &mut Vec<(String, Value)>, k: String, v: Value)
    ensures
        jv_obj(final(es)@, final(es)@.len()) == map_insert(jv_obj(old(es)@, old(es)@.len()), k@, v@),
{
    let ghost s0 = jv_obj(es@, es@.len());
    proof {
        lemma_jv_obj(es@, es@.len());
    }
    let mut i: usize = 0;
    while i < es.len()
        invariant
            i <= es.len(),
            es@ == old(es)@,
            s0 == jv_obj(es@, es@.len()),
            s0.len() == es.len(),
            forall|j: int| 0 <= j < es.len() ==> #[trigger] s0[j] == (es@[j].0@, es@[j].1@),
            forall|j: int| 0 <= j < i ==> s0[j].0 != k@ && !str_lt(k@, s0[j].0),
        decreases es.len() - i,
    {
        if str_eq(es[i].0.as_str(), k.as_str()) {
            proof {
                lemma_map_insert_skip(s0, k@, v@, i as int);
                assert(s0.skip(i as int)[0].0 == k@);
            }
            let ghost kv = k@;
            let ghost vv = v@;
            es.set(i, (k, v));
            proof {
                lemma_jv_obj(es@, es@.len());
                assert(jv_obj(es@, es@.len()) =~= s0.take(i as int) + s0.skip(i as int).update(0, (kv, vv)));
            }
            return;
        }
        if str_lt_exec(k.as_str(), es[i].0.as_str()) {
            proof {
                lemma_map_insert_skip(s0, k@, v@, i as int);
                assert(s0.skip(i as int)[0].0 == es@[i as int].0@);
            }
            let ghost kv = k@;
            let ghost vv = v@;
            es.insert(i, (k, v));
            proof {
                lemma_jv_obj(es@, es@.len());
                assert(jv_obj(es@, es@.len()) =~= s0.take(i as int) + (seq![(kv, vv)] + s0.skip(i as int)));
            }
            return;
        }
        i += 1;
    }
    proof {
        lemma_map_insert_skip(s0, k@, v@, i as int);
        assert(s0.skip(i as int) =~= Seq::<(Seq<char>, JsonV)>::empty());
        assert(s0.take(i as int) =~= s0);
    }
    let ghost kv = k@;
    let ghost vv = v@;
    es.push((k, v));
    proof {
        lemma_jv_obj(es@, es@.len());
        assert(jv_obj(es@, es@.len()) =~= s0 + seq![(kv, vv)]);
    }
}

impl Parser {
    fn parse_rule(&self, pos: usize) -> (r: Result<(RuleAst, usize), ParseError>)
        requires
            self.wf(),
            pos < self.tokens.len(),
        ensures
            adv(r, rule(self.inp(), pos as int), pos, self.len()),
    {
        let t = self.tokens[pos].token;
        let effect = if t == Token::Allow {
            EffectAst::Allow
        } else if t == Token::Deny {
            EffectAst::Deny
        } else {
            return Err(self.expected(pos, "Expected 'allow' or 'deny', found "));
        };
        proof {
            self.lemma_next(pos as int);
        }
        let p1 = pos + 1;
        let t1 = self.tokens[p1].token;
        let (name, p2) = if t1 == Token::Ident || t1 == Token::Str || t1 == Token::Actor || t1
            == Token::Resource || t1 == Token::Action {
            let (n, q) = match self.expect_ident_or_string(p1) {
                Ok(x) => x,
                Err(e) => return Err(e),
            };
            if n.unicode_len() == 0 {
                return Err(self.err(q, String::from_str("Rule name must not be empty")));
            }
            (n, q)
        } else {
            let n = if t == Token::Allow {
                String::from_str("allow")
            } else {
                String::from_str("deny")
            };
            (n, p1)
        };
        let (body, p3) = if self.tokens[p2].token == Token::If {
            proof {
                self.lemma_next(p2 as int);
            }
            match self.parse_expr(p2 + 1) {
                Ok((e, q)) => (Some(e), q),
                Err(e) => return Err(e),
            }
        } else {
            (None, p2)
        };
        let p4 = match self.expect(p3, Token::Semi) {
            Ok(x) => x,
            Err(e) => return Err(e),
        };
        Ok((RuleAst { name, effect, body }, p4))
    }

    fn parse_type_params(&self, pos: usize) -> (r: Result<(Vec<String>, usize), ParseError>)
        requires
            self.wf(),
            pos < self.tokens.len(),
        ensures
            match r {
                Ok((v, p)) => type_params(self.inp(), pos as int, Seq::empty()) == Ok::<
                    (Seq<Seq<char>>, int),
                    SParseError,
                >((strings_view(v@), p as int)) && pos < p < self.len(),
                Err(e) => type_params(self.inp(), pos as int, Seq::empty()) == Err::<
                    (Seq<Seq<char>>, int),
                    SParseError,
                >(e@),
            },
    {
        let ghost c = self.inp();
        let mut v: Vec<String> = Vec::new();
        let mut p = pos;
        assert(strings_view(v@) =~= Seq::<Seq<char>>::empty());
        loop
            invariant
                self.wf(),
                c == self.inp(),
                pos <= p < self.tokens.len(),
                type_params(c, pos as int, Seq::empty()) == type_params(c, p as int, strings_view(v@)),
            decreases self.tokens@.len() - p,
        {
            let (n, q) = match self.expect_ident(p) {
                Ok(x) => x,
                Err(e) => return Err(e),
            };
            let ghost before = v@;
            v.push(n);
            assert(strings_view(v@) =~= strings_view(before).push(v@.last()@));
            if self.tokens[q].token == Token::Comma {
                proof {
                    self.lemma_next(q as int);
                }
                p = q + 1;
            } else {
                return Ok((v, q));
            }
        }
    }

    fn parse_assert(&self, pos: usize) -> (r: Result<(AssertDef, usize), ParseError>)
        requires
            self.wf(),
            pos < self.tokens.len(),
        ensures
            adv(r, assert_def(self.inp(), pos as int), pos, self.len()),
    {
        let p1 = match self.expect(pos, Token::Assert) {
            Ok(x) => x,
            Err(e) => return Err(e),
        };
        let (name, p2) = match self.expect_ident(p1) {
            Ok(x) => x,
            Err(e) => return Err(e),
        };
        let (type_params, p4) = if self.tokens[p2].token == Token::Lt {
            proof {
                self.lemma_next(p2 as int);
            }
            let (ps, p3) = match self.parse_type_params(p2 + 1) {
                Ok(x) => x,
                Err(e) => return Err(e),
            };
            let p4 = match self.expect(p3, Token::Gt) {
                Ok(x) => x,
                Err(e) => return Err(e),
            };
            (ps, p4)
        } else {
            let ps: Vec<String> = Vec::new();
            assert(strings_view(ps@) =~= Seq::<Seq<char>>::empty());
            (ps, p2)
        };
        let t = self.tokens[p4].token;
        if t != Token::If && t != Token::Is {
            return Err(self.err(p4, String::from_str("Expected 'if' or 'is' after assert name")));
        }
        proof {
            self.lemma_next(p4 as int);
        }
        let (body, p5) = match self.parse_expr(p4 + 1) {
            Ok(x) => x,
            Err(e) => return Err(e),
        };
        let p6 = match self.expect(p5, Token::Semi) {
            Ok(x) => x,
            Err(e) => return Err(e),
        };
        Ok((AssertDef { name, type_params, body }, p6))
    }

    fn parse_test_name(&self, pos: usize) -> (r: Result<(String, usize), ParseError>)
        requires
            self.wf(),
            pos < self.tokens.len(),
        ensures
            adv(r, test_name(self.inp(), pos as int), pos, self.len()),
    {
        let p1 = match self.expect(pos, Token::Test) {
            Ok(x) => x,
            Err(e) => return Err(e),
        };
        if self.tokens[p1].token == Token::Str {
            if self.tokens[p1].text.unicode_len() == 0 {
                return Err(self.err(p1, String::from_str("Test name must not be empty")));
            }
            proof {
                self.lemma_next(p1 as int);
            }
            Ok((self.tokens[p1].text.clone(), p1 + 1))
        } else {
            Err(self.expected(p1, "Expected test name string, found "))
        }
    }

    fn skip_test_block(&self, pos: usize) -> (r: Result<usize, ParseError>)
        requires
            self.wf(),
            pos < self.tokens.len(),
        ensures
            match r {
                Ok(p) => skip_test(self.inp(), pos as int) == Ok::<int, SParseError>(p as int) && pos
                    < p < self.len(),
                Err(e) => skip_test(self.inp(), pos as int) == Err::<int, SParseError>(e@),
            },
    {
        let ghost c = self.inp();
        let (_, p1) = match self.parse_test_name(pos) {
            Ok(x) => x,
            Err(e) => return Err(e),
        };
        let p2 = match self.expect(p1, Token::LBrace) {
            Ok(x) => x,
            Err(e) => return Err(e),
        };
        let mut depth: usize = 1;
        let mut p = p2;
        loop
            invariant
                self.wf(),
                c == self.inp(),
                pos < p2 <= p < self.tokens.len(),
                1 <= depth <= p - p2 + 1,
                skip_test(c, pos as int) == skip_braces(c, p as int, depth as nat),
            decreases self.tokens@.len() - p,
        {
            let t = self.tokens[p].token;
            if t == Token::Eof {
                return Err(self.err(p, String::from_str("Unexpected EOF inside test block")));
            }
            proof {
                self.lemma_next(p as int);
            }
            if t == Token::LBrace {
                depth = depth + 1;
            } else if t == Token::RBrace {
                depth = depth - 1;
                if depth == 0 {
                    assert(skip_braces(c, p + 1, 0) == Ok::<int, SParseError>(p + 1));
                    return Ok(p + 1);
                }
            }
            p = p + 1;
        }
    }

    fn parse_test_value(&self, pos: usize) -> (r: Result<(Value, usize), ParseError>)
        requires
            self.wf(),
            pos < self.tokens.len(),
        ensures
            adv(r, test_value(self.inp(), pos as int), pos, self.len()),
        decreases self.tokens@.len() - pos, 3nat,
    {
        let t = self.tokens[pos].token;
        if t == Token::Str || t == Token::Number || t == Token::True || t == Token::False || t
            == Token::Null {
            proof {
                self.lemma_next(pos as int);
            }
            let v = if t == Token::Str {
                Value::String(self.tokens[pos].text.clone())
            } else if t == Token::Number {
                copy_value(&self.reading_at(pos).value)
            } else if t == Token::True {
                Value::Bool(true)
            } else if t == Token::False {
                Value::Bool(false)
            } else {
                Value::Null
            };
            return Ok((v, pos + 1));
        }
        if t == Token::LBrace {
            proof {
                self.lemma_next(pos as int);
            }
            let (es, p1) = match self.parse_value_entries(pos + 1) {
                Ok(x) => x,
                Err(e) => return Err(e),
            };
            let p2 = match self.expect(p1, Token::RBrace) {
                Ok(x) => x,
                Err(e) => return Err(e),
            };
            return Ok((Value::Object(es), p2));
        }
        if t == Token::LBracket {
            proof {
                self.lemma_next(pos as int);
            }
            let (vs, p1) = match self.parse_value_items(pos + 1) {
                Ok(x) => x,
                Err(e) => return Err(e),
            };
            let p2 = match self.expect(p1, Token::RBracket) {
                Ok(x) => x,
                Err(e) => return Err(e),
            };
            return Ok((Value::Array(vs), p2));
        }
        Err(self.expected(pos, "Expected value in test entity, found "))
    }

    fn parse_value_entries(&self, pos: usize) -> (r: Result<(Vec<(String, Value)>, usize), ParseError>)
        requires
            self.wf(),
            pos < self.tokens.len(),
        ensures
            match r {
                Ok((es, p)) => value_entries(self.inp(), pos as int, Seq::empty()) == Ok::<
                    (Seq<(Seq<char>, JsonV)>, int),
                    SParseError,
                >((jv_obj(es@, es@.len()), p as int)) && pos <= p < self.len(),
                Err(e) => value_entries(self.inp(), pos as int, Seq::empty()) == Err::<
                    (Seq<(Seq<char>, JsonV)>, int),
                    SParseError,
                >(e@),
            },
        decreases self.tokens@.len() - pos, 2nat,
    {
        let ghost c = self.inp();
        let mut es: Vec<(String, Value)> = Vec::new();
        let mut p = pos;
        assert(jv_obj(es@, 0) =~= Seq::<(Seq<char>, JsonV)>::empty());
        loop
            invariant
                self.wf(),
                c == self.inp(),
                pos <= p < self.tokens.len(),
                value_entries(c, pos as int, Seq::empty()) == value_entries(
                    c,
                    p as int,
                    jv_obj(es@, es@.len()),
                ),
            decreases self.tokens@.len() - p,
        {
            if self.tokens[p].token == Token::RBrace {
                return Ok((es, p));
            }
            let (k, p1) = match self.expect_ident(p) {
                Ok(x) => x,
                Err(e) => return Err(e),
            };
            let p2 = match self.expect(p1, Token::Colon) {
                Ok(x) => x,
                Err(e) => return Err(e),
            };
            let (v, p3) = match self.parse_test_value(p2) {
                Ok(x) => x,
                Err(e) => return Err(e),
            };
            map_insert_exec(&mut es, k, v);
            p = self.skip_opt(p3, Token::Comma);
        }
    }

    fn parse_value_items(&self, pos: usize) -> (r: Result<(Vec<Value>, usize), ParseError>)
        requires
            self.wf(),
            pos < self.tokens.len(),
        ensures
            match r {
                Ok((vs, p)) => value_items(self.inp(), pos as int, Seq::empty()) == Ok::<
                    (Seq<JsonV>, int),
                    SParseError,
                >((jv_arr(vs@, vs@.len()), p as int)) && pos <= p < self.len(),
                Err(e) => value_items(self.inp(), pos as int, Seq::empty()) == Err::<
                    (Seq<JsonV>, int),
                    SParseError,
                >(e@),
            },
        decreases self.tokens@.len() - pos, 4nat,
    {
        let ghost c = self.inp();
        let mut vs: Vec<Value> = Vec::new();
        let mut p = pos;
        assert(jv_arr(vs@, 0) =~= Seq::<JsonV>::empty());
        loop
            invariant
                self.wf(),
                c == self.inp(),
                pos <= p < self.tokens.len(),
                value_items(c, pos as int, Seq::empty()) == value_items(c, p as int, jv_arr(vs@, vs@.len())),
            decreases self.tokens@.len() - p,
        {
            if self.tokens[p].token == Token::RBracket {
                return Ok((vs, p));
            }
            let (v, q) = match self.parse_test_value(p) {
                Ok(x) => x,
                Err(e) => return Err(e),
            };
            proof {
                lemma_jv_arr_push(vs@, v);
            }
            vs.push(v);
            p = self.skip_opt(q, Token::Comma);
        }
    }

    fn parse_entity_fields(&self, pos: usize) -> (r: Result<(Vec<(String, Value)>, usize), ParseError>)
        requires
            self.wf(),
            pos < self.tokens.len(),
        ensures
            match r {
                Ok((fs, p)) => entity_fields(self.inp(), pos as int, Seq::empty()) == Ok::<
                    (Seq<(Seq<char>, JsonV)>, int),
                    SParseError,
                >((jv_obj(fs@, fs@.len()), p as int)) && pos <= p < self.len(),
                Err(e) => entity_fields(self.inp(), pos as int, Seq::empty()) == Err::<
                    (Seq<(Seq<char>, JsonV)>, int),
                    SParseError,
                >(e@),
            },
    {
        let ghost c = self.inp();
        let mut fs: Vec<(String, Value)> = Vec::new();
        let mut p = pos;
        assert(jv_obj(fs@, 0) =~= Seq::<(Seq<char>, JsonV)>::empty());
        loop
            invariant
                self.wf(),
                c == self.inp(),
                pos <= p < self.tokens.len(),
                entity_fields(c, pos as int, Seq::empty()) == entity_fields(
                    c,
                    p as int,
                    jv_obj(fs@, fs@.len()),
                ),
            decreases self.tokens@.len() - p,
        {
            if self.tokens[p].token == Token::RBrace {
                return Ok((fs, p));
            }
            let (k, p1) = match self.expect_ident(p) {
                Ok(x) => x,
                Err(e) => return Err(e),
            };
            let p2 = match self.expect(p1, Token::Colon) {
                Ok(x) => x,
                Err(e) => return Err(e),
            };
            let (v, p3) = match self.parse_test_value(p2) {
                Ok(x) => x,
                Err(e) => return Err(e),
            };
            proof {
                lemma_jv_obj_push(fs@, (k, v));
            }
            fs.push((k, v));
            p = self.skip_opt(p3, Token::Comma);
        }
    }

    fn parse_expect_entries(&self, pos: usize) -> (r: Result<(Vec<(EffectAst, String)>, usize), ParseError>)
        requires
            self.wf(),
            pos < self.tokens.len(),
        ensures
            match r {
                Ok((es, p)) => expect_entries(self.inp(), pos as int, Seq::empty()) == Ok::<
                    (Seq<(EffectAst, Seq<char>)>, int),
                    SParseError,
                >((entries_view(es@), p as int)) && pos <= p < self.len(),
                Err(e) => expect_entries(self.inp(), pos as int, Seq::empty()) == Err::<
                    (Seq<(EffectAst, Seq<char>)>, int),
                    SParseError,
                >(e@),
            },
    {
        let ghost c = self.inp();
        let mut es: Vec<(EffectAst, String)> = Vec::new();
        let mut p = pos;
        assert(entries_view(es@) =~= Seq::<(EffectAst, Seq<char>)>::empty());
        loop
            invariant
                self.wf(),
                c == self.inp(),
                pos <= p < self.tokens.len(),
                expect_entries(c, pos as int, Seq::empty()) == expect_entries(c, p as int, entries_view(es@)),
            decreases self.tokens@.len() - p,
        {
            let t = self.tokens[p].token;
            if t == Token::RBrace {
                return Ok((es, p));
            }
            let eff = if t == Token::Allow {
                EffectAst::Allow
            } else if t == Token::Deny {
                EffectAst::Deny
            } else {
                return Err(self.expected(p, "Expected 'allow' or 'deny' in expect block, found "));
            };
            proof {
                self.lemma_next(p as int);
            }
            let (n, q) = match self.expect_ident(p + 1) {
                Ok(x) => x,
                Err(e) => return Err(e),
            };
            let ghost before = es@;
            es.push((eff, n));
            assert(entries_view(es@) =~= entries_view(before).push((eff, es@.last().1@)));
            p = self.skip_opt(q, Token::Comma);
        }
    }

    #[verifier::rlimit(30)]
    fn parse_test_block(&self, pos: usize) -> (r: Result<(TestDef, usize), ParseError>)
        requires
            self.wf(),
            pos < self.tokens.len(),
        ensures
            adv(r, test_block(self.inp(), pos as int), pos, self.len()),
    {
        let ghost c = self.inp();
        let (name, p1) = match self.parse_test_name(pos) {
            Ok(x) => x,
            Err(e) => return Err(e),
        };
        let p2 = match self.expect(p1, Token::LBrace) {
            Ok(x) => x,
            Err(e) => return Err(e),
        };
        let mut entities: Vec<TestEntity> = Vec::new();
        let mut expected: Option<ExpectedOutcome> = None;
        let mut p = p2;
        assert(test_entities_view(entities@) =~= Seq::<STestEntity>::empty());
        loop
            invariant
                self.wf(),
                c == self.inp(),
                pos < p2 <= p < self.tokens.len(),
                test_block(c, pos as int) == test_rest(c, name@, p2 as int),
                test_items(c, p2 as int, Seq::empty(), None) == test_items(
                    c,
                    p as int,
                    test_entities_view(entities@),
                    exp_view(expected),
                ),
            ensures
                self.wf(),
                c == self.inp(),
                pos < p2 <= p < self.tokens.len(),
                test_items(c, p2 as int, Seq::empty(), None) == Ok::<
                    (Seq<STestEntity>, Option<SExpected>, int),
                    SParseError,
                >((test_entities_view(entities@), exp_view(expected), p as int)),
            decreases self.tokens@.len() - p,
        {
            let t = self.tokens[p].token;
            if t == Token::RBrace {
                break;
            }
            if t == Token::Expect {
                proof {
                    self.lemma_next(p as int);
                }
                let q = p + 1;
                let tq = self.tokens[q].token;
                if tq == Token::LBrace {
                    proof {
                        self.lemma_next(q as int);
                    }
                    let (es, q1) = match self.parse_expect_entries(q + 1) {
                        Ok(x) => x,
                        Err(e) => return Err(e),
                    };
                    let q2 = match self.expect(q1, Token::RBrace) {
                        Ok(x) => x,
                        Err(e) => return Err(e),
                    };
                    expected = Some(ExpectedOutcome::PerRule(es));
                    p = q2;
                } else if tq == Token::Allow || tq == Token::Deny {
                    proof {
                        self.lemma_next(q as int);
                    }
                    expected = Some(
                        ExpectedOutcome::Simple(
                            if tq == Token::Allow {
                                EffectAst::Allow
                            } else {
                                EffectAst::Deny
                            },
                        ),
                    );
                    p = q + 1;
                } else {
                    return Err(self.expected(q, "Expected 'allow', 'deny', or '{' after 'expect', found "));
                }
            } else {
                let (kind, q1) = match self.expect_ident(p) {
                    Ok(x) => x,
                    Err(e) => return Err(e),
                };
                if self.tokens[q1].token == Token::LBrace {
                    proof {
                        self.lemma_next(q1 as int);
                    }
                    let (fields, q2) = match self.parse_entity_fields(q1 + 1) {
                        Ok(x) => x,
                        Err(e) => return Err(e),
                    };
                    let q3 = match self.expect(q2, Token::RBrace) {
                        Ok(x) => x,
                        Err(e) => return Err(e),
                    };
                    let ghost before = entities@;
                    entities.push(TestEntity { kind, fields, shorthand: false });
                    assert(test_entities_view(entities@) =~= test_entities_view(before).push(
                        entities@.last()@,
                    ));
                    p = q3;
                } else {
                    let (v, q2) = match self.parse_test_value(q1) {
                        Ok(x) => x,
                        Err(e) => return Err(e),
                    };
                    let ghost vv = v@;
                    let fields = vec![(String::from_str("id"), v)];
                    proof {
                        lemma_jv_obj(fields@, 1);
                        assert(jv_obj(fields@, 1) =~= seq![("id"@, vv)]);
                    }
                    let ghost before = entities@;
                    entities.push(TestEntity { kind, fields, shorthand: true });
                    assert(test_entities_view(entities@) =~= test_entities_view(before).push(
                        entities@.last()@,
                    ));
                    p = q2;
                }
            }
        }
        let p4 = match self.expect(p, Token::RBrace) {
            Ok(x) => x,
            Err(e) => return Err(e),
        };
        match expected {
            Some(expected) => Ok((TestDef { name, entities, expected }, p4)),
            None => Err(
                self.err(p4, String::from_str("Test block missing 'expect allow' or 'expect deny'")),
            ),
        }
    }
}


pub open spec fn items_view(
    modules: Seq<ModuleDef>,
    assertions: Seq<AssertDef>,
    rules: Seq<RuleAst>,
    tests: Seq<TestDef>,
) -> SItems {
    SItems {
        modules: modules_view(modules),
        assertions: asserts_view(assertions),
        rules: rules_view(rules),
        tests: tests_view(tests),
    }
}

impl Parser {
    fn parse_imports(&self, pos: usize) -> (r: Result<(Vec<String>, usize), ParseError>)
        requires
            self.wf(),
            pos < self.tokens.len(),
        ensures
            match r {
                Ok((v, p)) => imports(self.inp(), pos as int, Seq::empty()) == Ok::<
                    (Seq<Seq<char>>, int),
                    SParseError,
                >((strings_view(v@), p as int)) && pos <= p < self.len(),
                Err(e) => imports(self.inp(), pos as int, Seq::empty()) == Err::<
                    (Seq<Seq<char>>, int),
                    SParseError,
                >(e@),
            },
    {
        let ghost c = self.inp();
        let mut v: Vec<String> = Vec::new();
        let mut p = pos;
        assert(strings_view(v@) =~= Seq::<Seq<char>>::empty());
        loop
            invariant
                self.wf(),
                c == self.inp(),
                pos <= p < self.tokens.len(),
                imports(c, pos as int, Seq::empty()) == imports(c, p as int, strings_view(v@)),
            decreases self.tokens@.len() - p,
        {
            if self.tokens[p].token != Token::Import {
                return Ok((v, p));
            }
            proof {
                self.lemma_next(p as int);
            }
            let q = p + 1;
            if self.tokens[q].token != Token::Str {
                return Err(self.expected(q, "Expected string path after 'import', found "));
            }
            proof {
                self.lemma_next(q as int);
            }
            if self.tokens[q].text.unicode_len() == 0 {
                return Err(self.err(q + 1, String::from_str("Import path must not be empty")));
            }
            let path = self.tokens[q].text.clone();
            let p1 = match self.expect(q + 1, Token::Semi) {
                Ok(x) => x,
                Err(e) => return Err(e),
            };
            let ghost before = v@;
            v.push(path);
            assert(strings_view(v@) =~= strings_view(before).push(v@.last()@));
            p = p1;
        }
    }

    #[verifier::rlimit(30)]
    fn parse_program(&self, with_tests: bool) -> (r: Result<Program, ParseError>)
        requires
            self.wf(),
        ensures
            match r {
                Ok(prog) => program(self.inp(), with_tests) == Ok::<SProgram, SParseError>(prog@),
                Err(e) => program(self.inp(), with_tests) == Err::<SProgram, SParseError>(e@),
            },
    {
        let ghost c = self.inp();
        let (use_schema, p1) = if self.tokens[0].token == Token::Use {
            proof {
                self.lemma_next(0);
            }
            let q1 = match self.expect(1, Token::Schema) {
                Ok(x) => x,
                Err(e) => return Err(e),
            };
            let q2 = match self.expect(q1, Token::Semi) {
                Ok(x) => x,
                Err(e) => return Err(e),
            };
            (true, q2)
        } else {
            (false, 0)
        };
        let (imports, p2) = match self.parse_imports(p1) {
            Ok(x) => x,
            Err(e) => return Err(e),
        };
        let mut modules: Vec<ModuleDef> = Vec::new();
        let mut assertions: Vec<AssertDef> = Vec::new();
        let mut rules: Vec<RuleAst> = Vec::new();
        let mut tests: Vec<TestDef> = Vec::new();
        let ghost empty_items = items_view(modules@, assertions@, rules@, tests@);
        assert(modules_view(modules@) =~= Seq::<SModule>::empty());
        assert(asserts_view(assertions@) =~= Seq::<SAssert>::empty());
        assert(rules_view(rules@) =~= Seq::<SRule>::empty());
        assert(tests_view(tests@) =~= Seq::<STest>::empty());
        assert(empty_items == SItems {
            modules: Seq::empty(),
            assertions: Seq::empty(),
            rules: Seq::empty(),
            tests: Seq::empty(),
        });
        let mut p = p2;
        loop
            invariant
                self.wf(),
                c == self.inp(),
                p2 <= p < self.tokens.len(),
                items(c, with_tests, p2 as int, empty_items) == items(
                    c,
                    with_tests,
                    p as int,
                    items_view(modules@, assertions@, rules@, tests@),
                ),
                program(c, with_tests) == (match items(c, with_tests, p2 as int, empty_items) {
                    Err(e) => Err(e),
                    Ok(it) => Ok(
                        SProgram {
                            use_schema,
                            imports: strings_view(imports@),
                            modules: it.modules,
                            assertions: it.assertions,
                            rules: it.rules,
                            tests: it.tests,
                        },
                    ),
                }),
            decreases self.tokens@.len() - p,
        {
            let t = self.tokens[p].token;
            if t == Token::Eof {
                let prog = Program { use_schema, imports, modules, assertions, rules, tests };
                return Ok(prog);
            }
            if t == Token::Import {
                return Err(
                    self.err(
                        p,
                        String::from_str(
                            "import statements must appear at the top of the file, before rules and other declarations",
                        ),
                    ),
                );
            }
            if t == Token::Mod {
                let (m, q) = match self.parse_module(p) {
                    Ok(x) => x,
                    Err(e) => return Err(e),
                };
                let ghost before = modules@;
                modules.push(m);
                assert(modules_view(modules@) =~= modules_view(before).push(modules@.last()@));
                p = q;
            } else if t == Token::Assert {
                let (a, q) = match self.parse_assert(p) {
                    Ok(x) => x,
                    Err(e) => return Err(e),
                };
                let ghost before = assertions@;
                assertions.push(a);
                assert(asserts_view(assertions@) =~= asserts_view(before).push(assertions@.last()@));
                p = q;
            } else if t == Token::Allow || t == Token::Deny {
                let (ru, q) = match self.parse_rule(p) {
                    Ok(x) => x,
                    Err(e) => return Err(e),
                };
                let ghost before = rules@;
                rules.push(ru);
                assert(rules_view(rules@) =~= rules_view(before).push(rules@.last()@));
                p = q;
            } else if t == Token::Test {
                if with_tests {
                    let (tb, q) = match self.parse_test_block(p) {
                        Ok(x) => x,
                        Err(e) => return Err(e),
                    };
                    let ghost before = tests@;
                    tests.push(tb);
                    assert(tests_view(tests@) =~= tests_view(before).push(tests@.last()@));
                    p = q;
                } else {
                    let q = match self.skip_test_block(p) {
                        Ok(x) => x,
                        Err(e) => return Err(e),
                    };
                    p = q;
                }
            } else {
                return Err(
                    self.expected(p, "Expected 'allow', 'deny', 'mod', 'assert', or 'test', found "),
                );
            }
        }
    }

    /// Parses a token stream, as the lexer yields it, into a program; test
    /// blocks are read when `with_tests`, else skipped. `numbers` holds the
    /// reading of every number token's text.
    pub fn parse_tokens(
        tokens: Vec<Spanned>,
        numbers: Vec<(String, NumberReading)>,
        with_tests: bool,
    ) -> (r: Result<Program, ParseError>)
        requires
            spanned_wf(spanned_view(tokens@)),
            readings_cover(PIn { ts: spanned_view(tokens@), nums: readings_view(numbers@) }),
            tokens@.len() < usize::MAX,
        ensures
            match r {
                Ok(prog) => program(
                    PIn { ts: spanned_view(tokens@), nums: readings_view(numbers@) },
                    with_tests,
                ) == Ok::<SProgram, SParseError>(prog@),
                Err(e) => program(
                    PIn { ts: spanned_view(tokens@), nums: readings_view(numbers@) },
                    with_tests,
                ) == Err::<SProgram, SParseError>(e@),
            },
    {
        let parser = Parser { tokens, numbers };
        parser.parse_program(with_tests)
    }
}


/// The texts of the number tokens, in order.
pub fn number_texts(tokens: &Vec<Spanned>) -> (r: Vec<String>)
    ensures
        forall|i: int|
            0 <= i < tokens@.len() && #[trigger] tokens@[i].token == Token::Number ==> exists|j: int|
                0 <= j < r@.len() && r@[j]@ == tokens@[i].text@,
{
    let mut r: Vec<String> = Vec::new();
    let mut i: usize = 0;
    while i < tokens.len()
        invariant
            i <= tokens.len(),
            forall|a: int|
                0 <= a < i && #[trigger] tokens@[a].token == Token::Number ==> exists|j: int|
                    0 <= j < r@.len() && r@[j]@ == tokens@[a].text@,
        decreases tokens.len() - i,
    {
        if tokens[i].token == Token::Number {
            let ghost before = r@;
            r.push(tokens[i].text.clone());
            proof {
                assert forall|a: int|
                    0 <= a < i + 1 && #[trigger] tokens@[a].token == Token::Number implies exists|
                        j: int,
                    |
                        0 <= j < r@.len() && r@[j]@ == tokens@[a].text@ by {
                    if a == i {
                        assert(r@[before.len() as int]@ == tokens@[a].text@);
                    } else {
                        let j = choose|j: int| 0 <= j < before.len() && before[j]@ == tokens@[a].text@;
                        assert(r@[j] == before[j]);
                    }
                }
            }
        }
        i += 1;
    }
    r
}

/// Whether the table has a reading for the number written `text`.
/// The reading of the number written `text`: the first entry for it.
pub fn find_reading<'a>(numbers: &'a Vec<(String, NumberReading)>, text: &str) -> (r: Option<&'a NumberReading>)
    ensures
        match r {
            Some(n) => reading(readings_view(numbers@), text@) == Some(n@),
            None => reading(readings_view(numbers@), text@) is None,
        },
{
    let ghost nums = readings_view(numbers@);
    let mut j: usize = 0;
    assert(nums.skip(0) =~= nums);
    while j < numbers.len()
        invariant
            j <= numbers.len(),
            nums == readings_view(numbers@),
            reading(nums, text@) == reading(nums.skip(j as int), text@),
        decreases numbers.len() - j,
    {
        assert(nums.skip(j as int)[0] == (numbers@[j as int].0@, numbers@[j as int].1@));
        if str_eq(numbers[j].0.as_str(), text) {
            return Some(&numbers[j].1);
        }
        assert(nums.skip(j as int).drop_first() =~= nums.skip(j + 1));
        j += 1;
    }
    assert(nums.skip(j as int) =~= Seq::<(Seq<char>, SReading)>::empty());
    None
}

fn has_reading(numbers: &Vec<(String, NumberReading)>, text: &str) -> (r: bool)
    ensures
        r == reading(readings_view(numbers@), text@) is Some,
{
    find_reading(numbers, text).is_some()
}

/// Whether a token stream and a table of readings are what `parse_tokens`
/// takes: the stream as the lexer yields it, and a reading for every number.
pub fn parse_input_ok(tokens: &Vec<Spanned>, numbers: &Vec<(String, NumberReading)>) -> (r: bool)
    ensures
        r == (spanned_wf(spanned_view(tokens@)) && readings_cover(
            PIn { ts: spanned_view(tokens@), nums: readings_view(numbers@) },
        ) && tokens@.len() < usize::MAX),
{
    let ghost c = PIn { ts: spanned_view(tokens@), nums: readings_view(numbers@) };
    let n = tokens.len();
    if n == 0 || n == usize::MAX {
        return false;
    }
    let mut i: usize = 0;
    while i < n
        invariant
            n == tokens.len(),
            0 < n < usize::MAX,
            i <= n,
            c == (PIn { ts: spanned_view(tokens@), nums: readings_view(numbers@) }),
            forall|a: int| 0 <= a < i ==> #[trigger] c.ts[a].token != Token::Comment,
            forall|a: int| 0 <= a < i && a < n - 1 ==> #[trigger] c.ts[a].token != Token::Eof,
            forall|a: int|
                0 <= a < i && #[trigger] c.ts[a].token == Token::Number ==> reading(
                    c.nums,
                    c.ts[a].text,
                ) is Some,
        decreases n - i,
    {
        assert(c.ts[i as int] == tokens@[i as int]@);
        let t = tokens[i].token;
        if t == Token::Comment {
            assert(c.ts[i as int].token == Token::Comment);
            assert(!spanned_wf(c.ts));
            return false;
        }
        if t == Token::Eof && i + 1 < n {
            assert(c.ts[i as int].token == Token::Eof);
            assert(!spanned_wf(c.ts));
            return false;
        }
        if t == Token::Number && !has_reading(numbers, tokens[i].text.as_str()) {
            return false;
        }
        i += 1;
    }
    assert(c.ts[n - 1] == tokens@[n - 1]@);
    tokens[n - 1].token == Token::Eof
}


/// A parse result by its view.
pub open spec fn parsed_view(r: Result<Program, ParseError>) -> Result<SProgram, SParseError> {
    match r {
        Ok(p) => Ok(p@),
        Err(e) => Err(e@),
    }
}

/// What Karu source parses to, its numbers read by `nums`: the lexer's error,
/// or the program the grammar gives for the tokens; `None` when `nums` lacks
/// the reading of a number in the source.
pub open spec fn source_program(cs: Seq<char>, nums: Seq<(Seq<char>, SReading)>, with_tests: bool) -> Option<
    Result<SProgram, SParseError>,
> {
    match karu_lex_spec(cs) {
        Err(e) => Some(
            Err(SParseError { message: e.message, line: e.line, column: e.column, token: None }),
        ),
        Ok(ts) => if readings_cover(PIn { ts, nums }) && ts.len() < usize::MAX {
            Some(program(PIn { ts, nums }, with_tests))
        } else {
            None
        },
    }
}

/// Lexes and parses Karu source, reading its numbers by `numbers`; test
/// blocks are parsed when `with_tests` holds, else skipped. `None` when
/// `numbers` lacks the reading of a number that the source holds.
pub fn parse_source(source: &str, numbers: Vec<(String, NumberReading)>, with_tests: bool) -> (r: Option<
    Result<Program, ParseError>,
>)
    requires
        source@.len() < usize::MAX,
    ensures
        match r {
            Some(p) => source_program(source@, readings_view(numbers@), with_tests) == Some(parsed_view(p)),
            None => source_program(source@, readings_view(numbers@), with_tests) is None,
        },
{
    match Lexer::tokenize_spanned(source) {
        Err(e) => Some(Err(ParseError::from_lex_error(e))),
        Ok(tokens) => {
            if parse_input_ok(&tokens, &numbers) {
                Some(Parser::parse_tokens(tokens, numbers, with_tests))
            } else {
                None
            }
        },
    }
}


impl Parser {
    /// Parses Karu source, test blocks skipped, its numbers read by
    /// `numbers`; `None` when a number of the source has no reading.
    pub fn parse(source: &str, numbers: Vec<(String, NumberReading)>) -> (r: Option<Result<Program, ParseError>>)
        requires
            source@.len() < usize::MAX,
        ensures
            match r {
                Some(p) => source_program(source@, readings_view(numbers@), false) == Some(parsed_view(p)),
                None => source_program(source@, readings_view(numbers@), false) is None,
            },
    {
        parse_source(source, numbers, false)
    }

    /// Parses Karu source with its test blocks, its numbers read by
    /// `numbers`; `None` when a number of the source has no reading.
    pub fn parse_with_tests(source: &str, numbers: Vec<(String, NumberReading)>) -> (r: Option<
        Result<Program, ParseError>,
    >)
        requires
            source@.len() < usize::MAX,
        ensures
            match r {
                Some(p) => source_program(source@, readings_view(numbers@), true) == Some(parsed_view(p)),
                None => source_program(source@, readings_view(numbers@), true) is None,
            },
    {
        parse_source(source, numbers, true)
    }
}
} // verus!
