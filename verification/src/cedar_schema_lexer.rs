//! Tokens of the Cedar schema language and the lexer that produces them. The
//! scanning of whitespace, comments, identifiers and integers is the one of
//! the Cedar policy lexer; the punctuation and the string escapes differ.
use vstd::prelude::*;
use crate::text::{push_char, is_digit, is_digit_spec, is_alpha, is_alpha_spec};
use crate::path::digits_value;
use crate::cedar_lexer::{
    Lexer, line_col, err_at, skip_trivia, ident_end, digits_end, no_error, lemma_ident_end,
    lemma_digits_end,
};
use crate::cedar_parser::{CedarParseError, SError};
use crate::cedar_schema_parser::CedarSchemaError;

verus! {

/// The kind of a Cedar schema token.
#[derive(Debug, Clone, Copy, PartialEq, Eq, Structural)]
pub enum SchemaTokKind {
    LBrace,
    RBrace,
    LBracket,
    RBracket,
    LParen,
    RParen,
    Comma,
    Semi,
    Colon,
    ColonColon,
    At,
    Eq,
    Assign,
    Lt,
    Gt,
    Pipe,
    Question,
    Ident,
    Str,
    Int,
    Eof,
}

/// A schema token with the 1-based line and column where it starts. `text`
/// holds the name of an identifier or the contents of a string; `num` the value
/// of an integer.
#[derive(Debug)]
pub struct SchemaTok {
    pub kind: SchemaTokKind,
    pub text: String,
    pub num: i64,
    pub line: usize,
    pub column: usize,
}

/// The content of a schema token.
pub struct SSchemaTok {
    pub kind: SchemaTokKind,
    pub text: Seq<char>,
    pub num: i64,
    pub line: nat,
    pub column: nat,
}

impl View for SchemaTok {
    type V = SSchemaTok;

    open spec fn view(&self) -> SSchemaTok {
        SSchemaTok {
            kind: self.kind,
            text: self.text@,
            num: self.num,
            line: self.line as nat,
            column: self.column as nat,
        }
    }
}

pub open spec fn schema_toks_view(v: Seq<SchemaTok>) -> Seq<SSchemaTok> {
    v.map_values(|t: SchemaTok| t@)
}

/// A well-formed token stream: it ends with the only `Eof`, and integers are
/// not negative.
pub open spec fn schema_toks_wf(ts: Seq<SSchemaTok>) -> bool {
    &&& ts.len() >= 1
    &&& ts.last().kind == SchemaTokKind::Eof
    &&& forall|i: int| 0 <= i < ts.len() - 1 ==> #[trigger] ts[i].kind != SchemaTokKind::Eof
    &&& forall|i: int| 0 <= i < ts.len() && #[trigger] ts[i].kind == SchemaTokKind::Int ==> ts[i].num >= 0
}

/// The token a single punctuation character stands for.
pub open spec fn schema_single_kind(c: char) -> Option<SchemaTokKind> {
    if c == '{' {
        Some(SchemaTokKind::LBrace)
    } else if c == '}' {
        Some(SchemaTokKind::RBrace)
    } else if c == '[' {
        Some(SchemaTokKind::LBracket)
    } else if c == ']' {
        Some(SchemaTokKind::RBracket)
    } else if c == '(' {
        Some(SchemaTokKind::LParen)
    } else if c == ')' {
        Some(SchemaTokKind::RParen)
    } else if c == ',' {
        Some(SchemaTokKind::Comma)
    } else if c == ';' {
        Some(SchemaTokKind::Semi)
    } else if c == '@' {
        Some(SchemaTokKind::At)
    } else if c == '<' {
        Some(SchemaTokKind::Lt)
    } else if c == '>' {
        Some(SchemaTokKind::Gt)
    } else if c == '|' {
        Some(SchemaTokKind::Pipe)
    } else if c == '?' {
        Some(SchemaTokKind::Question)
    } else {
        None
    }
}

/// The character an escape `\c` stands for in a schema string.
pub open spec fn schema_escaped(c: char) -> Option<char> {
    if c == '"' || c == '\\' || c == '*' {
        Some(c)
    } else if c == 'n' {
        Some('\n')
    } else if c == 't' {
        Some('\t')
    } else {
        None
    }
}

/// The rest of a string literal from index `j`, with `acc` read so far: its
/// contents and the index after the closing quote. Any escape but `\"`, `\\`,
/// `\n`, `\t` and `\*` is an error.
pub open spec fn lex_schema_string(cs: Seq<char>, j: int, acc: Seq<char>) -> Result<
    (Seq<char>, int),
    SError,
>
    decreases cs.len() - j,
{
    if j < 0 || j >= cs.len() {
        Err(err_at(cs, cs.len() as int, "Unterminated string"@))
    } else if cs[j] == '"' {
        Ok((acc, j + 1))
    } else if cs[j] == '\\' {
        if j + 1 < cs.len() && schema_escaped(cs[j + 1]) is Some {
            lex_schema_string(cs, j + 2, acc.push(schema_escaped(cs[j + 1])->0))
        } else {
            Err(err_at(cs, j + 1, "Invalid escape sequence"@))
        }
    } else {
        lex_schema_string(cs, j + 1, acc.push(cs[j]))
    }
}

/// The token that starts at index `i`: kind, text, number and end index.
pub open spec fn lex_schema_token(cs: Seq<char>, i: int) -> Result<
    (SchemaTokKind, Seq<char>, i64, int),
    SError,
> {
    let c = cs[i];
    let has_n = i + 1 < cs.len();
    let n = cs[i + 1];
    if schema_single_kind(c) is Some {
        Ok((schema_single_kind(c)->0, Seq::empty(), 0, i + 1))
    } else if c == ':' {
        if has_n && n == ':' {
            Ok((SchemaTokKind::ColonColon, Seq::empty(), 0, i + 2))
        } else {
            Ok((SchemaTokKind::Colon, Seq::empty(), 0, i + 1))
        }
    } else if c == '=' {
        if has_n && n == '=' {
            Ok((SchemaTokKind::Eq, Seq::empty(), 0, i + 2))
        } else {
            Ok((SchemaTokKind::Assign, Seq::empty(), 0, i + 1))
        }
    } else if c == '"' {
        match lex_schema_string(cs, i + 1, Seq::empty()) {
            Ok((s, e)) => Ok((SchemaTokKind::Str, s, 0, e)),
            Err(er) => Err(er),
        }
    } else if is_digit_spec(c) {
        let e = digits_end(cs, i);
        let s = cs.subrange(i, e);
        if digits_value(s) <= i64::MAX {
            Ok((SchemaTokKind::Int, Seq::empty(), digits_value(s) as i64, e))
        } else {
            Err(err_at(cs, e, "Invalid integer: "@ + s))
        }
    } else if is_alpha_spec(c) || c == '_' {
        let e = ident_end(cs, i);
        Ok((SchemaTokKind::Ident, cs.subrange(i, e), 0, e))
    } else {
        Err(err_at(cs, i, "Unexpected character: '"@ + seq![c] + "'"@))
    }
}

/// The tokens from index `i` on, after `acc`.
pub open spec fn lex_schema_from(cs: Seq<char>, i: int, acc: Seq<SSchemaTok>) -> Result<
    Seq<SSchemaTok>,
    SError,
>
    decreases cs.len() - i,
{
    let k = skip_trivia(cs, i);
    let (l, c) = line_col(cs, k);
    if !(0 <= i <= k <= cs.len()) {
        Err(no_error())
    } else if k == cs.len() {
        Ok(
            acc.push(
                SSchemaTok { kind: SchemaTokKind::Eof, text: Seq::empty(), num: 0, line: l, column: c },
            ),
        )
    } else {
        match lex_schema_token(cs, k) {
            Err(e) => Err(e),
            Ok((kind, text, num, e)) => if k < e <= cs.len() {
                lex_schema_from(cs, e, acc.push(SSchemaTok { kind, text, num, line: l, column: c }))
            } else {
                Err(no_error())
            },
        }
    }
}

/// The tokens of a whole schema text.
pub open spec fn lex_schema_spec(cs: Seq<char>) -> Result<Seq<SSchemaTok>, SError> {
    lex_schema_from(cs, 0, Seq::empty())
}

proof fn lemma_schema_string_end(cs: Seq<char>, j: int, acc: Seq<char>)
    requires
        0 <= j,
    ensures
        lex_schema_string(cs, j, acc) matches Ok((_, e)) ==> j < e <= cs.len(),
    decreases cs.len() - j,
{
    if 0 <= j < cs.len() && cs[j] != '"' {
        if cs[j] == '\\' {
            if j + 1 < cs.len() && schema_escaped(cs[j + 1]) is Some {
                lemma_schema_string_end(cs, j + 2, acc.push(schema_escaped(cs[j + 1])->0));
            }
        } else {
            lemma_schema_string_end(cs, j + 1, acc.push(cs[j]));
        }
    }
}

/// The token at index `k` ends past `k`, is no `Eof`, and an integer is not negative.
proof fn lemma_schema_token(cs: Seq<char>, k: int)
    requires
        0 <= k < cs.len(),
    ensures
        lex_schema_token(cs, k) matches Ok((kind, _, num, e)) ==> k < e <= cs.len() && kind
            != SchemaTokKind::Eof && (kind == SchemaTokKind::Int ==> num >= 0),
{
    lemma_ident_end(cs, k);
    lemma_digits_end(cs, k);
    lemma_schema_string_end(cs, k + 1, Seq::empty());
    lemma_ident_end(cs, k + 1);
    lemma_digits_end(cs, k + 1);
}

fn schema_single_kind_of(c: char) -> (r: Option<SchemaTokKind>)
    ensures
        r == schema_single_kind(c),
{
    if c == '{' {
        Some(SchemaTokKind::LBrace)
    } else if c == '}' {
        Some(SchemaTokKind::RBrace)
    } else if c == '[' {
        Some(SchemaTokKind::LBracket)
    } else if c == ']' {
        Some(SchemaTokKind::RBracket)
    } else if c == '(' {
        Some(SchemaTokKind::LParen)
    } else if c == ')' {
        Some(SchemaTokKind::RParen)
    } else if c == ',' {
        Some(SchemaTokKind::Comma)
    } else if c == ';' {
        Some(SchemaTokKind::Semi)
    } else if c == '@' {
        Some(SchemaTokKind::At)
    } else if c == '<' {
        Some(SchemaTokKind::Lt)
    } else if c == '>' {
        Some(SchemaTokKind::Gt)
    } else if c == '|' {
        Some(SchemaTokKind::Pipe)
    } else if c == '?' {
        Some(SchemaTokKind::Question)
    } else {
        None
    }
}

/// The same error, as a schema error.
fn schema_error(e: CedarParseError) -> (r: CedarSchemaError)
    ensures
        r@ == e@,
{
    CedarSchemaError { message: e.message, line: e.line, column: e.column }
}

/// Reads a string literal; the position is at its opening quote.
fn read_schema_string(lx: &mut Lexer) -> (r: Result<String, CedarSchemaError>)
    requires
        old(lx).wf(),
        old(lx).pos < old(lx).chars.len(),
    ensures
        final(lx).wf(),
        final(lx).chars@ == old(lx).chars@,
        match r {
            Ok(s) => lex_schema_string(old(lx).chars@, old(lx).pos + 1, Seq::empty()) == Ok::<
                (Seq<char>, int),
                SError,
            >((s@, final(lx).pos as int)),
            Err(e) => lex_schema_string(old(lx).chars@, old(lx).pos + 1, Seq::empty()) == Err::<
                (Seq<char>, int),
                SError,
            >(e@),
        },
{
    let ghost cs = lx.chars@;
    let ghost p0 = lx.pos as int;
    lx.advance();
    let mut s = String::new();
    loop
        invariant
            lx.wf(),
            lx.chars@ == cs,
            cs == old(lx).chars@,
            p0 == old(lx).pos,
            p0 < lx.pos,
            lex_schema_string(cs, p0 + 1, Seq::empty()) == lex_schema_string(cs, lx.pos as int, s@),
        decreases cs.len() - lx.pos,
    {
        match lx.peek() {
            None => {
                return Err(schema_error(lx.err(String::from_str("Unterminated string"))));
            },
            Some(c) => {
                if c == '"' {
                    lx.advance();
                    return Ok(s);
                } else if c == '\\' {
                    lx.advance();
                    match lx.peek() {
                        Some(e) => {
                            if e == '"' || e == '\\' || e == '*' {
                                lx.advance();
                                push_char(&mut s, e);
                            } else if e == 'n' {
                                lx.advance();
                                push_char(&mut s, '\n');
                            } else if e == 't' {
                                lx.advance();
                                push_char(&mut s, '\t');
                            } else {
                                return Err(
                                    schema_error(lx.err(String::from_str("Invalid escape sequence"))),
                                );
                            }
                        },
                        None => {
                            return Err(
                                schema_error(lx.err(String::from_str("Invalid escape sequence"))),
                            );
                        },
                    }
                } else {
                    lx.advance();
                    push_char(&mut s, c);
                }
            },
        }
    }
}

/// Lexes the token at the position, which is not past the end.
fn next_schema_token(lx: &mut Lexer) -> (r: Result<(SchemaTokKind, String, i64), CedarSchemaError>)
    requires
        old(lx).wf(),
        old(lx).pos < old(lx).chars.len(),
    ensures
        final(lx).wf(),
        final(lx).chars@ == old(lx).chars@,
        match r {
            Ok((k, s, n)) => lex_schema_token(old(lx).chars@, old(lx).pos as int) == Ok::<
                (SchemaTokKind, Seq<char>, i64, int),
                SError,
            >((k, s@, n, final(lx).pos as int)),
            Err(e) => lex_schema_token(old(lx).chars@, old(lx).pos as int) == Err::<
                (SchemaTokKind, Seq<char>, i64, int),
                SError,
            >(e@),
        },
{
    let ghost cs = lx.chars@;
    let i = lx.pos;
    let c = lx.chars[i];
    let next = lx.peek2();
    match schema_single_kind_of(c) {
        Some(k) => {
            lx.advance();
            return Ok((k, String::new(), 0));
        },
        None => {},
    }
    if c == ':' {
        lx.advance();
        if next == Some(':') {
            lx.advance();
            return Ok((SchemaTokKind::ColonColon, String::new(), 0));
        }
        return Ok((SchemaTokKind::Colon, String::new(), 0));
    }
    if c == '=' {
        lx.advance();
        if next == Some('=') {
            lx.advance();
            return Ok((SchemaTokKind::Eq, String::new(), 0));
        }
        return Ok((SchemaTokKind::Assign, String::new(), 0));
    }
    if c == '"' {
        let r = read_schema_string(lx);
        return match r {
            Ok(s) => Ok((SchemaTokKind::Str, s, 0)),
            Err(e) => Err(e),
        };
    }
    if is_digit(c) {
        let r = lx.read_int();
        return match r {
            Ok(v) => Ok((SchemaTokKind::Int, String::new(), v)),
            Err(e) => Err(schema_error(e)),
        };
    }
    if is_alpha(c) || c == '_' {
        proof {
            lemma_ident_end(cs, i as int);
        }
        let id = lx.read_ident();
        return Ok((SchemaTokKind::Ident, id, 0));
    }
    let mut m = String::from_str("Unexpected character: '");
    push_char(&mut m, c);
    m.append("'");
    assert(m@ =~= "Unexpected character: '"@ + seq![c] + "'"@);
    Err(schema_error(lx.err(m)))
}

/// The tokens of a schema text, ending with `Eof`.
pub fn tokenize_schema(source: &str) -> (r: Result<Vec<SchemaTok>, CedarSchemaError>)
    requires
        source@.len() < usize::MAX,
    ensures
        match r {
            Ok(ts) => lex_schema_spec(source@) == Ok::<Seq<SSchemaTok>, SError>(
                schema_toks_view(ts@),
            ) && schema_toks_wf(schema_toks_view(ts@)),
            Err(e) => lex_schema_spec(source@) == Err::<Seq<SSchemaTok>, SError>(e@),
        },
{
    let mut lx = Lexer::new(source);
    let ghost cs = lx.chars@;
    let mut tokens: Vec<SchemaTok> = Vec::new();
    assert(schema_toks_view(tokens@) =~= Seq::<SSchemaTok>::empty());
    loop
        invariant_except_break
            lx.wf(),
            lx.chars@ == cs,
            cs == source@,
            lex_schema_spec(cs) == lex_schema_from(cs, lx.pos as int, schema_toks_view(tokens@)),
            forall|j: int| 0 <= j < tokens.len() ==> #[trigger] tokens@[j].kind != SchemaTokKind::Eof,
        invariant
            forall|j: int|
                0 <= j < tokens.len() && #[trigger] tokens@[j].kind == SchemaTokKind::Int
                    ==> tokens@[j].num >= 0,
        ensures
            lex_schema_spec(cs) == Ok::<Seq<SSchemaTok>, SError>(schema_toks_view(tokens@)),
            cs == source@,
            tokens.len() >= 1,
            tokens@.last().kind == SchemaTokKind::Eof,
            forall|j: int|
                0 <= j < tokens.len() - 1 ==> #[trigger] tokens@[j].kind != SchemaTokKind::Eof,
        decreases cs.len() - lx.pos,
    {
        lx.skip_whitespace_and_comments();
        let ghost k = lx.pos as int;
        if lx.pos >= lx.chars.len() {
            let ghost before = tokens@;
            tokens.push(
                SchemaTok {
                    kind: SchemaTokKind::Eof,
                    text: String::new(),
                    num: 0,
                    line: lx.line,
                    column: lx.column,
                },
            );
            assert(schema_toks_view(tokens@) =~= schema_toks_view(before).push(tokens@.last()@));
            break;
        }
        let line = lx.line;
        let column = lx.column;
        let tok = next_schema_token(&mut lx);
        match tok {
            Ok((kind, text, num)) => {
                proof {
                    lemma_schema_token(cs, k);
                }
                let ghost before = tokens@;
                tokens.push(SchemaTok { kind, text, num, line, column });
                assert(schema_toks_view(tokens@) =~= schema_toks_view(before).push(
                    tokens@.last()@,
                ));
            },
            Err(e) => {
                return Err(e);
            },
        }
    }
    proof {
        let ts = schema_toks_view(tokens@);
        assert forall|j: int| 0 <= j < ts.len() - 1 implies #[trigger] ts[j].kind
            != SchemaTokKind::Eof by {
            assert(ts[j] == tokens@[j]@);
        }
        assert forall|j: int| 0 <= j < ts.len() && #[trigger] ts[j].kind == SchemaTokKind::Int
            implies ts[j].num >= 0 by {
            assert(ts[j] == tokens@[j]@);
        }
    }
    Ok(tokens)
}

/// In a well-formed stream, a token that is not `Eof` has a successor.
pub proof fn lemma_schema_wf_next(ts: Seq<SSchemaTok>, pos: int)
    requires
        schema_toks_wf(ts),
        0 <= pos < ts.len(),
        ts[pos].kind != SchemaTokKind::Eof,
    ensures
        pos + 1 < ts.len(),
{
}

} // verus!
