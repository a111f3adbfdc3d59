//! Tokens of the Cedar policy language and the lexer that produces them.
use vstd::prelude::*;
use crate::text::{
    chars_of, push_char, is_digit, is_digit_spec, is_alpha, is_alpha_spec, is_alnum, is_alnum_spec,
    is_whitespace, is_whitespace_spec,
};
use crate::json::str_eq;
use crate::path::{digits_value, all_digits, lemma_digits_value_push, lemma_digits_value_prefix};
use crate::cedar_parser::{CedarParseError, SError};

verus! {

/// The kind of a Cedar token.
#[derive(Debug, Clone, Copy, PartialEq, Eq, Structural)]
pub enum TokKind {
    Permit,
    Forbid,
    When,
    Unless,
    If,
    Then,
    Else,
    In,
    Like,
    Has,
    Is,
    True,
    False,
    Principal,
    Action,
    Resource,
    Context,
    LParen,
    RParen,
    LBracket,
    RBracket,
    LBrace,
    RBrace,
    Comma,
    Semi,
    Dot,
    ColonColon,
    At,
    Colon,
    Eq,
    Neq,
    Lt,
    Lte,
    Gt,
    Gte,
    And,
    Or,
    Not,
    Plus,
    Minus,
    Star,
    Ident,
    Str,
    Int,
    SlotPrincipal,
    SlotResource,
    Eof,
}

/// A token with the 1-based line and column where it starts. `text` holds the
/// name of an identifier or the contents of a string; `num` the value of an integer.
#[derive(Debug)]
pub struct Tok {
    pub kind: TokKind,
    pub text: String,
    pub num: i64,
    pub line: usize,
    pub column: usize,
}

/// The content of a token.
pub struct STok {
    pub kind: TokKind,
    pub text: Seq<char>,
    pub num: i64,
    pub line: nat,
    pub column: nat,
}

impl View for Tok {
    type V = STok;

    open spec fn view(&self) -> STok {
        STok {
            kind: self.kind,
            text: self.text@,
            num: self.num,
            line: self.line as nat,
            column: self.column as nat,
        }
    }
}

pub open spec fn toks_view(v: Seq<Tok>) -> Seq<STok> {
    v.map_values(|t: Tok| t@)
}

/// A well-formed token stream: it ends with the only `Eof`, and integers are
/// not negative.
pub open spec fn toks_wf(ts: Seq<STok>) -> bool {
    &&& ts.len() >= 1
    &&& ts.last().kind == TokKind::Eof
    &&& forall|i: int| 0 <= i < ts.len() - 1 ==> #[trigger] ts[i].kind != TokKind::Eof
    &&& forall|i: int| 0 <= i < ts.len() && #[trigger] ts[i].kind == TokKind::Int ==> ts[i].num >= 0
}

// ----------------------------------------------------------------------------
// What the lexer yields
// ----------------------------------------------------------------------------

/// The 1-based line and column of the character at index `i`.
pub open spec fn line_col(cs: Seq<char>, i: int) -> (nat, nat)
    decreases i,
{
    if i <= 0 {
        (1, 1)
    } else {
        let (l, c) = line_col(cs, i - 1);
        if cs[i - 1] == '\n' {
            ((l + 1) as nat, 1)
        } else {
            (l, (c + 1) as nat)
        }
    }
}

/// An error reported at index `k` of the source.
pub open spec fn err_at(cs: Seq<char>, k: int, message: Seq<char>) -> SError {
    SError { message, line: line_col(cs, k).0, column: line_col(cs, k).1 }
}

/// The index of the first newline at or after `k` (or the end).
pub open spec fn line_end(cs: Seq<char>, k: int) -> int
    decreases cs.len() - k,
{
    if 0 <= k < cs.len() && cs[k] != '\n' {
        line_end(cs, k + 1)
    } else {
        k
    }
}

/// Where a block comment whose body starts at `k` ends: just past the first
/// `*/`; when none is found, the scan stops before the last character.
pub open spec fn block_end(cs: Seq<char>, k: int) -> int
    decreases cs.len() - k,
{
    if k < 0 || k + 1 >= cs.len() {
        k
    } else if cs[k] == '*' && cs[k + 1] == '/' {
        k + 2
    } else {
        block_end(cs, k + 1)
    }
}

/// The index after the whitespace and comments that start at `i`.
pub open spec fn skip_trivia(cs: Seq<char>, i: int) -> int
    decreases cs.len() - i,
{
    if i < 0 || i >= cs.len() {
        i
    } else if is_whitespace_spec(cs[i]) {
        skip_trivia(cs, i + 1)
    } else if i + 1 < cs.len() && cs[i] == '/' && cs[i + 1] == '/' {
        let e = line_end(cs, i + 2);
        if i < e <= cs.len() {
            skip_trivia(cs, e)
        } else {
            i
        }
    } else if i + 1 < cs.len() && cs[i] == '/' && cs[i + 1] == '*' {
        let e = block_end(cs, i + 2);
        if i < e <= cs.len() {
            skip_trivia(cs, e)
        } else {
            i
        }
    } else {
        i
    }
}

/// The end of the run of identifier characters starting at `k`.
pub open spec fn ident_end(cs: Seq<char>, k: int) -> int
    decreases cs.len() - k,
{
    if 0 <= k < cs.len() && (is_alnum_spec(cs[k]) || cs[k] == '_') {
        ident_end(cs, k + 1)
    } else {
        k
    }
}

/// The end of the run of digits starting at `k`.
pub open spec fn digits_end(cs: Seq<char>, k: int) -> int
    decreases cs.len() - k,
{
    if 0 <= k < cs.len() && is_digit_spec(cs[k]) {
        digits_end(cs, k + 1)
    } else {
        k
    }
}

/// The kind of a word: a keyword, or an identifier.
pub open spec fn keyword(s: Seq<char>) -> TokKind {
    if s == "permit"@ {
        TokKind::Permit
    } else if s == "forbid"@ {
        TokKind::Forbid
    } else if s == "when"@ {
        TokKind::When
    } else if s == "unless"@ {
        TokKind::Unless
    } else if s == "if"@ {
        TokKind::If
    } else if s == "then"@ {
        TokKind::Then
    } else if s == "else"@ {
        TokKind::Else
    } else if s == "in"@ {
        TokKind::In
    } else if s == "like"@ {
        TokKind::Like
    } else if s == "has"@ {
        TokKind::Has
    } else if s == "is"@ {
        TokKind::Is
    } else if s == "true"@ {
        TokKind::True
    } else if s == "false"@ {
        TokKind::False
    } else if s == "principal"@ {
        TokKind::Principal
    } else if s == "action"@ {
        TokKind::Action
    } else if s == "resource"@ {
        TokKind::Resource
    } else if s == "context"@ {
        TokKind::Context
    } else {
        TokKind::Ident
    }
}

/// The token a single punctuation character stands for.
pub open spec fn single_kind(c: char) -> Option<TokKind> {
    if c == '(' {
        Some(TokKind::LParen)
    } else if c == ')' {
        Some(TokKind::RParen)
    } else if c == '[' {
        Some(TokKind::LBracket)
    } else if c == ']' {
        Some(TokKind::RBracket)
    } else if c == '{' {
        Some(TokKind::LBrace)
    } else if c == '}' {
        Some(TokKind::RBrace)
    } else if c == ',' {
        Some(TokKind::Comma)
    } else if c == ';' {
        Some(TokKind::Semi)
    } else if c == '.' {
        Some(TokKind::Dot)
    } else if c == '@' {
        Some(TokKind::At)
    } else if c == '+' {
        Some(TokKind::Plus)
    } else if c == '-' {
        Some(TokKind::Minus)
    } else if c == '*' {
        Some(TokKind::Star)
    } else {
        None
    }
}

/// The operator that `c`, followed by `n` when `has_n`, starts, with its length.
pub open spec fn operator_kind(c: char, has_n: bool, n: char) -> Option<(TokKind, int)> {
    let two = has_n && n == '=';
    if c == ':' {
        if has_n && n == ':' {
            Some((TokKind::ColonColon, 2))
        } else {
            Some((TokKind::Colon, 1))
        }
    } else if c == '=' {
        if two {
            Some((TokKind::Eq, 2))
        } else {
            None
        }
    } else if c == '!' {
        if two {
            Some((TokKind::Neq, 2))
        } else {
            Some((TokKind::Not, 1))
        }
    } else if c == '<' {
        if two {
            Some((TokKind::Lte, 2))
        } else {
            Some((TokKind::Lt, 1))
        }
    } else if c == '>' {
        if two {
            Some((TokKind::Gte, 2))
        } else {
            Some((TokKind::Gt, 1))
        }
    } else if c == '&' {
        if has_n && n == '&' {
            Some((TokKind::And, 2))
        } else {
            None
        }
    } else if c == '|' {
        if has_n && n == '|' {
            Some((TokKind::Or, 2))
        } else {
            None
        }
    } else {
        None
    }
}

/// The character an escape `\c` stands for in a string, when it stands for one.
pub open spec fn escaped(c: char) -> Option<char> {
    if c == 'n' {
        Some('\n')
    } else if c == 't' {
        Some('\t')
    } else if c == '\\' || c == '"' || c == '*' {
        Some(c)
    } else if c == '0' {
        Some('\0')
    } else {
        None
    }
}

/// The rest of a string literal from index `j`, with `acc` read so far:
/// its contents and the index after the closing quote.
pub open spec fn lex_string(cs: Seq<char>, j: int, acc: Seq<char>) -> Result<(Seq<char>, int), SError>
    decreases cs.len() - j,
{
    if j < 0 || j >= cs.len() {
        Err(err_at(cs, cs.len() as int, "Unterminated string"@))
    } else if cs[j] == '"' {
        Ok((acc, j + 1))
    } else if cs[j] == '\\' {
        if j + 1 >= cs.len() {
            Err(err_at(cs, j + 1, "Unterminated string"@))
        } else {
            let c = cs[j + 1];
            let acc2 = match escaped(c) {
                Some(e) => acc.push(e),
                None => acc.push('\\').push(c),
            };
            lex_string(cs, j + 2, acc2)
        }
    } else {
        lex_string(cs, j + 1, acc.push(cs[j]))
    }
}

/// The token that starts at index `i`: kind, text, number and end index.
pub open spec fn lex_token(cs: Seq<char>, i: int) -> Result<(TokKind, Seq<char>, i64, int), SError> {
    let c = cs[i];
    let has_n = i + 1 < cs.len();
    let n = cs[i + 1];
    if single_kind(c) is Some {
        Ok((single_kind(c)->0, Seq::empty(), 0, i + 1))
    } else if operator_kind(c, has_n, n) is Some {
        let (k, len) = operator_kind(c, has_n, n)->0;
        Ok((k, Seq::empty(), 0, i + len))
    } else if c == '?' {
        let e = ident_end(cs, i + 1);
        let id = cs.subrange(i + 1, e);
        if id == "principal"@ {
            Ok((TokKind::SlotPrincipal, Seq::empty(), 0, e))
        } else if id == "resource"@ {
            Ok((TokKind::SlotResource, Seq::empty(), 0, e))
        } else {
            Err(err_at(cs, e, "Unknown template slot: ?"@ + id))
        }
    } else if c == '"' {
        match lex_string(cs, i + 1, Seq::empty()) {
            Ok((s, e)) => Ok((TokKind::Str, s, 0, e)),
            Err(er) => Err(er),
        }
    } else if is_digit_spec(c) {
        let e = digits_end(cs, i);
        let s = cs.subrange(i, e);
        if digits_value(s) <= i64::MAX {
            Ok((TokKind::Int, Seq::empty(), digits_value(s) as i64, e))
        } else {
            Err(err_at(cs, e, "Invalid integer: "@ + s))
        }
    } else if is_alpha_spec(c) || c == '_' {
        let e = ident_end(cs, i);
        let id = cs.subrange(i, e);
        let k = keyword(id);
        Ok((k, if k == TokKind::Ident { id } else { Seq::empty() }, 0, e))
    } else {
        Err(err_at(cs, i, "Unexpected character: '"@ + seq![c] + "'"@))
    }
}

/// The junk error a guard that never fails on real input falls back to.
pub open spec fn no_error() -> SError {
    SError { message: Seq::empty(), line: 0, column: 0 }
}

/// The tokens from index `i` on, after `acc`: what `tokenize` yields.
pub open spec fn lex_from(cs: Seq<char>, i: int, acc: Seq<STok>) -> Result<Seq<STok>, SError>
    decreases cs.len() - i,
{
    let k = skip_trivia(cs, i);
    let (l, c) = line_col(cs, k);
    if !(0 <= i <= k <= cs.len()) {
        Err(no_error())
    } else if k == cs.len() {
        Ok(acc.push(STok { kind: TokKind::Eof, text: Seq::empty(), num: 0, line: l, column: c }))
    } else {
        match lex_token(cs, k) {
            Err(e) => Err(e),
            Ok((kind, text, num, e)) => if k < e <= cs.len() {
                lex_from(cs, e, acc.push(STok { kind, text, num, line: l, column: c }))
            } else {
                Err(no_error())
            },
        }
    }
}

/// The tokens of a whole source text.
pub open spec fn lex_spec(cs: Seq<char>) -> Result<Seq<STok>, SError> {
    lex_from(cs, 0, Seq::empty())
}

// ----------------------------------------------------------------------------
// Facts about the scanning functions
// ----------------------------------------------------------------------------

pub proof fn lemma_line_col_bound(cs: Seq<char>, i: int)
    requires
        0 <= i,
    ensures
        1 <= line_col(cs, i).0 <= i + 1,
        1 <= line_col(cs, i).1 <= i + 1,
    decreases i,
{
    if i > 0 {
        lemma_line_col_bound(cs, i - 1);
    }
}

pub(crate) proof fn lemma_ident_end(cs: Seq<char>, k: int)
    requires
        0 <= k <= cs.len(),
    ensures
        k <= ident_end(cs, k) <= cs.len(),
        forall|j: int| k <= j < ident_end(cs, k) ==> #[trigger] is_alnum_spec(cs[j]) || cs[j] == '_',
    decreases cs.len() - k,
{
    if k < cs.len() && (is_alnum_spec(cs[k]) || cs[k] == '_') {
        lemma_ident_end(cs, k + 1);
    }
}

pub(crate) proof fn lemma_digits_end(cs: Seq<char>, k: int)
    requires
        0 <= k <= cs.len(),
    ensures
        k <= digits_end(cs, k) <= cs.len(),
        all_digits(cs.subrange(k, digits_end(cs, k))),
    decreases cs.len() - k,
{
    if k < cs.len() && is_digit_spec(cs[k]) {
        lemma_digits_end(cs, k + 1);
        let e = digits_end(cs, k);
        assert forall|j: int| 0 <= j < e - k implies #[trigger] is_digit_spec(
            cs.subrange(k, e)[j],
        ) by {
            if j > 0 {
                assert(cs.subrange(k, e)[j] == cs.subrange(k + 1, e)[j - 1]);
            }
        }
    }
}

// ----------------------------------------------------------------------------
// The lexer
// ----------------------------------------------------------------------------

/// Cedar lexer: the characters of the source and the current position.
pub(crate) struct Lexer {
    pub(crate) chars: Vec<char>,
    pub(crate) pos: usize,
    pub(crate) line: usize,
    pub(crate) column: usize,
}

impl Lexer {
    pub(crate) open spec fn wf(&self) -> bool {
        &&& self.pos <= self.chars.len() < usize::MAX
        &&& line_col(self.chars@, self.pos as int) == (self.line as nat, self.column as nat)
    }

    pub(crate) fn new(source: &str) -> (l: Lexer)
        requires
            source@.len() < usize::MAX,
        ensures
            l.wf(),
            l.chars@ == source@,
            l.pos == 0,
    {
        Lexer { chars: chars_of(source), pos: 0, line: 1, column: 1 }
    }

    /// The character at the position, if any.
    pub(crate) fn peek(&self) -> (r: Option<char>)
        ensures
            r == (if self.pos < self.chars.len() {
                Some(self.chars@[self.pos as int])
            } else {
                None
            }),
    {
        if self.pos < self.chars.len() {
            Some(self.chars[self.pos])
        } else {
            None
        }
    }

    /// The character after the current one, if any.
    pub(crate) fn peek2(&self) -> (r: Option<char>)
        requires
            self.wf(),
        ensures
            r == (if self.pos + 1 < self.chars.len() {
                Some(self.chars@[self.pos + 1])
            } else {
                None
            }),
    {
        if self.pos + 1 < self.chars.len() {
            Some(self.chars[self.pos + 1])
        } else {
            None
        }
    }

    pub(crate) fn advance(&mut self) -> (ch: char)
        requires
            old(self).wf(),
            old(self).pos < old(self).chars.len(),
        ensures
            final(self).wf(),
            final(self).chars@ == old(self).chars@,
            final(self).pos == old(self).pos + 1,
            ch == old(self).chars@[old(self).pos as int],
    {
        let ch = self.chars[self.pos];
        proof {
            lemma_line_col_bound(self.chars@, self.pos as int);
        }
        self.pos += 1;
        if ch == '\n' {
            self.line += 1;
            self.column = 1;
        } else {
            self.column += 1;
        }
        ch
    }

    pub(crate) fn err(&self, message: String) -> (e: CedarParseError)
        requires
            self.wf(),
        ensures
            e@ == err_at(self.chars@, self.pos as int, message@),
    {
        CedarParseError { message, line: self.line, column: self.column }
    }

    pub(crate) fn skip_whitespace_and_comments(&mut self)
        requires
            old(self).wf(),
        ensures
            final(self).wf(),
            final(self).chars@ == old(self).chars@,
            final(self).pos == skip_trivia(old(self).chars@, old(self).pos as int),
            old(self).pos <= final(self).pos,
    {
        let ghost cs = self.chars@;
        let ghost p0 = self.pos as int;
        loop
            invariant
                self.wf(),
                self.chars@ == cs,
                p0 <= self.pos,
                skip_trivia(cs, p0) == skip_trivia(cs, self.pos as int),
            ensures
                self.wf(),
                self.chars@ == cs,
                p0 <= self.pos,
                self.pos == skip_trivia(cs, p0),
            decreases cs.len() - self.pos,
        {
            let ghost start = self.pos;
            while self.pos < self.chars.len() && is_whitespace(self.chars[self.pos])
                invariant
                    self.wf(),
                    self.chars@ == cs,
                    p0 <= start <= self.pos,
                    skip_trivia(cs, p0) == skip_trivia(cs, self.pos as int),
                decreases cs.len() - self.pos,
            {
                self.advance();
            }
            let i = self.pos;
            if self.pos + 1 < self.chars.len() && self.chars[self.pos] == '/' && self.chars[
                self.pos + 1] == '/' {
                assert(line_end(cs, i + 1) == line_end(cs, i + 2));
                assert(line_end(cs, i as int) == line_end(cs, i + 1));
                while self.pos < self.chars.len() && self.chars[self.pos] != '\n'
                    invariant
                        self.wf(),
                        self.chars@ == cs,
                        i <= self.pos,
                        line_end(cs, self.pos as int) == line_end(cs, i as int),
                    decreases cs.len() - self.pos,
                {
                    self.advance();
                }
                assert(self.pos >= i + 2) by {
                    if self.pos < i + 2 {
                        assert(line_end(cs, self.pos as int) == self.pos);
                    }
                }
                continue;
            }
            if self.pos + 1 < self.chars.len() && self.chars[self.pos] == '/' && self.chars[
                self.pos + 1] == '*' {
                self.advance();
                self.advance();
                loop
                    invariant_except_break
                        block_end(cs, self.pos as int) == block_end(cs, i + 2),
                    invariant
                        self.wf(),
                        self.chars@ == cs,
                        i + 2 <= self.pos,
                    ensures
                        self.wf(),
                        self.chars@ == cs,
                        self.pos == block_end(cs, i + 2),
                        i + 2 <= self.pos,
                    decreases cs.len() - self.pos,
                {
                    if self.pos + 1 >= self.chars.len() {
                        break;
                    }
                    if self.chars[self.pos] == '*' && self.chars[self.pos + 1] == '/' {
                        self.advance();
                        self.advance();
                        break;
                    }
                    assert(block_end(cs, self.pos as int) == block_end(cs, self.pos + 1));
                    self.advance();
                }
                continue;
            }
            break;
        }
    }

    pub(crate) fn read_ident(&mut self) -> (s: String)
        requires
            old(self).wf(),
        ensures
            final(self).wf(),
            final(self).chars@ == old(self).chars@,
            final(self).pos == ident_end(old(self).chars@, old(self).pos as int),
            s@ == old(self).chars@.subrange(old(self).pos as int, final(self).pos as int),
    {
        let ghost cs = self.chars@;
        let ghost p0 = self.pos as int;
        let mut s = String::new();
        while self.pos < self.chars.len() && (is_alnum(self.chars[self.pos]) || self.chars[self.pos]
            == '_')
            invariant
                self.wf(),
                self.chars@ == cs,
                0 <= p0 <= self.pos,
                ident_end(cs, self.pos as int) == ident_end(cs, p0),
                s@ == cs.subrange(p0, self.pos as int),
            decreases cs.len() - self.pos,
        {
            let ghost before = self.pos as int;
            let c = self.advance();
            push_char(&mut s, c);
            assert(cs.subrange(p0, before + 1) == cs.subrange(p0, before).push(c));
        }
        s
    }

    /// Reads a string literal; the position is at its opening quote.
    fn read_string(&mut self) -> (r: Result<String, CedarParseError>)
        requires
            old(self).wf(),
            old(self).pos < old(self).chars.len(),
        ensures
            final(self).wf(),
            final(self).chars@ == old(self).chars@,
            match r {
                Ok(s) => lex_string(old(self).chars@, old(self).pos + 1, Seq::empty()) == Ok::<
                    (Seq<char>, int),
                    SError,
                >((s@, final(self).pos as int)),
                Err(e) => lex_string(old(self).chars@, old(self).pos + 1, Seq::empty()) == Err::<
                    (Seq<char>, int),
                    SError,
                >(e@),
            },
    {
        let ghost cs = self.chars@;
        let ghost p0 = self.pos as int;
        self.advance();
        let mut s = String::new();
        loop
            invariant
                self.wf(),
                self.chars@ == cs,
                cs == old(self).chars@,
                p0 == old(self).pos,
                p0 < self.pos,
                lex_string(cs, p0 + 1, Seq::empty()) == lex_string(cs, self.pos as int, s@),
            decreases cs.len() - self.pos,
        {
            match self.peek() {
                Some(c) => {
                    if c == '"' {
                        self.advance();
                        return Ok(s);
                    } else if c == '\\' {
                        self.advance();
                        match self.peek() {
                            Some(e) => {
                                self.advance();
                                if e == 'n' {
                                    push_char(&mut s, '\n');
                                } else if e == 't' {
                                    push_char(&mut s, '\t');
                                } else if e == '\\' || e == '"' || e == '*' {
                                    push_char(&mut s, e);
                                } else if e == '0' {
                                    push_char(&mut s, '\0');
                                } else {
                                    push_char(&mut s, '\\');
                                    push_char(&mut s, e);
                                }
                            },
                            None => {
                                return Err(self.err(String::from_str("Unterminated string")));
                            },
                        }
                    } else {
                        self.advance();
                        push_char(&mut s, c);
                    }
                },
                None => {
                    return Err(self.err(String::from_str("Unterminated string")));
                },
            }
        }
    }

    /// Reads an integer literal; the position is at its first digit.
    pub(crate) fn read_int(&mut self) -> (r: Result<i64, CedarParseError>)
        requires
            old(self).wf(),
            old(self).pos < old(self).chars.len(),
        ensures
            final(self).wf(),
            final(self).chars@ == old(self).chars@,
            final(self).pos == digits_end(old(self).chars@, old(self).pos as int),
            ({
                let s = old(self).chars@.subrange(old(self).pos as int, final(self).pos as int);
                match r {
                    Ok(n) => digits_value(s) <= i64::MAX && n == digits_value(s),
                    Err(e) => digits_value(s) > i64::MAX && e@ == err_at(
                        old(self).chars@,
                        final(self).pos as int,
                        "Invalid integer: "@ + s,
                    ),
                }
            }),
    {
        let ghost cs = self.chars@;
        let p0 = self.pos;
        proof {
            lemma_digits_end(cs, p0 as int);
        }
        while self.pos < self.chars.len() && is_digit(self.chars[self.pos])
            invariant
                self.wf(),
                self.chars@ == cs,
                p0 <= self.pos,
                digits_end(cs, self.pos as int) == digits_end(cs, p0 as int),
            decreases cs.len() - self.pos,
        {
            self.advance();
        }
        let e = self.pos;
        let ghost s = cs.subrange(p0 as int, e as int);
        let mut acc: i64 = 0;
        let mut i = p0;
        while i < e
            invariant
                p0 <= i <= e <= cs.len(),
                self.wf(),
                self.pos == e,
                self.chars@ == cs,
                cs == old(self).chars@,
                p0 == old(self).pos,
                e == digits_end(cs, p0 as int),
                s == cs.subrange(p0 as int, e as int),
                all_digits(s),
                acc as nat == digits_value(cs.subrange(p0 as int, i as int)),
                acc >= 0,
            decreases e - i,
        {
            let c = self.chars[i];
            assert(cs.subrange(p0 as int, i + 1) == cs.subrange(p0 as int, i as int).push(c));
            assert(is_digit_spec(c)) by {
                assert(s[i - p0] == c);
            }
            proof {
                lemma_digits_value_push(cs.subrange(p0 as int, i as int), c);
            }
            let dv = ((c as u32) - ('0' as u32)) as i64;
            if acc > (i64::MAX - dv) / 10 {
                proof {
                    assert(digits_value(cs.subrange(p0 as int, i + 1)) > i64::MAX) by (nonlinear_arith)
                        requires
                            digits_value(cs.subrange(p0 as int, i + 1)) == acc * 10 + dv,
                            acc > (i64::MAX - dv) / 10,
                            0 <= dv <= 9,
                    ;
                    lemma_digits_value_prefix(s, i + 1 - p0);
                    assert(s.take(i + 1 - p0) == cs.subrange(p0 as int, i + 1));
                }
                let mut m = String::from_str("Invalid integer: ");
                let digits = crate::text::string_of(&self.chars, p0, e);
                m.append(digits.as_str());
                return Err(self.err(m));
            }
            proof {
                assert(acc * 10 + dv <= i64::MAX) by (nonlinear_arith)
                    requires
                        acc <= (i64::MAX - dv) / 10,
                        0 <= dv <= 9,
                        acc >= 0,
                ;
            }
            acc = acc * 10 + dv;
            i += 1;
        }
        assert(cs.subrange(p0 as int, i as int) == s);
        Ok(acc)
    }

    /// Lexes the token at the position, which is not past the end.
    fn next_token(&mut self) -> (r: Result<(TokKind, String, i64), CedarParseError>)
        requires
            old(self).wf(),
            old(self).pos < old(self).chars.len(),
        ensures
            final(self).wf(),
            final(self).chars@ == old(self).chars@,
            match r {
                Ok((k, s, n)) => lex_token(old(self).chars@, old(self).pos as int) == Ok::<
                    (TokKind, Seq<char>, i64, int),
                    SError,
                >((k, s@, n, final(self).pos as int)),
                Err(e) => lex_token(old(self).chars@, old(self).pos as int) == Err::<
                    (TokKind, Seq<char>, i64, int),
                    SError,
                >(e@),
            },
    {
        let ghost cs = self.chars@;
        let i = self.pos;
        let c = self.chars[i];
        let next = self.peek2();
        let has_n = next.is_some();
        let n = match next {
            Some(x) => x,
            None => ' ',
        };
        assert(has_n ==> n == cs[i + 1]);
        assert(operator_kind(c, has_n, n) == operator_kind(c, has_n, cs[i + 1]));
        match single_kind_of(c) {
            Some(k) => {
                self.advance();
                return Ok((k, String::new(), 0));
            },
            None => {},
        }
        match operator_kind_of(c, has_n, n) {
            Some((k, len)) => {
                self.advance();
                if len == 2 {
                    self.advance();
                }
                return Ok((k, String::new(), 0));
            },
            None => {},
        }
        if c == '?' {
            self.advance();
            proof {
                lemma_ident_end(cs, i + 1);
            }
            let id = self.read_ident();
            if str_eq(id.as_str(), "principal") {
                return Ok((TokKind::SlotPrincipal, String::new(), 0));
            } else if str_eq(id.as_str(), "resource") {
                return Ok((TokKind::SlotResource, String::new(), 0));
            } else {
                let mut m = String::from_str("Unknown template slot: ?");
                m.append(id.as_str());
                return Err(self.err(m));
            }
        }
        if c == '"' {
            let r = self.read_string();
            return match r {
                Ok(s) => Ok((TokKind::Str, s, 0)),
                Err(e) => Err(e),
            };
        }
        if is_digit(c) {
            let r = self.read_int();
            return match r {
                Ok(v) => Ok((TokKind::Int, String::new(), v)),
                Err(e) => Err(e),
            };
        }
        if is_alpha(c) || c == '_' {
            proof {
                lemma_ident_end(cs, i as int);
            }
            let id = self.read_ident();
            let k = keyword_of(&id);
            if k == TokKind::Ident {
                return Ok((k, id, 0));
            } else {
                return Ok((k, String::new(), 0));
            }
        }
        let mut m = String::from_str("Unexpected character: '");
        push_char(&mut m, c);
        m.append("'");
        assert(m@ =~= "Unexpected character: '"@ + seq![c] + "'"@);
        Err(self.err(m))
    }

    fn tokenize(&mut self) -> (r: Result<Vec<Tok>, CedarParseError>)
        requires
            old(self).wf(),
            old(self).pos == 0,
        ensures
            match r {
                Ok(ts) => lex_spec(old(self).chars@) == Ok::<Seq<STok>, SError>(toks_view(ts@))
                    && toks_wf(toks_view(ts@)),
                Err(e) => lex_spec(old(self).chars@) == Err::<Seq<STok>, SError>(e@),
            },
    {
        let ghost cs = self.chars@;
        let lx = self;
        let mut tokens: Vec<Tok> = Vec::new();
        assert(toks_view(tokens@) =~= Seq::<STok>::empty());
        loop
            invariant_except_break
                lx.wf(),
                lx.chars@ == cs,
                cs == old(self).chars@,
                lex_spec(cs) == lex_from(cs, lx.pos as int, toks_view(tokens@)),
                forall|j: int| 0 <= j < tokens.len() ==> #[trigger] tokens@[j].kind != TokKind::Eof,
            invariant
                forall|j: int|
                    0 <= j < tokens.len() && #[trigger] tokens@[j].kind == TokKind::Int
                        ==> tokens@[j].num >= 0,
            ensures
                lex_spec(cs) == Ok::<Seq<STok>, SError>(toks_view(tokens@)),
                tokens.len() >= 1,
                tokens@.last().kind == TokKind::Eof,
                forall|j: int| 0 <= j < tokens.len() - 1 ==> #[trigger] tokens@[j].kind != TokKind::Eof,
            decreases cs.len() - lx.pos,
        {
            let ghost p0 = lx.pos as int;
            lx.skip_whitespace_and_comments();
            let ghost k = lx.pos as int;
            if lx.pos >= lx.chars.len() {
                let ghost before = tokens@;
                tokens.push(Tok {
                    kind: TokKind::Eof,
                    text: String::new(),
                    num: 0,
                    line: lx.line,
                    column: lx.column,
                });
                assert(toks_view(tokens@) =~= toks_view(before).push(tokens@.last()@));
                break;
            }
            let line = lx.line;
            let column = lx.column;
            let tok = lx.next_token();
            match tok {
                Ok((kind, text, num)) => {
                    proof {
                        lemma_token_kind(cs, k);
                    }
                    let ghost before = tokens@;
                    tokens.push(Tok { kind, text, num, line, column });
                    assert(toks_view(tokens@) =~= toks_view(before).push(tokens@.last()@));
                },
                Err(e) => {
                    return Err(e);
                },
            }
        }
        proof {
            let ts = toks_view(tokens@);
            assert forall|j: int| 0 <= j < ts.len() - 1 implies #[trigger] ts[j].kind
                != TokKind::Eof by {
                assert(ts[j] == tokens@[j]@);
            }
            assert forall|j: int| 0 <= j < ts.len() && #[trigger] ts[j].kind == TokKind::Int
                implies ts[j].num >= 0 by {
                assert(ts[j] == tokens@[j]@);
            }
        }
        Ok(tokens)
    }
}

/// Facts about the token at index `k`: its end is past `k`, it is no `Eof`,
/// and an integer is not negative.
proof fn lemma_token_kind(cs: Seq<char>, k: int)
    requires
        0 <= k < cs.len(),
    ensures
        lex_token(cs, k) matches Ok((kind, _, num, e)) ==> k < e <= cs.len() && kind
            != TokKind::Eof && (kind == TokKind::Int ==> num >= 0),
{
    lemma_ident_end(cs, k);
    lemma_ident_end(cs, k + 1);
    lemma_digits_end(cs, k);
    if k + 1 <= cs.len() {
        lemma_digits_end(cs, k + 1);
    }
    lemma_lex_string_end(cs, k + 1, Seq::empty());
    assert(keyword(cs.subrange(k, ident_end(cs, k))) != TokKind::Eof);
}

proof fn lemma_lex_string_end(cs: Seq<char>, j: int, acc: Seq<char>)
    requires
        0 <= j,
    ensures
        lex_string(cs, j, acc) matches Ok((_, e)) ==> j < e <= cs.len(),
    decreases cs.len() - j,
{
    if 0 <= j < cs.len() && cs[j] != '"' {
        if cs[j] == '\\' {
            if j + 1 < cs.len() {
                let c = cs[j + 1];
                let acc2 = match escaped(c) {
                    Some(e) => acc.push(e),
                    None => acc.push('\\').push(c),
                };
                lemma_lex_string_end(cs, j + 2, acc2);
            }
        } else {
            lemma_lex_string_end(cs, j + 1, acc.push(cs[j]));
        }
    }
}

/// The kind of a word, by comparing it with each keyword.
fn keyword_of(s: &String) -> (k: TokKind)
    ensures
        k == keyword(s@),
{
    let w = s.as_str();
    if str_eq(w, "permit") {
        TokKind::Permit
    } else if str_eq(w, "forbid") {
        TokKind::Forbid
    } else if str_eq(w, "when") {
        TokKind::When
    } else if str_eq(w, "unless") {
        TokKind::Unless
    } else if str_eq(w, "if") {
        TokKind::If
    } else if str_eq(w, "then") {
        TokKind::Then
    } else if str_eq(w, "else") {
        TokKind::Else
    } else if str_eq(w, "in") {
        TokKind::In
    } else if str_eq(w, "like") {
        TokKind::Like
    } else if str_eq(w, "has") {
        TokKind::Has
    } else if str_eq(w, "is") {
        TokKind::Is
    } else if str_eq(w, "true") {
        TokKind::True
    } else if str_eq(w, "false") {
        TokKind::False
    } else if str_eq(w, "principal") {
        TokKind::Principal
    } else if str_eq(w, "action") {
        TokKind::Action
    } else if str_eq(w, "resource") {
        TokKind::Resource
    } else if str_eq(w, "context") {
        TokKind::Context
    } else {
        TokKind::Ident
    }
}

fn single_kind_of(c: char) -> (r: Option<TokKind>)
    ensures
        r == single_kind(c),
{
    if c == '(' {
        Some(TokKind::LParen)
    } else if c == ')' {
        Some(TokKind::RParen)
    } else if c == '[' {
        Some(TokKind::LBracket)
    } else if c == ']' {
        Some(TokKind::RBracket)
    } else if c == '{' {
        Some(TokKind::LBrace)
    } else if c == '}' {
        Some(TokKind::RBrace)
    } else if c == ',' {
        Some(TokKind::Comma)
    } else if c == ';' {
        Some(TokKind::Semi)
    } else if c == '.' {
        Some(TokKind::Dot)
    } else if c == '@' {
        Some(TokKind::At)
    } else if c == '+' {
        Some(TokKind::Plus)
    } else if c == '-' {
        Some(TokKind::Minus)
    } else if c == '*' {
        Some(TokKind::Star)
    } else {
        None
    }
}

fn operator_kind_of(c: char, has_n: bool, n: char) -> (r: Option<(TokKind, usize)>)
    ensures
        match r {
            Some((k, len)) => operator_kind(c, has_n, n) == Some((k, len as int)),
            None => operator_kind(c, has_n, n) is None,
        },
{
    let two = has_n && n == '=';
    if c == ':' {
        if has_n && n == ':' {
            Some((TokKind::ColonColon, 2))
        } else {
            Some((TokKind::Colon, 1))
        }
    } else if c == '=' {
        if two {
            Some((TokKind::Eq, 2))
        } else {
            None
        }
    } else if c == '!' {
        if two {
            Some((TokKind::Neq, 2))
        } else {
            Some((TokKind::Not, 1))
        }
    } else if c == '<' {
        if two {
            Some((TokKind::Lte, 2))
        } else {
            Some((TokKind::Lt, 1))
        }
    } else if c == '>' {
        if two {
            Some((TokKind::Gte, 2))
        } else {
            Some((TokKind::Gt, 1))
        }
    } else if c == '&' {
        if has_n && n == '&' {
            Some((TokKind::And, 2))
        } else {
            None
        }
    } else if c == '|' {
        if has_n && n == '|' {
            Some((TokKind::Or, 2))
        } else {
            None
        }
    } else {
        None
    }
}

/// The tokens of `source`, ending with `Eof`.
pub fn tokenize(source: &str) -> (r: Result<Vec<Tok>, CedarParseError>)
    requires
        source@.len() < usize::MAX,
    ensures
        match r {
            Ok(ts) => lex_spec(source@) == Ok::<Seq<STok>, SError>(toks_view(ts@)) && toks_wf(
                toks_view(ts@),
            ),
            Err(e) => lex_spec(source@) == Err::<Seq<STok>, SError>(e@),
        },
{
    let mut lx = Lexer::new(source);
    lx.tokenize()
}

} // verus!

verus! {

/// In a well-formed stream, a token that is not `Eof` has a successor.
pub proof fn lemma_wf_next(ts: Seq<STok>, pos: int)
    requires
        toks_wf(ts),
        0 <= pos < ts.len(),
        ts[pos].kind != TokKind::Eof,
    ensures
        pos + 1 < ts.len(),
{
}

} // verus!
