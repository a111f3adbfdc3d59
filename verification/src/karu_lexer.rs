//! Lexer for Karu's Polar-inspired syntax: source text to a stream of tokens.
//!
//! A number token keeps the text it was written with (a sign, digits, an
//! optional fraction and exponent); what the number is worth is read from
//! that text by whoever needs the value.
use vstd::prelude::*;
use crate::text::{
    chars_of, push_char, string_of, is_digit, is_digit_spec, is_whitespace, is_whitespace_spec,
    is_alphabetic, is_alphanumeric, letter, letter_or_digit,
};
use crate::json::str_eq;
use crate::cedar_parser::SError;
use crate::cedar_lexer::{line_col, err_at, line_end, lemma_line_col_bound, no_error};

verus! {

/// The kind of a Karu token.
#[derive(Debug, Clone, Copy, PartialEq, Eq, Structural)]
pub enum Token {
    Allow,
    Deny,
    If,
    And,
    Or,
    Not,
    In,
    Forall,
    Exists,
    Has,
    Like,
    Use,
    Schema,
    Mod,
    Actor,
    Resource,
    Action,
    Assert,
    Abstract,
    Import,
    On,
    Test,
    Expect,
    Is,
    Ident,
    Str,
    Number,
    True,
    False,
    Null,
    Eq,
    Ne,
    Lt,
    Gt,
    Le,
    Ge,
    Dot,
    Comma,
    Colon,
    Semi,
    Pipe,
    Question,
    LParen,
    RParen,
    LBrace,
    RBrace,
    LBracket,
    RBracket,
    Underscore,
    Comment,
    Eof,
}

/// A token with the 1-based line and column where it starts. `text` holds the
/// name of an identifier, the contents of a string, the text of a number or
/// the trimmed text of a comment; it is empty for the other tokens.
#[derive(Debug)]
pub struct Spanned {
    pub token: Token,
    pub text: String,
    pub line: usize,
    pub column: usize,
}

/// A lexer error with the 1-based line and column where it was found.
#[derive(Debug, Clone)]
pub struct LexError {
    pub message: String,
    pub line: usize,
    pub column: usize,
}

impl View for LexError {
    type V = SError;

    open spec fn view(&self) -> SError {
        SError { message: self.message@, line: self.line as nat, column: self.column as nat }
    }
}

/// The content of a token.
pub struct SSpanned {
    pub token: Token,
    pub text: Seq<char>,
    pub line: nat,
    pub column: nat,
}

impl View for Spanned {
    type V = SSpanned;

    open spec fn view(&self) -> SSpanned {
        SSpanned { token: self.token, text: self.text@, line: self.line as nat, column: self.column as nat }
    }
}

pub open spec fn spanned_view(v: Seq<Spanned>) -> Seq<SSpanned> {
    v.map_values(|t: Spanned| t@)
}

/// A token stream as the lexer yields it: it ends with the only `Eof` and
/// holds no comments.
pub open spec fn spanned_wf(ts: Seq<SSpanned>) -> bool {
    &&& ts.len() >= 1
    &&& ts.last().token == Token::Eof
    &&& forall|i: int| 0 <= i < ts.len() - 1 ==> #[trigger] ts[i].token != Token::Eof
    &&& forall|i: int| 0 <= i < ts.len() ==> #[trigger] ts[i].token != Token::Comment
}

// ----------------------------------------------------------------------------
// What the lexer yields
// ----------------------------------------------------------------------------

/// The index after the whitespace that starts at `k`.
pub open spec fn ws_end(cs: Seq<char>, k: int) -> int
    decreases cs.len() - k,
{
    if 0 <= k < cs.len() && is_whitespace_spec(cs[k]) {
        ws_end(cs, k + 1)
    } else {
        k
    }
}

/// The end of the run of identifier characters starting at `k`.
pub open spec fn word_end(cs: Seq<char>, k: int) -> int
    decreases cs.len() - k,
{
    if 0 <= k < cs.len() && (letter_or_digit(cs[k]) || cs[k] == '_') {
        word_end(cs, k + 1)
    } else {
        k
    }
}

/// Whether `c` may continue a number whose previous character is `prev`:
/// a digit, a point, an exponent mark, or a sign right after the mark.
pub open spec fn number_char(c: char, prev: char) -> bool {
    is_digit_spec(c) || c == '.' || c == 'e' || c == 'E' || ((c == '-' || c == '+') && (prev == 'e'
        || prev == 'E'))
}

/// The end of the number text that continues at `k` (`k` is past its first digit).
pub open spec fn num_end(cs: Seq<char>, k: int) -> int
    decreases cs.len() - k,
{
    if 0 < k < cs.len() && number_char(cs[k], cs[k - 1]) {
        num_end(cs, k + 1)
    } else {
        k
    }
}

/// The end of the run of digits of `s` starting at `k`.
pub open spec fn digit_run(s: Seq<char>, k: int) -> int
    decreases s.len() - k,
{
    if 0 <= k < s.len() && is_digit_spec(s[k]) {
        digit_run(s, k + 1)
    } else {
        k
    }
}

/// Whether `s` is a decimal number that `f64` parsing accepts: digits, an
/// optional point with more digits, and an optional exponent with an
/// optional sign and at least one digit.
pub open spec fn valid_number(s: Seq<char>) -> bool {
    let a = digit_run(s, 0);
    let b = if a < s.len() && s[a] == '.' {
        digit_run(s, a + 1)
    } else {
        a
    };
    &&& a > 0
    &&& (b == s.len() || ((s[b] == 'e' || s[b] == 'E') && {
        let c = if b + 1 < s.len() && (s[b + 1] == '+' || s[b + 1] == '-') {
            b + 2
        } else {
            b + 1
        };
        digit_run(s, c) > c && digit_run(s, c) == s.len()
    }))
}

/// The rest of a string literal from index `j`, with `acc` read so far; `q`
/// is the index after the opening quote, where an unclosed string is reported.
pub open spec fn lex_str(cs: Seq<char>, q: int, j: int, acc: Seq<char>) -> Result<
    (Seq<char>, int),
    SError,
>
    decreases cs.len() - j,
{
    if j < 0 || j >= cs.len() {
        Err(err_at(cs, q, "Unterminated string"@))
    } else if cs[j] == '"' {
        Ok((acc, j + 1))
    } else if cs[j] == '\\' {
        if j + 1 >= cs.len() {
            Err(err_at(cs, cs.len() as int, "Unterminated string escape"@))
        } else {
            let c = cs[j + 1];
            let e = if c == 'n' {
                '\n'
            } else if c == 't' {
                '\t'
            } else if c == 'r' {
                '\r'
            } else {
                c
            };
            lex_str(cs, q, j + 2, acc.push(e))
        }
    } else {
        lex_str(cs, q, j + 1, acc.push(cs[j]))
    }
}

/// `s` without leading whitespace.
pub open spec fn trim_start(s: Seq<char>) -> Seq<char>
    decreases s.len(),
{
    if s.len() > 0 && is_whitespace_spec(s[0]) {
        trim_start(s.drop_first())
    } else {
        s
    }
}

/// `s` without trailing whitespace.
pub open spec fn trim_end(s: Seq<char>) -> Seq<char>
    decreases s.len(),
{
    if s.len() > 0 && is_whitespace_spec(s.last()) {
        trim_end(s.drop_last())
    } else {
        s
    }
}

/// The kind of a word: a keyword, or an identifier.
pub open spec fn keyword(s: Seq<char>) -> Token {
    if s == "allow"@ {
        Token::Allow
    } else if s == "deny"@ {
        Token::Deny
    } else if s == "if"@ {
        Token::If
    } else if s == "and"@ {
        Token::And
    } else if s == "or"@ {
        Token::Or
    } else if s == "not"@ {
        Token::Not
    } else if s == "in"@ {
        Token::In
    } else if s == "forall"@ {
        Token::Forall
    } else if s == "exists"@ {
        Token::Exists
    } else if s == "has"@ {
        Token::Has
    } else if s == "like"@ {
        Token::Like
    } else if s == "use"@ {
        Token::Use
    } else if s == "schema"@ {
        Token::Schema
    } else if s == "mod"@ {
        Token::Mod
    } else if s == "actor"@ {
        Token::Actor
    } else if s == "resource"@ {
        Token::Resource
    } else if s == "action"@ {
        Token::Action
    } else if s == "assert"@ {
        Token::Assert
    } else if s == "abstract"@ {
        Token::Abstract
    } else if s == "import"@ {
        Token::Import
    } else if s == "on"@ {
        Token::On
    } else if s == "test"@ {
        Token::Test
    } else if s == "expect"@ {
        Token::Expect
    } else if s == "is"@ {
        Token::Is
    } else if s == "true"@ {
        Token::True
    } else if s == "false"@ {
        Token::False
    } else if s == "null"@ {
        Token::Null
    } else {
        Token::Ident
    }
}

/// A word token: a keyword carries no text, an identifier its name.
pub open spec fn word_token(w: Seq<char>) -> (Token, Seq<char>) {
    let k = keyword(w);
    (k, if k == Token::Ident { w } else { Seq::empty() })
}

/// The token of a character that is a token by itself.
pub open spec fn single_token(c: char) -> Option<Token> {
    if c == '(' {
        Some(Token::LParen)
    } else if c == ')' {
        Some(Token::RParen)
    } else if c == '{' {
        Some(Token::LBrace)
    } else if c == '}' {
        Some(Token::RBrace)
    } else if c == '[' {
        Some(Token::LBracket)
    } else if c == ']' {
        Some(Token::RBracket)
    } else if c == ',' {
        Some(Token::Comma)
    } else if c == ':' {
        Some(Token::Colon)
    } else if c == ';' {
        Some(Token::Semi)
    } else if c == '.' {
        Some(Token::Dot)
    } else if c == '|' {
        Some(Token::Pipe)
    } else if c == '?' {
        Some(Token::Question)
    } else {
        None
    }
}

/// The token that starts at index `k`: kind, text and end index.
pub open spec fn lex_token(cs: Seq<char>, k: int) -> Result<(Token, Seq<char>, int), SError> {
    let c = cs[k];
    let has_n = k + 1 < cs.len();
    let n = cs[k + 1];
    if c == '/' && has_n && n == '/' {
        let e = line_end(cs, k + 2);
        Ok((Token::Comment, trim_end(trim_start(cs.subrange(k + 2, e))), e))
    } else if c == '"' {
        match lex_str(cs, k + 1, k + 1, Seq::empty()) {
            Ok((s, e)) => Ok((Token::Str, s, e)),
            Err(er) => Err(er),
        }
    } else if single_token(c) is Some {
        Ok((single_token(c)->0, Seq::empty(), k + 1))
    } else if c == '_' {
        if has_n && letter_or_digit(n) {
            let e = word_end(cs, k + 1);
            let (t, text) = word_token(cs.subrange(k, e));
            Ok((t, text, e))
        } else {
            Ok((Token::Underscore, Seq::empty(), k + 1))
        }
    } else if c == '=' {
        if has_n && n == '=' {
            Ok((Token::Eq, Seq::empty(), k + 2))
        } else {
            Err(err_at(cs, k + 1, "Expected '==' for equality"@))
        }
    } else if c == '!' {
        if has_n && n == '=' {
            Ok((Token::Ne, Seq::empty(), k + 2))
        } else {
            Err(err_at(cs, k + 1, "Expected '!=' for not-equal"@))
        }
    } else if c == '<' {
        if has_n && n == '=' {
            Ok((Token::Le, Seq::empty(), k + 2))
        } else {
            Ok((Token::Lt, Seq::empty(), k + 1))
        }
    } else if c == '>' {
        if has_n && n == '=' {
            Ok((Token::Ge, Seq::empty(), k + 2))
        } else {
            Ok((Token::Gt, Seq::empty(), k + 1))
        }
    } else if is_digit_spec(c) {
        let e = num_end(cs, k + 1);
        let s = cs.subrange(k, e);
        if valid_number(s) {
            Ok((Token::Number, s, e))
        } else {
            Err(err_at(cs, e, "Invalid number: "@ + s))
        }
    } else if c == '-' && has_n && is_digit_spec(n) {
        let e = num_end(cs, k + 2);
        let s = cs.subrange(k + 1, e);
        if valid_number(s) {
            Ok((Token::Number, seq!['-'] + s, e))
        } else {
            Err(err_at(cs, e, "Invalid number: "@ + s))
        }
    } else if letter(c) {
        let e = word_end(cs, k + 1);
        let (t, text) = word_token(cs.subrange(k, e));
        Ok((t, text, e))
    } else {
        Err(err_at(cs, k + 1, "Unexpected character: '"@ + seq![c] + "'"@))
    }
}

/// The next token from index `i` (after whitespace) with the 1-based line
/// and column where it starts, and the index after it; at the end, `Eof`.
pub open spec fn next_spec(cs: Seq<char>, i: int) -> Result<(SSpanned, int), SError> {
    let k = ws_end(cs, i);
    let (l, c) = line_col(cs, k);
    if k >= cs.len() {
        Ok((SSpanned { token: Token::Eof, text: Seq::empty(), line: l, column: c }, k))
    } else {
        match lex_token(cs, k) {
            Err(e) => Err(e),
            Ok((t, text, e)) => Ok((SSpanned { token: t, text, line: l, column: c }, e)),
        }
    }
}

/// The tokens from index `i` on, after `acc`, comments left out.
pub open spec fn lex_from(cs: Seq<char>, i: int, acc: Seq<SSpanned>) -> Result<Seq<SSpanned>, SError>
    decreases cs.len() - i,
{
    if !(0 <= i <= cs.len()) {
        Err(no_error())
    } else {
        match next_spec(cs, i) {
            Err(e) => Err(e),
            Ok((t, e)) => if t.token == Token::Eof {
                Ok(acc.push(t))
            } else if i < e <= cs.len() {
                lex_from(
                    cs,
                    e,
                    if t.token == Token::Comment {
                        acc
                    } else {
                        acc.push(t)
                    },
                )
            } else {
                Err(no_error())
            },
        }
    }
}

/// The tokens of a whole source text.
pub open spec fn karu_lex_spec(cs: Seq<char>) -> Result<Seq<SSpanned>, SError> {
    lex_from(cs, 0, Seq::empty())
}

// ----------------------------------------------------------------------------
// Facts about the scanning functions
// ----------------------------------------------------------------------------

proof fn lemma_ws_end(cs: Seq<char>, k: int)
    requires
        0 <= k <= cs.len(),
    ensures
        k <= ws_end(cs, k) <= cs.len(),
    decreases cs.len() - k,
{
    if k < cs.len() && is_whitespace_spec(cs[k]) {
        lemma_ws_end(cs, k + 1);
    }
}

proof fn lemma_word_end(cs: Seq<char>, k: int)
    requires
        0 <= k <= cs.len(),
    ensures
        k <= word_end(cs, k) <= cs.len(),
    decreases cs.len() - k,
{
    if k < cs.len() && (letter_or_digit(cs[k]) || cs[k] == '_') {
        lemma_word_end(cs, k + 1);
    }
}

proof fn lemma_num_end(cs: Seq<char>, k: int)
    requires
        0 < k <= cs.len(),
    ensures
        k <= num_end(cs, k) <= cs.len(),
    decreases cs.len() - k,
{
    if k < cs.len() && number_char(cs[k], cs[k - 1]) {
        lemma_num_end(cs, k + 1);
    }
}

proof fn lemma_line_end(cs: Seq<char>, k: int)
    requires
        0 <= k <= cs.len(),
    ensures
        k <= line_end(cs, k) <= cs.len(),
    decreases cs.len() - k,
{
    if k < cs.len() && cs[k] != '\n' {
        lemma_line_end(cs, k + 1);
    }
}

proof fn lemma_lex_str_end(cs: Seq<char>, q: int, j: int, acc: Seq<char>)
    requires
        0 <= j,
    ensures
        lex_str(cs, q, j, acc) matches Ok((_, e)) ==> j < e <= cs.len(),
    decreases cs.len() - j,
{
    if 0 <= j < cs.len() && cs[j] != '"' {
        if cs[j] == '\\' {
            if j + 1 < cs.len() {
                let c = cs[j + 1];
                let e = if c == 'n' {
                    '\n'
                } else if c == 't' {
                    '\t'
                } else if c == 'r' {
                    '\r'
                } else {
                    c
                };
                lemma_lex_str_end(cs, q, j + 2, acc.push(e));
            }
        } else {
            lemma_lex_str_end(cs, q, j + 1, acc.push(cs[j]));
        }
    }
}

proof fn lemma_token_end(cs: Seq<char>, k: int)
    requires
        0 <= k < cs.len(),
    ensures
        lex_token(cs, k) matches Ok((t, _, e)) ==> k < e <= cs.len() && t != Token::Eof,
{
    lemma_word_end(cs, k + 1);
    lemma_num_end(cs, k + 1);
    if k + 2 <= cs.len() {
        lemma_num_end(cs, k + 2);
        lemma_line_end(cs, k + 2);
    }
    lemma_lex_str_end(cs, k + 1, k + 1, Seq::empty());
    assert(keyword(cs.subrange(k, word_end(cs, k + 1))) != Token::Eof);
}

/// The next token ends past `i` (at the end of the source for `Eof`), and
/// its line and column are positive.
pub proof fn lemma_next_end(cs: Seq<char>, i: int)
    requires
        0 <= i <= cs.len(),
    ensures
        next_spec(cs, i) matches Ok((t, e)) ==> (t.token == Token::Eof ==> i <= e == cs.len()) && (
        t.token != Token::Eof ==> i < e <= cs.len()) && t.line >= 1 && t.column >= 1,
{
    lemma_ws_end(cs, i);
    lemma_line_col_bound(cs, ws_end(cs, i));
    let k = ws_end(cs, i);
    if k < cs.len() {
        lemma_token_end(cs, k);
    }
}


// ----------------------------------------------------------------------------
// The lexer
// ----------------------------------------------------------------------------

/// Lexer for Karu source code: the characters of the source, the current
/// position and its 1-based line and column.
pub struct Lexer {
    chars: Vec<char>,
    pos: usize,
    line: usize,
    column: usize,
}

impl Lexer {
    /// A well-formed lexer stands inside its source.
    pub proof fn lemma_wf(&self)
        requires
            self.wf(),
        ensures
            0 <= self.position() <= self.source().len() < usize::MAX,
    {
    }

    /// The source text being read.
    pub closed spec fn source(&self) -> Seq<char> {
        self.chars@
    }

    /// The index of the next character to read.
    pub closed spec fn position(&self) -> int {
        self.pos as int
    }

    /// Well-formedness: the position is in the source and the line and
    /// column are those of the position.
    pub closed spec fn wf(&self) -> bool {
        &&& self.pos <= self.chars.len() < usize::MAX
        &&& line_col(self.chars@, self.pos as int) == (self.line as nat, self.column as nat)
    }

    /// A lexer at the start of `source`.
    pub fn new(source: &str) -> (l: Lexer)
        requires
            source@.len() < usize::MAX,
        ensures
            l.wf(),
            l.source() == source@,
            l.position() == 0,
    {
        Lexer { chars: chars_of(source), pos: 0, line: 1, column: 1 }
    }

    fn peek(&self) -> (r: Option<char>)
        ensures
            r == (if self.pos < self.chars.len() {
                Some(self.chars@[self.pos as int])
            } else {
                None
            }),
    {
        if self.pos < self.chars.len() {
            Some(self.chars[self.pos])
        } else {
            None
        }
    }

    /// Consumes the next character, keeping track of line and column.
    fn advance(&mut self) -> (r: Option<char>)
        requires
            old(self).wf(),
        ensures
            final(self).wf(),
            final(self).chars@ == old(self).chars@,
            old(self).pos < old(self).chars.len() ==> final(self).pos == old(self).pos + 1 && r
                == Some(old(self).chars@[old(self).pos as int]),
            old(self).pos >= old(self).chars.len() ==> final(self).pos == old(self).pos && r is None,
    {
        if self.pos >= self.chars.len() {
            return None;
        }
        let ch = self.chars[self.pos];
        proof {
            lemma_line_col_bound(self.chars@, self.pos as int);
        }
        self.pos += 1;
        if ch == '\n' {
            self.line += 1;
            self.column = 1;
        } else {
            self.column += 1;
        }
        Some(ch)
    }

    fn err(&self, message: String) -> (e: LexError)
        requires
            self.wf(),
        ensures
            e@ == err_at(self.chars@, self.pos as int, message@),
    {
        LexError { message, line: self.line, column: self.column }
    }

    fn skip_whitespace(&mut self)
        requires
            old(self).wf(),
        ensures
            final(self).wf(),
            final(self).chars@ == old(self).chars@,
            final(self).pos == ws_end(old(self).chars@, old(self).pos as int),
    {
        let ghost cs = self.chars@;
        let ghost p0 = self.pos as int;
        while self.pos < self.chars.len() && is_whitespace(self.chars[self.pos])
            invariant
                self.wf(),
                self.chars@ == cs,
                p0 <= self.pos,
                ws_end(cs, p0) == ws_end(cs, self.pos as int),
            decreases cs.len() - self.pos,
        {
            self.advance();
        }
    }

    /// Reads the rest of a string literal; the opening quote is consumed.
    fn read_string(&mut self) -> (r: Result<String, LexError>)
        requires
            old(self).wf(),
        ensures
            final(self).wf(),
            final(self).chars@ == old(self).chars@,
            match r {
                Ok(s) => lex_str(
                    old(self).chars@,
                    old(self).pos as int,
                    old(self).pos as int,
                    Seq::empty(),
                ) == Ok::<(Seq<char>, int), SError>((s@, final(self).pos as int)),
                Err(e) => lex_str(
                    old(self).chars@,
                    old(self).pos as int,
                    old(self).pos as int,
                    Seq::empty(),
                ) == Err::<(Seq<char>, int), SError>(e@),
            },
    {
        let ghost cs = self.chars@;
        let ghost q = self.pos as int;
        let start_line = self.line;
        let start_col = self.column;
        let mut s = String::new();
        loop
            invariant
                self.wf(),
                self.chars@ == cs,
                cs == old(self).chars@,
                q == old(self).pos,
                q <= self.pos,
                line_col(cs, q) == (start_line as nat, start_col as nat),
                lex_str(cs, q, q, Seq::empty()) == lex_str(cs, q, self.pos as int, s@),
            decreases cs.len() - self.pos,
        {
            match self.advance() {
                Some(c) => {
                    if c == '"' {
                        return Ok(s);
                    } else if c == '\\' {
                        match self.advance() {
                            Some(e) => {
                                if e == 'n' {
                                    push_char(&mut s, '\n');
                                } else if e == 't' {
                                    push_char(&mut s, '\t');
                                } else if e == 'r' {
                                    push_char(&mut s, '\r');
                                } else {
                                    push_char(&mut s, e);
                                }
                            },
                            None => {
                                return Err(self.err(String::from_str("Unterminated string escape")));
                            },
                        }
                    } else {
                        push_char(&mut s, c);
                    }
                },
                None => {
                    return Err(
                        LexError {
                            message: String::from_str("Unterminated string"),
                            line: start_line,
                            column: start_col,
                        },
                    );
                },
            }
        }
    }

    /// Reads the rest of a number whose first digit `first` is consumed, and
    /// checks that it is a number.
    fn read_number(&mut self, first: char) -> (r: Result<String, LexError>)
        requires
            old(self).wf(),
            0 < old(self).pos,
            old(self).chars@[old(self).pos - 1] == first,
        ensures
            final(self).wf(),
            final(self).chars@ == old(self).chars@,
            final(self).pos == num_end(old(self).chars@, old(self).pos as int),
            ({
                let s = old(self).chars@.subrange(old(self).pos - 1, final(self).pos as int);
                match r {
                    Ok(t) => valid_number(s) && t@ == s,
                    Err(e) => !valid_number(s) && e@ == err_at(
                        old(self).chars@,
                        final(self).pos as int,
                        "Invalid number: "@ + s,
                    ),
                }
            }),
    {
        let ghost cs = self.chars@;
        let ghost p0 = self.pos as int;
        let mut s: Vec<char> = Vec::new();
        s.push(first);
        let mut prev = first;
        assert(s@ =~= cs.subrange(p0 - 1, p0));
        while self.pos < self.chars.len() && (is_digit(self.chars[self.pos]) || self.chars[self.pos]
            == '.' || self.chars[self.pos] == 'e' || self.chars[self.pos] == 'E' || ((
        self.chars[self.pos] == '-' || self.chars[self.pos] == '+') && (prev == 'e' || prev == 'E')))
            invariant
                self.wf(),
                self.chars@ == cs,
                0 < p0 <= self.pos,
                num_end(cs, p0) == num_end(cs, self.pos as int),
                s@ == cs.subrange(p0 - 1, self.pos as int),
                prev == cs[self.pos - 1],
            decreases cs.len() - self.pos,
        {
            let c = self.advance().unwrap();
            s.push(c);
            prev = c;
            assert(s@ =~= cs.subrange(p0 - 1, self.pos as int));
        }
        let text = string_of(&s, 0, s.len());
        assert(s@.subrange(0, s.len() as int) =~= s@);
        if valid_number_chars(&s) {
            Ok(text)
        } else {
            let mut m = String::from_str("Invalid number: ");
            m.append(text.as_str());
            Err(self.err(m))
        }
    }

    /// Reads the rest of a word whose first character `first` is consumed.
    fn read_ident(&mut self, first: char) -> (s: String)
        requires
            old(self).wf(),
            0 < old(self).pos,
            old(self).chars@[old(self).pos - 1] == first,
        ensures
            final(self).wf(),
            final(self).chars@ == old(self).chars@,
            final(self).pos == word_end(old(self).chars@, old(self).pos as int),
            s@ == old(self).chars@.subrange(old(self).pos - 1, final(self).pos as int),
    {
        let ghost cs = self.chars@;
        let ghost p0 = self.pos as int;
        let mut s = String::new();
        push_char(&mut s, first);
        assert(s@ =~= cs.subrange(p0 - 1, p0));
        while self.pos < self.chars.len() && (is_alphanumeric(self.chars[self.pos]) || self.chars[
            self.pos] == '_')
            invariant
                self.wf(),
                self.chars@ == cs,
                0 < p0 <= self.pos,
                word_end(cs, p0) == word_end(cs, self.pos as int),
                s@ == cs.subrange(p0 - 1, self.pos as int),
            decreases cs.len() - self.pos,
        {
            let c = self.advance().unwrap();
            push_char(&mut s, c);
            assert(s@ =~= cs.subrange(p0 - 1, self.pos as int));
        }
        s
    }

    /// Reads the rest of a comment line, up to the newline, trimmed.
    fn read_comment(&mut self) -> (s: String)
        requires
            old(self).wf(),
        ensures
            final(self).wf(),
            final(self).chars@ == old(self).chars@,
            final(self).pos == line_end(old(self).chars@, old(self).pos as int),
            s@ == trim_end(
                trim_start(old(self).chars@.subrange(old(self).pos as int, final(self).pos as int)),
            ),
    {
        let ghost cs = self.chars@;
        let p0 = self.pos;
        while self.pos < self.chars.len() && self.chars[self.pos] != '\n'
            invariant
                self.wf(),
                self.chars@ == cs,
                p0 <= self.pos,
                line_end(cs, p0 as int) == line_end(cs, self.pos as int),
            decreases cs.len() - self.pos,
        {
            self.advance();
        }
        trimmed_string(&self.chars, p0, self.pos)
    }

    /// The next token (without its position), past whitespace.
    fn next_token_inner(&mut self) -> (r: Result<(Token, String), LexError>)
        requires
            old(self).wf(),
            old(self).pos < old(self).chars.len(),
        ensures
            final(self).wf(),
            final(self).chars@ == old(self).chars@,
            match r {
                Ok((t, text)) => lex_token(old(self).chars@, old(self).pos as int) == Ok::<
                    (Token, Seq<char>, int),
                    SError,
                >((t, text@, final(self).pos as int)),
                Err(e) => lex_token(old(self).chars@, old(self).pos as int) == Err::<
                    (Token, Seq<char>, int),
                    SError,
                >(e@),
            },
    {
        let ghost cs = self.chars@;
        let ghost k = self.pos as int;
        let c = self.advance().unwrap();
        let nx = self.peek();
        if c == '/' && nx == Some('/') {
            self.advance();
            let text = self.read_comment();
            return Ok((Token::Comment, text));
        }
        if c == '"' {
            let s = self.read_string();
            return match s {
                Ok(s) => Ok((Token::Str, s)),
                Err(e) => Err(e),
            };
        }
        match single_token_of(c) {
            Some(t) => {
                return Ok((t, String::new()));
            },
            None => {},
        }
        if c == '_' {
            match nx {
                Some(n) => {
                    if is_alphanumeric(n) {
                        let w = self.read_ident('_');
                        return Ok(word_token_of(w));
                    }
                },
                None => {},
            }
            return Ok((Token::Underscore, String::new()));
        }
        if c == '=' {
            if nx == Some('=') {
                self.advance();
                return Ok((Token::Eq, String::new()));
            }
            return Err(self.err(String::from_str("Expected '==' for equality")));
        }
        if c == '!' {
            if nx == Some('=') {
                self.advance();
                return Ok((Token::Ne, String::new()));
            }
            return Err(self.err(String::from_str("Expected '!=' for not-equal")));
        }
        if c == '<' {
            if nx == Some('=') {
                self.advance();
                return Ok((Token::Le, String::new()));
            }
            return Ok((Token::Lt, String::new()));
        }
        if c == '>' {
            if nx == Some('=') {
                self.advance();
                return Ok((Token::Ge, String::new()));
            }
            return Ok((Token::Gt, String::new()));
        }
        if is_digit(c) {
            let n = self.read_number(c);
            return match n {
                Ok(t) => Ok((Token::Number, t)),
                Err(e) => Err(e),
            };
        }
        if c == '-' {
            match nx {
                Some(d) => {
                    if is_digit(d) {
                        self.advance();
                        let n = self.read_number(d);
                        return match n {
                            Ok(t) => {
                                let mut m = String::new();
                                push_char(&mut m, '-');
                                m.append(t.as_str());
                                assert(m@ =~= seq!['-'] + t@);
                                Ok((Token::Number, m))
                            },
                            Err(e) => Err(e),
                        };
                    }
                },
                None => {},
            }
        }
        if is_alphabetic(c) {
            let w = self.read_ident(c);
            return Ok(word_token_of(w));
        }
        let mut m = String::from_str("Unexpected character: '");
        push_char(&mut m, c);
        m.append("'");
        assert(m@ =~= "Unexpected character: '"@ + seq![c] + "'"@);
        Err(self.err(m))
    }

    /// The next token with the line and column where it starts; at the end
    /// of the source, `Eof`.
    pub fn next_spanned(&mut self) -> (r: Result<Spanned, LexError>)
        requires
            old(self).wf(),
        ensures
            final(self).wf(),
            final(self).source() == old(self).source(),
            match r {
                Ok(t) => next_spec(old(self).source(), old(self).position()) == Ok::<
                    (SSpanned, int),
                    SError,
                >((t@, final(self).position())),
                Err(e) => next_spec(old(self).source(), old(self).position()) == Err::<
                    (SSpanned, int),
                    SError,
                >(e@),
            },
    {
        self.skip_whitespace();
        let line = self.line;
        let column = self.column;
        if self.pos >= self.chars.len() {
            return Ok(Spanned { token: Token::Eof, text: String::new(), line, column });
        }
        match self.next_token_inner() {
            Ok((token, text)) => Ok(Spanned { token, text, line, column }),
            Err(e) => Err(e),
        }
    }

    /// The tokens of a whole source, comments left out, ending with `Eof`.
    pub fn tokenize_spanned(source: &str) -> (r: Result<Vec<Spanned>, LexError>)
        requires
            source@.len() < usize::MAX,
        ensures
            match r {
                Ok(ts) => karu_lex_spec(source@) == Ok::<Seq<SSpanned>, SError>(spanned_view(ts@))
                    && spanned_wf(spanned_view(ts@)),
                Err(e) => karu_lex_spec(source@) == Err::<Seq<SSpanned>, SError>(e@),
            },
    {
        let mut lexer = Lexer::new(source);
        let ghost cs = source@;
        let mut tokens: Vec<Spanned> = Vec::new();
        assert(spanned_view(tokens@) =~= Seq::<SSpanned>::empty());
        loop
            invariant_except_break
                lexer.wf(),
                lexer.chars@ == cs,
                cs == source@,
                karu_lex_spec(cs) == lex_from(cs, lexer.pos as int, spanned_view(tokens@)),
                forall|j: int| 0 <= j < tokens.len() ==> #[trigger] tokens@[j].token != Token::Eof,
            invariant
                forall|j: int| 0 <= j < tokens.len() ==> #[trigger] tokens@[j].token != Token::Comment,
            ensures
                karu_lex_spec(cs) == Ok::<Seq<SSpanned>, SError>(spanned_view(tokens@)),
                tokens.len() >= 1,
                tokens@.last().token == Token::Eof,
                forall|j: int| 0 <= j < tokens.len() - 1 ==> #[trigger] tokens@[j].token != Token::Eof,
            decreases cs.len() - lexer.pos,
        {
            let ghost p0 = lexer.pos as int;
            proof {
                lemma_next_end(cs, p0);
            }
            let t = lexer.next_spanned();
            match t {
                Ok(t) => {
                    let is_eof = t.token == Token::Eof;
                    let is_comment = t.token == Token::Comment;
                    if !is_comment {
                        let ghost before = tokens@;
                        tokens.push(t);
                        assert(spanned_view(tokens@) =~= spanned_view(before).push(tokens@.last()@));
                    }
                    if is_eof {
                        break;
                    }
                },
                Err(e) => {
                    return Err(e);
                },
            }
        }
        proof {
            let ts = spanned_view(tokens@);
            assert forall|j: int| 0 <= j < ts.len() - 1 implies #[trigger] ts[j].token
                != Token::Eof by {
                assert(ts[j] == tokens@[j]@);
            }
            assert forall|j: int| 0 <= j < ts.len() implies #[trigger] ts[j].token
                != Token::Comment by {
                assert(ts[j] == tokens@[j]@);
            }
        }
        Ok(tokens)
    }

    /// The tokens of a whole source, comments left out, ending with `Eof`:
    /// each kind with its text (the name of an identifier, the contents of a
    /// string, the text of a number; empty for the others).
    pub fn tokenize(source: &str) -> (r: Result<Vec<(Token, String)>, LexError>)
        requires
            source@.len() < usize::MAX,
        ensures
            match r {
                Ok(ts) => karu_lex_spec(source@) matches Ok(sp) && ts@.map_values(
                    |t: (Token, String)| (t.0, t.1@),
                ) == sp.map_values(|t: SSpanned| (t.token, t.text)),
                Err(e) => karu_lex_spec(source@) == Err::<Seq<SSpanned>, SError>(e@),
            },
    {
        let spanned = match Lexer::tokenize_spanned(source) {
            Ok(s) => s,
            Err(e) => {
                return Err(e);
            },
        };
        let mut out: Vec<(Token, String)> = Vec::new();
        let mut i: usize = 0;
        while i < spanned.len()
            invariant
                i <= spanned.len(),
                out@.map_values(|t: (Token, String)| (t.0, t.1@)) == spanned_view(spanned@).take(
                    i as int,
                ).map_values(|t: SSpanned| (t.token, t.text)),
            decreases spanned.len() - i,
        {
            let ghost before = out@;
            out.push((spanned[i].token, spanned[i].text.clone()));
            assert(spanned_view(spanned@).take(i + 1) == spanned_view(spanned@).take(i as int).push(
                spanned@[i as int]@,
            ));
            assert(out@.map_values(|t: (Token, String)| (t.0, t.1@)) =~= before.map_values(
                |t: (Token, String)| (t.0, t.1@),
            ).push((spanned@[i as int].token, spanned@[i as int].text@)));
            assert(out@.map_values(|t: (Token, String)| (t.0, t.1@)) =~= spanned_view(spanned@).take(
                i + 1,
            ).map_values(|t: SSpanned| (t.token, t.text)));
            i += 1;
        }
        assert(spanned_view(spanned@).take(i as int) =~= spanned_view(spanned@));
        Ok(out)
    }
}

/// The end of the digits of `s` from `k`.
fn digit_run_of(s: &Vec<char>, k: usize) -> (r: usize)
    requires
        k <= s.len(),
    ensures
        r == digit_run(s@, k as int),
        k <= r <= s.len(),
{
    let mut i = k;
    while i < s.len() && is_digit(s[i])
        invariant
            k <= i <= s.len(),
            digit_run(s@, k as int) == digit_run(s@, i as int),
        decreases s.len() - i,
    {
        i += 1;
    }
    i
}

/// Whether the characters `s` form a number that `f64` parsing accepts.
fn valid_number_chars(s: &Vec<char>) -> (r: bool)
    ensures
        r == valid_number(s@),
{
    let n = s.len();
    let a = digit_run_of(s, 0);
    let b = if a < n && s[a] == '.' {
        digit_run_of(s, a + 1)
    } else {
        a
    };
    if a == 0 {
        return false;
    }
    if b == n {
        return true;
    }
    if !(s[b] == 'e' || s[b] == 'E') {
        return false;
    }
    let c = if b + 1 < n && (s[b + 1] == '+' || s[b + 1] == '-') {
        b + 2
    } else {
        b + 1
    };
    let d = digit_run_of(s, c);
    d > c && d == n
}

/// The characters `cs[from..to]` without surrounding whitespace.
fn trimmed_string(cs: &Vec<char>, from: usize, to: usize) -> (s: String)
    requires
        from <= to <= cs.len(),
    ensures
        s@ == trim_end(trim_start(cs@.subrange(from as int, to as int))),
{
    let mut a = from;
    while a < to && is_whitespace(cs[a])
        invariant
            from <= a <= to <= cs.len(),
            trim_start(cs@.subrange(from as int, to as int)) == trim_start(
                cs@.subrange(a as int, to as int),
            ),
        decreases to - a,
    {
        assert(cs@.subrange(a as int, to as int).drop_first() =~= cs@.subrange(a + 1, to as int));
        a += 1;
    }
    assert(trim_start(cs@.subrange(a as int, to as int)) == cs@.subrange(a as int, to as int));
    let mut b = to;
    while b > a && is_whitespace(cs[b - 1])
        invariant
            from <= a <= b <= to <= cs.len(),
            trim_end(cs@.subrange(a as int, to as int)) == trim_end(cs@.subrange(a as int, b as int)),
        decreases b - a,
    {
        assert(cs@.subrange(a as int, b as int).drop_last() =~= cs@.subrange(a as int, b - 1));
        b -= 1;
    }
    string_of(cs, a, b)
}

/// The token of a character that is a token by itself.
fn single_token_of(c: char) -> (r: Option<Token>)
    ensures
        r == single_token(c),
{
    if c == '(' {
        Some(Token::LParen)
    } else if c == ')' {
        Some(Token::RParen)
    } else if c == '{' {
        Some(Token::LBrace)
    } else if c == '}' {
        Some(Token::RBrace)
    } else if c == '[' {
        Some(Token::LBracket)
    } else if c == ']' {
        Some(Token::RBracket)
    } else if c == ',' {
        Some(Token::Comma)
    } else if c == ':' {
        Some(Token::Colon)
    } else if c == ';' {
        Some(Token::Semi)
    } else if c == '.' {
        Some(Token::Dot)
    } else if c == '|' {
        Some(Token::Pipe)
    } else if c == '?' {
        Some(Token::Question)
    } else {
        None
    }
}

/// The token of a word: a keyword, or an identifier carrying its name.
fn word_token_of(w: String) -> (r: (Token, String))
    ensures
        (r.0, r.1@) == word_token(w@),
{
    let k = keyword_or_ident(w.as_str());
    if k == Token::Ident {
        (k, w)
    } else {
        (k, String::new())
    }
}

/// The kind of a word, by comparing it with each keyword.
fn keyword_or_ident(w: &str) -> (k: Token)
    ensures
        k == keyword(w@),
{
    if str_eq(w, "allow") {
        Token::Allow
    } else if str_eq(w, "deny") {
        Token::Deny
    } else if str_eq(w, "if") {
        Token::If
    } else if str_eq(w, "and") {
        Token::And
    } else if str_eq(w, "or") {
        Token::Or
    } else if str_eq(w, "not") {
        Token::Not
    } else if str_eq(w, "in") {
        Token::In
    } else if str_eq(w, "forall") {
        Token::Forall
    } else if str_eq(w, "exists") {
        Token::Exists
    } else if str_eq(w, "has") {
        Token::Has
    } else if str_eq(w, "like") {
        Token::Like
    } else if str_eq(w, "use") {
        Token::Use
    } else if str_eq(w, "schema") {
        Token::Schema
    } else if str_eq(w, "mod") {
        Token::Mod
    } else if str_eq(w, "actor") {
        Token::Actor
    } else if str_eq(w, "resource") {
        Token::Resource
    } else if str_eq(w, "action") {
        Token::Action
    } else if str_eq(w, "assert") {
        Token::Assert
    } else if str_eq(w, "abstract") {
        Token::Abstract
    } else if str_eq(w, "import") {
        Token::Import
    } else if str_eq(w, "on") {
        Token::On
    } else if str_eq(w, "test") {
        Token::Test
    } else if str_eq(w, "expect") {
        Token::Expect
    } else if str_eq(w, "is") {
        Token::Is
    } else if str_eq(w, "true") {
        Token::True
    } else if str_eq(w, "false") {
        Token::False
    } else if str_eq(w, "null") {
        Token::Null
    } else {
        Token::Ident
    }
}

} // verus!
