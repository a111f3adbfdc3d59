//! What parsing a Karu token stream yields: one spec function per grammar
//! rule, each giving the rule's result and the index of the next token, or the
//! first error with the token where it was found.
//!
//! A number token is read through a table that gives, for the text of each
//! number, the index it selects in a path, the JSON value it stands for in a
//! pattern and in a test entity, and how it is printed.
use vstd::prelude::*;
use crate::karu_lexer::{SSpanned, Token};
use crate::ast::{EffectAst, OpAst, SPattern, SExprAst, SRule, SExpected, STestEntity, STest, SProgram};
use crate::schema::{EntityKind, SType, SField, SEntity, SAppliesTo, SAction, SAbstract, SModule, SAssert};
use crate::json::JsonV;
use crate::path::SegV;
use crate::cedar_syntax::join;
use crate::text::decimal;

verus! {

/// How the text of a number reads.
pub struct SReading {
    pub index: nat,
    pub pattern: JsonV,
    pub value: JsonV,
    pub display: Seq<char>,
}

/// What the parser reads: the tokens and the table of number readings.
pub struct PIn {
    pub ts: Seq<SSpanned>,
    pub nums: Seq<(Seq<char>, SReading)>,
}

/// The content of a parse error; `token` is the token where it was found
/// (none for an error of the lexer).
pub struct SParseError {
    pub message: Seq<char>,
    pub line: nat,
    pub column: nat,
    pub token: Option<(Token, Seq<char>)>,
}

/// The declarations read so far by the program loop.
pub struct SItems {
    pub modules: Seq<SModule>,
    pub assertions: Seq<SAssert>,
    pub rules: Seq<SRule>,
    pub tests: Seq<STest>,
}

// ----------------------------------------------------------------------------
// Tokens
// ----------------------------------------------------------------------------

/// How many tokens are left from `pos` on: the measure every rule decreases.
pub open spec fn rem(c: PIn, pos: int) -> nat {
    if 0 <= pos <= c.ts.len() {
        (c.ts.len() - pos) as nat
    } else {
        0
    }
}

pub open spec fn tk(c: PIn, pos: int) -> Token {
    c.ts[pos].token
}

pub open spec fn tx(c: PIn, pos: int) -> Seq<char> {
    c.ts[pos].text
}

/// The junk error of a guard that never fails on real input.
pub open spec fn junk() -> SParseError {
    SParseError { message: Seq::empty(), line: 0, column: 0, token: None }
}

/// An error reported at the token at `pos`.
pub open spec fn perr(c: PIn, pos: int, message: Seq<char>) -> SParseError {
    SParseError {
        message,
        line: c.ts[pos].line,
        column: c.ts[pos].column,
        token: Some((c.ts[pos].token, c.ts[pos].text)),
    }
}

/// The reading of the number written `t`: the first entry of the table for it.
pub open spec fn reading(nums: Seq<(Seq<char>, SReading)>, t: Seq<char>) -> Option<SReading>
    decreases nums.len(),
{
    if nums.len() == 0 {
        None
    } else if nums[0].0 == t {
        Some(nums[0].1)
    } else {
        reading(nums.drop_first(), t)
    }
}

/// Every number token has a reading.
pub open spec fn readings_cover(c: PIn) -> bool {
    forall|i: int|
        0 <= i < c.ts.len() && #[trigger] c.ts[i].token == Token::Number ==> reading(
            c.nums,
            c.ts[i].text,
        ) is Some
}

/// How a token without text is printed.
pub open spec fn token_word(t: Token) -> Seq<char> {
    match t {
        Token::Allow => "allow"@,
        Token::Deny => "deny"@,
        Token::If => "if"@,
        Token::And => "and"@,
        Token::Or => "or"@,
        Token::Not => "not"@,
        Token::In => "in"@,
        Token::Forall => "forall"@,
        Token::Exists => "exists"@,
        Token::Has => "has"@,
        Token::Like => "like"@,
        Token::Use => "use"@,
        Token::Schema => "schema"@,
        Token::Mod => "mod"@,
        Token::Actor => "actor"@,
        Token::Resource => "resource"@,
        Token::Action => "action"@,
        Token::Assert => "assert"@,
        Token::Abstract => "abstract"@,
        Token::Import => "import"@,
        Token::On => "on"@,
        Token::Test => "test"@,
        Token::Expect => "expect"@,
        Token::Is => "is"@,
        Token::True => "true"@,
        Token::False => "false"@,
        Token::Null => "null"@,
        Token::Eq => "=="@,
        Token::Ne => "!="@,
        Token::Lt => "<"@,
        Token::Gt => ">"@,
        Token::Le => "<="@,
        Token::Ge => ">="@,
        Token::Dot => "."@,
        Token::Comma => ","@,
        Token::Colon => ":"@,
        Token::Semi => ";"@,
        Token::Pipe => "|"@,
        Token::Question => "?"@,
        Token::LParen => "("@,
        Token::RParen => ")"@,
        Token::LBrace => "{"@,
        Token::RBrace => "}"@,
        Token::LBracket => "["@,
        Token::RBracket => "]"@,
        Token::Underscore => "_"@,
        Token::Eof => "EOF"@,
        _ => ""@,
    }
}

/// How the token at `pos` is printed in an error message.
pub open spec fn show(c: PIn, pos: int) -> Seq<char> {
    let t = c.ts[pos];
    match t.token {
        Token::Ident => t.text,
        Token::Str => "\""@ + t.text + "\""@,
        Token::Number => match reading(c.nums, t.text) {
            Some(r) => r.display,
            None => Seq::empty(),
        },
        Token::Comment => "// "@ + t.text,
        _ => token_word(t.token),
    }
}

pub open spec fn expect_tok(c: PIn, pos: int, t: Token) -> Result<int, SParseError> {
    if tk(c, pos) == t {
        Ok(pos + 1)
    } else {
        Err(perr(c, pos, "Expected "@ + token_word(t) + ", found "@ + show(c, pos)))
    }
}

/// The name a token stands for where an identifier is expected: an
/// identifier, or one of the words `actor`, `resource`, `action`, `schema`.
pub open spec fn as_ident(c: PIn, pos: int) -> Option<Seq<char>> {
    match tk(c, pos) {
        Token::Ident => Some(tx(c, pos)),
        Token::Actor => Some("actor"@),
        Token::Resource => Some("resource"@),
        Token::Action => Some("action"@),
        Token::Schema => Some("schema"@),
        _ => None,
    }
}

pub open spec fn expect_ident(c: PIn, pos: int) -> Result<(Seq<char>, int), SParseError> {
    match as_ident(c, pos) {
        Some(n) => Ok((n, pos + 1)),
        None => Err(perr(c, pos, "Expected identifier, found "@ + show(c, pos))),
    }
}

pub open spec fn expect_ident_or_string(c: PIn, pos: int) -> Result<(Seq<char>, int), SParseError> {
    match as_ident(c, pos) {
        Some(n) => Ok((n, pos + 1)),
        None => if tk(c, pos) == Token::Str {
            Ok((tx(c, pos), pos + 1))
        } else {
            Err(perr(c, pos, "Expected identifier or string, found "@ + show(c, pos)))
        },
    }
}

/// `pos + 1` past an optional token `t`.
pub open spec fn skip_opt(c: PIn, pos: int, t: Token) -> int {
    if tk(c, pos) == t {
        pos + 1
    } else {
        pos
    }
}

// ----------------------------------------------------------------------------
// Schema
// ----------------------------------------------------------------------------

/// `name ?? Type`.
pub open spec fn field_def(c: PIn, pos: int) -> Result<(SField, int), SParseError>
    decreases rem(c, pos), 5nat,
{
    if !(0 <= pos < c.ts.len()) {
        Err(junk())
    } else {
        match expect_ident(c, pos) {
            Err(e) => Err(e),
            Ok((name, p1)) => {
                let optional = p1 < c.ts.len() && tk(c, p1) == Token::Question;
                let p2 = if optional {
                    p1 + 1
                } else {
                    p1
                };
                match type_ref(c, p2) {
                    Err(e) => Err(e),
                    Ok((ty, p3)) => Ok((SField { name, ty, optional }, p3)),
                }
            },
        }
    }
}

/// Field definitions up to a `}` (not consumed), each optionally followed by a comma.
pub open spec fn field_list(c: PIn, pos: int, acc: Seq<SField>) -> Result<
    (Seq<SField>, int),
    SParseError,
>
    decreases rem(c, pos), 7nat,
{
    if !(0 <= pos < c.ts.len()) {
        Err(junk())
    } else if tk(c, pos) == Token::RBrace {
        Ok((acc, pos))
    } else {
        match field_def(c, pos) {
            Err(e) => Err(e),
            Ok((f, p1)) => if pos < p1 < c.ts.len() {
                field_list(c, skip_opt(c, p1, Token::Comma), acc.push(f))
            } else {
                Err(junk())
            },
        }
    }
}

/// A type: `{ fields }`, `null`, `Name`, `Set<T>`, optionally a union `A | B | null`.
pub open spec fn type_ref(c: PIn, pos: int) -> Result<(SType, int), SParseError>
    decreases rem(c, pos), 6nat,
{
    if !(0 <= pos < c.ts.len()) {
        Err(junk())
    } else {
        let base: Result<(SType, int), SParseError> = if tk(c, pos) == Token::LBrace {
            match field_list(c, pos + 1, Seq::empty()) {
                Err(e) => Err(e),
                Ok((fs, p1)) => match expect_tok(c, p1, Token::RBrace) {
                    Err(e) => Err(e),
                    Ok(p2) => Ok((SType::Record(fs), p2)),
                },
            }
        } else if tk(c, pos) == Token::Null || tk(c, pos) == Token::Ident {
            let name = if tk(c, pos) == Token::Null {
                "null"@
            } else {
                tx(c, pos)
            };
            if name == "Set"@ && tk(c, pos + 1) == Token::Lt {
                match type_ref(c, pos + 2) {
                    Err(e) => Err(e),
                    Ok((inner, p1)) => match expect_tok(c, p1, Token::Gt) {
                        Err(e) => Err(e),
                        Ok(p2) => Ok((SType::SetOf(Box::new(inner)), p2)),
                    },
                }
            } else {
                Ok((SType::Named(name), pos + 1))
            }
        } else {
            Err(perr(c, pos, "Expected type name, found "@ + show(c, pos)))
        };
        match base {
            Err(e) => Err(e),
            Ok((b, p1)) => if !(pos < p1 < c.ts.len()) {
                Err(junk())
            } else if tk(c, p1) == Token::Pipe {
                union_rest(c, p1, seq![b])
            } else {
                Ok((b, p1))
            },
        }
    }
}

/// The `| Type` alternatives of a union from `pos` on, after `acc`.
pub open spec fn union_rest(c: PIn, pos: int, acc: Seq<SType>) -> Result<(SType, int), SParseError>
    decreases rem(c, pos), 4nat,
{
    if !(0 <= pos < c.ts.len()) {
        Err(junk())
    } else if tk(c, pos) != Token::Pipe {
        Ok((SType::Union(acc), pos))
    } else {
        let q = pos + 1;
        if tk(c, q) == Token::Null {
            union_rest(c, q + 1, acc.push(SType::Named("null"@)))
        } else if tk(c, q) == Token::Ident {
            union_rest(c, q + 1, acc.push(SType::Named(tx(c, q))))
        } else {
            Err(perr(c, q, "Expected type name after '|', found "@ + show(c, q)))
        }
    }
}

/// `{ fields }` after an entity or abstract name, when there is one, and an optional `;`.
pub open spec fn fields_block(c: PIn, pos: int) -> Result<(Seq<SField>, int), SParseError> {
    if !(0 <= pos < c.ts.len()) {
        Err(junk())
    } else if tk(c, pos) == Token::LBrace {
        match field_list(c, pos + 1, Seq::empty()) {
            Err(e) => Err(e),
            Ok((fs, p1)) => match expect_tok(c, p1, Token::RBrace) {
                Err(e) => Err(e),
                Ok(p2) => Ok((fs, skip_opt(c, p2, Token::Semi))),
            },
        }
    } else {
        Ok((Seq::empty(), skip_opt(c, pos, Token::Semi)))
    }
}

/// `actor Name in Parent is Trait { fields };`
pub open spec fn entity(c: PIn, pos: int) -> Result<(SEntity, int), SParseError> {
    if !(0 <= pos < c.ts.len()) {
        Err(junk())
    } else {
        let kind = if tk(c, pos) == Token::Actor {
            EntityKind::Actor
        } else {
            EntityKind::Resource
        };
        if tk(c, pos) != Token::Actor && tk(c, pos) != Token::Resource {
            Err(perr(c, pos, "Expected 'actor' or 'resource', found "@ + show(c, pos)))
        } else {
            match expect_ident(c, pos + 1) {
                Err(e) => Err(e),
                Ok((name, p1)) => {
                    let r1: Result<(Seq<Seq<char>>, int), SParseError> = if tk(c, p1) == Token::In {
                        match expect_ident(c, p1 + 1) {
                            Err(e) => Err(e),
                            Ok((par, p2)) => Ok((seq![par], p2)),
                        }
                    } else {
                        Ok((Seq::empty(), p1))
                    };
                    match r1 {
                        Err(e) => Err(e),
                        Ok((parents, p2)) => {
                            let r2: Result<(Seq<Seq<char>>, int), SParseError> = if tk(c, p2)
                                == Token::Is {
                                match expect_ident(c, p2 + 1) {
                                    Err(e) => Err(e),
                                    Ok((tr, p3)) => Ok((seq![tr], p3)),
                                }
                            } else {
                                Ok((Seq::empty(), p2))
                            };
                            match r2 {
                                Err(e) => Err(e),
                                Ok((traits, p3)) => match fields_block(c, p3) {
                                    Err(e) => Err(e),
                                    Ok((fields, p4)) => Ok(
                                        (SEntity { kind, name, parents, traits, fields }, p4),
                                    ),
                                },
                            }
                        },
                    }
                },
            }
        }
    }
}

/// `abstract Name { fields };`
pub open spec fn abstract_def(c: PIn, pos: int) -> Result<(SAbstract, int), SParseError> {
    if !(0 <= pos < c.ts.len()) {
        Err(junk())
    } else {
        match expect_tok(c, pos, Token::Abstract) {
            Err(e) => Err(e),
            Ok(p1) => match expect_ident(c, p1) {
                Err(e) => Err(e),
                Ok((name, p2)) => match fields_block(c, p2) {
                    Err(e) => Err(e),
                    Ok((fields, p3)) => Ok((SAbstract { name, fields }, p3)),
                },
            },
        }
    }
}

/// Type names separated by `|`, from `pos` on, after `acc`.
pub open spec fn pipe_names(c: PIn, pos: int, acc: Seq<Seq<char>>) -> Result<
    (Seq<Seq<char>>, int),
    SParseError,
>
    decreases rem(c, pos),
{
    if !(0 <= pos < c.ts.len()) {
        Err(junk())
    } else if tk(c, pos) != Token::Pipe {
        Ok((acc, pos))
    } else {
        match expect_ident(c, pos + 1) {
            Err(e) => Err(e),
            Ok((n, p1)) => pipe_names(c, p1, acc.push(n)),
        }
    }
}

/// The items of an `appliesTo` block up to its `}`, after `acc`.
pub open spec fn applies_items(c: PIn, pos: int, acc: SAppliesTo) -> Result<
    (SAppliesTo, int),
    SParseError,
>
    decreases rem(c, pos),
{
    if !(0 <= pos < c.ts.len()) {
        Err(junk())
    } else if tk(c, pos) == Token::RBrace {
        Ok((acc, pos))
    } else {
        let item: Result<(SAppliesTo, int), SParseError> = if tk(c, pos) == Token::Actor {
            match expect_ident(c, pos + 1) {
                Err(e) => Err(e),
                Ok((n, p1)) => match pipe_names(c, p1, acc.actors.push(n)) {
                    Err(e) => Err(e),
                    Ok((actors, p2)) => Ok((SAppliesTo { actors, ..acc }, p2)),
                },
            }
        } else if tk(c, pos) == Token::Resource {
            match expect_ident(c, pos + 1) {
                Err(e) => Err(e),
                Ok((n, p1)) => match pipe_names(c, p1, acc.resources.push(n)) {
                    Err(e) => Err(e),
                    Ok((resources, p2)) => Ok((SAppliesTo { resources, ..acc }, p2)),
                },
            }
        } else if tk(c, pos) == Token::Ident && tx(c, pos) == "context"@ {
            match expect_tok(c, pos + 1, Token::LBrace) {
                Err(e) => Err(e),
                Ok(p1) => match field_list(c, p1, Seq::empty()) {
                    Err(e) => Err(e),
                    Ok((fs, p2)) => match expect_tok(c, p2, Token::RBrace) {
                        Err(e) => Err(e),
                        Ok(p3) => Ok((SAppliesTo { context: Some(fs), ..acc }, p3)),
                    },
                },
            }
        } else {
            Err(
                perr(
                    c,
                    pos,
                    "Expected 'actor', 'resource', or 'context' in appliesTo block, found "@ + show(
                        c,
                        pos,
                    ),
                ),
            )
        };
        match item {
            Err(e) => Err(e),
            Ok((a, p1)) => if pos < p1 < c.ts.len() {
                applies_items(c, skip_opt(c, p1, Token::Comma), a)
            } else {
                Err(junk())
            },
        }
    }
}

/// `action "Name" appliesTo { ... };`
pub open spec fn action_def(c: PIn, pos: int) -> Result<(SAction, int), SParseError> {
    if !(0 <= pos < c.ts.len()) {
        Err(junk())
    } else {
        match expect_tok(c, pos, Token::Action) {
            Err(e) => Err(e),
            Ok(p1) => match expect_ident_or_string(c, p1) {
                Err(e) => Err(e),
                Ok((name, p2)) => if name.len() == 0 {
                    Err(perr(c, p2, "Action name must not be empty"@))
                } else if tk(c, p2) == Token::Ident && tx(c, p2) == "appliesTo"@ {
                    match expect_tok(c, p2 + 1, Token::LBrace) {
                        Err(e) => Err(e),
                        Ok(p3) => match applies_items(
                            c,
                            p3,
                            SAppliesTo { actors: Seq::empty(), resources: Seq::empty(), context: None },
                        ) {
                            Err(e) => Err(e),
                            Ok((a, p4)) => match expect_tok(c, p4, Token::RBrace) {
                                Err(e) => Err(e),
                                Ok(p5) => Ok(
                                    (
                                        SAction { name, applies_to: Some(a) },
                                        skip_opt(c, p5, Token::Semi),
                                    ),
                                ),
                            },
                        },
                    }
                } else {
                    Ok((SAction { name, applies_to: None }, skip_opt(c, p2, Token::Semi)))
                },
            },
        }
    }
}

/// The declarations of a `mod` block up to its `}`, after `acc`.
pub open spec fn mod_items(c: PIn, pos: int, acc: SModule) -> Result<(SModule, int), SParseError>
    decreases rem(c, pos),
{
    if !(0 <= pos < c.ts.len()) {
        Err(junk())
    } else if tk(c, pos) == Token::RBrace {
        Ok((acc, pos))
    } else if tk(c, pos) == Token::Actor || tk(c, pos) == Token::Resource {
        match entity(c, pos) {
            Err(e) => Err(e),
            Ok((en, p1)) => if pos < p1 {
                mod_items(c, p1, SModule { entities: acc.entities.push(en), ..acc })
            } else {
                Err(junk())
            },
        }
    } else if tk(c, pos) == Token::Action {
        match action_def(c, pos) {
            Err(e) => Err(e),
            Ok((a, p1)) => if pos < p1 {
                mod_items(c, p1, SModule { actions: acc.actions.push(a), ..acc })
            } else {
                Err(junk())
            },
        }
    } else if tk(c, pos) == Token::Abstract {
        match abstract_def(c, pos) {
            Err(e) => Err(e),
            Ok((a, p1)) => if pos < p1 {
                mod_items(c, p1, SModule { abstracts: acc.abstracts.push(a), ..acc })
            } else {
                Err(junk())
            },
        }
    } else {
        Err(
            perr(
                c,
                pos,
                "Expected 'actor', 'resource', 'action', or 'abstract' in mod block, found "@
                    + show(c, pos),
            ),
        )
    }
}

/// `mod Name { ... };`
pub open spec fn module(c: PIn, pos: int) -> Result<(SModule, int), SParseError> {
    if !(0 <= pos < c.ts.len()) {
        Err(junk())
    } else {
        match expect_tok(c, pos, Token::Mod) {
            Err(e) => Err(e),
            Ok(p1) => {
                let r: Result<(Option<Seq<char>>, int), SParseError> = if tk(c, p1)
                    != Token::LBrace {
                    match expect_ident(c, p1) {
                        Err(e) => Err(e),
                        Ok((n, p2)) => Ok((Some(n), p2)),
                    }
                } else {
                    Ok((None, p1))
                };
                match r {
                    Err(e) => Err(e),
                    Ok((name, p2)) => match expect_tok(c, p2, Token::LBrace) {
                        Err(e) => Err(e),
                        Ok(p3) => match mod_items(
                            c,
                            p3,
                            SModule {
                                name,
                                entities: Seq::empty(),
                                actions: Seq::empty(),
                                abstracts: Seq::empty(),
                            },
                        ) {
                            Err(e) => Err(e),
                            Ok((m, p4)) => match expect_tok(c, p4, Token::RBrace) {
                                Err(e) => Err(e),
                                Ok(p5) => Ok((m, skip_opt(c, p5, Token::Semi))),
                            },
                        },
                    },
                }
            },
        }
    }
}

// ----------------------------------------------------------------------------
// Paths and patterns
// ----------------------------------------------------------------------------

/// A path: an identifier, then `.field`, `.0`, `[0]`, `[var]` or `[a.b]` segments.
pub open spec fn path(c: PIn, pos: int) -> Result<(Seq<SegV>, int), SParseError>
    decreases rem(c, pos), 10nat,
{
    if !(0 <= pos < c.ts.len()) {
        Err(junk())
    } else {
        match as_ident(c, pos) {
            None => Err(perr(c, pos, "Expected path identifier"@)),
            Some(n) => path_rest(c, pos + 1, seq![SegV::Field(n)]),
        }
    }
}

/// The segments of a path from `pos` on, after `segs`.
pub open spec fn path_rest(c: PIn, pos: int, segs: Seq<SegV>) -> Result<(Seq<SegV>, int), SParseError>
    decreases rem(c, pos), 9nat,
{
    if !(0 <= pos < c.ts.len()) {
        Err(junk())
    } else if tk(c, pos) == Token::Dot {
        let q = pos + 1;
        match as_ident(c, q) {
            Some(n) => path_rest(c, q + 1, segs.push(SegV::Field(n))),
            None => if tk(c, q) == Token::Number {
                match reading(c.nums, tx(c, q)) {
                    Some(r) => path_rest(c, q + 1, segs.push(SegV::Index(r.index))),
                    None => Err(junk()),
                }
            } else {
                Err(perr(c, q, "Expected field name after dot"@))
            },
        }
    } else if tk(c, pos) == Token::LBracket {
        let q = pos + 1;
        let seg: Result<(SegV, int), SParseError> = if tk(c, q) == Token::Number {
            match reading(c.nums, tx(c, q)) {
                Some(r) => Ok((SegV::Index(r.index), q + 1)),
                None => Err(junk()),
            }
        } else {
            match as_ident(c, q) {
                Some(first) => if tk(c, q + 1) == Token::Dot {
                    match bracket_path(c, q + 1, seq![first]) {
                        Err(e) => Err(e),
                        Ok((pieces, p)) => Ok(
                            (SegV::Variable("@path:"@ + join(pieces, "."@)), p),
                        ),
                    }
                } else {
                    Ok((SegV::Variable(first), q + 1))
                },
                None => Err(perr(c, q, "Expected number or path in bracket index"@)),
            }
        };
        match seg {
            Err(e) => Err(e),
            Ok((sg, p1)) => match expect_tok(c, p1, Token::RBracket) {
                Err(e) => Err(e),
                Ok(p2) => if pos < p2 {
                    path_rest(c, p2, segs.push(sg))
                } else {
                    Err(junk())
                },
            },
        }
    } else {
        Ok((segs, pos))
    }
}

/// The `.field` or `.0` pieces of a path inside brackets, as text, after `acc`.
pub open spec fn bracket_path(c: PIn, pos: int, acc: Seq<Seq<char>>) -> Result<
    (Seq<Seq<char>>, int),
    SParseError,
>
    decreases rem(c, pos), 8nat,
{
    if !(0 <= pos < c.ts.len()) {
        Err(junk())
    } else if tk(c, pos) != Token::Dot {
        Ok((acc, pos))
    } else {
        let q = pos + 1;
        match as_ident(c, q) {
            Some(n) => bracket_path(c, q + 1, acc.push(n)),
            None => if tk(c, q) == Token::Number {
                match reading(c.nums, tx(c, q)) {
                    Some(r) => bracket_path(c, q + 1, acc.push(decimal(r.index as int))),
                    None => Err(junk()),
                }
            } else {
                Err(perr(c, q, "Expected field name after dot in bracket path"@))
            },
        }
    }
}

/// The names a lone identifier pattern refers to the input by.
pub open spec fn is_root_name(n: Seq<char>) -> bool {
    n == "actor"@ || n == "resource"@ || n == "principal"@ || n == "action"@ || n == "context"@
}

/// A pattern: a literal, `_`, a variable, a path, an object or an array.
pub open spec fn pattern(c: PIn, pos: int) -> Result<(SPattern, int), SParseError>
    decreases rem(c, pos), 20nat,
{
    if !(0 <= pos < c.ts.len()) {
        Err(junk())
    } else {
        let t = tk(c, pos);
        if t == Token::Str {
            Ok((SPattern::Literal(JsonV::Str(tx(c, pos))), pos + 1))
        } else if t == Token::Number {
            match reading(c.nums, tx(c, pos)) {
                Some(r) => Ok((SPattern::Literal(r.pattern), pos + 1)),
                None => Err(junk()),
            }
        } else if t == Token::True {
            Ok((SPattern::Literal(JsonV::Bool(true)), pos + 1))
        } else if t == Token::False {
            Ok((SPattern::Literal(JsonV::Bool(false)), pos + 1))
        } else if t == Token::Null {
            Ok((SPattern::Literal(JsonV::Null), pos + 1))
        } else if t == Token::Underscore {
            Ok((SPattern::Wildcard, pos + 1))
        } else if as_ident(c, pos) is Some {
            match path(c, pos) {
                Err(e) => Err(e),
                Ok((segs, p1)) => if segs.len() == 1 {
                    match segs[0] {
                        SegV::Field(n) => if is_root_name(n) {
                            Ok((SPattern::PathRef(segs), p1))
                        } else {
                            Ok((SPattern::Variable(n), p1))
                        },
                        _ => Err(perr(c, p1, "Expected pattern"@)),
                    }
                } else {
                    Ok((SPattern::PathRef(segs), p1))
                },
            }
        } else if t == Token::LBrace {
            object_pattern(c, pos)
        } else if t == Token::LBracket {
            array_pattern(c, pos)
        } else {
            Err(perr(c, pos, "Expected pattern, found "@ + show(c, pos)))
        }
    }
}

/// `{ key: pattern, ... }`
pub open spec fn object_pattern(c: PIn, pos: int) -> Result<(SPattern, int), SParseError>
    decreases rem(c, pos), 19nat,
{
    if !(0 <= pos < c.ts.len()) {
        Err(junk())
    } else {
        match expect_tok(c, pos, Token::LBrace) {
            Err(e) => Err(e),
            Ok(p1) => {
                let r: Result<(Seq<(Seq<char>, SPattern)>, int), SParseError> = if tk(c, p1)
                    != Token::RBrace {
                    object_fields(c, p1, Seq::empty())
                } else {
                    Ok((Seq::empty(), p1))
                };
                match r {
                    Err(e) => Err(e),
                    Ok((fs, p2)) => match expect_tok(c, p2, Token::RBrace) {
                        Err(e) => Err(e),
                        Ok(p3) => Ok((SPattern::Object(fs), p3)),
                    },
                }
            },
        }
    }
}

/// `key: pattern` entries separated by commas, from `pos` on, after `acc`.
pub open spec fn object_fields(c: PIn, pos: int, acc: Seq<(Seq<char>, SPattern)>) -> Result<
    (Seq<(Seq<char>, SPattern)>, int),
    SParseError,
>
    decreases rem(c, pos), 21nat,
{
    if !(0 <= pos < c.ts.len()) {
        Err(junk())
    } else {
        let key: Result<Seq<char>, SParseError> = match as_ident(c, pos) {
            Some(k) => Ok(k),
            None => if tk(c, pos) == Token::Str {
                Ok(tx(c, pos))
            } else {
                Err(perr(c, pos, "Expected field name, found "@ + show(c, pos)))
            },
        };
        match key {
            Err(e) => Err(e),
            Ok(k) => match expect_tok(c, pos + 1, Token::Colon) {
                Err(e) => Err(e),
                Ok(p1) => match pattern(c, p1) {
                    Err(e) => Err(e),
                    Ok((v, p2)) => if !(pos < p2 < c.ts.len()) {
                        Err(junk())
                    } else if tk(c, p2) == Token::Comma {
                        object_fields(c, p2 + 1, acc.push((k, v)))
                    } else {
                        Ok((acc.push((k, v)), p2))
                    },
                },
            },
        }
    }
}

/// `[pattern, ...]`
pub open spec fn array_pattern(c: PIn, pos: int) -> Result<(SPattern, int), SParseError>
    decreases rem(c, pos), 17nat,
{
    if !(0 <= pos < c.ts.len()) {
        Err(junk())
    } else {
        match expect_tok(c, pos, Token::LBracket) {
            Err(e) => Err(e),
            Ok(p1) => {
                let r: Result<(Seq<SPattern>, int), SParseError> = if tk(c, p1)
                    != Token::RBracket {
                    array_items(c, p1, Seq::empty())
                } else {
                    Ok((Seq::empty(), p1))
                };
                match r {
                    Err(e) => Err(e),
                    Ok((ps, p2)) => match expect_tok(c, p2, Token::RBracket) {
                        Err(e) => Err(e),
                        Ok(p3) => Ok((SPattern::Array(ps), p3)),
                    },
                }
            },
        }
    }
}

/// Patterns separated by commas, from `pos` on, after `acc`.
pub open spec fn array_items(c: PIn, pos: int, acc: Seq<SPattern>) -> Result<
    (Seq<SPattern>, int),
    SParseError,
>
    decreases rem(c, pos), 21nat,
{
    if !(0 <= pos < c.ts.len()) {
        Err(junk())
    } else {
        match pattern(c, pos) {
            Err(e) => Err(e),
            Ok((v, p1)) => if !(pos < p1 < c.ts.len()) {
                Err(junk())
            } else if tk(c, p1) == Token::Comma {
                array_items(c, p1 + 1, acc.push(v))
            } else {
                Ok((acc.push(v), p1))
            },
        }
    }
}

// ----------------------------------------------------------------------------
// Expressions
// ----------------------------------------------------------------------------

pub open spec fn op_of(t: Token) -> Option<OpAst> {
    if t == Token::Eq {
        Some(OpAst::Eq)
    } else if t == Token::Ne {
        Some(OpAst::Ne)
    } else if t == Token::Lt {
        Some(OpAst::Lt)
    } else if t == Token::Gt {
        Some(OpAst::Gt)
    } else if t == Token::Le {
        Some(OpAst::Le)
    } else if t == Token::Ge {
        Some(OpAst::Ge)
    } else {
        None
    }
}

/// `l or r`, flattening a left `or`.
pub open spec fn or_of(l: SExprAst, r: SExprAst) -> SExprAst {
    match l {
        SExprAst::Or(es) => SExprAst::Or(es.push(r)),
        _ => SExprAst::Or(seq![l, r]),
    }
}

/// `l and r`, flattening a left `and`.
pub open spec fn and_of(l: SExprAst, r: SExprAst) -> SExprAst {
    match l {
        SExprAst::And(es) => SExprAst::And(es.push(r)),
        _ => SExprAst::And(seq![l, r]),
    }
}

pub open spec fn expr(c: PIn, pos: int) -> Result<(SExprAst, int), SParseError>
    decreases rem(c, pos), 30nat,
{
    if !(0 <= pos < c.ts.len()) {
        Err(junk())
    } else {
        or_expr(c, pos)
    }
}

pub open spec fn or_expr(c: PIn, pos: int) -> Result<(SExprAst, int), SParseError>
    decreases rem(c, pos), 29nat,
{
    if !(0 <= pos < c.ts.len()) {
        Err(junk())
    } else {
        match and_expr(c, pos) {
            Err(e) => Err(e),
            Ok((l, p1)) => if pos < p1 {
                or_rest(c, p1, l)
            } else {
                Err(junk())
            },
        }
    }
}

pub open spec fn or_rest(c: PIn, pos: int, l: SExprAst) -> Result<(SExprAst, int), SParseError>
    decreases rem(c, pos), 28nat,
{
    if !(0 <= pos < c.ts.len()) {
        Err(junk())
    } else if tk(c, pos) == Token::Or {
        match and_expr(c, pos + 1) {
            Err(e) => Err(e),
            Ok((r, p1)) => if pos < p1 {
                or_rest(c, p1, or_of(l, r))
            } else {
                Err(junk())
            },
        }
    } else {
        Ok((l, pos))
    }
}

pub open spec fn and_expr(c: PIn, pos: int) -> Result<(SExprAst, int), SParseError>
    decreases rem(c, pos), 27nat,
{
    if !(0 <= pos < c.ts.len()) {
        Err(junk())
    } else {
        match unary(c, pos) {
            Err(e) => Err(e),
            Ok((l, p1)) => if pos < p1 {
                and_rest(c, p1, l)
            } else {
                Err(junk())
            },
        }
    }
}

pub open spec fn and_rest(c: PIn, pos: int, l: SExprAst) -> Result<(SExprAst, int), SParseError>
    decreases rem(c, pos), 26nat,
{
    if !(0 <= pos < c.ts.len()) {
        Err(junk())
    } else if tk(c, pos) == Token::And {
        match unary(c, pos + 1) {
            Err(e) => Err(e),
            Ok((r, p1)) => if pos < p1 {
                and_rest(c, p1, and_of(l, r))
            } else {
                Err(junk())
            },
        }
    } else {
        Ok((l, pos))
    }
}

pub open spec fn unary(c: PIn, pos: int) -> Result<(SExprAst, int), SParseError>
    decreases rem(c, pos), 25nat,
{
    if !(0 <= pos < c.ts.len()) {
        Err(junk())
    } else if tk(c, pos) == Token::Not {
        match unary(c, pos + 1) {
            Err(e) => Err(e),
            Ok((e, p1)) => Ok((SExprAst::Not(Box::new(e)), p1)),
        }
    } else {
        primary(c, pos)
    }
}

/// Whether a token can only start a pattern.
pub open spec fn starts_pattern(t: Token) -> bool {
    t == Token::LBrace || t == Token::LBracket || t == Token::Str || t == Token::Number || t
        == Token::True || t == Token::False || t == Token::Null || t == Token::Underscore
}

/// `forall v in path: body` or `exists v in path: body`, from the variable on.
pub open spec fn quantified(c: PIn, pos: int, is_forall: bool) -> Result<
    (Seq<char>, Seq<SegV>, SExprAst, int),
    SParseError,
>
    decreases rem(c, pos), 23nat,
{
    if !(0 <= pos < c.ts.len()) {
        Err(junk())
    } else if tk(c, pos) != Token::Ident {
        Err(
            perr(
                c,
                pos,
                (if is_forall {
                    "Expected variable name in forall, found "@
                } else {
                    "Expected variable name in exists, found "@
                }) + show(c, pos),
            ),
        )
    } else {
        match expect_tok(c, pos + 1, Token::In) {
            Err(e) => Err(e),
            Ok(p1) => match path(c, p1) {
                Err(e) => Err(e),
                Ok((pa, p2)) => match expect_tok(c, p2, Token::Colon) {
                    Err(e) => Err(e),
                    Ok(p3) => if pos < p3 {
                        match expr(c, p3) {
                            Err(e) => Err(e),
                            Ok((body, p4)) => Ok((tx(c, pos), pa, body, p4)),
                        }
                    } else {
                        Err(junk())
                    },
                },
            },
        }
    }
}

pub open spec fn primary(c: PIn, pos: int) -> Result<(SExprAst, int), SParseError>
    decreases rem(c, pos), 24nat,
{
    if !(0 <= pos < c.ts.len()) {
        Err(junk())
    } else {
        let t = tk(c, pos);
        if t == Token::LParen {
            match expr(c, pos + 1) {
                Err(e) => Err(e),
                Ok((e, p1)) => match expect_tok(c, p1, Token::RParen) {
                    Err(er) => Err(er),
                    Ok(p2) => Ok((e, p2)),
                },
            }
        } else if t == Token::Has {
            match path(c, pos + 1) {
                Err(e) => Err(e),
                Ok((pa, p1)) => Ok((SExprAst::Has(pa), p1)),
            }
        } else if t == Token::Forall || t == Token::Exists {
            match quantified(c, pos + 1, t == Token::Forall) {
                Err(e) => Err(e),
                Ok((v, pa, body, p1)) => Ok(
                    (
                        if t == Token::Forall {
                            SExprAst::Forall(v, pa, Box::new(body))
                        } else {
                            SExprAst::Exists(v, pa, Box::new(body))
                        },
                        p1,
                    ),
                ),
            }
        } else if starts_pattern(t) {
            match pattern(c, pos) {
                Err(e) => Err(e),
                Ok((pt, p1)) => match expect_tok(c, p1, Token::In) {
                    Err(e) => Err(e),
                    Ok(p2) => match path(c, p2) {
                        Err(e) => Err(e),
                        Ok((pa, p3)) => Ok((SExprAst::In(pt, pa), p3)),
                    },
                },
            }
        } else {
            match path(c, pos) {
                Err(e) => Err(e),
                Ok((pa, p1)) => if pos < p1 {
                    primary_tail(c, p1, pa)
                } else {
                    Err(junk())
                },
            }
        }
    }
}

/// What follows the path `pa` at the start of a condition.
pub open spec fn primary_tail(c: PIn, pos: int, pa: Seq<SegV>) -> Result<(SExprAst, int), SParseError>
    decreases rem(c, pos), 23nat,
{
    if !(0 <= pos < c.ts.len()) {
        Err(junk())
    } else {
        let t = tk(c, pos);
        if op_of(t) is Some {
            match pattern(c, pos + 1) {
                Err(e) => Err(e),
                Ok((pt, p1)) => Ok((SExprAst::Compare(pa, op_of(t)->0, pt), p1)),
            }
        } else if t == Token::Like {
            if tk(c, pos + 1) == Token::Str {
                Ok((SExprAst::Like(pa, tx(c, pos + 1)), pos + 2))
            } else {
                Err(perr(c, pos + 1, "Expected string pattern after 'like'"@))
            }
        } else if t == Token::In {
            let q = pos + 1;
            if tk(c, q) == Token::LBracket {
                match in_list(c, q + 1, Seq::empty()) {
                    Err(e) => Err(e),
                    Ok((vs, p1)) => match expect_tok(c, p1, Token::RBracket) {
                        Err(e) => Err(e),
                        Ok(p2) => Ok((SExprAst::InLiteral(pa, vs), p2)),
                    },
                }
            } else {
                match path(c, q) {
                    Err(e) => Err(e),
                    Ok((container, p1)) => Ok((SExprAst::In(SPattern::PathRef(pa), container), p1)),
                }
            }
        } else if t == Token::Has {
            match path(c, pos + 1) {
                Err(e) => Err(e),
                Ok((attr, p1)) => Ok((SExprAst::Has(pa + attr), p1)),
            }
        } else if t == Token::Colon && pa.len() == 1 && pa[0] is Field {
            match expect_ident(c, pos + 1) {
                Err(e) => Err(e),
                Ok((name, p1)) => Ok((SExprAst::TypeRef(Some(pa[0]->Field_0), name), p1)),
            }
        } else if t == Token::Is {
            match expect_ident(c, pos + 1) {
                Err(e) => Err(e),
                Ok((name, p1)) => Ok((SExprAst::IsType(pa, name), p1)),
            }
        } else {
            Ok((SExprAst::Compare(pa, OpAst::Eq, SPattern::Literal(JsonV::Bool(true))), pos))
        }
    }
}

/// The patterns of `path in [ ... ]` up to the `]`, each optionally followed by a comma.
pub open spec fn in_list(c: PIn, pos: int, acc: Seq<SPattern>) -> Result<
    (Seq<SPattern>, int),
    SParseError,
>
    decreases rem(c, pos), 22nat,
{
    if !(0 <= pos < c.ts.len()) {
        Err(junk())
    } else if tk(c, pos) == Token::RBracket {
        Ok((acc, pos))
    } else {
        match pattern(c, pos) {
            Err(e) => Err(e),
            Ok((v, p1)) => if pos < p1 < c.ts.len() {
                in_list(c, skip_opt(c, p1, Token::Comma), acc.push(v))
            } else {
                Err(junk())
            },
        }
    }
}

// ----------------------------------------------------------------------------
// Rules and assertions
// ----------------------------------------------------------------------------

/// The name a rule without one gets: its effect, in lower case.
pub open spec fn effect_name(e: EffectAst) -> Seq<char> {
    match e {
        EffectAst::Allow => "allow"@,
        EffectAst::Deny => "deny"@,
    }
}

/// Whether a token can be the name of a rule.
pub open spec fn names_rule(t: Token) -> bool {
    t == Token::Ident || t == Token::Str || t == Token::Actor || t == Token::Resource || t
        == Token::Action
}

/// `allow name if expr;` or `deny name;`; the name may be left out.
pub open spec fn rule(c: PIn, pos: int) -> Result<(SRule, int), SParseError> {
    if !(0 <= pos < c.ts.len()) {
        Err(junk())
    } else if tk(c, pos) != Token::Allow && tk(c, pos) != Token::Deny {
        Err(perr(c, pos, "Expected 'allow' or 'deny', found "@ + show(c, pos)))
    } else {
        let effect = if tk(c, pos) == Token::Allow {
            EffectAst::Allow
        } else {
            EffectAst::Deny
        };
        let p1 = pos + 1;
        let named: Result<(Seq<char>, int), SParseError> = if names_rule(tk(c, p1)) {
            match expect_ident_or_string(c, p1) {
                Err(e) => Err(e),
                Ok((n, p2)) => if n.len() == 0 {
                    Err(perr(c, p2, "Rule name must not be empty"@))
                } else {
                    Ok((n, p2))
                },
            }
        } else {
            Ok((effect_name(effect), p1))
        };
        match named {
            Err(e) => Err(e),
            Ok((name, p2)) => {
                let b: Result<(Option<SExprAst>, int), SParseError> = if tk(c, p2) == Token::If {
                    match expr(c, p2 + 1) {
                        Err(e) => Err(e),
                        Ok((e, p3)) => Ok((Some(e), p3)),
                    }
                } else {
                    Ok((None, p2))
                };
                match b {
                    Err(e) => Err(e),
                    Ok((body, p3)) => match expect_tok(c, p3, Token::Semi) {
                        Err(e) => Err(e),
                        Ok(p4) => Ok((SRule { name, effect, body }, p4)),
                    },
                }
            },
        }
    }
}

/// Type parameter names separated by commas, from `pos` on, after `acc`.
pub open spec fn type_params(c: PIn, pos: int, acc: Seq<Seq<char>>) -> Result<
    (Seq<Seq<char>>, int),
    SParseError,
>
    decreases rem(c, pos),
{
    if !(0 <= pos < c.ts.len()) {
        Err(junk())
    } else {
        match expect_ident(c, pos) {
            Err(e) => Err(e),
            Ok((n, p1)) => if tk(c, p1) == Token::Comma {
                type_params(c, p1 + 1, acc.push(n))
            } else {
                Ok((acc.push(n), p1))
            },
        }
    }
}

/// `assert name<Types> if expr;` or `assert name is expr;`
pub open spec fn assert_def(c: PIn, pos: int) -> Result<(SAssert, int), SParseError> {
    if !(0 <= pos < c.ts.len()) {
        Err(junk())
    } else {
        match expect_tok(c, pos, Token::Assert) {
            Err(e) => Err(e),
            Ok(p1) => match expect_ident(c, p1) {
                Err(e) => Err(e),
                Ok((name, p2)) => {
                    let tp: Result<(Seq<Seq<char>>, int), SParseError> = if tk(c, p2) == Token::Lt {
                        match type_params(c, p2 + 1, Seq::empty()) {
                            Err(e) => Err(e),
                            Ok((ps, p3)) => match expect_tok(c, p3, Token::Gt) {
                                Err(e) => Err(e),
                                Ok(p4) => Ok((ps, p4)),
                            },
                        }
                    } else {
                        Ok((Seq::empty(), p2))
                    };
                    match tp {
                        Err(e) => Err(e),
                        Ok((type_params, p4)) => if tk(c, p4) == Token::If || tk(c, p4)
                            == Token::Is {
                            match expr(c, p4 + 1) {
                                Err(e) => Err(e),
                                Ok((body, p5)) => match expect_tok(c, p5, Token::Semi) {
                                    Err(e) => Err(e),
                                    Ok(p6) => Ok((SAssert { name, type_params, body }, p6)),
                                },
                            }
                        } else {
                            Err(perr(c, p4, "Expected 'if' or 'is' after assert name"@))
                        },
                    }
                },
            },
        }
    }
}

// ----------------------------------------------------------------------------
// Test blocks
// ----------------------------------------------------------------------------

/// `test "name"`: the name, which must not be empty, and the index after it.
pub open spec fn test_name(c: PIn, pos: int) -> Result<(Seq<char>, int), SParseError> {
    match expect_tok(c, pos, Token::Test) {
        Err(e) => Err(e),
        Ok(p1) => if tk(c, p1) == Token::Str {
            if tx(c, p1).len() == 0 {
                Err(perr(c, p1, "Test name must not be empty"@))
            } else {
                Ok((tx(c, p1), p1 + 1))
            }
        } else {
            Err(perr(c, p1, "Expected test name string, found "@ + show(c, p1)))
        },
    }
}

/// Skips tokens until `depth` open braces are closed.
pub open spec fn skip_braces(c: PIn, pos: int, depth: nat) -> Result<int, SParseError>
    decreases rem(c, pos),
{
    if depth == 0 {
        Ok(pos)
    } else if !(0 <= pos < c.ts.len()) {
        Err(junk())
    } else if tk(c, pos) == Token::LBrace {
        skip_braces(c, pos + 1, depth + 1)
    } else if tk(c, pos) == Token::RBrace {
        skip_braces(c, pos + 1, (depth - 1) as nat)
    } else if tk(c, pos) == Token::Eof {
        Err(perr(c, pos, "Unexpected EOF inside test block"@))
    } else {
        skip_braces(c, pos + 1, depth)
    }
}

/// A test block skipped: its name and its balanced braces.
pub open spec fn skip_test(c: PIn, pos: int) -> Result<int, SParseError> {
    if !(0 <= pos < c.ts.len()) {
        Err(junk())
    } else {
        match test_name(c, pos) {
            Err(e) => Err(e),
            Ok((_, p1)) => match expect_tok(c, p1, Token::LBrace) {
                Err(e) => Err(e),
                Ok(p2) => skip_braces(c, p2, 1),
            },
        }
    }
}

/// Whether `a` comes before `b` in the order of strings.
pub open spec fn str_lt(a: Seq<char>, b: Seq<char>) -> bool
    decreases a.len(),
{
    if a.len() == 0 {
        b.len() > 0
    } else if b.len() == 0 {
        false
    } else if a[0] != b[0] {
        a[0] < b[0]
    } else {
        str_lt(a.drop_first(), b.drop_first())
    }
}

/// The entries of a map ordered by key after setting `k` to `v`: an entry
/// with the key is replaced, else the entry goes before the first larger key.
pub open spec fn map_insert(es: Seq<(Seq<char>, JsonV)>, k: Seq<char>, v: JsonV) -> Seq<
    (Seq<char>, JsonV),
>
    decreases es.len(),
{
    if es.len() == 0 {
        seq![(k, v)]
    } else if es[0].0 == k {
        es.update(0, (k, v))
    } else if str_lt(k, es[0].0) {
        seq![(k, v)] + es
    } else {
        seq![es[0]] + map_insert(es.drop_first(), k, v)
    }
}

/// A value in a test entity: a literal, `{ key: value, ... }` or `[value, ...]`.
pub open spec fn test_value(c: PIn, pos: int) -> Result<(JsonV, int), SParseError>
    decreases rem(c, pos), 3nat,
{
    if !(0 <= pos < c.ts.len()) {
        Err(junk())
    } else {
        let t = tk(c, pos);
        if t == Token::Str {
            Ok((JsonV::Str(tx(c, pos)), pos + 1))
        } else if t == Token::Number {
            match reading(c.nums, tx(c, pos)) {
                Some(r) => Ok((r.value, pos + 1)),
                None => Err(junk()),
            }
        } else if t == Token::True {
            Ok((JsonV::Bool(true), pos + 1))
        } else if t == Token::False {
            Ok((JsonV::Bool(false), pos + 1))
        } else if t == Token::Null {
            Ok((JsonV::Null, pos + 1))
        } else if t == Token::LBrace {
            match value_entries(c, pos + 1, Seq::empty()) {
                Err(e) => Err(e),
                Ok((es, p1)) => match expect_tok(c, p1, Token::RBrace) {
                    Err(e) => Err(e),
                    Ok(p2) => Ok((JsonV::Object(es), p2)),
                },
            }
        } else if t == Token::LBracket {
            match value_items(c, pos + 1, Seq::empty()) {
                Err(e) => Err(e),
                Ok((vs, p1)) => match expect_tok(c, p1, Token::RBracket) {
                    Err(e) => Err(e),
                    Ok(p2) => Ok((JsonV::Array(vs), p2)),
                },
            }
        } else {
            Err(perr(c, pos, "Expected value in test entity, found "@ + show(c, pos)))
        }
    }
}

/// `key: value` entries up to the `}`, into a map ordered by key.
pub open spec fn value_entries(c: PIn, pos: int, es: Seq<(Seq<char>, JsonV)>) -> Result<
    (Seq<(Seq<char>, JsonV)>, int),
    SParseError,
>
    decreases rem(c, pos), 2nat,
{
    if !(0 <= pos < c.ts.len()) {
        Err(junk())
    } else if tk(c, pos) == Token::RBrace {
        Ok((es, pos))
    } else {
        match expect_ident(c, pos) {
            Err(e) => Err(e),
            Ok((k, p1)) => match expect_tok(c, p1, Token::Colon) {
                Err(e) => Err(e),
                Ok(p2) => match test_value(c, p2) {
                    Err(e) => Err(e),
                    Ok((v, p3)) => if pos < p3 < c.ts.len() {
                        value_entries(c, skip_opt(c, p3, Token::Comma), map_insert(es, k, v))
                    } else {
                        Err(junk())
                    },
                },
            },
        }
    }
}

/// Values up to the `]`, each optionally followed by a comma.
pub open spec fn value_items(c: PIn, pos: int, vs: Seq<JsonV>) -> Result<
    (Seq<JsonV>, int),
    SParseError,
>
    decreases rem(c, pos), 4nat,
{
    if !(0 <= pos < c.ts.len()) {
        Err(junk())
    } else if tk(c, pos) == Token::RBracket {
        Ok((vs, pos))
    } else {
        match test_value(c, pos) {
            Err(e) => Err(e),
            Ok((v, p1)) => if pos < p1 < c.ts.len() {
                value_items(c, skip_opt(c, p1, Token::Comma), vs.push(v))
            } else {
                Err(junk())
            },
        }
    }
}

/// `key: value` fields of a test entity up to the `}`, in order.
pub open spec fn entity_fields(c: PIn, pos: int, fs: Seq<(Seq<char>, JsonV)>) -> Result<
    (Seq<(Seq<char>, JsonV)>, int),
    SParseError,
>
    decreases rem(c, pos),
{
    if !(0 <= pos < c.ts.len()) {
        Err(junk())
    } else if tk(c, pos) == Token::RBrace {
        Ok((fs, pos))
    } else {
        match expect_ident(c, pos) {
            Err(e) => Err(e),
            Ok((k, p1)) => match expect_tok(c, p1, Token::Colon) {
                Err(e) => Err(e),
                Ok(p2) => match test_value(c, p2) {
                    Err(e) => Err(e),
                    Ok((v, p3)) => if pos < p3 < c.ts.len() {
                        entity_fields(c, skip_opt(c, p3, Token::Comma), fs.push((k, v)))
                    } else {
                        Err(junk())
                    },
                },
            },
        }
    }
}

/// `allow name` or `deny name` entries of an expect block up to the `}`.
pub open spec fn expect_entries(c: PIn, pos: int, acc: Seq<(EffectAst, Seq<char>)>) -> Result<
    (Seq<(EffectAst, Seq<char>)>, int),
    SParseError,
>
    decreases rem(c, pos),
{
    if !(0 <= pos < c.ts.len()) {
        Err(junk())
    } else if tk(c, pos) == Token::RBrace {
        Ok((acc, pos))
    } else if tk(c, pos) != Token::Allow && tk(c, pos) != Token::Deny {
        Err(perr(c, pos, "Expected 'allow' or 'deny' in expect block, found "@ + show(c, pos)))
    } else {
        let eff = if tk(c, pos) == Token::Allow {
            EffectAst::Allow
        } else {
            EffectAst::Deny
        };
        match expect_ident(c, pos + 1) {
            Err(e) => Err(e),
            Ok((n, p1)) => expect_entries(c, skip_opt(c, p1, Token::Comma), acc.push((eff, n))),
        }
    }
}

/// The items of a test block up to its `}`: entities, in order, and the
/// last expect clause.
pub open spec fn test_items(
    c: PIn,
    pos: int,
    ents: Seq<STestEntity>,
    exp: Option<SExpected>,
) -> Result<(Seq<STestEntity>, Option<SExpected>, int), SParseError>
    decreases rem(c, pos),
{
    if !(0 <= pos < c.ts.len()) {
        Err(junk())
    } else if tk(c, pos) == Token::RBrace {
        Ok((ents, exp, pos))
    } else if tk(c, pos) == Token::Expect {
        let q = pos + 1;
        if tk(c, q) == Token::LBrace {
            match expect_entries(c, q + 1, Seq::empty()) {
                Err(e) => Err(e),
                Ok((es, p1)) => match expect_tok(c, p1, Token::RBrace) {
                    Err(e) => Err(e),
                    Ok(p2) => if pos < p2 {
                        test_items(c, p2, ents, Some(SExpected::PerRule(es)))
                    } else {
                        Err(junk())
                    },
                },
            }
        } else if tk(c, q) == Token::Allow {
            test_items(c, q + 1, ents, Some(SExpected::Simple(EffectAst::Allow)))
        } else if tk(c, q) == Token::Deny {
            test_items(c, q + 1, ents, Some(SExpected::Simple(EffectAst::Deny)))
        } else {
            Err(perr(c, q, "Expected 'allow', 'deny', or '{' after 'expect', found "@ + show(c, q)))
        }
    } else {
        match expect_ident(c, pos) {
            Err(e) => Err(e),
            Ok((kind, p1)) => if tk(c, p1) == Token::LBrace {
                match entity_fields(c, p1 + 1, Seq::empty()) {
                    Err(e) => Err(e),
                    Ok((fs, p2)) => match expect_tok(c, p2, Token::RBrace) {
                        Err(e) => Err(e),
                        Ok(p3) => if pos < p3 {
                            test_items(
                                c,
                                p3,
                                ents.push(STestEntity { kind, fields: fs, shorthand: false }),
                                exp,
                            )
                        } else {
                            Err(junk())
                        },
                    },
                }
            } else {
                match test_value(c, p1) {
                    Err(e) => Err(e),
                    Ok((v, p2)) => if pos < p2 {
                        test_items(
                            c,
                            p2,
                            ents.push(
                                STestEntity { kind, fields: seq![("id"@, v)], shorthand: true },
                            ),
                            exp,
                        )
                    } else {
                        Err(junk())
                    },
                }
            },
        }
    }
}

/// `test "name" { entities expect ... }`
pub open spec fn test_block(c: PIn, pos: int) -> Result<(STest, int), SParseError> {
    if !(0 <= pos < c.ts.len()) {
        Err(junk())
    } else {
        match test_name(c, pos) {
            Err(e) => Err(e),
            Ok((name, p1)) => match expect_tok(c, p1, Token::LBrace) {
                Err(e) => Err(e),
                Ok(p2) => test_rest(c, name, p2),
            },
        }
    }
}

/// A test block named `name` from its items at `p2` on.
pub open spec fn test_rest(c: PIn, name: Seq<char>, p2: int) -> Result<(STest, int), SParseError> {
    match test_items(c, p2, Seq::empty(), None) {
        Err(e) => Err(e),
        Ok((entities, exp, p3)) => match expect_tok(c, p3, Token::RBrace) {
            Err(e) => Err(e),
            Ok(p4) => match exp {
                None => Err(perr(c, p4, "Test block missing 'expect allow' or 'expect deny'"@)),
                Some(expected) => Ok((STest { name, entities, expected }, p4)),
            },
        },
    }
}

// ----------------------------------------------------------------------------
// Programs
// ----------------------------------------------------------------------------

/// `import "path";` lines from `pos` on, after `acc`.
pub open spec fn imports(c: PIn, pos: int, acc: Seq<Seq<char>>) -> Result<
    (Seq<Seq<char>>, int),
    SParseError,
>
    decreases rem(c, pos),
{
    if !(0 <= pos < c.ts.len()) {
        Err(junk())
    } else if tk(c, pos) != Token::Import {
        Ok((acc, pos))
    } else {
        let q = pos + 1;
        if tk(c, q) == Token::Str {
            if tx(c, q).len() == 0 {
                Err(perr(c, q + 1, "Import path must not be empty"@))
            } else {
                match expect_tok(c, q + 1, Token::Semi) {
                    Err(e) => Err(e),
                    Ok(p1) => imports(c, p1, acc.push(tx(c, q))),
                }
            }
        } else {
            Err(perr(c, q, "Expected string path after 'import', found "@ + show(c, q)))
        }
    }
}

/// The declarations of a program from `pos` to the end, after `acc`; test
/// blocks are read when `with_tests`, else skipped.
pub open spec fn items(c: PIn, with_tests: bool, pos: int, acc: SItems) -> Result<
    SItems,
    SParseError,
>
    decreases rem(c, pos),
{
    if !(0 <= pos < c.ts.len()) {
        Err(junk())
    } else {
        let t = tk(c, pos);
        if t == Token::Eof {
            Ok(acc)
        } else if t == Token::Import {
            Err(
                perr(
                    c,
                    pos,
                    "import statements must appear at the top of the file, before rules and other declarations"@,
                ),
            )
        } else if t == Token::Mod {
            match module(c, pos) {
                Err(e) => Err(e),
                Ok((m, p1)) => if pos < p1 {
                    items(c, with_tests, p1, SItems { modules: acc.modules.push(m), ..acc })
                } else {
                    Err(junk())
                },
            }
        } else if t == Token::Assert {
            match assert_def(c, pos) {
                Err(e) => Err(e),
                Ok((a, p1)) => if pos < p1 {
                    items(c, with_tests, p1, SItems { assertions: acc.assertions.push(a), ..acc })
                } else {
                    Err(junk())
                },
            }
        } else if t == Token::Allow || t == Token::Deny {
            match rule(c, pos) {
                Err(e) => Err(e),
                Ok((r, p1)) => if pos < p1 {
                    items(c, with_tests, p1, SItems { rules: acc.rules.push(r), ..acc })
                } else {
                    Err(junk())
                },
            }
        } else if t == Token::Test {
            if with_tests {
                match test_block(c, pos) {
                    Err(e) => Err(e),
                    Ok((tb, p1)) => if pos < p1 {
                        items(c, with_tests, p1, SItems { tests: acc.tests.push(tb), ..acc })
                    } else {
                        Err(junk())
                    },
                }
            } else {
                match skip_test(c, pos) {
                    Err(e) => Err(e),
                    Ok(p1) => if pos < p1 {
                        items(c, with_tests, p1, acc)
                    } else {
                        Err(junk())
                    },
                }
            }
        } else {
            Err(
                perr(
                    c,
                    pos,
                    "Expected 'allow', 'deny', 'mod', 'assert', or 'test', found "@ + show(c, pos),
                ),
            )
        }
    }
}

/// A whole program: `use schema;`, imports, then declarations to the end.
pub open spec fn program(c: PIn, with_tests: bool) -> Result<SProgram, SParseError> {
    if c.ts.len() == 0 {
        Err(junk())
    } else {
        let u: Result<(bool, int), SParseError> = if tk(c, 0) == Token::Use {
            match expect_tok(c, 1, Token::Schema) {
                Err(e) => Err(e),
                Ok(p1) => match expect_tok(c, p1, Token::Semi) {
                    Err(e) => Err(e),
                    Ok(p2) => Ok((true, p2)),
                },
            }
        } else {
            Ok((false, 0))
        };
        match u {
            Err(e) => Err(e),
            Ok((use_schema, p1)) => match imports(c, p1, Seq::empty()) {
                Err(e) => Err(e),
                Ok((ims, p2)) => match items(
                    c,
                    with_tests,
                    p2,
                    SItems {
                        modules: Seq::empty(),
                        assertions: Seq::empty(),
                        rules: Seq::empty(),
                        tests: Seq::empty(),
                    },
                ) {
                    Err(e) => Err(e),
                    Ok(it) => Ok(
                        SProgram {
                            use_schema,
                            imports: ims,
                            modules: it.modules,
                            assertions: it.assertions,
                            rules: it.rules,
                            tests: it.tests,
                        },
                    ),
                },
            },
        }
    }
}

} // verus!
