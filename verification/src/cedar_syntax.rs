//! What parsing a Cedar token stream yields: one spec function per grammar
//! rule, each giving the rule's result and the index of the next token, or the
//! first error with the position of the token where it was found.
use vstd::prelude::*;
use crate::cedar_lexer::{STok, TokKind, lex_spec, no_error};
use crate::cedar_parser::{
    SExpr, SEntityRef, SScopeConstraint, SActionConstraint, SScope, SAnnotation, SCondition,
    SPolicy, SError, CedarRelOp, CedarAddOp, CedarEffect,
};
use crate::text::{str_debug, decimal};

verus! {

/// How many tokens are left from `pos` on: the measure every rule decreases.
pub open spec fn rem(ts: Seq<STok>, pos: int) -> nat {
    if 0 <= pos <= ts.len() {
        (ts.len() - pos) as nat
    } else {
        0
    }
}

/// An error reported at the token at `pos`.
pub open spec fn err_tok(ts: Seq<STok>, pos: int, message: Seq<char>) -> SError {
    SError { message, line: ts[pos].line, column: ts[pos].column }
}

/// The name a token kind is printed with.
pub open spec fn kind_name(k: TokKind) -> Seq<char> {
    match k {
        TokKind::Permit => "Permit"@,
        TokKind::Forbid => "Forbid"@,
        TokKind::When => "When"@,
        TokKind::Unless => "Unless"@,
        TokKind::If => "If"@,
        TokKind::Then => "Then"@,
        TokKind::Else => "Else"@,
        TokKind::In => "In"@,
        TokKind::Like => "Like"@,
        TokKind::Has => "Has"@,
        TokKind::Is => "Is"@,
        TokKind::True => "True"@,
        TokKind::False => "False"@,
        TokKind::Principal => "Principal"@,
        TokKind::Action => "Action"@,
        TokKind::Resource => "Resource"@,
        TokKind::Context => "Context"@,
        TokKind::LParen => "LParen"@,
        TokKind::RParen => "RParen"@,
        TokKind::LBracket => "LBracket"@,
        TokKind::RBracket => "RBracket"@,
        TokKind::LBrace => "LBrace"@,
        TokKind::RBrace => "RBrace"@,
        TokKind::Comma => "Comma"@,
        TokKind::Semi => "Semi"@,
        TokKind::Dot => "Dot"@,
        TokKind::ColonColon => "ColonColon"@,
        TokKind::At => "At"@,
        TokKind::Colon => "Colon"@,
        TokKind::Eq => "Eq"@,
        TokKind::Neq => "Neq"@,
        TokKind::Lt => "Lt"@,
        TokKind::Lte => "Lte"@,
        TokKind::Gt => "Gt"@,
        TokKind::Gte => "Gte"@,
        TokKind::And => "And"@,
        TokKind::Or => "Or"@,
        TokKind::Not => "Not"@,
        TokKind::Plus => "Plus"@,
        TokKind::Minus => "Minus"@,
        TokKind::Star => "Star"@,
        TokKind::Ident => "Ident"@,
        TokKind::Str => "Str"@,
        TokKind::Int => "Int"@,
        TokKind::SlotPrincipal => "SlotPrincipal"@,
        TokKind::SlotResource => "SlotResource"@,
        TokKind::Eof => "Eof"@,
    }
}

/// How a token is printed in an error message.
pub open spec fn tok_debug(t: STok) -> Seq<char> {
    match t.kind {
        TokKind::Ident => "Ident("@ + str_debug(t.text) + ")"@,
        TokKind::Str => "Str("@ + str_debug(t.text) + ")"@,
        TokKind::Int => "Int("@ + decimal(t.num as int) + ")"@,
        _ => kind_name(t.kind),
    }
}

/// The pieces joined with `sep` between them.
pub open spec fn join(ps: Seq<Seq<char>>, sep: Seq<char>) -> Seq<char>
    decreases ps.len(),
{
    if ps.len() == 0 {
        Seq::empty()
    } else if ps.len() == 1 {
        ps[0]
    } else {
        join(ps.drop_last(), sep) + sep + ps.last()
    }
}

/// How a list of strings is printed: `["a", "b"]`.
pub open spec fn strs_debug(ps: Seq<Seq<char>>) -> Seq<char> {
    "["@ + join(ps.map_values(|p: Seq<char>| str_debug(p)), ", "@) + "]"@
}

// ----------------------------------------------------------------------------
// Single tokens
// ----------------------------------------------------------------------------

pub open spec fn expect_kind(ts: Seq<STok>, pos: int, k: TokKind) -> Result<int, SError> {
    if ts[pos].kind == k {
        Ok(pos + 1)
    } else {
        Err(err_tok(ts, pos, "Expected "@ + kind_name(k) + ", found "@ + tok_debug(ts[pos])))
    }
}

/// An identifier; the words `principal`, `action`, `resource` and `context` count as one.
pub open spec fn expect_ident(ts: Seq<STok>, pos: int) -> Result<(Seq<char>, int), SError> {
    let k = ts[pos].kind;
    if k == TokKind::Ident {
        Ok((ts[pos].text, pos + 1))
    } else if k == TokKind::Principal {
        Ok(("principal"@, pos + 1))
    } else if k == TokKind::Action {
        Ok(("action"@, pos + 1))
    } else if k == TokKind::Resource {
        Ok(("resource"@, pos + 1))
    } else if k == TokKind::Context {
        Ok(("context"@, pos + 1))
    } else {
        Err(err_tok(ts, pos, "Expected identifier, found "@ + tok_debug(ts[pos])))
    }
}

pub open spec fn expect_str(ts: Seq<STok>, pos: int) -> Result<(Seq<char>, int), SError> {
    if ts[pos].kind == TokKind::Str {
        Ok((ts[pos].text, pos + 1))
    } else {
        Err(err_tok(ts, pos, "Expected string, found "@ + tok_debug(ts[pos])))
    }
}

// ----------------------------------------------------------------------------
// Policies
// ----------------------------------------------------------------------------

/// Annotations `@key` or `@key("value")` from `pos` on, after `acc`.
pub open spec fn annotations(ts: Seq<STok>, pos: int, acc: Seq<SAnnotation>) -> Result<
    (Seq<SAnnotation>, int),
    SError,
>
    decreases rem(ts, pos),
{
    if !(0 <= pos < ts.len()) {
        Err(no_error())
    } else if ts[pos].kind != TokKind::At {
        Ok((acc, pos))
    } else {
        match expect_ident(ts, pos + 1) {
            Err(e) => Err(e),
            Ok((key, p1)) => if ts[p1].kind == TokKind::LParen {
                match expect_str(ts, p1 + 1) {
                    Err(e) => Err(e),
                    Ok((v, p2)) => match expect_kind(ts, p2, TokKind::RParen) {
                        Err(e) => Err(e),
                        Ok(p3) => annotations(ts, p3, acc.push(SAnnotation { key, value: Some(v) })),
                    },
                }
            } else {
                annotations(ts, p1, acc.push(SAnnotation { key, value: None }))
            },
        }
    }
}

pub open spec fn effect(ts: Seq<STok>, pos: int) -> Result<(CedarEffect, int), SError> {
    if ts[pos].kind == TokKind::Permit {
        Ok((CedarEffect::Permit, pos + 1))
    } else if ts[pos].kind == TokKind::Forbid {
        Ok((CedarEffect::Forbid, pos + 1))
    } else {
        Err(err_tok(ts, pos, "Expected 'permit' or 'forbid'"@))
    }
}

/// The rest of an entity reference `Type::Sub::"id"` after the path read so far.
pub open spec fn entity_ref_tail(ts: Seq<STok>, pos: int, path: Seq<Seq<char>>) -> Result<
    (SEntityRef, int),
    SError,
>
    decreases rem(ts, pos),
{
    if !(0 <= pos < ts.len()) {
        Err(no_error())
    } else if ts[pos].kind == TokKind::ColonColon {
        let q = pos + 1;
        if ts[q].kind == TokKind::Str {
            Ok((SEntityRef { path, id: ts[q].text }, q + 1))
        } else if ts[q].kind == TokKind::Ident {
            entity_ref_tail(ts, q + 1, path.push(ts[q].text))
        } else {
            Err(err_tok(ts, q, "Expected identifier or string after '::'"@))
        }
    } else {
        Err(
            err_tok(
                ts,
                pos,
                "Expected entity reference (Type::\"id\"), got path "@ + strs_debug(path)
                    + " without string ID"@,
            ),
        )
    }
}

pub open spec fn entity_ref(ts: Seq<STok>, pos: int) -> Result<(SEntityRef, int), SError> {
    match expect_ident(ts, pos) {
        Err(e) => Err(e),
        Ok((first, p1)) => entity_ref_tail(ts, p1, seq![first]),
    }
}

/// The rest of a type path `A::B` after the part read so far. A `::` not
/// followed by an identifier ends the path and is consumed.
pub open spec fn path_string_tail(ts: Seq<STok>, pos: int, acc: Seq<char>) -> Result<
    (Seq<char>, int),
    SError,
>
    decreases rem(ts, pos),
{
    if !(0 <= pos < ts.len()) {
        Err(no_error())
    } else if ts[pos].kind == TokKind::ColonColon {
        if ts[pos + 1].kind == TokKind::Ident {
            path_string_tail(ts, pos + 2, acc + "::"@ + ts[pos + 1].text)
        } else {
            Ok((acc, pos + 1))
        }
    } else {
        Ok((acc, pos))
    }
}

pub open spec fn path_string(ts: Seq<STok>, pos: int) -> Result<(Seq<char>, int), SError> {
    match expect_ident(ts, pos) {
        Err(e) => Err(e),
        Ok((first, p1)) => path_string_tail(ts, p1, first),
    }
}

/// The constraint after `principal` or `resource`.
pub open spec fn entity_constraint(ts: Seq<STok>, pos: int, slot_name: Seq<char>) -> Result<
    (SScopeConstraint, int),
    SError,
> {
    let k = ts[pos].kind;
    if k == TokKind::Eq || k == TokKind::In {
        let q = pos + 1;
        if ts[q].kind == TokKind::SlotPrincipal || ts[q].kind == TokKind::SlotResource {
            Ok((SScopeConstraint::Slot("?"@ + slot_name), q + 1))
        } else {
            match entity_ref(ts, q) {
                Err(e) => Err(e),
                Ok((en, p2)) => Ok(
                    (
                        if k == TokKind::Eq {
                            SScopeConstraint::Eq(en)
                        } else {
                            SScopeConstraint::In(en)
                        },
                        p2,
                    ),
                ),
            }
        }
    } else if k == TokKind::Is {
        match path_string(ts, pos + 1) {
            Err(e) => Err(e),
            Ok((tn, p2)) => if ts[p2].kind == TokKind::In {
                match entity_ref(ts, p2 + 1) {
                    Err(e) => Err(e),
                    Ok((en, p3)) => Ok((SScopeConstraint::IsIn(tn, en), p3)),
                }
            } else {
                Ok((SScopeConstraint::Is(tn), p2))
            },
        }
    } else {
        Ok((SScopeConstraint::Any, pos))
    }
}

pub open spec fn principal_constraint(ts: Seq<STok>, pos: int) -> Result<
    (SScopeConstraint, int),
    SError,
> {
    match expect_kind(ts, pos, TokKind::Principal) {
        Err(e) => Err(e),
        Ok(p1) => entity_constraint(ts, p1, "principal"@),
    }
}

pub open spec fn resource_constraint(ts: Seq<STok>, pos: int) -> Result<
    (SScopeConstraint, int),
    SError,
> {
    match expect_kind(ts, pos, TokKind::Resource) {
        Err(e) => Err(e),
        Ok(p1) => entity_constraint(ts, p1, "resource"@),
    }
}

/// More entity references, each after a comma.
pub open spec fn entity_list_tail(ts: Seq<STok>, pos: int, acc: Seq<SEntityRef>) -> Result<
    (Seq<SEntityRef>, int),
    SError,
>
    decreases rem(ts, pos),
{
    if !(0 <= pos < ts.len()) {
        Err(no_error())
    } else if ts[pos].kind == TokKind::Comma {
        match entity_ref(ts, pos + 1) {
            Err(e) => Err(e),
            Ok((en, p1)) => if pos < p1 {
                entity_list_tail(ts, p1, acc.push(en))
            } else {
                Err(no_error())
            },
        }
    } else {
        Ok((acc, pos))
    }
}

pub open spec fn action_constraint(ts: Seq<STok>, pos: int) -> Result<
    (SActionConstraint, int),
    SError,
> {
    match expect_kind(ts, pos, TokKind::Action) {
        Err(e) => Err(e),
        Ok(p1) => {
            let k = ts[p1].kind;
            if k == TokKind::Eq {
                match entity_ref(ts, p1 + 1) {
                    Err(e) => Err(e),
                    Ok((en, p2)) => Ok((SActionConstraint::Eq(en), p2)),
                }
            } else if k == TokKind::In {
                let q = p1 + 1;
                if ts[q].kind == TokKind::LBracket {
                    let items: Result<(Seq<SEntityRef>, int), SError> = if ts[q + 1].kind
                        != TokKind::RBracket {
                        match entity_ref(ts, q + 1) {
                            Err(e) => Err(e),
                            Ok((en, p2)) => entity_list_tail(ts, p2, seq![en]),
                        }
                    } else {
                        Ok((Seq::empty(), q + 1))
                    };
                    match items {
                        Err(e) => Err(e),
                        Ok((ens, p3)) => match expect_kind(ts, p3, TokKind::RBracket) {
                            Err(e) => Err(e),
                            Ok(p4) => Ok((SActionConstraint::InList(ens), p4)),
                        },
                    }
                } else {
                    match entity_ref(ts, q) {
                        Err(e) => Err(e),
                        Ok((en, p2)) => Ok((SActionConstraint::In(en), p2)),
                    }
                }
            } else {
                Ok((SActionConstraint::Any, p1))
            }
        },
    }
}

pub open spec fn scope(ts: Seq<STok>, pos: int) -> Result<(SScope, int), SError> {
    match principal_constraint(ts, pos) {
        Err(e) => Err(e),
        Ok((pr, p1)) => match expect_kind(ts, p1, TokKind::Comma) {
            Err(e) => Err(e),
            Ok(p2) => match action_constraint(ts, p2) {
                Err(e) => Err(e),
                Ok((ac, p3)) => match expect_kind(ts, p3, TokKind::Comma) {
                    Err(e) => Err(e),
                    Ok(p4) => match resource_constraint(ts, p4) {
                        Err(e) => Err(e),
                        Ok((rs, p5)) => Ok(
                            (SScope { principal: pr, action: ac, resource: rs }, p5),
                        ),
                    },
                },
            },
        },
    }
}

/// `when { e }` and `unless { e }` clauses from `pos` on, after `acc`.
pub open spec fn conditions(ts: Seq<STok>, pos: int, acc: Seq<SCondition>) -> Result<
    (Seq<SCondition>, int),
    SError,
>
    decreases rem(ts, pos),
{
    if !(0 <= pos < ts.len()) {
        Err(no_error())
    } else if ts[pos].kind == TokKind::When || ts[pos].kind == TokKind::Unless {
        let is_when = ts[pos].kind == TokKind::When;
        match expect_kind(ts, pos + 1, TokKind::LBrace) {
            Err(e) => Err(e),
            Ok(p1) => match expr(ts, p1) {
                Err(e) => Err(e),
                Ok((ex, p2)) => match expect_kind(ts, p2, TokKind::RBrace) {
                    Err(e) => Err(e),
                    Ok(p3) => if pos < p3 {
                        conditions(ts, p3, acc.push(SCondition { is_when, expr: ex }))
                    } else {
                        Err(no_error())
                    },
                },
            },
        }
    } else {
        Ok((acc, pos))
    }
}

pub open spec fn policy(ts: Seq<STok>, pos: int) -> Result<(SPolicy, int), SError> {
    match annotations(ts, pos, Seq::empty()) {
        Err(e) => Err(e),
        Ok((an, p1)) => match effect(ts, p1) {
            Err(e) => Err(e),
            Ok((ef, p2)) => match expect_kind(ts, p2, TokKind::LParen) {
                Err(e) => Err(e),
                Ok(p3) => match scope(ts, p3) {
                    Err(e) => Err(e),
                    Ok((sc, p4)) => match expect_kind(ts, p4, TokKind::RParen) {
                        Err(e) => Err(e),
                        Ok(p5) => match conditions(ts, p5, Seq::empty()) {
                            Err(e) => Err(e),
                            Ok((cs, p6)) => match expect_kind(ts, p6, TokKind::Semi) {
                                Err(e) => Err(e),
                                Ok(p7) => Ok(
                                    (
                                        SPolicy {
                                            annotations: an,
                                            effect: ef,
                                            scope: sc,
                                            conditions: cs,
                                        },
                                        p7,
                                    ),
                                ),
                            },
                        },
                    },
                },
            },
        },
    }
}

/// Policies from `pos` up to the end of the tokens, after `acc`.
pub open spec fn policies(ts: Seq<STok>, pos: int, acc: Seq<SPolicy>) -> Result<
    Seq<SPolicy>,
    SError,
>
    decreases rem(ts, pos),
{
    if !(0 <= pos < ts.len()) {
        Err(no_error())
    } else if ts[pos].kind == TokKind::Eof {
        Ok(acc)
    } else {
        match policy(ts, pos) {
            Err(e) => Err(e),
            Ok((p, p1)) => if pos < p1 {
                policies(ts, p1, acc.push(p))
            } else {
                Err(no_error())
            },
        }
    }
}

/// The policies of a token stream.
pub open spec fn parse_tokens(ts: Seq<STok>) -> Result<Seq<SPolicy>, SError> {
    policies(ts, 0, Seq::empty())
}

/// The policies of a Cedar source text, or its first error.
pub open spec fn parse_spec(cs: Seq<char>) -> Result<Seq<SPolicy>, SError> {
    match lex_spec(cs) {
        Err(e) => Err(e),
        Ok(ts) => parse_tokens(ts),
    }
}

// ----------------------------------------------------------------------------
// Expressions, from the loosest binding to the tightest
// ----------------------------------------------------------------------------

pub open spec fn rel_op(k: TokKind) -> Option<CedarRelOp> {
    if k == TokKind::Eq {
        Some(CedarRelOp::Eq)
    } else if k == TokKind::Neq {
        Some(CedarRelOp::Neq)
    } else if k == TokKind::Lt {
        Some(CedarRelOp::Lt)
    } else if k == TokKind::Lte {
        Some(CedarRelOp::Lte)
    } else if k == TokKind::Gt {
        Some(CedarRelOp::Gt)
    } else if k == TokKind::Gte {
        Some(CedarRelOp::Gte)
    } else {
        None
    }
}

pub open spec fn add_op(k: TokKind) -> Option<CedarAddOp> {
    if k == TokKind::Plus {
        Some(CedarAddOp::Add)
    } else if k == TokKind::Minus {
        Some(CedarAddOp::Sub)
    } else {
        None
    }
}

/// `if c then a else b`, or an `||` chain.
pub open spec fn expr(ts: Seq<STok>, pos: int) -> Result<(SExpr, int), SError>
    decreases rem(ts, pos), 20nat,
{
    if !(0 <= pos < ts.len()) {
        Err(no_error())
    } else if ts[pos].kind == TokKind::If {
        match expr(ts, pos + 1) {
            Err(e) => Err(e),
            Ok((c, p1)) => if !(pos < p1) {
                Err(no_error())
            } else {
                match expect_kind(ts, p1, TokKind::Then) {
                    Err(e) => Err(e),
                    Ok(p2) => match expr(ts, p2) {
                        Err(e) => Err(e),
                        Ok((t, p3)) => if !(pos < p3) {
                            Err(no_error())
                        } else {
                            match expect_kind(ts, p3, TokKind::Else) {
                                Err(e) => Err(e),
                                Ok(p4) => match expr(ts, p4) {
                                    Err(e) => Err(e),
                                    Ok((el, p5)) => Ok(
                                        (
                                            SExpr::IfThenElse(
                                                Box::new(c),
                                                Box::new(t),
                                                Box::new(el),
                                            ),
                                            p5,
                                        ),
                                    ),
                                },
                            }
                        },
                    },
                }
            },
        }
    } else {
        or_expr(ts, pos)
    }
}

pub open spec fn or_expr(ts: Seq<STok>, pos: int) -> Result<(SExpr, int), SError>
    decreases rem(ts, pos), 19nat,
{
    if !(0 <= pos < ts.len()) {
        Err(no_error())
    } else {
        match and_expr(ts, pos) {
            Err(e) => Err(e),
            Ok((l, p1)) => if pos < p1 {
                or_rest(ts, p1, l)
            } else {
                Err(no_error())
            },
        }
    }
}

pub open spec fn or_rest(ts: Seq<STok>, pos: int, lhs: SExpr) -> Result<(SExpr, int), SError>
    decreases rem(ts, pos), 18nat,
{
    if !(0 <= pos < ts.len()) {
        Err(no_error())
    } else if ts[pos].kind == TokKind::Or {
        match and_expr(ts, pos + 1) {
            Err(e) => Err(e),
            Ok((r, p1)) => if pos < p1 {
                or_rest(ts, p1, SExpr::Or(Box::new(lhs), Box::new(r)))
            } else {
                Err(no_error())
            },
        }
    } else {
        Ok((lhs, pos))
    }
}

pub open spec fn and_expr(ts: Seq<STok>, pos: int) -> Result<(SExpr, int), SError>
    decreases rem(ts, pos), 17nat,
{
    if !(0 <= pos < ts.len()) {
        Err(no_error())
    } else {
        match relation(ts, pos) {
            Err(e) => Err(e),
            Ok((l, p1)) => if pos < p1 {
                and_rest(ts, p1, l)
            } else {
                Err(no_error())
            },
        }
    }
}

pub open spec fn and_rest(ts: Seq<STok>, pos: int, lhs: SExpr) -> Result<(SExpr, int), SError>
    decreases rem(ts, pos), 16nat,
{
    if !(0 <= pos < ts.len()) {
        Err(no_error())
    } else if ts[pos].kind == TokKind::And {
        match relation(ts, pos + 1) {
            Err(e) => Err(e),
            Ok((r, p1)) => if pos < p1 {
                and_rest(ts, p1, SExpr::And(Box::new(lhs), Box::new(r)))
            } else {
                Err(no_error())
            },
        }
    } else {
        Ok((lhs, pos))
    }
}

/// An additive expression, optionally followed by one relational operator,
/// `in`, `has`, `like` or `is`.
pub open spec fn relation(ts: Seq<STok>, pos: int) -> Result<(SExpr, int), SError>
    decreases rem(ts, pos), 15nat,
{
    if !(0 <= pos < ts.len()) {
        Err(no_error())
    } else {
        match add_expr(ts, pos) {
            Err(e) => Err(e),
            Ok((lhs, p1)) => if !(pos < p1 < ts.len()) {
                Err(no_error())
            } else {
                relation_tail(ts, p1, lhs)
            },
        }
    }
}

/// What follows the left operand `lhs` of a relation, from `pos` on.
pub open spec fn relation_tail(ts: Seq<STok>, pos: int, lhs: SExpr) -> Result<(SExpr, int), SError>
    decreases rem(ts, pos), 14nat,
{
    if !(0 <= pos < ts.len()) {
        Err(no_error())
    } else {
        let k = ts[pos].kind;
        if rel_op(k) is Some {
            match add_expr(ts, pos + 1) {
                Err(e) => Err(e),
                Ok((rhs, p2)) => Ok(
                    (SExpr::Relation(Box::new(lhs), rel_op(k)->0, Box::new(rhs)), p2),
                ),
            }
        } else if k == TokKind::In {
            match add_expr(ts, pos + 1) {
                Err(e) => Err(e),
                Ok((rhs, p2)) => Ok((SExpr::InExpr(Box::new(lhs), Box::new(rhs)), p2)),
            }
        } else if k == TokKind::Has {
            let q = pos + 1;
            if ts[q].kind == TokKind::Ident || ts[q].kind == TokKind::Str {
                Ok((SExpr::Has(Box::new(lhs), ts[q].text), q + 1))
            } else {
                Err(err_tok(ts, q, "Expected identifier or string after 'has'"@))
            }
        } else if k == TokKind::Like {
            match expect_str(ts, pos + 1) {
                Err(e) => Err(e),
                Ok((s, p2)) => Ok((SExpr::Like(Box::new(lhs), s), p2)),
            }
        } else if k == TokKind::Is {
            match path_string(ts, pos + 1) {
                Err(e) => Err(e),
                Ok((tn, p2)) => if !(pos < p2 < ts.len()) {
                    Err(no_error())
                } else if ts[p2].kind == TokKind::In {
                    match add_expr(ts, p2 + 1) {
                        Err(e) => Err(e),
                        Ok((b, p3)) => Ok((SExpr::Is(Box::new(lhs), tn, Some(Box::new(b))), p3)),
                    }
                } else {
                    Ok((SExpr::Is(Box::new(lhs), tn, None), p2))
                },
            }
        } else {
            Ok((lhs, pos))
        }
    }
}

pub open spec fn add_expr(ts: Seq<STok>, pos: int) -> Result<(SExpr, int), SError>
    decreases rem(ts, pos), 13nat,
{
    if !(0 <= pos < ts.len()) {
        Err(no_error())
    } else {
        match mult_expr(ts, pos) {
            Err(e) => Err(e),
            Ok((l, p1)) => if pos < p1 {
                add_rest(ts, p1, l)
            } else {
                Err(no_error())
            },
        }
    }
}

pub open spec fn add_rest(ts: Seq<STok>, pos: int, lhs: SExpr) -> Result<(SExpr, int), SError>
    decreases rem(ts, pos), 12nat,
{
    if !(0 <= pos < ts.len()) {
        Err(no_error())
    } else if add_op(ts[pos].kind) is Some {
        match mult_expr(ts, pos + 1) {
            Err(e) => Err(e),
            Ok((r, p1)) => if pos < p1 {
                add_rest(
                    ts,
                    p1,
                    SExpr::Add(Box::new(lhs), add_op(ts[pos].kind)->0, Box::new(r)),
                )
            } else {
                Err(no_error())
            },
        }
    } else {
        Ok((lhs, pos))
    }
}

pub open spec fn mult_expr(ts: Seq<STok>, pos: int) -> Result<(SExpr, int), SError>
    decreases rem(ts, pos), 11nat,
{
    if !(0 <= pos < ts.len()) {
        Err(no_error())
    } else {
        match unary(ts, pos) {
            Err(e) => Err(e),
            Ok((l, p1)) => if pos < p1 {
                mult_rest(ts, p1, l)
            } else {
                Err(no_error())
            },
        }
    }
}

pub open spec fn mult_rest(ts: Seq<STok>, pos: int, lhs: SExpr) -> Result<(SExpr, int), SError>
    decreases rem(ts, pos), 10nat,
{
    if !(0 <= pos < ts.len()) {
        Err(no_error())
    } else if ts[pos].kind == TokKind::Star {
        match unary(ts, pos + 1) {
            Err(e) => Err(e),
            Ok((r, p1)) => if pos < p1 {
                mult_rest(ts, p1, SExpr::Mul(Box::new(lhs), Box::new(r)))
            } else {
                Err(no_error())
            },
        }
    } else {
        Ok((lhs, pos))
    }
}

/// `!e`, `-e`, or a member expression; `-` before an integer literal negates it.
pub open spec fn unary(ts: Seq<STok>, pos: int) -> Result<(SExpr, int), SError>
    decreases rem(ts, pos), 9nat,
{
    if !(0 <= pos < ts.len()) {
        Err(no_error())
    } else if ts[pos].kind == TokKind::Not {
        match unary(ts, pos + 1) {
            Err(e) => Err(e),
            Ok((e, p1)) => Ok((SExpr::Not(Box::new(e)), p1)),
        }
    } else if ts[pos].kind == TokKind::Minus {
        if ts[pos + 1].kind == TokKind::Int {
            Ok((SExpr::Int((-(ts[pos + 1].num as int)) as i64), pos + 2))
        } else {
            match unary(ts, pos + 1) {
                Err(e) => Err(e),
                Ok((e, p1)) => Ok((SExpr::Neg(Box::new(e)), p1)),
            }
        }
    } else {
        member(ts, pos)
    }
}

pub open spec fn member(ts: Seq<STok>, pos: int) -> Result<(SExpr, int), SError>
    decreases rem(ts, pos), 7nat,
{
    if !(0 <= pos < ts.len()) {
        Err(no_error())
    } else {
        match primary(ts, pos) {
            Err(e) => Err(e),
            Ok((e, p1)) => if pos < p1 {
                member_rest(ts, p1, e)
            } else {
                Err(no_error())
            },
        }
    }
}

/// Field accesses `.f`, method calls `.m(args)` and indexing `["k"]` after `e`.
pub open spec fn member_rest(ts: Seq<STok>, pos: int, e: SExpr) -> Result<(SExpr, int), SError>
    decreases rem(ts, pos), 6nat,
{
    if !(0 <= pos < ts.len()) {
        Err(no_error())
    } else if ts[pos].kind == TokKind::Dot {
        match expect_ident(ts, pos + 1) {
            Err(er) => Err(er),
            Ok((f, p1)) => if ts[p1].kind == TokKind::LParen {
                match expr_list(ts, p1 + 1) {
                    Err(er) => Err(er),
                    Ok((args, p2)) => if !(pos < p2) {
                        Err(no_error())
                    } else {
                        match expect_kind(ts, p2, TokKind::RParen) {
                            Err(er) => Err(er),
                            Ok(p3) => member_rest(ts, p3, SExpr::MethodCall(Box::new(e), f, args)),
                        }
                    },
                }
            } else {
                member_rest(ts, p1, SExpr::Access(Box::new(e), f))
            },
        }
    } else if ts[pos].kind == TokKind::LBracket {
        match expect_str(ts, pos + 1) {
            Err(er) => Err(er),
            Ok((key, p1)) => match expect_kind(ts, p1, TokKind::RBracket) {
                Err(er) => Err(er),
                Ok(p2) => member_rest(ts, p2, SExpr::Index(Box::new(e), key)),
            },
        }
    } else {
        Ok((e, pos))
    }
}

pub open spec fn primary(ts: Seq<STok>, pos: int) -> Result<(SExpr, int), SError>
    decreases rem(ts, pos), 5nat,
{
    if !(0 <= pos < ts.len()) {
        Err(no_error())
    } else {
        let t = ts[pos];
        let k = t.kind;
        if k == TokKind::True {
            Ok((SExpr::Bool(true), pos + 1))
        } else if k == TokKind::False {
            Ok((SExpr::Bool(false), pos + 1))
        } else if k == TokKind::Int {
            Ok((SExpr::Int(t.num), pos + 1))
        } else if k == TokKind::Str {
            Ok((SExpr::Str(t.text), pos + 1))
        } else if k == TokKind::Principal {
            Ok((SExpr::Var("principal"@), pos + 1))
        } else if k == TokKind::Action {
            Ok((SExpr::Var("action"@), pos + 1))
        } else if k == TokKind::Resource {
            Ok((SExpr::Var("resource"@), pos + 1))
        } else if k == TokKind::Context {
            Ok((SExpr::Var("context"@), pos + 1))
        } else if k == TokKind::LParen {
            match expr(ts, pos + 1) {
                Err(e) => Err(e),
                Ok((e, p1)) => match expect_kind(ts, p1, TokKind::RParen) {
                    Err(er) => Err(er),
                    Ok(p2) => Ok((e, p2)),
                },
            }
        } else if k == TokKind::LBracket {
            set_literal(ts, pos)
        } else if k == TokKind::LBrace {
            record_literal(ts, pos)
        } else if k == TokKind::Ident {
            let q = pos + 1;
            if ts[q].kind == TokKind::ColonColon {
                ident_path(ts, q, seq![t.text])
            } else if ts[q].kind == TokKind::LParen {
                match expr_list(ts, q + 1) {
                    Err(e) => Err(e),
                    Ok((args, p1)) => match expect_kind(ts, p1, TokKind::RParen) {
                        Err(e) => Err(e),
                        Ok(p2) => Ok((SExpr::ExtFun(t.text, args), p2)),
                    },
                }
            } else {
                Ok((SExpr::Var(t.text), q))
            }
        } else {
            Err(err_tok(ts, pos, "Unexpected token: "@ + tok_debug(t)))
        }
    }
}

/// A set literal `[a, b, ...]`, at its opening bracket.
#[verifier::opaque]
pub open spec fn set_literal(ts: Seq<STok>, pos: int) -> Result<(SExpr, int), SError>
    decreases rem(ts, pos), 3nat,
{
    if !(0 <= pos < ts.len()) {
        Err(no_error())
    } else if ts[pos + 1].kind == TokKind::RBracket {
        Ok((SExpr::SetLiteral(Seq::empty()), pos + 2))
    } else {
        match expr_list(ts, pos + 1) {
            Err(e) => Err(e),
            Ok((its, p1)) => match expect_kind(ts, p1, TokKind::RBracket) {
                Err(e) => Err(e),
                Ok(p2) => Ok((SExpr::SetLiteral(its), p2)),
            },
        }
    }
}

/// A record literal `{key: value, ...}`, at its opening brace.
#[verifier::opaque]
pub open spec fn record_literal(ts: Seq<STok>, pos: int) -> Result<(SExpr, int), SError>
    decreases rem(ts, pos), 3nat,
{
    if !(0 <= pos < ts.len()) {
        Err(no_error())
    } else if ts[pos + 1].kind == TokKind::RBrace {
        Ok((SExpr::Record(Seq::empty()), pos + 2))
    } else {
        match record_fields(ts, pos + 1, Seq::empty()) {
            Err(e) => Err(e),
            Ok((fs, p1)) => match expect_kind(ts, p1, TokKind::RBrace) {
                Err(e) => Err(e),
                Ok(p2) => Ok((SExpr::Record(fs), p2)),
            },
        }
    }
}

/// An empty set literal `[]`.
pub proof fn lemma_set_literal_empty(ts: Seq<STok>, pos: int)
    requires
        0 <= pos < ts.len(),
        ts[pos + 1].kind == TokKind::RBracket,
    ensures
        set_literal(ts, pos) == Ok::<(SExpr, int), SError>((SExpr::SetLiteral(Seq::empty()), pos + 2)),
{
    reveal(set_literal);
}

/// A set literal with elements.
pub proof fn lemma_set_literal_items(ts: Seq<STok>, pos: int)
    requires
        0 <= pos < ts.len(),
        ts[pos + 1].kind != TokKind::RBracket,
    ensures
        set_literal(ts, pos) == match expr_list(ts, pos + 1) {
            Err(e) => Err(e),
            Ok((its, p1)) => match expect_kind(ts, p1, TokKind::RBracket) {
                Err(e) => Err(e),
                Ok(p2) => Ok((SExpr::SetLiteral(its), p2)),
            },
        },
{
    reveal(set_literal);
}

/// One step of `record_literal`.
pub proof fn lemma_record_literal(ts: Seq<STok>, pos: int)
    requires
        0 <= pos < ts.len(),
    ensures
        record_literal(ts, pos) == (if ts[pos + 1].kind == TokKind::RBrace {
            Ok((SExpr::Record(Seq::empty()), pos + 2))
        } else {
            match record_fields(ts, pos + 1, Seq::empty()) {
                Err(e) => Err(e),
                Ok((fs, p1)) => match expect_kind(ts, p1, TokKind::RBrace) {
                    Err(e) => Err(e),
                    Ok(p2) => Ok((SExpr::Record(fs), p2)),
                },
            }
        }),
{
    reveal(record_literal);
}

/// After an identifier and `::`: an entity reference `A::B::"id"`, or a call
/// of a namespaced extension function `A::f(args)`.
pub open spec fn ident_path(ts: Seq<STok>, pos: int, path: Seq<Seq<char>>) -> Result<
    (SExpr, int),
    SError,
>
    decreases rem(ts, pos), 4nat,
{
    if !(0 <= pos < ts.len()) {
        Err(no_error())
    } else if ts[pos].kind == TokKind::ColonColon {
        let q = pos + 1;
        let t = ts[q];
        if t.kind == TokKind::Str {
            Ok((SExpr::Entity(SEntityRef { path, id: t.text }), q + 1))
        } else if t.kind == TokKind::Ident {
            if ts[q + 1].kind == TokKind::LParen {
                let f = join(path, "::"@) + "::"@ + t.text;
                match expr_list(ts, q + 2) {
                    Err(e) => Err(e),
                    Ok((args, p1)) => match expect_kind(ts, p1, TokKind::RParen) {
                        Err(e) => Err(e),
                        Ok(p2) => Ok((SExpr::ExtFun(f, args), p2)),
                    },
                }
            } else {
                ident_path(ts, q + 1, path.push(t.text))
            }
        } else {
            Err(err_tok(ts, q, "Expected identifier or string after '::'"@))
        }
    } else if ts[pos].kind == TokKind::LParen {
        match expr_list(ts, pos + 1) {
            Err(e) => Err(e),
            Ok((args, p1)) => match expect_kind(ts, p1, TokKind::RParen) {
                Err(e) => Err(e),
                Ok(p2) => Ok((SExpr::ExtFun(join(path, "::"@), args), p2)),
            },
        }
    } else {
        Err(
            err_tok(ts, pos, "Unexpected path "@ + strs_debug(path) + " without entity ID"@),
        )
    }
}

/// A comma-separated list of expressions; empty before `)` or `]`.
pub open spec fn expr_list(ts: Seq<STok>, pos: int) -> Result<(Seq<SExpr>, int), SError>
    decreases rem(ts, pos), 21nat,
{
    if !(0 <= pos < ts.len()) {
        Err(no_error())
    } else if ts[pos].kind == TokKind::RParen || ts[pos].kind == TokKind::RBracket {
        Ok((Seq::empty(), pos))
    } else {
        match expr(ts, pos) {
            Err(e) => Err(e),
            Ok((e, p1)) => if pos < p1 {
                list_rest(ts, p1, seq![e])
            } else {
                Err(no_error())
            },
        }
    }
}

pub open spec fn list_rest(ts: Seq<STok>, pos: int, acc: Seq<SExpr>) -> Result<
    (Seq<SExpr>, int),
    SError,
>
    decreases rem(ts, pos), 21nat,
{
    if !(0 <= pos < ts.len()) {
        Err(no_error())
    } else if ts[pos].kind == TokKind::Comma {
        match expr(ts, pos + 1) {
            Err(e) => Err(e),
            Ok((e, p1)) => if pos < p1 {
                list_rest(ts, p1, acc.push(e))
            } else {
                Err(no_error())
            },
        }
    } else {
        Ok((acc, pos))
    }
}

/// The fields `key: value` of a record literal, after `acc`.
pub open spec fn record_fields(ts: Seq<STok>, pos: int, acc: Seq<(Seq<char>, SExpr)>) -> Result<
    (Seq<(Seq<char>, SExpr)>, int),
    SError,
>
    decreases rem(ts, pos), 22nat,
{
    if !(0 <= pos < ts.len()) {
        Err(no_error())
    } else {
        let t = ts[pos];
        if t.kind == TokKind::Ident || t.kind == TokKind::Str {
            match expect_kind(ts, pos + 1, TokKind::Colon) {
                Err(e) => Err(e),
                Ok(p1) => match expr(ts, p1) {
                    Err(e) => Err(e),
                    Ok((v, p2)) => {
                        let acc2 = acc.push((t.text, v));
                        if !(pos < p2 < ts.len()) {
                            Err(no_error())
                        } else if ts[p2].kind != TokKind::Comma {
                            Ok((acc2, p2))
                        } else {
                            record_fields(ts, p2 + 1, acc2)
                        }
                    },
                },
            }
        } else {
            Err(err_tok(ts, pos, "Expected field name in record"@))
        }
    }
}


/// One step of `expr`.
pub proof fn lemma_expr(ts: Seq<STok>, pos: int)
    ensures
        expr(ts, pos) == ({
            if !(0 <= pos < ts.len()) {
                Err(no_error())
            } else if ts[pos].kind == TokKind::If {
                match expr(ts, pos + 1) {
                    Err(e) => Err(e),
                    Ok((c, p1)) => if !(pos < p1) {
                        Err(no_error())
                    } else {
                        match expect_kind(ts, p1, TokKind::Then) {
                            Err(e) => Err(e),
                            Ok(p2) => match expr(ts, p2) {
                                Err(e) => Err(e),
                                Ok((t, p3)) => if !(pos < p3) {
                                    Err(no_error())
                                } else {
                                    match expect_kind(ts, p3, TokKind::Else) {
                                        Err(e) => Err(e),
                                        Ok(p4) => match expr(ts, p4) {
                                            Err(e) => Err(e),
                                            Ok((el, p5)) => Ok(
                                                (
                                                    SExpr::IfThenElse(
                                                        Box::new(c),
                                                        Box::new(t),
                                                        Box::new(el),
                                                    ),
                                                    p5,
                                                ),
                                            ),
                                        },
                                    }
                                },
                            },
                        }
                    },
                }
            } else {
                or_expr(ts, pos)
            }
        }),
{
}

/// `expr_list` before a closing parenthesis or bracket: the empty list.
pub proof fn lemma_expr_list_empty(ts: Seq<STok>, pos: int)
    requires
        0 <= pos < ts.len(),
        ts[pos].kind == TokKind::RParen || ts[pos].kind == TokKind::RBracket,
    ensures
        expr_list(ts, pos) == Ok::<(Seq<SExpr>, int), SError>((Seq::empty(), pos)),
{
}

/// `expr_list` elsewhere: a first expression, then the rest.
pub proof fn lemma_expr_list_first(ts: Seq<STok>, pos: int)
    requires
        0 <= pos < ts.len(),
        !(ts[pos].kind == TokKind::RParen || ts[pos].kind == TokKind::RBracket),
    ensures
        expr_list(ts, pos) == match expr(ts, pos) {
            Err(e) => Err(e),
            Ok((e, p1)) => if pos < p1 {
                list_rest(ts, p1, seq![e])
            } else {
                Err(no_error())
            },
        },
{
}

} // verus!
