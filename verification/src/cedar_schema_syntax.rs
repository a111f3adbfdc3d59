//! What parsing a Cedar schema token stream yields: one spec function per
//! grammar rule, each giving the rule's result and the index of the next
//! token, or the first error with the position of the token where it was found.
use vstd::prelude::*;
use crate::cedar_schema_lexer::{SSchemaTok, SchemaTokKind, lex_schema_spec};
use crate::cedar_lexer::no_error;
use crate::cedar_parser::SError;
use crate::schema::{SType, SField, SEntity, SAction, SAppliesTo, SAbstract, SModule, EntityKind};
use crate::text::{str_debug, decimal};

verus! {

/// How many tokens are left from `pos` on: the measure every rule decreases.
pub open spec fn srem(ts: Seq<SSchemaTok>, pos: int) -> nat {
    if 0 <= pos <= ts.len() {
        (ts.len() - pos) as nat
    } else {
        0
    }
}

/// An error reported at the token at `pos`.
pub open spec fn serr(ts: Seq<SSchemaTok>, pos: int, message: Seq<char>) -> SError {
    SError { message, line: ts[pos].line, column: ts[pos].column }
}

/// The name a token kind is printed with.
pub open spec fn schema_kind_name(k: SchemaTokKind) -> Seq<char> {
    match k {
        SchemaTokKind::LBrace => "LBrace"@,
        SchemaTokKind::RBrace => "RBrace"@,
        SchemaTokKind::LBracket => "LBracket"@,
        SchemaTokKind::RBracket => "RBracket"@,
        SchemaTokKind::LParen => "LParen"@,
        SchemaTokKind::RParen => "RParen"@,
        SchemaTokKind::Comma => "Comma"@,
        SchemaTokKind::Semi => "Semi"@,
        SchemaTokKind::Colon => "Colon"@,
        SchemaTokKind::ColonColon => "ColonColon"@,
        SchemaTokKind::At => "At"@,
        SchemaTokKind::Eq => "Eq"@,
        SchemaTokKind::Assign => "Assign"@,
        SchemaTokKind::Lt => "Lt"@,
        SchemaTokKind::Gt => "Gt"@,
        SchemaTokKind::Pipe => "Pipe"@,
        SchemaTokKind::Question => "Question"@,
        SchemaTokKind::Ident => "Ident"@,
        SchemaTokKind::Str => "Str"@,
        SchemaTokKind::Int => "Int"@,
        SchemaTokKind::Eof => "Eof"@,
    }
}

/// How a token is printed in an error message.
pub open spec fn schema_tok_debug(t: SSchemaTok) -> Seq<char> {
    match t.kind {
        SchemaTokKind::Ident => "Ident("@ + str_debug(t.text) + ")"@,
        SchemaTokKind::Str => "Str("@ + str_debug(t.text) + ")"@,
        SchemaTokKind::Int => "Int("@ + decimal(t.num as int) + ")"@,
        _ => schema_kind_name(t.kind),
    }
}

/// Whether the token at `pos` is the identifier `w`.
pub open spec fn at_word(ts: Seq<SSchemaTok>, pos: int, w: Seq<char>) -> bool {
    ts[pos].kind == SchemaTokKind::Ident && ts[pos].text == w
}

pub open spec fn expect_tok(ts: Seq<SSchemaTok>, pos: int, k: SchemaTokKind) -> Result<int, SError> {
    if ts[pos].kind == k {
        Ok(pos + 1)
    } else {
        Err(
            serr(
                ts,
                pos,
                "expected "@ + schema_kind_name(k) + ", got "@ + schema_tok_debug(ts[pos]),
            ),
        )
    }
}

pub open spec fn expect_word(ts: Seq<SSchemaTok>, pos: int, w: Seq<char>) -> Result<int, SError> {
    if at_word(ts, pos, w) {
        Ok(pos + 1)
    } else {
        Err(serr(ts, pos, "expected '"@ + w + "', got "@ + schema_tok_debug(ts[pos])))
    }
}

pub open spec fn consume_ident(ts: Seq<SSchemaTok>, pos: int) -> Result<(Seq<char>, int), SError> {
    if ts[pos].kind == SchemaTokKind::Ident {
        Ok((ts[pos].text, pos + 1))
    } else {
        Err(serr(ts, pos, "expected identifier, got "@ + schema_tok_debug(ts[pos])))
    }
}

/// A name: an identifier or a string.
pub open spec fn consume_name(ts: Seq<SSchemaTok>, pos: int) -> Result<(Seq<char>, int), SError> {
    if ts[pos].kind == SchemaTokKind::Ident || ts[pos].kind == SchemaTokKind::Str {
        Ok((ts[pos].text, pos + 1))
    } else {
        Err(
            serr(
                ts,
                pos,
                "expected name (ident or string), got "@ + schema_tok_debug(ts[pos]),
            ),
        )
    }
}

/// Annotations `@name` or `@name("value")` or `@name()` from `pos` on, skipped.
pub open spec fn skip_annotations(ts: Seq<SSchemaTok>, pos: int) -> Result<int, SError>
    decreases srem(ts, pos),
{
    if !(0 <= pos < ts.len()) {
        Err(no_error())
    } else if ts[pos].kind != SchemaTokKind::At {
        Ok(pos)
    } else {
        match consume_ident(ts, pos + 1) {
            Err(e) => Err(e),
            Ok((_, p1)) => if ts[p1].kind == SchemaTokKind::LParen {
                let p2 = if ts[p1 + 1].kind == SchemaTokKind::Str {
                    p1 + 2
                } else {
                    p1 + 1
                };
                match expect_tok(ts, p2, SchemaTokKind::RParen) {
                    Err(e) => Err(e),
                    Ok(p3) => skip_annotations(ts, p3),
                }
            } else {
                skip_annotations(ts, p1)
            },
        }
    }
}

/// The rest of a path `A::B::C` after the part read so far.
pub open spec fn schema_path_tail(ts: Seq<SSchemaTok>, pos: int, acc: Seq<char>) -> Result<
    (Seq<char>, int),
    SError,
>
    decreases srem(ts, pos),
{
    if !(0 <= pos < ts.len()) {
        Err(no_error())
    } else if ts[pos].kind == SchemaTokKind::ColonColon {
        match consume_ident(ts, pos + 1) {
            Err(e) => Err(e),
            Ok((seg, p1)) => schema_path_tail(ts, p1, acc + "::"@ + seg),
        }
    } else {
        Ok((acc, pos))
    }
}

/// A path: identifiers joined by `::`.
pub open spec fn schema_path(ts: Seq<SSchemaTok>, pos: int) -> Result<(Seq<char>, int), SError> {
    match consume_ident(ts, pos) {
        Err(e) => Err(e),
        Ok((first, p1)) => schema_path_tail(ts, p1, first),
    }
}

/// More identifiers, each after a comma; a comma not followed by an identifier
/// ends the list and is left in place.
pub open spec fn ident_list_tail(ts: Seq<SSchemaTok>, pos: int, acc: Seq<Seq<char>>) -> Result<
    (Seq<Seq<char>>, int),
    SError,
>
    decreases srem(ts, pos),
{
    if !(0 <= pos < ts.len()) {
        Err(no_error())
    } else if ts[pos].kind == SchemaTokKind::Comma && ts[pos + 1].kind == SchemaTokKind::Ident {
        ident_list_tail(ts, pos + 2, acc.push(ts[pos + 1].text))
    } else {
        Ok((acc, pos))
    }
}

pub open spec fn ident_list(ts: Seq<SSchemaTok>, pos: int) -> Result<(Seq<Seq<char>>, int), SError> {
    match consume_ident(ts, pos) {
        Err(e) => Err(e),
        Ok((first, p1)) => ident_list_tail(ts, p1, seq![first]),
    }
}

/// The paths of a bracketed list from `pos` (after `[`) up to and past `]`;
/// commas between them may be left out.
pub open spec fn path_list(ts: Seq<SSchemaTok>, pos: int, acc: Seq<Seq<char>>) -> Result<
    (Seq<Seq<char>>, int),
    SError,
>
    decreases srem(ts, pos),
{
    if !(0 <= pos < ts.len()) {
        Err(no_error())
    } else if ts[pos].kind == SchemaTokKind::RBracket {
        Ok((acc, pos + 1))
    } else {
        match schema_path(ts, pos) {
            Err(e) => Err(e),
            Ok((p, p1)) => {
                let p2 = if ts[p1].kind == SchemaTokKind::Comma {
                    p1 + 1
                } else {
                    p1
                };
                if pos < p2 {
                    path_list(ts, p2, acc.push(p))
                } else {
                    Err(no_error())
                }
            },
        }
    }
}

/// Entity or type references: one path, or a bracketed list of them.
pub open spec fn ent_or_typs(ts: Seq<SSchemaTok>, pos: int) -> Result<(Seq<Seq<char>>, int), SError> {
    if ts[pos].kind == SchemaTokKind::LBracket {
        path_list(ts, pos + 1, Seq::empty())
    } else {
        match schema_path(ts, pos) {
            Err(e) => Err(e),
            Ok((p, p1)) => Ok((seq![p], p1)),
        }
    }
}

/// A reference to an action: a string, or a path optionally followed by `::` and a string.
pub open spec fn schema_ref(ts: Seq<SSchemaTok>, pos: int) -> Result<(Seq<char>, int), SError> {
    if ts[pos].kind == SchemaTokKind::Str {
        Ok((ts[pos].text, pos + 1))
    } else if ts[pos].kind == SchemaTokKind::Ident {
        match schema_path(ts, pos) {
            Err(e) => Err(e),
            Ok((p, p1)) => if ts[p1].kind == SchemaTokKind::ColonColon {
                if ts[p1 + 1].kind == SchemaTokKind::Str {
                    Ok((p, p1 + 2))
                } else {
                    Ok((p, p1 + 1))
                }
            } else {
                Ok((p, p1))
            },
        }
    } else {
        Err(serr(ts, pos, "expected ref (ident or string), got "@ + schema_tok_debug(ts[pos])))
    }
}

/// The references of a bracketed list from `pos` (after `[`) up to and past `]`.
pub open spec fn ref_list(ts: Seq<SSchemaTok>, pos: int, acc: Seq<Seq<char>>) -> Result<
    (Seq<Seq<char>>, int),
    SError,
>
    decreases srem(ts, pos),
{
    if !(0 <= pos < ts.len()) {
        Err(no_error())
    } else if ts[pos].kind == SchemaTokKind::RBracket {
        Ok((acc, pos + 1))
    } else {
        match schema_ref(ts, pos) {
            Err(e) => Err(e),
            Ok((r, p1)) => {
                let p2 = if ts[p1].kind == SchemaTokKind::Comma {
                    p1 + 1
                } else {
                    p1
                };
                if pos < p2 {
                    ref_list(ts, p2, acc.push(r))
                } else {
                    Err(no_error())
                }
            },
        }
    }
}

pub open spec fn ref_or_refs(ts: Seq<SSchemaTok>, pos: int) -> Result<(Seq<Seq<char>>, int), SError> {
    if ts[pos].kind == SchemaTokKind::LBracket {
        ref_list(ts, pos + 1, Seq::empty())
    } else {
        match schema_ref(ts, pos) {
            Err(e) => Err(e),
            Ok((r, p1)) => Ok((seq![r], p1)),
        }
    }
}

// ----------------------------------------------------------------------------
// Types
// ----------------------------------------------------------------------------

/// A type: a base type, or several joined by `|` (a union).
pub open spec fn type_expr(ts: Seq<SSchemaTok>, pos: int) -> Result<(SType, int), SError>
    decreases srem(ts, pos), 3nat,
{
    match base_type(ts, pos) {
        Err(e) => Err(e),
        Ok((b, p1)) => if ts[p1].kind == SchemaTokKind::Pipe {
            if 0 <= pos < p1 {
                union_tail(ts, p1, seq![b])
            } else {
                Err(no_error())
            }
        } else {
            Ok((b, p1))
        },
    }
}

/// More members of a union, each after `|`.
pub open spec fn union_tail(ts: Seq<SSchemaTok>, pos: int, acc: Seq<SType>) -> Result<
    (SType, int),
    SError,
>
    decreases srem(ts, pos), 0nat,
{
    if !(0 <= pos < ts.len()) {
        Err(no_error())
    } else if ts[pos].kind == SchemaTokKind::Pipe {
        match base_type(ts, pos + 1) {
            Err(e) => Err(e),
            Ok((b, p1)) => if pos < p1 {
                union_tail(ts, p1, acc.push(b))
            } else {
                Err(no_error())
            },
        }
    } else {
        Ok((SType::Union(acc), pos))
    }
}

/// A record type, `Set<T>`, or a named type.
pub open spec fn base_type(ts: Seq<SSchemaTok>, pos: int) -> Result<(SType, int), SError>
    decreases srem(ts, pos), 2nat,
{
    if !(0 <= pos < ts.len()) {
        Err(no_error())
    } else if ts[pos].kind == SchemaTokKind::LBrace {
        match record_fields(ts, pos) {
            Err(e) => Err(e),
            Ok((fs, p1)) => Ok((SType::Record(fs), p1)),
        }
    } else if at_word(ts, pos, "Set"@) {
        match expect_tok(ts, pos + 1, SchemaTokKind::Lt) {
            Err(e) => Err(e),
            Ok(p1) => match type_expr(ts, p1) {
                Err(e) => Err(e),
                Ok((t, p2)) => match expect_tok(ts, p2, SchemaTokKind::Gt) {
                    Err(e) => Err(e),
                    Ok(p3) => Ok((SType::SetOf(Box::new(t)), p3)),
                },
            },
        }
    } else if ts[pos].kind == SchemaTokKind::Ident {
        match schema_path(ts, pos) {
            Err(e) => Err(e),
            Ok((name, p1)) => Ok((SType::Named(name), p1)),
        }
    } else {
        Err(serr(ts, pos, "expected type, got "@ + schema_tok_debug(ts[pos])))
    }
}

/// The fields of a record `{ name: Type, name?: Type, ... }` at `pos`.
pub open spec fn record_fields(ts: Seq<SSchemaTok>, pos: int) -> Result<(Seq<SField>, int), SError>
    decreases srem(ts, pos), 1nat,
{
    if !(0 <= pos < ts.len()) {
        Err(no_error())
    } else {
        match expect_tok(ts, pos, SchemaTokKind::LBrace) {
            Err(e) => Err(e),
            Ok(p1) => field_list(ts, p1, Seq::empty()),
        }
    }
}

/// The fields from `pos` up to and past the closing `}`, after `acc`.
pub open spec fn field_list(ts: Seq<SSchemaTok>, pos: int, acc: Seq<SField>) -> Result<
    (Seq<SField>, int),
    SError,
>
    decreases srem(ts, pos), 0nat,
{
    if !(0 <= pos < ts.len()) {
        Err(no_error())
    } else if ts[pos].kind == SchemaTokKind::RBrace {
        Ok((acc, pos + 1))
    } else {
        match skip_annotations(ts, pos) {
            Err(e) => Err(e),
            Ok(p1) => if ts[p1].kind == SchemaTokKind::RBrace {
                Ok((acc, p1 + 1))
            } else {
                match consume_name(ts, p1) {
                    Err(e) => Err(e),
                    Ok((name, p2)) => {
                        let optional = ts[p2].kind == SchemaTokKind::Question;
                        let p3 = if optional {
                            p2 + 1
                        } else {
                            p2
                        };
                        match expect_tok(ts, p3, SchemaTokKind::Colon) {
                            Err(e) => Err(e),
                            Ok(p4) => if pos < p4 {
                                match type_expr(ts, p4) {
                                    Err(e) => Err(e),
                                    Ok((ty, p5)) => {
                                        let p6 = if ts[p5].kind == SchemaTokKind::Comma {
                                            p5 + 1
                                        } else {
                                            p5
                                        };
                                        if pos < p6 {
                                            field_list(
                                                ts,
                                                p6,
                                                acc.push(SField { name, ty, optional }),
                                            )
                                        } else {
                                            Err(no_error())
                                        }
                                    },
                                }
                            } else {
                                Err(no_error())
                            },
                        }
                    },
                }
            },
        }
    }
}

// ----------------------------------------------------------------------------
// Declarations
// ----------------------------------------------------------------------------

/// The entity named `n` with the given parents and fields.
pub open spec fn entity_named(n: Seq<char>, parents: Seq<Seq<char>>, fields: Seq<SField>) -> SEntity {
    SEntity { kind: EntityKind::Actor, name: n, parents, traits: Seq::empty(), fields }
}

/// `entity A, B in [P] { fields } tags T;`: one entity per name.
pub open spec fn entities(ts: Seq<SSchemaTok>, pos: int) -> Result<(Seq<SEntity>, int), SError> {
    match expect_word(ts, pos, "entity"@) {
        Err(e) => Err(e),
        Ok(p1) => match ident_list(ts, p1) {
            Err(e) => Err(e),
            Ok((names, p2)) => entity_parents(ts, names, p2),
        },
    }
}

/// After the names of an entity declaration: the optional `in` parents.
pub open spec fn entity_parents(ts: Seq<SSchemaTok>, names: Seq<Seq<char>>, p2: int) -> Result<
    (Seq<SEntity>, int),
    SError,
> {
    match (if at_word(ts, p2, "in"@) {
        ent_or_typs(ts, p2 + 1)
    } else {
        Ok((Seq::empty(), p2))
    }) {
        Err(e) => Err(e),
        Ok((parents, p3)) => entity_fields(ts, names, parents, p3),
    }
}

/// After the parents: the optional fields, as `= { ... }` or `{ ... }`.
pub open spec fn entity_fields(
    ts: Seq<SSchemaTok>,
    names: Seq<Seq<char>>,
    parents: Seq<Seq<char>>,
    p3: int,
) -> Result<(Seq<SEntity>, int), SError> {
    match (if ts[p3].kind == SchemaTokKind::Assign {
        record_fields(ts, p3 + 1)
    } else if ts[p3].kind == SchemaTokKind::LBrace {
        record_fields(ts, p3)
    } else {
        Ok((Seq::empty(), p3))
    }) {
        Err(e) => Err(e),
        Ok((fields, p4)) => entity_end(ts, names, parents, fields, p4),
    }
}

/// After the fields: optional `tags Type`, read and dropped, then `;`.
pub open spec fn entity_end(
    ts: Seq<SSchemaTok>,
    names: Seq<Seq<char>>,
    parents: Seq<Seq<char>>,
    fields: Seq<SField>,
    p4: int,
) -> Result<(Seq<SEntity>, int), SError> {
    match (if at_word(ts, p4, "tags"@) {
        match type_expr(ts, p4 + 1) {
            Err(e) => Err(e),
            Ok((_, p)) => Ok(p),
        }
    } else {
        Ok(p4)
    }) {
        Err(e) => Err(e),
        Ok(p5) => match expect_tok(ts, p5, SchemaTokKind::Semi) {
            Err(e) => Err(e),
            Ok(p6) => Ok(
                (
                    names.map_values(|n: Seq<char>| entity_named(n, parents, fields)),
                    p6,
                ),
            ),
        },
    }
}

/// More names, each after a comma.
pub open spec fn names_tail(ts: Seq<SSchemaTok>, pos: int, acc: Seq<Seq<char>>) -> Result<
    (Seq<Seq<char>>, int),
    SError,
>
    decreases srem(ts, pos),
{
    if !(0 <= pos < ts.len()) {
        Err(no_error())
    } else if ts[pos].kind == SchemaTokKind::Comma {
        match consume_name(ts, pos + 1) {
            Err(e) => Err(e),
            Ok((n, p1)) => names_tail(ts, p1, acc.push(n)),
        }
    } else {
        Ok((acc, pos))
    }
}

/// The declarations of an `appliesTo` block from `pos` up to and past `}`,
/// with what was read so far.
pub open spec fn applies_items(
    ts: Seq<SSchemaTok>,
    pos: int,
    actors: Seq<Seq<char>>,
    resources: Seq<Seq<char>>,
    context: Option<Seq<SField>>,
) -> Result<(SAppliesTo, int), SError>
    decreases srem(ts, pos),
{
    if !(0 <= pos < ts.len()) {
        Err(no_error())
    } else if ts[pos].kind == SchemaTokKind::RBrace {
        Ok((SAppliesTo { actors, resources, context }, pos + 1))
    } else if at_word(ts, pos, "principal"@) || at_word(ts, pos, "resource"@) {
        match expect_tok(ts, pos + 1, SchemaTokKind::Colon) {
            Err(e) => Err(e),
            Ok(p1) => match ent_or_typs(ts, p1) {
                Err(e) => Err(e),
                Ok((list, p2)) => {
                    let p3 = if ts[p2].kind == SchemaTokKind::Comma {
                        p2 + 1
                    } else {
                        p2
                    };
                    if pos < p3 {
                        if at_word(ts, pos, "principal"@) {
                            applies_items(ts, p3, list, resources, context)
                        } else {
                            applies_items(ts, p3, actors, list, context)
                        }
                    } else {
                        Err(no_error())
                    }
                },
            },
        }
    } else if at_word(ts, pos, "context"@) {
        match expect_tok(ts, pos + 1, SchemaTokKind::Colon) {
            Err(e) => Err(e),
            Ok(p1) => match (if ts[p1].kind == SchemaTokKind::LBrace {
                match record_fields(ts, p1) {
                    Err(e) => Err(e),
                    Ok((fs, p)) => Ok((Some(fs), p)),
                }
            } else {
                match type_expr(ts, p1) {
                    Err(e) => Err(e),
                    Ok((_, p)) => Ok((context, p)),
                }
            }) {
                Err(e) => Err(e),
                Ok((ctx, p2)) => {
                    let p3 = if ts[p2].kind == SchemaTokKind::Comma {
                        p2 + 1
                    } else {
                        p2
                    };
                    if pos < p3 {
                        applies_items(ts, p3, actors, resources, ctx)
                    } else {
                        Err(no_error())
                    }
                },
            },
        }
    } else {
        Err(
            serr(
                ts,
                pos,
                "expected 'principal', 'resource', or 'context' in appliesTo, got "@
                    + schema_tok_debug(ts[pos]),
            ),
        )
    }
}

pub open spec fn applies_to(ts: Seq<SSchemaTok>, pos: int) -> Result<(SAppliesTo, int), SError> {
    match expect_tok(ts, pos, SchemaTokKind::LBrace) {
        Err(e) => Err(e),
        Ok(p1) => applies_items(ts, p1, Seq::empty(), Seq::empty(), None),
    }
}

/// `action "a", b in [parents] appliesTo { ... };`: one action per name; the
/// parents are read and dropped.
pub open spec fn actions(ts: Seq<SSchemaTok>, pos: int) -> Result<(Seq<SAction>, int), SError> {
    match expect_word(ts, pos, "action"@) {
        Err(e) => Err(e),
        Ok(p1) => match consume_name(ts, p1) {
            Err(e) => Err(e),
            Ok((first, p2)) => match names_tail(ts, p2, seq![first]) {
                Err(e) => Err(e),
                Ok((names, p3)) => action_rest(ts, names, p3),
            },
        },
    }
}

/// After the names of an action declaration: optional parents, optional
/// `appliesTo`, then `;`.
pub open spec fn action_rest(ts: Seq<SSchemaTok>, names: Seq<Seq<char>>, p3: int) -> Result<
    (Seq<SAction>, int),
    SError,
> {
    match (if at_word(ts, p3, "in"@) {
        match ref_or_refs(ts, p3 + 1) {
            Err(e) => Err(e),
            Ok((_, p)) => Ok(p),
        }
    } else {
        Ok(p3)
    }) {
        Err(e) => Err(e),
        Ok(p4) => match (if at_word(ts, p4, "appliesTo"@) {
            match applies_to(ts, p4 + 1) {
                Err(e) => Err(e),
                Ok((a, p)) => Ok((Some(a), p)),
            }
        } else {
            Ok((None, p4))
        }) {
            Err(e) => Err(e),
            Ok((applies, p5)) => match expect_tok(ts, p5, SchemaTokKind::Semi) {
                Err(e) => Err(e),
                Ok(p6) => Ok(
                    (
                        names.map_values(|n: Seq<char>| SAction { name: n, applies_to: applies }),
                        p6,
                    ),
                ),
            },
        },
    }
}

/// `type Name = Type;`: an abstract type whose fields are those of the type
/// when it is a record, and none otherwise.
pub open spec fn type_decl(ts: Seq<SSchemaTok>, pos: int) -> Result<(SAbstract, int), SError> {
    match expect_word(ts, pos, "type"@) {
        Err(e) => Err(e),
        Ok(p1) => match consume_ident(ts, p1) {
            Err(e) => Err(e),
            Ok((name, p2)) => match expect_tok(ts, p2, SchemaTokKind::Assign) {
                Err(e) => Err(e),
                Ok(p3) => match type_expr(ts, p3) {
                    Err(e) => Err(e),
                    Ok((ty, p4)) => match expect_tok(ts, p4, SchemaTokKind::Semi) {
                        Err(e) => Err(e),
                        Ok(p5) => Ok(
                            (
                                SAbstract {
                                    name,
                                    fields: match ty {
                                        SType::Record(fs) => fs,
                                        _ => Seq::empty(),
                                    },
                                },
                                p5,
                            ),
                        ),
                    },
                },
            },
        },
    }
}

/// What one declaration adds to a module.
pub enum SDecls {
    Entities(Seq<SEntity>),
    Actions(Seq<SAction>),
    TypeDecl(SAbstract),
}

#[verifier::opaque]
pub open spec fn decl(ts: Seq<SSchemaTok>, pos: int) -> Result<(SDecls, int), SError> {
    if at_word(ts, pos, "entity"@) {
        match entities(ts, pos) {
            Err(e) => Err(e),
            Ok((es, p)) => Ok((SDecls::Entities(es), p)),
        }
    } else if at_word(ts, pos, "action"@) {
        match actions(ts, pos) {
            Err(e) => Err(e),
            Ok((acts, p)) => Ok((SDecls::Actions(acts), p)),
        }
    } else if at_word(ts, pos, "type"@) {
        match type_decl(ts, pos) {
            Err(e) => Err(e),
            Ok((t, p)) => Ok((SDecls::TypeDecl(t), p)),
        }
    } else {
        Err(
            serr(
                ts,
                pos,
                "expected 'entity', 'action', or 'type', got "@ + schema_tok_debug(ts[pos]),
            ),
        )
    }
}

/// The module with a declaration's definitions added at the end.
pub open spec fn add_decls(m: SModule, d: SDecls) -> SModule {
    match d {
        SDecls::Entities(es) => SModule { entities: m.entities + es, ..m },
        SDecls::Actions(acts) => SModule { actions: m.actions + acts, ..m },
        SDecls::TypeDecl(t) => SModule { abstracts: m.abstracts.push(t), ..m },
    }
}

pub open spec fn empty_smodule(name: Option<Seq<char>>) -> SModule {
    SModule { name, entities: Seq::empty(), actions: Seq::empty(), abstracts: Seq::empty() }
}

/// The declarations of a namespace from `pos` up to and past `}`, added to `m`.
pub open spec fn namespace_body(ts: Seq<SSchemaTok>, pos: int, m: SModule) -> Result<
    (SModule, int),
    SError,
>
    decreases srem(ts, pos),
{
    if !(0 <= pos < ts.len()) {
        Err(no_error())
    } else if ts[pos].kind == SchemaTokKind::RBrace {
        Ok((m, pos + 1))
    } else {
        match skip_annotations(ts, pos) {
            Err(e) => Err(e),
            Ok(p1) => if ts[p1].kind == SchemaTokKind::RBrace {
                Ok((m, p1 + 1))
            } else {
                match decl(ts, p1) {
                    Err(e) => Err(e),
                    Ok((d, p2)) => if pos < p2 {
                        namespace_body(ts, p2, add_decls(m, d))
                    } else {
                        Err(no_error())
                    },
                }
            },
        }
    }
}

/// `namespace A::B { ... }`, with an optional `;` after it.
pub open spec fn namespace(ts: Seq<SSchemaTok>, pos: int) -> Result<(SModule, int), SError> {
    match expect_word(ts, pos, "namespace"@) {
        Err(e) => Err(e),
        Ok(p1) => match schema_path(ts, p1) {
            Err(e) => Err(e),
            Ok((name, p2)) => match expect_tok(ts, p2, SchemaTokKind::LBrace) {
                Err(e) => Err(e),
                Ok(p3) => match namespace_body(ts, p3, empty_smodule(Some(name))) {
                    Err(e) => Err(e),
                    Ok((m, p4)) => Ok(
                        (
                            m,
                            if ts[p4].kind == SchemaTokKind::Semi {
                                p4 + 1
                            } else {
                                p4
                            },
                        ),
                    ),
                },
            },
        },
    }
}

/// The modules with a top-level declaration added: to the last module when it
/// is unnamed, else to a new unnamed one.
pub open spec fn add_top_level(ms: Seq<SModule>, d: SDecls) -> Seq<SModule> {
    let ms1 = if ms.len() == 0 || ms.last().name is Some {
        ms.push(empty_smodule(None))
    } else {
        ms
    };
    ms1.drop_last().push(add_decls(ms1.last(), d))
}

/// The modules of the schema from `pos` on, after `ms`.
pub open spec fn schema_items(ts: Seq<SSchemaTok>, pos: int, ms: Seq<SModule>) -> Result<
    Seq<SModule>,
    SError,
>
    decreases srem(ts, pos),
{
    if !(0 <= pos < ts.len()) {
        Err(no_error())
    } else if ts[pos].kind == SchemaTokKind::Eof {
        Ok(ms)
    } else {
        match skip_annotations(ts, pos) {
            Err(e) => Err(e),
            Ok(p1) => if at_word(ts, p1, "namespace"@) {
                match namespace(ts, p1) {
                    Err(e) => Err(e),
                    Ok((m, p2)) => if pos < p2 {
                        schema_items(ts, p2, ms.push(m))
                    } else {
                        Err(no_error())
                    },
                }
            } else if at_word(ts, p1, "entity"@) || at_word(ts, p1, "action"@) || at_word(
                ts,
                p1,
                "type"@,
            ) {
                match decl(ts, p1) {
                    Err(e) => Err(e),
                    Ok((d, p2)) => if pos < p2 {
                        schema_items(ts, p2, add_top_level(ms, d))
                    } else {
                        Err(no_error())
                    },
                }
            } else if ts[p1].kind == SchemaTokKind::Eof {
                Ok(ms)
            } else {
                Err(
                    serr(
                        ts,
                        p1,
                        "expected 'namespace', 'entity', 'action', or 'type', got "@
                            + schema_tok_debug(ts[p1]),
                    ),
                )
            },
        }
    }
}

/// What parsing a schema text yields: its modules, or the first error.
pub open spec fn parse_schema_spec(cs: Seq<char>) -> Result<Seq<SModule>, SError> {
    match lex_schema_spec(cs) {
        Err(e) => Err(e),
        Ok(ts) => schema_items(ts, 0, Seq::empty()),
    }
}

} // verus!
