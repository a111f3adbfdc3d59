//! Schema checks of rule and assertion bodies, for a file with `use schema;`:
//! a field read on `actor`/`principal` or `resource` needs a type guard
//! (`actor is User and ...`, or a type parameter of the assertion) naming an
//! entity with that field; a comparison of values of different schema types
//! is suspect; an `is` guard must name a type of the right kind.
use vstd::prelude::*;
use crate::ast::{ExprAst, PathAst, PathSegmentAst, PatternAst, Program, SExprAst, SPattern, SProgram, expr_asts_view};
use crate::json::JsonV;
use crate::lsp_core::Severity;
use crate::path::SegV;
use crate::schema::{
    AbstractDef, EntityDef, EntityKind, FieldDef, ModuleDef, SAbstract, SEntity, SField, SModule, SType, TypeRef,
    fields_view, field_view, lemma_fields_view_n, modules_view,
};
use crate::json::str_eq;
use crate::text::{lowercase, to_lowercase, strings_view};
use crate::ast::{SRule, asserts_view, rules_view};
use crate::schema::SAssert;
use crate::json::Value;

verus! {

/// The type a path or pattern has by the schema.
pub enum SRType {
    Entity(Seq<char>),
    Primitive(Seq<char>),
    SetOf(Box<SRType>),
    Unknown,
}

/// A finding of the schema checks: how grave, what, and the source text it
/// is about (`root.field`, the root of a compared path, or `root is Type`).
pub struct SFinding {
    pub severity: Severity,
    pub message: Seq<char>,
    pub anchor: Seq<char>,
}

// ----------------------------------------------------------------------------
// Fields of entities
// ----------------------------------------------------------------------------

/// The entities of the first `n` modules, in order.
pub open spec fn all_entities(mv: Seq<SModule>, n: nat) -> Seq<SEntity>
    decreases n,
{
    if n == 0 || n > mv.len() {
        Seq::empty()
    } else {
        all_entities(mv, (n - 1) as nat) + mv[n - 1].entities
    }
}

/// The abstracts of the first `n` modules, in order.
pub open spec fn all_abstracts(mv: Seq<SModule>, n: nat) -> Seq<SAbstract>
    decreases n,
{
    if n == 0 || n > mv.len() {
        Seq::empty()
    } else {
        all_abstracts(mv, (n - 1) as nat) + mv[n - 1].abstracts
    }
}

/// The fields of the last abstract named `name`.
pub open spec fn abstract_fields(abs: Seq<SAbstract>, name: Seq<char>) -> Option<Seq<SField>>
    decreases abs.len(),
{
    if abs.len() == 0 {
        None
    } else if abs.last().name == name {
        Some(abs.last().fields)
    } else {
        abstract_fields(abs.drop_last(), name)
    }
}

/// The fields the first `n` traits bring.
pub open spec fn trait_fields(traits: Seq<Seq<char>>, abs: Seq<SAbstract>, n: nat) -> Seq<SField>
    decreases n,
{
    if n == 0 || n > traits.len() {
        Seq::empty()
    } else {
        trait_fields(traits, abs, (n - 1) as nat) + match abstract_fields(abs, traits[n - 1]) {
            Some(fs) => fs,
            None => Seq::empty(),
        }
    }
}

/// An entity's fields: its own, then those of its traits (a later one
/// counts where names repeat).
pub open spec fn entity_field_list(e: SEntity, abs: Seq<SAbstract>) -> Seq<SField> {
    e.fields + trait_fields(e.traits, abs, e.traits.len())
}

/// The last entity named `name`.
pub open spec fn last_entity(ents: Seq<SEntity>, name: Seq<char>) -> Option<SEntity>
    decreases ents.len(),
{
    if ents.len() == 0 {
        None
    } else if ents.last().name == name {
        Some(ents.last())
    } else {
        last_entity(ents.drop_last(), name)
    }
}

/// The type of the last field named `f`.
pub open spec fn field_in(fs: Seq<SField>, f: Seq<char>) -> Option<SType>
    decreases fs.len(),
{
    if fs.len() == 0 {
        None
    } else if fs.last().name == f {
        Some(fs.last().ty)
    } else {
        field_in(fs.drop_last(), f)
    }
}

/// The type of field `f` of the first abstract (from `i` on) named `name`
/// that has it.
pub open spec fn abstract_field(abs: Seq<SAbstract>, name: Seq<char>, f: Seq<char>, i: int) -> Option<SType>
    decreases abs.len() - i,
{
    if i < 0 || i >= abs.len() {
        None
    } else if abs[i].name == name && first_field(abs[i].fields, f, 0) is Some {
        first_field(abs[i].fields, f, 0)
    } else {
        abstract_field(abs, name, f, i + 1)
    }
}

/// The type of the first field (from `i` on) named `f`.
pub open spec fn first_field(fs: Seq<SField>, f: Seq<char>, i: int) -> Option<SType>
    decreases fs.len() - i,
{
    if i < 0 || i >= fs.len() {
        None
    } else if fs[i].name == f {
        Some(fs[i].ty)
    } else {
        first_field(fs, f, i + 1)
    }
}

/// The type of field `f` of the type named `ename`: the entity's own or
/// inherited field, else an abstract's.
pub open spec fn lookup_field_type(mv: Seq<SModule>, ename: Seq<char>, f: Seq<char>) -> Option<SType> {
    let abs = all_abstracts(mv, mv.len());
    let own = match last_entity(all_entities(mv, mv.len()), ename) {
        Some(e) => field_in(entity_field_list(e, abs), f),
        None => None,
    };
    match own {
        Some(t) => Some(t),
        None => abstract_field(abs, ename, f, 0),
    }
}

/// How a schema type reads for comparisons.
pub open spec fn type_resolved(t: SType) -> SRType
    decreases t,
{
    match t {
        SType::Named(n) => {
            let l = lowercase(n);
            if l == "string"@ {
                SRType::Primitive("String"@)
            } else if l == "long"@ {
                SRType::Primitive("Long"@)
            } else if l == "boolean"@ {
                SRType::Primitive("Boolean"@)
            } else {
                SRType::Entity(n)
            }
        },
        SType::SetOf(inner) => SRType::SetOf(Box::new(type_resolved(*inner))),
        _ => SRType::Unknown,
    }
}

/// `principal` is the actor.
pub open spec fn canonical(root: Seq<char>) -> Seq<char> {
    if root == "principal"@ {
        "actor"@
    } else {
        root
    }
}

/// The type `k` is narrowed to: the last guard for it.
pub open spec fn narrow_lookup(nar: Seq<(Seq<char>, Seq<char>)>, k: Seq<char>) -> Option<Seq<char>>
    decreases nar.len(),
{
    if nar.len() == 0 {
        None
    } else if nar.last().0 == k {
        Some(nar.last().1)
    } else {
        narrow_lookup(nar.drop_last(), k)
    }
}

/// The type reached by the fields `segs[i..]` from the type named `cur`.
pub open spec fn walk_type(segs: Seq<SegV>, mv: Seq<SModule>, cur: Seq<char>, i: int) -> SRType
    decreases segs.len() - i,
{
    if i < 0 || i >= segs.len() {
        SRType::Unknown
    } else {
        match segs[i] {
            SegV::Field(f) => match lookup_field_type(mv, cur, f) {
                Some(ty) => {
                    let r = type_resolved(ty);
                    if i == segs.len() - 1 {
                        r
                    } else {
                        match r {
                            SRType::Entity(n) => walk_type(segs, mv, n, i + 1),
                            _ => SRType::Unknown,
                        }
                    }
                },
                None => SRType::Unknown,
            },
            _ => SRType::Unknown,
        }
    }
}

/// Whether `c` is a root the checks look at.
pub open spec fn checked_root(c: Seq<char>) -> bool {
    c == "actor"@ || c == "resource"@
}

/// The type of a path: the fields walked from the type its root is narrowed
/// to; unknown for other roots, a bare root, or an unguarded root.
pub open spec fn path_type(segs: Seq<SegV>, nar: Seq<(Seq<char>, Seq<char>)>, mv: Seq<SModule>) -> SRType {
    if segs.len() < 2 {
        SRType::Unknown
    } else {
        match segs[0] {
            SegV::Field(r) => if !checked_root(canonical(r)) {
                SRType::Unknown
            } else {
                match narrow_lookup(nar, canonical(r)) {
                    Some(t) => walk_type(segs, mv, t, 1),
                    None => SRType::Unknown,
                }
            },
            _ => SRType::Unknown,
        }
    }
}

/// The type of a pattern: of a literal string, number or boolean, or of a
/// path it refers to.
pub open spec fn pattern_type(p: SPattern, nar: Seq<(Seq<char>, Seq<char>)>, mv: Seq<SModule>) -> SRType {
    match p {
        SPattern::Literal(JsonV::Str(_)) => SRType::Primitive("String"@),
        SPattern::Literal(JsonV::Number(_)) => SRType::Primitive("Long"@),
        SPattern::Literal(JsonV::Bool(_)) => SRType::Primitive("Boolean"@),
        SPattern::PathRef(s) => path_type(s, nar, mv),
        _ => SRType::Unknown,
    }
}

/// How a type prints.
pub open spec fn display(t: SRType) -> Seq<char>
    decreases t,
{
    match t {
        SRType::Entity(n) => n,
        SRType::Primitive(n) => n,
        SRType::SetOf(inner) => "Set<"@ + display(*inner) + ">"@,
        SRType::Unknown => "unknown"@,
    }
}

/// What is wrong with comparing values of these types, if anything.
pub open spec fn compat_message(l: SRType, r: SRType) -> Option<Seq<char>> {
    if l is Unknown || r is Unknown {
        None
    } else if l is Entity && r is Entity {
        None
    } else if l == r {
        None
    } else if l is Primitive && r is Primitive {
        Some("Type mismatch: comparing "@ + display(l) + " with "@ + display(r))
    } else if l is Entity && r is Primitive {
        Some("Type mismatch: comparing entity type '"@ + display(l) + "' with "@ + display(r) + " literal"@)
    } else if l is Primitive && r is Entity {
        Some("Type mismatch: comparing "@ + display(l) + " with entity type '"@ + display(r) + "'"@)
    } else {
        None
    }
}

/// The kind of the entity named `name`: looking through the modules from
/// `i` on, in the first that declares it as an entity or abstract; an
/// abstract has no kind.
pub open spec fn kind_for(mv: Seq<SModule>, name: Seq<char>, i: int) -> Option<EntityKind>
    decreases mv.len() - i,
{
    if i < 0 || i >= mv.len() {
        None
    } else {
        match first_entity(mv[i].entities, name, 0) {
            Some(k) => Some(k),
            None => if has_abstract(mv[i].abstracts, name) {
                None
            } else {
                kind_for(mv, name, i + 1)
            },
        }
    }
}

/// The kind of the first entity (from `i` on) named `name`.
pub open spec fn first_entity(es: Seq<SEntity>, name: Seq<char>, i: int) -> Option<EntityKind>
    decreases es.len() - i,
{
    if i < 0 || i >= es.len() {
        None
    } else if es[i].name == name {
        Some(es[i].kind)
    } else {
        first_entity(es, name, i + 1)
    }
}

pub open spec fn has_abstract(abs: Seq<SAbstract>, name: Seq<char>) -> bool {
    exists|k: int| 0 <= k < abs.len() && abs[k].name == name
}

// ----------------------------------------------------------------------------
// Findings
// ----------------------------------------------------------------------------

/// The finding of a field read `root.field`, if any.
pub open spec fn path_findings(segs: Seq<SegV>, nar: Seq<(Seq<char>, Seq<char>)>, mv: Seq<SModule>) -> Seq<
    SFinding,
> {
    if segs.len() < 2 {
        Seq::empty()
    } else {
        match (segs[0], segs[1]) {
            (SegV::Field(root), SegV::Field(f)) => {
                let c = canonical(root);
                if !checked_root(c) || f == "id"@ {
                    Seq::empty()
                } else {
                    let anchor = root + "."@ + f;
                    match narrow_lookup(nar, c) {
                        Some(t) => {
                            let abs = all_abstracts(mv, mv.len());
                            let has_field = match last_entity(all_entities(mv, mv.len()), t) {
                                Some(e) => field_in(entity_field_list(e, abs), f) is Some,
                                None => false,
                            };
                            if has_field || abstract_field(abs, t, f, 0) is Some {
                                Seq::empty()
                            } else {
                                seq![
                                    SFinding {
                                        severity: Severity::Error,
                                        message: "Field '"@ + f + "' does not exist on type '"@ + t + "'"@,
                                        anchor,
                                    },
                                ]
                            }
                        },
                        None => seq![
                            SFinding {
                                severity: Severity::Error,
                                message: "Field '"@ + f + "' on '"@ + root + "' requires a type guard - base "@ + root
                                    + " has no fields. Use '"@ + root
                                    + " is <Type> and ...' or add type parameter to assert"@,
                                anchor,
                            },
                        ],
                    }
                }
            },
            _ => Seq::empty(),
        }
    }
}

/// The findings of the path a pattern refers to.
pub open spec fn pattern_path_findings(p: SPattern, nar: Seq<(Seq<char>, Seq<char>)>, mv: Seq<SModule>) -> Seq<
    SFinding,
> {
    match p {
        SPattern::PathRef(s) => path_findings(s, nar, mv),
        _ => Seq::empty(),
    }
}

/// The root name of a path, or nothing.
pub open spec fn head_text(segs: Seq<SegV>) -> Seq<char> {
    if segs.len() > 0 {
        match segs[0] {
            SegV::Field(r) => r,
            _ => Seq::empty(),
        }
    } else {
        Seq::empty()
    }
}

/// An article and kind.
pub open spec fn a_kind(actor: bool) -> Seq<char> {
    if actor {
        "an actor"@
    } else {
        "a resource"@
    }
}

/// The finding of an `is` guard, if any.
pub open spec fn guard_findings(segs: Seq<SegV>, t: Seq<char>, mv: Seq<SModule>) -> Seq<SFinding> {
    if segs.len() != 1 {
        Seq::empty()
    } else {
        match segs[0] {
            SegV::Field(root) => {
                let c = canonical(root);
                let anchor = root + " is "@ + t;
                match kind_for(mv, t, 0) {
                    Some(kind) => if (c == "actor"@ && kind == EntityKind::Resource) || (c == "resource"@
                        && kind == EntityKind::Actor) {
                        let type_is_actor = kind == EntityKind::Actor;
                        seq![
                            SFinding {
                                severity: Severity::Error,
                                message: "'"@ + root + "' cannot be '"@ + t + "' - '"@ + t + "' is "@ + a_kind(
                                    type_is_actor,
                                ) + " type, but "@ + root + " is "@ + a_kind(!type_is_actor) + " built-in"@,
                                anchor,
                            },
                        ]
                    } else {
                        Seq::empty()
                    },
                    None => if has_abstract(all_abstracts(mv, mv.len()), t) {
                        Seq::empty()
                    } else {
                        seq![
                            SFinding {
                                severity: Severity::Error,
                                message: "Unknown type '"@ + t
                                    + "' in type guard - no entity or abstract with this name is defined in the schema"@,
                                anchor,
                            },
                        ]
                    },
                }
            },
            _ => Seq::empty(),
        }
    }
}

/// The findings of an expression, in order, under the guards `nar`.
pub open spec fn expr_findings(e: SExprAst, nar: Seq<(Seq<char>, Seq<char>)>, mv: Seq<SModule>) -> Seq<SFinding>
    decreases e, 0nat,
{
    match e {
        SExprAst::And(es) => list_findings(es, nar, mv, es.len()),
        SExprAst::Or(es) => list_findings(es, nar, mv, es.len()),
        SExprAst::Not(x) => expr_findings(*x, nar, mv),
        SExprAst::Compare(path, _, pat) => path_findings(path, nar, mv) + pattern_path_findings(pat, nar, mv)
            + match compat_message(path_type(path, nar, mv), pattern_type(pat, nar, mv)) {
            Some(m) => seq![SFinding { severity: Severity::Warning, message: m, anchor: head_text(path) }],
            None => Seq::empty(),
        },
        SExprAst::In(pat, path) => path_findings(path, nar, mv) + pattern_path_findings(pat, nar, mv),
        SExprAst::InLiteral(path, _) => path_findings(path, nar, mv),
        SExprAst::Like(path, _) => path_findings(path, nar, mv),
        SExprAst::Forall(_, path, body) => path_findings(path, nar, mv) + expr_findings(*body, nar, mv),
        SExprAst::Exists(_, path, body) => path_findings(path, nar, mv) + expr_findings(*body, nar, mv),
        SExprAst::IsType(path, t) => guard_findings(path, t, mv),
        _ => Seq::empty(),
    }
}

/// The findings of the first `n` expressions, in order.
pub open spec fn list_findings(es: Seq<SExprAst>, nar: Seq<(Seq<char>, Seq<char>)>, mv: Seq<SModule>, n: nat) -> Seq<
    SFinding,
>
    decreases es, n,
{
    if n == 0 || n > es.len() {
        Seq::empty()
    } else {
        list_findings(es, nar, mv, (n - 1) as nat) + expr_findings(es[n - 1], nar, mv)
    }
}

/// The `is` guards of a conjunction: root (as `actor`/`resource`) and type.
pub open spec fn guards(e: SExprAst) -> Seq<(Seq<char>, Seq<char>)>
    decreases e, 0nat,
{
    match e {
        SExprAst::And(es) => guards_list(es, es.len()),
        SExprAst::IsType(path, t) => if path.len() == 1 {
            match path[0] {
                SegV::Field(r) => seq![(canonical(r), t)],
                _ => Seq::empty(),
            }
        } else {
            Seq::empty()
        },
        _ => Seq::empty(),
    }
}

pub open spec fn guards_list(es: Seq<SExprAst>, n: nat) -> Seq<(Seq<char>, Seq<char>)>
    decreases es, n,
{
    if n == 0 || n > es.len() {
        Seq::empty()
    } else {
        guards_list(es, (n - 1) as nat) + guards(es[n - 1])
    }
}

/// What the type parameters of an assertion narrow: an actor type narrows
/// `actor`, a resource type or an abstract `resource`; `action` and
/// `context` narrow nothing.
pub open spec fn param_guards(params: Seq<Seq<char>>, mv: Seq<SModule>, n: nat) -> Seq<(Seq<char>, Seq<char>)>
    decreases n,
{
    if n == 0 || n > params.len() {
        Seq::empty()
    } else {
        let prev = param_guards(params, mv, (n - 1) as nat);
        let p = params[n - 1];
        let l = lowercase(p);
        if l == "action"@ || l == "context"@ {
            prev
        } else {
            match kind_for(mv, p, 0) {
                Some(EntityKind::Actor) => prev.push(("actor"@, p)),
                Some(EntityKind::Resource) => prev.push(("resource"@, p)),
                None => prev + abstract_guards(all_abstracts(mv, mv.len()), p, 0),
            }
        }
    }
}

/// One `resource` guard for each abstract (from `i` on) named `p`.
pub open spec fn abstract_guards(abs: Seq<SAbstract>, p: Seq<char>, i: int) -> Seq<(Seq<char>, Seq<char>)>
    decreases abs.len() - i,
{
    if i < 0 || i >= abs.len() {
        Seq::empty()
    } else {
        (if abs[i].name == p {
            seq![("resource"@, p)]
        } else {
            Seq::empty()
        }) + abstract_guards(abs, p, i + 1)
    }
}

// ----------------------------------------------------------------------------
// Looking up, computed
// ----------------------------------------------------------------------------

pub proof fn lemma_field_in_concat(a: Seq<SField>, b: Seq<SField>, f: Seq<char>)
    ensures
        field_in(a + b, f) == (if field_in(b, f) is Some {
            field_in(b, f)
        } else {
            field_in(a, f)
        }),
    decreases b.len(),
{
    if b.len() > 0 {
        assert((a + b).drop_last() =~= a + b.drop_last());
        lemma_field_in_concat(a, b.drop_last(), f);
    } else {
        assert(a + b =~= a);
    }
}

/// The entities of the modules, in order.
fn flat_entities<'a>(mods: &'a Vec<ModuleDef>) -> (r: Vec<&'a EntityDef>)
    ensures
        r@.map_values(|e: &EntityDef| e@) == all_entities(modules_view(mods@), mods.len() as nat),
{
    let ghost mv = modules_view(mods@);
    let mut r: Vec<&'a EntityDef> = Vec::new();
    let mut m: usize = 0;
    assert(r@.map_values(|e: &EntityDef| e@) =~= Seq::<SEntity>::empty());
    while m < mods.len()
        invariant
            m <= mods.len(),
            mv == modules_view(mods@),
            r@.map_values(|e: &EntityDef| e@) == all_entities(mv, m as nat),
        decreases mods.len() - m,
    {
        let ents = &mods[m].entities;
        let ghost before = r@.map_values(|e: &EntityDef| e@);
        let mut k: usize = 0;
        while k < ents.len()
            invariant
                k <= ents.len(),
                r@.map_values(|e: &EntityDef| e@) == before + ents@.take(k as int).map_values(|e: EntityDef| e@),
            decreases ents.len() - k,
        {
            let ghost prev = r@;
            r.push(&ents[k]);
            assert(r@.map_values(|e: &EntityDef| e@) =~= before + ents@.take(k + 1).map_values(|e: EntityDef| e@))
                by {
                assert(ents@.take(k + 1).map_values(|e: EntityDef| e@) =~= ents@.take(k as int).map_values(
                    |e: EntityDef| e@,
                ).push(ents@[k as int]@));
                assert(r@.map_values(|e: &EntityDef| e@) =~= prev.map_values(|e: &EntityDef| e@).push(
                    ents@[k as int]@,
                ));
            }
            k += 1;
        }
        assert(ents@.take(ents.len() as int) =~= ents@);
        assert(mv[m as int].entities == ents@.map_values(|e: EntityDef| e@));
        m += 1;
    }
    r
}

/// The abstracts of the modules, in order.
fn flat_abstracts<'a>(mods: &'a Vec<ModuleDef>) -> (r: Vec<&'a AbstractDef>)
    ensures
        r@.map_values(|e: &AbstractDef| e@) == all_abstracts(modules_view(mods@), mods.len() as nat),
{
    let ghost mv = modules_view(mods@);
    let mut r: Vec<&'a AbstractDef> = Vec::new();
    let mut m: usize = 0;
    assert(r@.map_values(|e: &AbstractDef| e@) =~= Seq::<SAbstract>::empty());
    while m < mods.len()
        invariant
            m <= mods.len(),
            mv == modules_view(mods@),
            r@.map_values(|e: &AbstractDef| e@) == all_abstracts(mv, m as nat),
        decreases mods.len() - m,
    {
        let abs = &mods[m].abstracts;
        let ghost before = r@.map_values(|e: &AbstractDef| e@);
        let mut k: usize = 0;
        while k < abs.len()
            invariant
                k <= abs.len(),
                r@.map_values(|e: &AbstractDef| e@) == before + abs@.take(k as int).map_values(|e: AbstractDef| e@),
            decreases abs.len() - k,
        {
            let ghost prev = r@;
            r.push(&abs[k]);
            assert(r@.map_values(|e: &AbstractDef| e@) =~= before + abs@.take(k + 1).map_values(|e: AbstractDef| e@))
                by {
                assert(abs@.take(k + 1).map_values(|e: AbstractDef| e@) =~= abs@.take(k as int).map_values(
                    |e: AbstractDef| e@,
                ).push(abs@[k as int]@));
                assert(r@.map_values(|e: &AbstractDef| e@) =~= prev.map_values(|e: &AbstractDef| e@).push(
                    abs@[k as int]@,
                ));
            }
            k += 1;
        }
        assert(abs@.take(abs.len() as int) =~= abs@);
        assert(mv[m as int].abstracts == abs@.map_values(|e: AbstractDef| e@));
        m += 1;
    }
    r
}

fn last_entity_exec<'a>(ents: &Vec<&'a EntityDef>, name: &str) -> (r: Option<&'a EntityDef>)
    ensures
        match r {
            Some(e) => last_entity(ents@.map_values(|e: &EntityDef| e@), name@) == Some(e@),
            None => last_entity(ents@.map_values(|e: &EntityDef| e@), name@) is None,
        },
{
    let ghost ev = ents@.map_values(|e: &EntityDef| e@);
    let mut i = ents.len();
    assert(ev.take(i as int) =~= ev);
    while i > 0
        invariant
            i <= ents.len(),
            ev == ents@.map_values(|e: &EntityDef| e@),
            last_entity(ev, name@) == last_entity(ev.take(i as int), name@),
        decreases i,
    {
        assert(ev.take(i as int).drop_last() =~= ev.take(i - 1));
        assert(ev.take(i as int).last() == ents@[i - 1]@);
        if str_eq(ents[i - 1].name.as_str(), name) {
            return Some(ents[i - 1]);
        }
        i -= 1;
    }
    None
}

fn abstract_fields_exec<'a>(abs: &Vec<&'a AbstractDef>, name: &str) -> (r: Option<&'a Vec<FieldDef>>)
    ensures
        match r {
            Some(fs) => abstract_fields(abs@.map_values(|e: &AbstractDef| e@), name@) == Some(fields_view(fs@)),
            None => abstract_fields(abs@.map_values(|e: &AbstractDef| e@), name@) is None,
        },
{
    let ghost av = abs@.map_values(|e: &AbstractDef| e@);
    let mut i = abs.len();
    assert(av.take(i as int) =~= av);
    while i > 0
        invariant
            i <= abs.len(),
            av == abs@.map_values(|e: &AbstractDef| e@),
            abstract_fields(av, name@) == abstract_fields(av.take(i as int), name@),
        decreases i,
    {
        assert(av.take(i as int).drop_last() =~= av.take(i - 1));
        assert(av.take(i as int).last() == abs@[i - 1]@);
        if str_eq(abs[i - 1].name.as_str(), name) {
            return Some(&abs[i - 1].fields);
        }
        i -= 1;
    }
    None
}

/// The type of the last field named `f`.
fn field_in_exec<'a>(fs: &'a Vec<FieldDef>, f: &str) -> (r: Option<&'a TypeRef>)
    ensures
        match r {
            Some(t) => field_in(fields_view(fs@), f@) == Some(t@),
            None => field_in(fields_view(fs@), f@) is None,
        },
{
    let ghost fv = fields_view(fs@);
    proof {
        lemma_fields_view_n(fs@, fs@.len());
    }
    let mut i = fs.len();
    assert(fv.take(i as int) =~= fv);
    while i > 0
        invariant
            i <= fs.len(),
            fv == fields_view(fs@),
            fv.len() == fs.len(),
            forall|k: int| 0 <= k < fs.len() ==> #[trigger] fv[k] == field_view(fs@[k]),
            field_in(fv, f@) == field_in(fv.take(i as int), f@),
        decreases i,
    {
        assert(fv.take(i as int).drop_last() =~= fv.take(i - 1));
        assert(fv.take(i as int).last() == fv[i - 1]);
        if str_eq(fs[i - 1].name.as_str(), f) {
            return Some(&fs[i - 1].ty);
        }
        i -= 1;
    }
    None
}

/// The type of the first field named `f`.
fn first_field_exec<'a>(fs: &'a Vec<FieldDef>, f: &str) -> (r: Option<&'a TypeRef>)
    ensures
        match r {
            Some(t) => first_field(fields_view(fs@), f@, 0) == Some(t@),
            None => first_field(fields_view(fs@), f@, 0) is None,
        },
{
    let ghost fv = fields_view(fs@);
    proof {
        lemma_fields_view_n(fs@, fs@.len());
    }
    let mut i: usize = 0;
    while i < fs.len()
        invariant
            i <= fs.len(),
            fv == fields_view(fs@),
            fv.len() == fs.len(),
            forall|k: int| 0 <= k < fs.len() ==> #[trigger] fv[k] == field_view(fs@[k]),
            first_field(fv, f@, 0) == first_field(fv, f@, i as int),
        decreases fs.len() - i,
    {
        if str_eq(fs[i].name.as_str(), f) {
            return Some(&fs[i].ty);
        }
        i += 1;
    }
    None
}

/// The type of field `f` of the first abstract named `name` that has it.
fn abstract_field_exec<'a>(abs: &Vec<&'a AbstractDef>, name: &str, f: &str) -> (r: Option<&'a TypeRef>)
    ensures
        match r {
            Some(t) => abstract_field(abs@.map_values(|e: &AbstractDef| e@), name@, f@, 0) == Some(t@),
            None => abstract_field(abs@.map_values(|e: &AbstractDef| e@), name@, f@, 0) is None,
        },
{
    let ghost av = abs@.map_values(|e: &AbstractDef| e@);
    let mut i: usize = 0;
    while i < abs.len()
        invariant
            i <= abs.len(),
            av == abs@.map_values(|e: &AbstractDef| e@),
            abstract_field(av, name@, f@, 0) == abstract_field(av, name@, f@, i as int),
        decreases abs.len() - i,
    {
        assert(av[i as int] == abs@[i as int]@);
        if str_eq(abs[i].name.as_str(), name) {
            match first_field_exec(&abs[i].fields, f) {
                Some(t) => return Some(t),
                None => {},
            }
        }
        i += 1;
    }
    None
}

/// The type of field `f` of an entity: its own or from a trait, the last
/// named so.
fn entity_field_exec<'a>(e: &'a EntityDef, abs: &Vec<&'a AbstractDef>, f: &str) -> (r: Option<&'a TypeRef>)
    ensures
        match r {
            Some(t) => field_in(entity_field_list(e@, abs@.map_values(|a: &AbstractDef| a@)), f@) == Some(t@),
            None => field_in(entity_field_list(e@, abs@.map_values(|a: &AbstractDef| a@)), f@) is None,
        },
{
    let ghost av = abs@.map_values(|a: &AbstractDef| a@);
    let ghost tv = e@.traits;
    let mut i = e.traits.len();
    proof {
        lemma_field_in_concat(e@.fields, trait_fields(tv, av, tv.len()), f@);
    }
    while i > 0
        invariant
            i <= e.traits.len(),
            av == abs@.map_values(|a: &AbstractDef| a@),
            tv == e@.traits,
            tv.len() == e.traits.len(),
            field_in(trait_fields(tv, av, tv.len()), f@) is Some ==> field_in(trait_fields(tv, av, tv.len()), f@)
                == field_in(trait_fields(tv, av, i as nat), f@),
            field_in(trait_fields(tv, av, tv.len()), f@) is None ==> field_in(trait_fields(tv, av, i as nat), f@) is None,
        decreases i,
    {
        assert(tv[i - 1] == e.traits@[i - 1]@);
        let ghost prev = trait_fields(tv, av, (i - 1) as nat);
        match abstract_fields_exec(abs, e.traits[i - 1].as_str()) {
            Some(fs) => {
                proof {
                    lemma_field_in_concat(prev, fields_view(fs@), f@);
                    assert(trait_fields(tv, av, i as nat) == prev + fields_view(fs@));
                    lemma_field_in_concat(e@.fields, trait_fields(tv, av, tv.len()), f@);
                }
                match field_in_exec(fs, f) {
                    Some(t) => {
                        return Some(t);
                    },
                    None => {},
                }
            },
            None => {
                assert(prev + Seq::<SField>::empty() =~= prev);
            },
        }
        i -= 1;
    }
    field_in_exec(&e.fields, f)
}

/// The type of field `f` of the type named `ename`.
fn lookup_field_exec<'a>(
    ents: &Vec<&'a EntityDef>,
    abs: &Vec<&'a AbstractDef>,
    ename: &str,
    f: &str,
    Ghost(mv): Ghost<Seq<SModule>>,
) -> (r: Option<&'a TypeRef>)
    requires
        ents@.map_values(|e: &EntityDef| e@) == all_entities(mv, mv.len()),
        abs@.map_values(|a: &AbstractDef| a@) == all_abstracts(mv, mv.len()),
    ensures
        match r {
            Some(t) => lookup_field_type(mv, ename@, f@) == Some(t@),
            None => lookup_field_type(mv, ename@, f@) is None,
        },
{
    match last_entity_exec(ents, ename) {
        Some(e) => match entity_field_exec(e, abs, f) {
            Some(t) => return Some(t),
            None => {},
        },
        None => {},
    }
    abstract_field_exec(abs, ename, f)
}

/// A type by the schema, computed.
#[derive(Debug)]
pub enum RType {
    Entity(String),
    Primitive(String),
    SetOf(Box<RType>),
    Unknown,
}

pub open spec fn rtype_view(t: RType) -> SRType
    decreases t,
{
    match t {
        RType::Entity(n) => SRType::Entity(n@),
        RType::Primitive(n) => SRType::Primitive(n@),
        RType::SetOf(b) => SRType::SetOf(Box::new(rtype_view(*b))),
        RType::Unknown => SRType::Unknown,
    }
}

impl View for RType {
    type V = SRType;

    open spec fn view(&self) -> SRType {
        rtype_view(*self)
    }
}

fn type_resolved_exec(t: &TypeRef) -> (r: RType)
    ensures
        r@ == type_resolved(t@),
    decreases t,
{
    match t {
        TypeRef::Named(n) => {
            let l = to_lowercase(n.as_str());
            if str_eq(l.as_str(), "string") {
                RType::Primitive(String::from_str("String"))
            } else if str_eq(l.as_str(), "long") {
                RType::Primitive(String::from_str("Long"))
            } else if str_eq(l.as_str(), "boolean") {
                RType::Primitive(String::from_str("Boolean"))
            } else {
                RType::Entity(n.clone())
            }
        },
        TypeRef::SetOf(inner) => RType::SetOf(Box::new(type_resolved_exec(inner))),
        _ => RType::Unknown,
    }
}

fn narrow_lookup_exec<'a>(nar: &'a Vec<(String, String)>, k: &str) -> (r: Option<&'a String>)
    ensures
        match r {
            Some(t) => narrow_lookup(nar_view(nar@), k@) == Some(t@),
            None => narrow_lookup(nar_view(nar@), k@) is None,
        },
{
    let ghost nv = nar_view(nar@);
    let mut i = nar.len();
    assert(nv.take(i as int) =~= nv);
    while i > 0
        invariant
            i <= nar.len(),
            nv == nar_view(nar@),
            narrow_lookup(nv, k@) == narrow_lookup(nv.take(i as int), k@),
        decreases i,
    {
        assert(nv.take(i as int).drop_last() =~= nv.take(i - 1));
        assert(nv.take(i as int).last() == (nar@[i - 1].0@, nar@[i - 1].1@));
        if str_eq(nar[i - 1].0.as_str(), k) {
            return Some(&nar[i - 1].1);
        }
        i -= 1;
    }
    None
}

/// The contents of the guards.
pub open spec fn nar_view(nar: Seq<(String, String)>) -> Seq<(Seq<char>, Seq<char>)> {
    nar.map_values(|p: (String, String)| (p.0@, p.1@))
}

fn canonical_exec(root: &String) -> (r: String)
    ensures
        r@ == canonical(root@),
{
    if str_eq(root.as_str(), "principal") {
        String::from_str("actor")
    } else {
        root.clone()
    }
}

fn checked_root_exec(c: &String) -> (r: bool)
    ensures
        r == checked_root(c@),
{
    str_eq(c.as_str(), "actor") || str_eq(c.as_str(), "resource")
}

/// The type of a path.
fn path_type_exec(
    path: &PathAst,
    nar: &Vec<(String, String)>,
    ents: &Vec<&EntityDef>,
    abs: &Vec<&AbstractDef>,
    Ghost(mv): Ghost<Seq<SModule>>,
) -> (r: RType)
    requires
        ents@.map_values(|e: &EntityDef| e@) == all_entities(mv, mv.len()),
        abs@.map_values(|a: &AbstractDef| a@) == all_abstracts(mv, mv.len()),
    ensures
        r@ == path_type(path@, nar_view(nar@), mv),
{
    let ghost segs = path@;
    if path.segments.len() < 2 {
        return RType::Unknown;
    }
    assert(segs[0] == path.segments@[0]@);
    let root = match &path.segments[0] {
        PathSegmentAst::Field(r) => r,
        _ => return RType::Unknown,
    };
    let c = canonical_exec(root);
    if !checked_root_exec(&c) {
        return RType::Unknown;
    }
    let start = match narrow_lookup_exec(nar, c.as_str()) {
        Some(t) => t,
        None => return RType::Unknown,
    };
    let mut cur: String = start.clone();
    let mut i: usize = 1;
    loop
        invariant
            1 <= i < path.segments.len(),
            segs == path@,
            segs.len() == path.segments.len(),
            ents@.map_values(|e: &EntityDef| e@) == all_entities(mv, mv.len()),
            abs@.map_values(|a: &AbstractDef| a@) == all_abstracts(mv, mv.len()),
            walk_type(segs, mv, cur@, i as int) == path_type(segs, nar_view(nar@), mv),
        decreases path.segments.len() - i,
    {
        assert(segs[i as int] == path.segments@[i as int]@);
        let f = match &path.segments[i] {
            PathSegmentAst::Field(f) => f,
            _ => return RType::Unknown,
        };
        match lookup_field_exec(ents, abs, cur.as_str(), f.as_str(), Ghost(mv)) {
            Some(ty) => {
                let r = type_resolved_exec(ty);
                if i == path.segments.len() - 1 {
                    return r;
                }
                match r {
                    RType::Entity(n) => {
                        cur = n;
                        i += 1;
                    },
                    _ => return RType::Unknown,
                }
            },
            None => return RType::Unknown,
        }
    }
}

/// The type of a pattern.
fn pattern_type_exec(
    p: &PatternAst,
    nar: &Vec<(String, String)>,
    ents: &Vec<&EntityDef>,
    abs: &Vec<&AbstractDef>,
    Ghost(mv): Ghost<Seq<SModule>>,
) -> (r: RType)
    requires
        ents@.map_values(|e: &EntityDef| e@) == all_entities(mv, mv.len()),
        abs@.map_values(|a: &AbstractDef| a@) == all_abstracts(mv, mv.len()),
    ensures
        r@ == pattern_type(p@, nar_view(nar@), mv),
{
    match p {
        PatternAst::Literal(Value::String(_)) => RType::Primitive(String::from_str("String")),
        PatternAst::Literal(Value::Number(_)) => RType::Primitive(String::from_str("Long")),
        PatternAst::Literal(Value::Bool(_)) => RType::Primitive(String::from_str("Boolean")),
        PatternAst::PathRef(q) => path_type_exec(q, nar, ents, abs, Ghost(mv)),
        _ => RType::Unknown,
    }
}

fn display_exec(t: &RType) -> (s: String)
    ensures
        s@ == display(t@),
    decreases t,
{
    match t {
        RType::Entity(n) => n.clone(),
        RType::Primitive(n) => n.clone(),
        RType::SetOf(inner) => {
            let mut s = String::from_str("Set<");
            s.append(display_exec(inner).as_str());
            s.append(">");
            s
        },
        RType::Unknown => String::from_str("unknown"),
    }
}

fn rtype_eq(a: &RType, b: &RType) -> (r: bool)
    ensures
        r == (a@ == b@),
    decreases a,
{
    match (a, b) {
        (RType::Entity(x), RType::Entity(y)) => str_eq(x.as_str(), y.as_str()),
        (RType::Primitive(x), RType::Primitive(y)) => str_eq(x.as_str(), y.as_str()),
        (RType::SetOf(x), RType::SetOf(y)) => rtype_eq(x, y),
        (RType::Unknown, RType::Unknown) => true,
        _ => false,
    }
}

fn compat_exec(l: &RType, r: &RType) -> (m: Option<String>)
    ensures
        match m {
            Some(x) => compat_message(l@, r@) == Some(x@),
            None => compat_message(l@, r@) is None,
        },
{
    let l_unknown = match l {
        RType::Unknown => true,
        _ => false,
    };
    let r_unknown = match r {
        RType::Unknown => true,
        _ => false,
    };
    if l_unknown || r_unknown {
        return None;
    }
    match (l, r) {
        (RType::Entity(_), RType::Entity(_)) => return None,
        _ => {},
    }
    if rtype_eq(l, r) {
        return None;
    }
    match (l, r) {
        (RType::Primitive(_), RType::Primitive(_)) => {
            let mut m = String::from_str("Type mismatch: comparing ");
            m.append(display_exec(l).as_str());
            m.append(" with ");
            m.append(display_exec(r).as_str());
            Some(m)
        },
        (RType::Entity(_), RType::Primitive(_)) => {
            let mut m = String::from_str("Type mismatch: comparing entity type '");
            m.append(display_exec(l).as_str());
            m.append("' with ");
            m.append(display_exec(r).as_str());
            m.append(" literal");
            Some(m)
        },
        (RType::Primitive(_), RType::Entity(_)) => {
            let mut m = String::from_str("Type mismatch: comparing ");
            m.append(display_exec(l).as_str());
            m.append(" with entity type '");
            m.append(display_exec(r).as_str());
            m.append("'");
            Some(m)
        },
        _ => None,
    }
}

/// A finding of the schema checks.
#[derive(Debug)]
pub struct Finding {
    pub severity: Severity,
    pub message: String,
    /// The source text the finding is about.
    pub anchor: String,
}

impl View for Finding {
    type V = SFinding;

    open spec fn view(&self) -> SFinding {
        SFinding { severity: self.severity, message: self.message@, anchor: self.anchor@ }
    }
}

pub open spec fn findings_view(v: Seq<Finding>) -> Seq<SFinding> {
    v.map_values(|f: Finding| f@)
}

fn push_finding(out: &mut Vec<Finding>, f: Finding)
    ensures
        findings_view(final(out)@) == findings_view(old(out)@).push(f@),
{
    let ghost v = f@;
    out.push(f);
    assert(findings_view(out@) =~= findings_view(old(out)@).push(v));
}

fn first_entity_exec(es: &Vec<EntityDef>, name: &str) -> (r: Option<EntityKind>)
    ensures
        r == first_entity(es@.map_values(|e: EntityDef| e@), name@, 0),
{
    let ghost ev = es@.map_values(|e: EntityDef| e@);
    let mut i: usize = 0;
    while i < es.len()
        invariant
            i <= es.len(),
            ev == es@.map_values(|e: EntityDef| e@),
            first_entity(ev, name@, 0) == first_entity(ev, name@, i as int),
        decreases es.len() - i,
    {
        assert(ev[i as int] == es@[i as int]@);
        if str_eq(es[i].name.as_str(), name) {
            return Some(es[i].kind);
        }
        i += 1;
    }
    None
}

fn has_abstract_in(abs: &Vec<AbstractDef>, name: &str) -> (r: bool)
    ensures
        r == has_abstract(abs@.map_values(|a: AbstractDef| a@), name@),
{
    let ghost av = abs@.map_values(|a: AbstractDef| a@);
    let mut i: usize = 0;
    while i < abs.len()
        invariant
            i <= abs.len(),
            av == abs@.map_values(|a: AbstractDef| a@),
            forall|k: int| 0 <= k < i ==> #[trigger] av[k].name != name@,
        decreases abs.len() - i,
    {
        assert(av[i as int] == abs@[i as int]@);
        if str_eq(abs[i].name.as_str(), name) {
            return true;
        }
        i += 1;
    }
    false
}

fn has_abstract_flat(abs: &Vec<&AbstractDef>, name: &str) -> (r: bool)
    ensures
        r == has_abstract(abs@.map_values(|a: &AbstractDef| a@), name@),
{
    let ghost av = abs@.map_values(|a: &AbstractDef| a@);
    let mut i: usize = 0;
    while i < abs.len()
        invariant
            i <= abs.len(),
            av == abs@.map_values(|a: &AbstractDef| a@),
            forall|k: int| 0 <= k < i ==> #[trigger] av[k].name != name@,
        decreases abs.len() - i,
    {
        assert(av[i as int] == abs@[i as int]@);
        if str_eq(abs[i].name.as_str(), name) {
            return true;
        }
        i += 1;
    }
    false
}

fn kind_for_exec(mods: &Vec<ModuleDef>, name: &str) -> (r: Option<EntityKind>)
    ensures
        r == kind_for(modules_view(mods@), name@, 0),
{
    let ghost mv = modules_view(mods@);
    let mut i: usize = 0;
    while i < mods.len()
        invariant
            i <= mods.len(),
            mv == modules_view(mods@),
            kind_for(mv, name@, 0) == kind_for(mv, name@, i as int),
        decreases mods.len() - i,
    {
        assert(mv[i as int] == mods@[i as int]@);
        match first_entity_exec(&mods[i].entities, name) {
            Some(k) => return Some(k),
            None => {
                if has_abstract_in(&mods[i].abstracts, name) {
                    return None;
                }
            },
        }
        i += 1;
    }
    None
}

/// The findings of a field read.
fn path_findings_exec(
    path: &PathAst,
    nar: &Vec<(String, String)>,
    ents: &Vec<&EntityDef>,
    abs: &Vec<&AbstractDef>,
    Ghost(mv): Ghost<Seq<SModule>>,
    out: &mut Vec<Finding>,
)
    requires
        ents@.map_values(|e: &EntityDef| e@) == all_entities(mv, mv.len()),
        abs@.map_values(|a: &AbstractDef| a@) == all_abstracts(mv, mv.len()),
    ensures
        findings_view(final(out)@) == findings_view(old(out)@) + path_findings(path@, nar_view(nar@), mv),
{
    let ghost segs = path@;
    if path.segments.len() < 2 {
        assert(findings_view(out@) + Seq::<SFinding>::empty() =~= findings_view(out@));
        return;
    }
    assert(segs[0] == path.segments@[0]@);
    assert(segs[1] == path.segments@[1]@);
    let (root, f) = match (&path.segments[0], &path.segments[1]) {
        (PathSegmentAst::Field(r), PathSegmentAst::Field(f)) => (r, f),
        _ => {
            assert(findings_view(out@) + Seq::<SFinding>::empty() =~= findings_view(out@));
            return;
        },
    };
    let c = canonical_exec(root);
    if !checked_root_exec(&c) || str_eq(f.as_str(), "id") {
        assert(findings_view(out@) + Seq::<SFinding>::empty() =~= findings_view(out@));
        return;
    }
    let mut anchor = root.clone();
    anchor.append(".");
    anchor.append(f.as_str());
    match narrow_lookup_exec(nar, c.as_str()) {
        Some(t) => {
            let has_field = match last_entity_exec(ents, t.as_str()) {
                Some(e) => entity_field_exec(e, abs, f.as_str()).is_some(),
                None => false,
            };
            if has_field || abstract_field_exec(abs, t.as_str(), f.as_str()).is_some() {
                assert(findings_view(out@) + Seq::<SFinding>::empty() =~= findings_view(out@));
                return;
            }
            let mut m = String::from_str("Field '");
            m.append(f.as_str());
            m.append("' does not exist on type '");
            m.append(t.as_str());
            m.append("'");
            let ghost before = findings_view(out@);
            push_finding(out, Finding { severity: Severity::Error, message: m, anchor });
            assert(findings_view(out@) =~= before + path_findings(segs, nar_view(nar@), mv));
        },
        None => {
            let mut m = String::from_str("Field '");
            m.append(f.as_str());
            m.append("' on '");
            m.append(root.as_str());
            m.append("' requires a type guard - base ");
            m.append(root.as_str());
            m.append(" has no fields. Use '");
            m.append(root.as_str());
            m.append(" is <Type> and ...' or add type parameter to assert");
            let ghost before = findings_view(out@);
            push_finding(out, Finding { severity: Severity::Error, message: m, anchor });
            assert(findings_view(out@) =~= before + path_findings(segs, nar_view(nar@), mv));
        },
    }
}

/// The findings of the path a pattern refers to.
fn pattern_path_findings_exec(
    p: &PatternAst,
    nar: &Vec<(String, String)>,
    ents: &Vec<&EntityDef>,
    abs: &Vec<&AbstractDef>,
    Ghost(mv): Ghost<Seq<SModule>>,
    out: &mut Vec<Finding>,
)
    requires
        ents@.map_values(|e: &EntityDef| e@) == all_entities(mv, mv.len()),
        abs@.map_values(|a: &AbstractDef| a@) == all_abstracts(mv, mv.len()),
    ensures
        findings_view(final(out)@) == findings_view(old(out)@) + pattern_path_findings(p@, nar_view(nar@), mv),
{
    match p {
        PatternAst::PathRef(q) => path_findings_exec(q, nar, ents, abs, Ghost(mv), out),
        _ => {
            assert(findings_view(out@) + Seq::<SFinding>::empty() =~= findings_view(out@));
        },
    }
}

fn a_kind_exec(actor: bool) -> (s: &'static str)
    ensures
        s@ == a_kind(actor),
{
    if actor {
        "an actor"
    } else {
        "a resource"
    }
}

/// The finding of an `is` guard.
fn guard_findings_exec(
    path: &PathAst,
    t: &String,
    mods: &Vec<ModuleDef>,
    abs: &Vec<&AbstractDef>,
    out: &mut Vec<Finding>,
)
    requires
        abs@.map_values(|a: &AbstractDef| a@) == all_abstracts(modules_view(mods@), mods.len() as nat),
    ensures
        findings_view(final(out)@) == findings_view(old(out)@) + guard_findings(path@, t@, modules_view(mods@)),
{
    let ghost segs = path@;
    let ghost mv = modules_view(mods@);
    if path.segments.len() != 1 {
        assert(findings_view(out@) + Seq::<SFinding>::empty() =~= findings_view(out@));
        return;
    }
    assert(segs[0] == path.segments@[0]@);
    let root = match &path.segments[0] {
        PathSegmentAst::Field(r) => r,
        _ => {
            assert(findings_view(out@) + Seq::<SFinding>::empty() =~= findings_view(out@));
            return;
        },
    };
    let c = canonical_exec(root);
    let mut anchor = root.clone();
    anchor.append(" is ");
    anchor.append(t.as_str());
    let ghost before = findings_view(out@);
    match kind_for_exec(mods, t.as_str()) {
        Some(kind) => {
            let mismatch = (str_eq(c.as_str(), "actor") && kind == EntityKind::Resource) || (str_eq(
                c.as_str(),
                "resource",
            ) && kind == EntityKind::Actor);
            if mismatch {
                let type_is_actor = kind == EntityKind::Actor;
                let mut m = String::from_str("'");
                m.append(root.as_str());
                m.append("' cannot be '");
                m.append(t.as_str());
                m.append("' - '");
                m.append(t.as_str());
                m.append("' is ");
                m.append(a_kind_exec(type_is_actor));
                m.append(" type, but ");
                m.append(root.as_str());
                m.append(" is ");
                m.append(a_kind_exec(!type_is_actor));
                m.append(" built-in");
                push_finding(out, Finding { severity: Severity::Error, message: m, anchor });
                assert(findings_view(out@) =~= before + guard_findings(segs, t@, mv));
            } else {
                assert(findings_view(out@) =~= before + guard_findings(segs, t@, mv));
            }
        },
        None => {
            if has_abstract_flat(abs, t.as_str()) {
                assert(findings_view(out@) =~= before + guard_findings(segs, t@, mv));
            } else {
                let mut m = String::from_str("Unknown type '");
                m.append(t.as_str());
                m.append("' in type guard - no entity or abstract with this name is defined in the schema");
                push_finding(out, Finding { severity: Severity::Error, message: m, anchor });
                assert(findings_view(out@) =~= before + guard_findings(segs, t@, mv));
            }
        },
    }
}

/// Adds the findings of an expression, in order, under the guards `nar`.
fn expr_findings_exec(
    e: &ExprAst,
    nar: &Vec<(String, String)>,
    mods: &Vec<ModuleDef>,
    ents: &Vec<&EntityDef>,
    abs: &Vec<&AbstractDef>,
    out: &mut Vec<Finding>,
)
    requires
        ents@.map_values(|x: &EntityDef| x@) == all_entities(modules_view(mods@), mods.len() as nat),
        abs@.map_values(|a: &AbstractDef| a@) == all_abstracts(modules_view(mods@), mods.len() as nat),
    ensures
        findings_view(final(out)@) == findings_view(old(out)@) + expr_findings(
            e@,
            nar_view(nar@),
            modules_view(mods@),
        ),
    decreases e,
{
    let ghost mv = modules_view(mods@);
    let ghost nv = nar_view(nar@);
    let ghost start = findings_view(out@);
    match e {
        ExprAst::And(es) | ExprAst::Or(es) => {
            let ghost ses = expr_asts_view(es@, es@.len());
            proof {
                crate::ast::lemma_expr_asts_view(es@, es@.len());
            }
            let mut i: usize = 0;
            assert(start + list_findings(ses, nv, mv, 0) =~= start);
            while i < es.len()
                invariant
                    i <= es.len(),
                    *e == ExprAst::And(*es) || *e == ExprAst::Or(*es),
                    mv == modules_view(mods@),
                    nv == nar_view(nar@),
                    ents@.map_values(|x: &EntityDef| x@) == all_entities(mv, mods.len() as nat),
                    abs@.map_values(|a: &AbstractDef| a@) == all_abstracts(mv, mods.len() as nat),
                    ses == expr_asts_view(es@, es@.len()),
                    ses.len() == es.len(),
                    forall|k: int| 0 <= k < es.len() ==> #[trigger] ses[k] == es@[k]@,
                    start == findings_view(old(out)@),
                    findings_view(out@) == start + list_findings(ses, nv, mv, i as nat),
                decreases es.len() - i,
            {
                proof {
                    vstd::std_specs::vec::axiom_vec_index_decreases(*es, i as int);
                    if *e == ExprAst::And(*es) {
                        assert(decreases_to!(*e => (*e)->And_0));
                    } else {
                        assert(decreases_to!(*e => (*e)->Or_0));
                    }
                    assert(decreases_to!(*es => es[i as int]));
                    assert(decreases_to!(*e => es[i as int]));
                }
                expr_findings_exec(&es[i], nar, mods, ents, abs, out);
                assert(findings_view(out@) =~= start + list_findings(ses, nv, mv, (i + 1) as nat));
                i += 1;
            }
        },
        ExprAst::Not(x) => expr_findings_exec(x, nar, mods, ents, abs, out),
        ExprAst::Compare { left, op: _, right } => {
            path_findings_exec(left, nar, ents, abs, Ghost(mv), out);
            pattern_path_findings_exec(right, nar, ents, abs, Ghost(mv), out);
            let lt = path_type_exec(left, nar, ents, abs, Ghost(mv));
            let rt = pattern_type_exec(right, nar, ents, abs, Ghost(mv));
            let ghost mid = findings_view(out@);
            match compat_exec(&lt, &rt) {
                Some(m) => {
                    let anchor = if left.segments.len() > 0 {
                        match &left.segments[0] {
                            PathSegmentAst::Field(r) => r.clone(),
                            _ => String::new(),
                        }
                    } else {
                        String::new()
                    };
                    proof {
                        if left.segments.len() > 0 {
                            assert(left@[0] == left.segments@[0]@);
                        }
                    }
                    push_finding(out, Finding { severity: Severity::Warning, message: m, anchor });
                },
                None => {
                    assert(findings_view(out@) =~= mid + Seq::<SFinding>::empty());
                },
            }
            assert(findings_view(out@) =~= start + expr_findings(e@, nv, mv));
        },
        ExprAst::In { pattern, path } => {
            path_findings_exec(path, nar, ents, abs, Ghost(mv), out);
            pattern_path_findings_exec(pattern, nar, ents, abs, Ghost(mv), out);
            assert(findings_view(out@) =~= start + expr_findings(e@, nv, mv));
        },
        ExprAst::InLiteral { path, values: _ } => path_findings_exec(path, nar, ents, abs, Ghost(mv), out),
        ExprAst::Like { path, pattern: _ } => path_findings_exec(path, nar, ents, abs, Ghost(mv), out),
        ExprAst::Forall { var: _, path, body } | ExprAst::Exists { var: _, path, body } => {
            path_findings_exec(path, nar, ents, abs, Ghost(mv), out);
            expr_findings_exec(body, nar, mods, ents, abs, out);
            assert(findings_view(out@) =~= start + expr_findings(e@, nv, mv));
        },
        ExprAst::IsType { path, entity_type } => guard_findings_exec(path, entity_type, mods, abs, out),
        _ => {
            assert(findings_view(out@) =~= start + expr_findings(e@, nv, mv));
        },
    }
}

/// The `is` guards of a conjunction.
fn guards_exec(e: &ExprAst) -> (r: Vec<(String, String)>)
    ensures
        nar_view(r@) == guards(e@),
    decreases e,
{
    match e {
        ExprAst::And(es) => {
            let ghost ses = expr_asts_view(es@, es@.len());
            proof {
                crate::ast::lemma_expr_asts_view(es@, es@.len());
            }
            let mut r: Vec<(String, String)> = Vec::new();
            let mut i: usize = 0;
            assert(nar_view(r@) =~= guards_list(ses, 0));
            while i < es.len()
                invariant
                    i <= es.len(),
                    *e == ExprAst::And(*es),
                    ses == expr_asts_view(es@, es@.len()),
                    ses.len() == es.len(),
                    forall|k: int| 0 <= k < es.len() ==> #[trigger] ses[k] == es@[k]@,
                    nar_view(r@) == guards_list(ses, i as nat),
                decreases es.len() - i,
            {
                proof {
                    vstd::std_specs::vec::axiom_vec_index_decreases(*es, i as int);
                    assert(decreases_to!(*e => (*e)->And_0));
                    assert(decreases_to!(*es => es[i as int]));
                    assert(decreases_to!(*e => es[i as int]));
                }
                let mut g = guards_exec(&es[i]);
                let ghost before = nar_view(r@);
                let ghost gv = nar_view(g@);
                r.append(&mut g);
                assert(nar_view(r@) =~= before + gv);
                i += 1;
            }
            r
        },
        ExprAst::IsType { path, entity_type } => {
            let mut r: Vec<(String, String)> = Vec::new();
            if path.segments.len() == 1 {
                assert(path@[0] == path.segments@[0]@);
                match &path.segments[0] {
                    PathSegmentAst::Field(root) => {
                        r.push((canonical_exec(root), entity_type.clone()));
                    },
                    _ => {},
                }
            }
            assert(nar_view(r@) =~= guards(e@));
            r
        },
        _ => {
            let r: Vec<(String, String)> = Vec::new();
            assert(nar_view(r@) =~= guards(e@));
            r
        },
    }
}

/// What the type parameters of an assertion narrow.
fn param_guards_exec(params: &Vec<String>, mods: &Vec<ModuleDef>, abs: &Vec<&AbstractDef>) -> (r: Vec<(String, String)>)
    requires
        abs@.map_values(|a: &AbstractDef| a@) == all_abstracts(modules_view(mods@), mods.len() as nat),
    ensures
        nar_view(r@) == param_guards(strings_view(params@), modules_view(mods@), params.len() as nat),
{
    let ghost pv = strings_view(params@);
    let ghost mv = modules_view(mods@);
    let ghost av = abs@.map_values(|a: &AbstractDef| a@);
    let mut r: Vec<(String, String)> = Vec::new();
    let mut n: usize = 0;
    assert(nar_view(r@) =~= Seq::<(Seq<char>, Seq<char>)>::empty());
    while n < params.len()
        invariant
            n <= params.len(),
            pv == strings_view(params@),
            mv == modules_view(mods@),
            av == abs@.map_values(|a: &AbstractDef| a@),
            av == all_abstracts(mv, mods.len() as nat),
            nar_view(r@) == param_guards(pv, mv, n as nat),
        decreases params.len() - n,
    {
        let p = &params[n];
        assert(pv[n as int] == p@);
        let l = to_lowercase(p.as_str());
        let ghost before = nar_view(r@);
        if str_eq(l.as_str(), "action") || str_eq(l.as_str(), "context") {
        } else {
            match kind_for_exec(mods, p.as_str()) {
                Some(EntityKind::Actor) => {
                    r.push((String::from_str("actor"), p.clone()));
                    assert(nar_view(r@) =~= before.push(("actor"@, p@)));
                },
                Some(EntityKind::Resource) => {
                    r.push((String::from_str("resource"), p.clone()));
                    assert(nar_view(r@) =~= before.push(("resource"@, p@)));
                },
                None => {
                    let mut k: usize = 0;
                    assert(nar_view(r@) + abstract_guards(av, p@, 0) =~= before + abstract_guards(av, p@, 0));
                    while k < abs.len()
                        invariant
                            k <= abs.len(),
                            av == abs@.map_values(|a: &AbstractDef| a@),
                            nar_view(r@) + abstract_guards(av, p@, k as int) == before + abstract_guards(av, p@, 0),
                        decreases abs.len() - k,
                    {
                        assert(av[k as int] == abs@[k as int]@);
                        let ghost cur = nar_view(r@);
                        if str_eq(abs[k].name.as_str(), p.as_str()) {
                            r.push((String::from_str("resource"), p.clone()));
                            assert(nar_view(r@) =~= cur.push(("resource"@, p@)));
                        }
                        assert(nar_view(r@) + abstract_guards(av, p@, k + 1) =~= cur + abstract_guards(
                            av,
                            p@,
                            k as int,
                        ));
                        k += 1;
                    }
                    assert(abstract_guards(av, p@, k as int) =~= Seq::<(Seq<char>, Seq<char>)>::empty());
                    assert(nar_view(r@) =~= before + abstract_guards(av, p@, 0));
                },
            }
        }
        n += 1;
    }
    r
}

/// The findings of the first `n` assertions, each under the guards its type
/// parameters give.
pub open spec fn assert_findings(asserts: Seq<SAssert>, mv: Seq<SModule>, n: nat) -> Seq<SFinding>
    decreases n,
{
    if n == 0 || n > asserts.len() {
        Seq::empty()
    } else {
        let a = asserts[n - 1];
        assert_findings(asserts, mv, (n - 1) as nat) + expr_findings(
            a.body,
            param_guards(a.type_params, mv, a.type_params.len()),
            mv,
        )
    }
}

/// The findings of the first `n` rules, each under the `is` guards of its body.
pub open spec fn rule_findings(rules: Seq<SRule>, mv: Seq<SModule>, n: nat) -> Seq<SFinding>
    decreases n,
{
    if n == 0 || n > rules.len() {
        Seq::empty()
    } else {
        rule_findings(rules, mv, (n - 1) as nat) + match rules[n - 1].body {
            Some(b) => expr_findings(b, guards(b), mv),
            None => Seq::empty(),
        }
    }
}

/// The schema findings of a program: none without `use schema;`; else those
/// of its assertions, then those of its rules.
pub open spec fn schema_findings_spec(p: SProgram) -> Seq<SFinding> {
    if p.use_schema {
        assert_findings(p.assertions, p.modules, p.assertions.len()) + rule_findings(
            p.rules,
            p.modules,
            p.rules.len(),
        )
    } else {
        Seq::empty()
    }
}

/// Checks the field reads, comparisons and `is` guards of a program's
/// assertions and rules against its schema (only with `use schema;`).
pub fn check_schema_field_access(program: &Program) -> (r: Vec<Finding>)
    ensures
        findings_view(r@) == schema_findings_spec(program@),
{
    let mut out: Vec<Finding> = Vec::new();
    if !program.use_schema {
        assert(findings_view(out@) =~= Seq::<SFinding>::empty());
        return out;
    }
    let ghost mv = modules_view(program.modules@);
    let ents = flat_entities(&program.modules);
    let abs = flat_abstracts(&program.modules);
    let ghost av = asserts_view(program.assertions@);
    let ghost rv = rules_view(program.rules@);
    let mut i: usize = 0;
    assert(findings_view(out@) =~= assert_findings(av, mv, 0));
    while i < program.assertions.len()
        invariant
            i <= program.assertions.len(),
            mv == modules_view(program.modules@),
            av == asserts_view(program.assertions@),
            ents@.map_values(|x: &EntityDef| x@) == all_entities(mv, program.modules.len() as nat),
            abs@.map_values(|a: &AbstractDef| a@) == all_abstracts(mv, program.modules.len() as nat),
            findings_view(out@) == assert_findings(av, mv, i as nat),
        decreases program.assertions.len() - i,
    {
        let a = &program.assertions[i];
        assert(av[i as int] == a@);
        let nar = param_guards_exec(&a.type_params, &program.modules, &abs);
        expr_findings_exec(&a.body, &nar, &program.modules, &ents, &abs, &mut out);
        i += 1;
    }
    let ghost mid = findings_view(out@);
    let mut k: usize = 0;
    assert(findings_view(out@) =~= mid + rule_findings(rv, mv, 0));
    while k < program.rules.len()
        invariant
            k <= program.rules.len(),
            mv == modules_view(program.modules@),
            rv == rules_view(program.rules@),
            ents@.map_values(|x: &EntityDef| x@) == all_entities(mv, program.modules.len() as nat),
            abs@.map_values(|a: &AbstractDef| a@) == all_abstracts(mv, program.modules.len() as nat),
            findings_view(out@) == mid + rule_findings(rv, mv, k as nat),
        decreases program.rules.len() - k,
    {
        let rule = &program.rules[k];
        assert(rv[k as int] == rule@);
        let ghost before = findings_view(out@);
        match &rule.body {
            Some(b) => {
                let nar = guards_exec(b);
                expr_findings_exec(b, &nar, &program.modules, &ents, &abs, &mut out);
            },
            None => {},
        }
        assert(findings_view(out@) =~= mid + rule_findings(rv, mv, (k + 1) as nat));
        k += 1;
    }
    out
}

/// Adds to `findings` those of one expression under the guards `narrowed`
/// (root, as `actor` or `resource`, and the type it is narrowed to; a later
/// guard counts), against the entities and abstracts of `modules`.
pub fn check_expr_field_access(
    expr: &ExprAst,
    modules: &Vec<ModuleDef>,
    narrowed: &Vec<(String, String)>,
    findings: &mut Vec<Finding>,
)
    ensures
        findings_view(final(findings)@) == findings_view(old(findings)@) + expr_findings(
            expr@,
            nar_view(narrowed@),
            modules_view(modules@),
        ),
{
    let ents = flat_entities(modules);
    let abs = flat_abstracts(modules);
    expr_findings_exec(expr, narrowed, modules, &ents, &abs, findings);
}

} // verus!
