//! What importing a Cedar policy into Karu yields: one spec function per
//! conversion step, from the content of the Cedar AST to the content of the
//! Karu AST, with the error each unsupported construct gives.
use vstd::prelude::*;
use crate::ast::{EffectAst, OpAst, SPattern, SExprAst, SRule, SProgram};
use crate::schema::SModule;
use crate::cedar_schema_syntax::parse_schema_spec;
use crate::cedar_parser::{
    SExpr, SEntityRef, SScopeConstraint, SActionConstraint, SPolicy, SAnnotation, SCondition,
    CedarRelOp, CedarAddOp, CedarEffect,
};
use crate::cedar_syntax::{join, strs_debug};
use crate::json::{JsonV, Number};
use crate::path::SegV;
use crate::text::{split_char, lowercase, decimal, json_string_text, str_debug};
use crate::cedar_syntax::parse_spec;

verus! {

/// The content of an import error: a message, and the source line for
/// errors of the Cedar parser.
pub struct SImportError {
    pub message: Seq<char>,
    pub line: Option<nat>,
}

/// The name of a relational operator as its `Debug` prints it.
pub open spec fn rel_op_name(op: CedarRelOp) -> Seq<char> {
    match op {
        CedarRelOp::Eq => "Eq"@,
        CedarRelOp::Neq => "Neq"@,
        CedarRelOp::Lt => "Lt"@,
        CedarRelOp::Lte => "Lte"@,
        CedarRelOp::Gt => "Gt"@,
        CedarRelOp::Gte => "Gte"@,
    }
}

/// The name of an additive operator as its `Debug` prints it.
pub open spec fn add_op_name(op: CedarAddOp) -> Seq<char> {
    match op {
        CedarAddOp::Add => "Add"@,
        CedarAddOp::Sub => "Sub"@,
    }
}

/// How a Cedar expression is printed in an error message: the text of the
/// derived `Debug` of the expression tree, strings quoted as `str` prints them.
pub open spec fn expr_debug_text(e: SExpr) -> Seq<char>
    decreases e, 1nat,
{
    match e {
        SExpr::IfThenElse(c, t, u) => "IfThenElse { cond: "@ + expr_debug_text(*c) + ", then_expr: "@
            + expr_debug_text(*t) + ", else_expr: "@ + expr_debug_text(*u) + " }"@,
        SExpr::Or(a, b) => "Or("@ + expr_debug_text(*a) + ", "@ + expr_debug_text(*b) + ")"@,
        SExpr::And(a, b) => "And("@ + expr_debug_text(*a) + ", "@ + expr_debug_text(*b) + ")"@,
        SExpr::Relation(a, op, b) => "Relation { lhs: "@ + expr_debug_text(*a) + ", op: "@
            + rel_op_name(op) + ", rhs: "@ + expr_debug_text(*b) + " }"@,
        SExpr::InExpr(a, b) => "InExpr { lhs: "@ + expr_debug_text(*a) + ", rhs: "@ + expr_debug_text(*b)
            + " }"@,
        SExpr::Has(a, f) => "Has("@ + expr_debug_text(*a) + ", "@ + str_debug(f) + ")"@,
        SExpr::Like(a, f) => "Like("@ + expr_debug_text(*a) + ", "@ + str_debug(f) + ")"@,
        SExpr::Is(x, t, g) => "Is { expr: "@ + expr_debug_text(*x) + ", type_name: "@ + str_debug(t)
            + ", in_expr: "@ + match g {
            None => "None"@,
            Some(b) => "Some("@ + expr_debug_text(*b) + ")"@,
        } + " }"@,
        SExpr::Add(a, op, b) => "Add("@ + expr_debug_text(*a) + ", "@ + add_op_name(op) + ", "@
            + expr_debug_text(*b) + ")"@,
        SExpr::Mul(a, b) => "Mul("@ + expr_debug_text(*a) + ", "@ + expr_debug_text(*b) + ")"@,
        SExpr::Not(a) => "Not("@ + expr_debug_text(*a) + ")"@,
        SExpr::Neg(a) => "Neg("@ + expr_debug_text(*a) + ")"@,
        SExpr::Access(a, f) => "Access("@ + expr_debug_text(*a) + ", "@ + str_debug(f) + ")"@,
        SExpr::MethodCall(a, m, args) => "MethodCall("@ + expr_debug_text(*a) + ", "@ + str_debug(m)
            + ", ["@ + exprs_debug_text(args, args.len()) + "])"@,
        SExpr::Index(a, k) => "Index("@ + expr_debug_text(*a) + ", "@ + str_debug(k) + ")"@,
        SExpr::Var(v) => "Var("@ + str_debug(v) + ")"@,
        SExpr::Int(n) => "Int("@ + decimal(n as int) + ")"@,
        SExpr::Str(v) => "Str("@ + str_debug(v) + ")"@,
        SExpr::Bool(b) => if b {
            "Bool(true)"@
        } else {
            "Bool(false)"@
        },
        SExpr::Entity(r) => "Entity(CedarEntityRef { path: "@ + strs_debug(r.path) + ", id: "@
            + str_debug(r.id) + " })"@,
        SExpr::ExtFun(f, args) => "ExtFun("@ + str_debug(f) + ", ["@ + exprs_debug_text(args, args.len())
            + "])"@,
        SExpr::SetLiteral(xs) => "Set(["@ + exprs_debug_text(xs, xs.len()) + "])"@,
        SExpr::Record(fs) => "Record(["@ + fields_debug_text(fs, fs.len()) + "])"@,
    }
}

/// The first `n` expressions of `es`, printed and separated by `, `.
pub open spec fn exprs_debug_text(es: Seq<SExpr>, n: nat) -> Seq<char>
    decreases es, n,
{
    if n == 0 || n > es.len() {
        Seq::empty()
    } else if n == 1 {
        expr_debug_text(es[0])
    } else {
        exprs_debug_text(es, (n - 1) as nat) + ", "@ + expr_debug_text(es[n - 1])
    }
}

/// The first `n` record fields of `fs`, each printed as a `(key, value)`
/// pair and separated by `, `.
pub open spec fn fields_debug_text(fs: Seq<(Seq<char>, SExpr)>, n: nat) -> Seq<char>
    decreases fs, n,
{
    if n == 0 || n > fs.len() {
        Seq::empty()
    } else {
        let one = "("@ + str_debug(fs[n - 1].0) + ", "@ + expr_debug_text(fs[n - 1].1) + ")"@;
        if n == 1 {
            one
        } else {
            fields_debug_text(fs, (n - 1) as nat) + ", "@ + one
        }
    }
}

/// An error for a construct Karu has no counterpart for.
pub open spec fn unsupported(message: Seq<char>) -> SImportError {
    SImportError { message, line: None }
}

/// The path `a.b.c` as field segments, split at every dot.
pub open spec fn dotted(s: Seq<char>) -> Seq<SegV> {
    split_char(s, '.').map_values(|f: Seq<char>| SegV::Field(f))
}

pub open spec fn str_lit(s: Seq<char>) -> SPattern {
    SPattern::Literal(JsonV::Str(s))
}

/// The JSON number for an integer.
pub open spec fn int_json(n: i64) -> JsonV {
    if n >= 0 {
        JsonV::Number(Number::PosInt(n as u64))
    } else {
        JsonV::Number(Number::NegInt(n))
    }
}

pub open spec fn equals_pattern(left: Seq<SegV>, right: SPattern) -> SExprAst {
    SExprAst::Compare(left, OpAst::Eq, right)
}

/// The condition that always holds, `_always == _`, or its negation.
pub open spec fn bool_cond(b: bool) -> SExprAst {
    let always = equals_pattern(dotted("_always"@), SPattern::Wildcard);
    if b {
        always
    } else {
        SExprAst::Not(Box::new(always))
    }
}

/// A constant folded at import time: `_computed == n`.
pub open spec fn computed(n: i64) -> SExprAst {
    equals_pattern(dotted("_computed"@), SPattern::Literal(int_json(n)))
}

// ----------------------------------------------------------------------------
// Scope
// ----------------------------------------------------------------------------

pub open spec fn slot_error(slot: Seq<char>) -> SImportError {
    unsupported("Template slot '"@ + slot + "' not supported"@)
}

/// The conditions a principal constraint adds.
pub open spec fn principal_conds(c: SScopeConstraint) -> Result<Seq<SExprAst>, SImportError> {
    match c {
        SScopeConstraint::Any => Ok(Seq::empty()),
        SScopeConstraint::Eq(e) => Ok(seq![equals_pattern(dotted("principal"@), str_lit(e.id))]),
        SScopeConstraint::In(e) => Ok(seq![SExprAst::In(str_lit(e.id), dotted("principal.groups"@))]),
        SScopeConstraint::Is(t) => Ok(seq![equals_pattern(dotted("principal.type"@), str_lit(t))]),
        SScopeConstraint::IsIn(t, e) => Ok(
            seq![
                equals_pattern(dotted("principal.type"@), str_lit(t)),
                SExprAst::In(str_lit(e.id), dotted("principal.groups"@)),
            ],
        ),
        SScopeConstraint::Slot(s) => Err(slot_error(s)),
    }
}

pub open spec fn action_is(e: SEntityRef) -> SExprAst {
    equals_pattern(dotted("action"@), str_lit(e.id))
}

/// The conditions an action constraint adds: a list becomes a disjunction
/// unless it has one member.
pub open spec fn action_conds(c: SActionConstraint) -> Seq<SExprAst> {
    match c {
        SActionConstraint::Any => Seq::empty(),
        SActionConstraint::Eq(e) => seq![action_is(e)],
        SActionConstraint::In(e) => seq![action_is(e)],
        SActionConstraint::InList(es) => {
            let checks = es.map_values(|e: SEntityRef| action_is(e));
            if checks.len() == 1 {
                seq![checks[0]]
            } else {
                seq![SExprAst::Or(checks)]
            }
        },
    }
}

/// The field of the resource that names its container: the container's type
/// in lowercase, or `container` when the reference has no type.
pub open spec fn container_field(e: SEntityRef) -> Seq<char> {
    if e.path.len() > 0 {
        lowercase(e.path.last())
    } else {
        "container"@
    }
}

pub open spec fn resource_in(e: SEntityRef) -> SExprAst {
    equals_pattern(dotted("resource."@ + container_field(e)), str_lit(e.id))
}

/// The conditions a resource constraint adds.
pub open spec fn resource_conds(c: SScopeConstraint) -> Result<Seq<SExprAst>, SImportError> {
    match c {
        SScopeConstraint::Any => Ok(Seq::empty()),
        SScopeConstraint::Eq(e) => Ok(seq![equals_pattern(dotted("resource"@), str_lit(e.id))]),
        SScopeConstraint::In(e) => Ok(seq![resource_in(e)]),
        SScopeConstraint::Is(t) => Ok(seq![equals_pattern(dotted("resource.type"@), str_lit(t))]),
        SScopeConstraint::IsIn(t, e) => Ok(
            seq![equals_pattern(dotted("resource.type"@), str_lit(t)), resource_in(e)],
        ),
        SScopeConstraint::Slot(s) => Err(slot_error(s)),
    }
}

// ----------------------------------------------------------------------------
// Constants, paths and patterns
// ----------------------------------------------------------------------------

pub open spec fn fits_i64(n: int) -> bool {
    i64::MIN <= n <= i64::MAX
}

/// The value of a constant integer expression, when every step of it fits
/// in an `i64`.
pub open spec fn const_value(e: SExpr) -> Option<int>
    decreases e,
{
    let r = match e {
        SExpr::Int(n) => Some(n as int),
        SExpr::Neg(x) => match const_value(*x) {
            Some(n) => Some(-n),
            None => None,
        },
        SExpr::Add(a, op, b) => match (const_value(*a), const_value(*b)) {
            (Some(x), Some(y)) => Some(
                match op {
                    CedarAddOp::Add => x + y,
                    CedarAddOp::Sub => x - y,
                },
            ),
            _ => None,
        },
        SExpr::Mul(a, b) => match (const_value(*a), const_value(*b)) {
            (Some(x), Some(y)) => Some(x * y),
            _ => None,
        },
        _ => None,
    };
    match r {
        Some(n) => if fits_i64(n) {
            Some(n)
        } else {
            None
        },
        None => None,
    }
}

/// The path an expression stands for: a variable followed by fields.
pub open spec fn path_of(e: SExpr) -> Result<Seq<SegV>, SImportError>
    decreases e,
{
    match e {
        SExpr::Var(name) => Ok(dotted(name)),
        SExpr::Access(b, f) => match path_of(*b) {
            Ok(p) => Ok(p.push(SegV::Field(f))),
            Err(er) => Err(er),
        },
        SExpr::Entity(en) => Err(
            unsupported(
                "Entity reference "@ + join(en.path, "::"@) + "::\""@ + en.id
                    + "\" cannot be used as a path"@,
            ),
        ),
        _ => Err(unsupported("Cannot convert expression to path: "@ + expr_debug_text(e))),
    }
}

/// The pattern an expression stands for.
pub open spec fn pattern_of(e: SExpr) -> Result<SPattern, SImportError>
    decreases e, 0nat,
{
    match e {
        SExpr::Str(s) => Ok(str_lit(s)),
        SExpr::Int(n) => Ok(SPattern::Literal(int_json(n))),
        SExpr::Bool(b) => Ok(SPattern::Literal(JsonV::Bool(b))),
        SExpr::Entity(en) => Ok(str_lit(en.id)),
        SExpr::Var(name) => Ok(SPattern::PathRef(dotted(name))),
        SExpr::Access(_, _) => match path_of(e) {
            Ok(p) => Ok(SPattern::PathRef(p)),
            Err(er) => Err(er),
        },
        SExpr::SetLiteral(es) => match patterns_upto(es, es.len()) {
            Ok(ps) => Ok(SPattern::Array(ps)),
            Err(er) => Err(er),
        },
        SExpr::Record(fs) => match field_patterns_upto(fs, fs.len()) {
            Ok(ps) => Ok(SPattern::Object(ps)),
            Err(er) => Err(er),
        },
        _ => Err(unsupported("Cannot convert expression to pattern: "@ + expr_debug_text(e))),
    }
}

/// The patterns of the first `n` expressions, or the first error.
pub open spec fn patterns_upto(es: Seq<SExpr>, n: nat) -> Result<Seq<SPattern>, SImportError>
    decreases es, n,
{
    if n == 0 || n > es.len() {
        Ok(Seq::empty())
    } else {
        match patterns_upto(es, (n - 1) as nat) {
            Err(er) => Err(er),
            Ok(ps) => match pattern_of(es[n - 1]) {
                Err(er) => Err(er),
                Ok(p) => Ok(ps.push(p)),
            },
        }
    }
}

/// The keyed patterns of the first `n` record fields, or the first error.
pub open spec fn field_patterns_upto(fs: Seq<(Seq<char>, SExpr)>, n: nat) -> Result<
    Seq<(Seq<char>, SPattern)>,
    SImportError,
>
    decreases fs, n,
{
    if n == 0 || n > fs.len() {
        Ok(Seq::empty())
    } else {
        match field_patterns_upto(fs, (n - 1) as nat) {
            Err(er) => Err(er),
            Ok(ps) => match pattern_of(fs[n - 1].1) {
                Err(er) => Err(er),
                Ok(p) => Ok(ps.push((fs[n - 1].0, p))),
            },
        }
    }
}

// ----------------------------------------------------------------------------
// Extension functions and methods
// ----------------------------------------------------------------------------

/// The path inside `f(path)`; a string argument becomes the single field `@lit:s`.
pub open spec fn extfun_path(e: SExpr, f: Seq<char>) -> Result<Seq<SegV>, SImportError> {
    match e {
        SExpr::ExtFun(name, args) => if name == f && args.len() == 1 {
            match args[0] {
                SExpr::Var(v) => Ok(dotted(v)),
                SExpr::Access(_, _) => path_of(args[0]),
                SExpr::Str(s) => Ok(seq![SegV::Field("@lit:"@ + s)]),
                _ => Err(unsupported(f + "() argument must be a path or string literal"@)),
            }
        } else {
            Err(unsupported("Expected "@ + f + "() call, got "@ + expr_debug_text(e)))
        },
        _ => Err(unsupported("Expected "@ + f + "() call, got "@ + expr_debug_text(e))),
    }
}

/// The string inside `f("s")`.
pub open spec fn extfun_literal(e: SExpr, f: Seq<char>) -> Result<Seq<char>, SImportError> {
    match e {
        SExpr::ExtFun(name, args) => if name == f && args.len() == 1 {
            match args[0] {
                SExpr::Str(s) => Ok(s),
                _ => Err(unsupported(f + "() argument must be a string literal"@)),
            }
        } else {
            Err(unsupported("Expected "@ + f + "() call with string literal"@))
        },
        _ => Err(unsupported("Expected "@ + f + "() call with string literal"@)),
    }
}

/// The literal values of the first `n` elements of a set given to method `m`.
pub open spec fn literals_upto(es: Seq<SExpr>, n: nat, m: Seq<char>) -> Result<
    Seq<JsonV>,
    SImportError,
>
    decreases n,
{
    if n == 0 || n > es.len() {
        Ok(Seq::empty())
    } else {
        match literals_upto(es, (n - 1) as nat, m) {
            Err(er) => Err(er),
            Ok(vs) => match pattern_of(es[n - 1]) {
                Err(er) => Err(er),
                Ok(SPattern::Literal(v)) => Ok(vs.push(v)),
                Ok(_) => Err(unsupported(m + "() elements must be literals"@)),
            },
        }
    }
}

pub open spec fn ip_test_op(m: Seq<char>) -> Option<OpAst> {
    if m == "isIpv4"@ {
        Some(OpAst::IsIpv4)
    } else if m == "isIpv6"@ {
        Some(OpAst::IsIpv6)
    } else if m == "isLoopback"@ {
        Some(OpAst::IsLoopback)
    } else if m == "isMulticast"@ {
        Some(OpAst::IsMulticast)
    } else {
        None
    }
}

pub open spec fn decimal_op(m: Seq<char>) -> Option<OpAst> {
    if m == "lessThan"@ {
        Some(OpAst::DecimalLt)
    } else if m == "lessThanOrEqual"@ {
        Some(OpAst::DecimalLe)
    } else if m == "greaterThan"@ {
        Some(OpAst::DecimalGt)
    } else if m == "greaterThanOrEqual"@ {
        Some(OpAst::DecimalGe)
    } else {
        None
    }
}

pub open spec fn one_argument_error(m: Seq<char>) -> SImportError {
    unsupported(m + "() expects exactly one argument"@)
}

/// A method call `base.m(args)`.
pub open spec fn method_condition(base: SExpr, m: Seq<char>, args: Seq<SExpr>) -> Result<
    SExprAst,
    SImportError,
> {
    if m == "contains"@ {
        if args.len() != 1 {
            Err(one_argument_error(m))
        } else {
            match path_of(base) {
                Err(er) => Err(er),
                Ok(path) => match pattern_of(args[0]) {
                    Err(er) => Err(er),
                    Ok(p) => Ok(SExprAst::In(p, path)),
                },
            }
        }
    } else if m == "containsAll"@ || m == "containsAny"@ {
        if args.len() != 1 {
            Err(one_argument_error(m))
        } else {
            match path_of(base) {
                Err(er) => Err(er),
                Ok(path) => match args[0] {
                    SExpr::SetLiteral(els) => if els.len() == 0 {
                        Err(unsupported(m + "() with empty set"@))
                    } else {
                        match literals_upto(els, els.len(), m) {
                            Err(er) => Err(er),
                            Ok(vs) => Ok(
                                SExprAst::Compare(
                                    path,
                                    if m == "containsAll"@ {
                                        OpAst::ContainsAll
                                    } else {
                                        OpAst::ContainsAny
                                    },
                                    SPattern::Literal(JsonV::Array(vs)),
                                ),
                            ),
                        }
                    },
                    _ => Err(unsupported(m + "() argument must be a set literal"@)),
                },
            }
        }
    } else if m == "isInRange"@ {
        if args.len() != 1 {
            Err(one_argument_error(m))
        } else {
            match extfun_path(base, "ip"@) {
                Err(er) => Err(er),
                Ok(path) => match extfun_literal(args[0], "ip"@) {
                    Err(er) => Err(er),
                    Ok(cidr) => Ok(SExprAst::Compare(path, OpAst::IpIsInRange, str_lit(cidr))),
                },
            }
        }
    } else if ip_test_op(m) is Some {
        match extfun_path(base, "ip"@) {
            Err(er) => Err(er),
            Ok(path) => Ok(SExprAst::Compare(path, ip_test_op(m)->0, SPattern::Wildcard)),
        }
    } else if decimal_op(m) is Some {
        if args.len() != 1 {
            Err(one_argument_error(m))
        } else {
            match extfun_path(base, "decimal"@) {
                Err(er) => Err(er),
                Ok(path) => match extfun_literal(args[0], "decimal"@) {
                    Err(er) => Err(er),
                    Ok(v) => Ok(SExprAst::Compare(path, decimal_op(m)->0, str_lit(v))),
                },
            }
        }
    } else {
        Err(unsupported("Method call '."@ + m + "()' not supported"@))
    }
}

// ----------------------------------------------------------------------------
// Expressions
// ----------------------------------------------------------------------------

pub open spec fn rel_op_ast(op: CedarRelOp) -> OpAst {
    match op {
        CedarRelOp::Eq => OpAst::Eq,
        CedarRelOp::Neq => OpAst::Ne,
        CedarRelOp::Lt => OpAst::Lt,
        CedarRelOp::Lte => OpAst::Le,
        CedarRelOp::Gt => OpAst::Gt,
        CedarRelOp::Gte => OpAst::Ge,
    }
}

pub open spec fn rel_holds(a: int, op: CedarRelOp, b: int) -> bool {
    match op {
        CedarRelOp::Eq => a == b,
        CedarRelOp::Neq => a != b,
        CedarRelOp::Lt => a < b,
        CedarRelOp::Lte => a <= b,
        CedarRelOp::Gt => a > b,
        CedarRelOp::Gte => a >= b,
    }
}

/// A comparison: a path against a pattern, or two constants compared at import time.
pub open spec fn relation_condition(l: SExpr, op: CedarRelOp, r: SExpr) -> Result<SExprAst, SImportError> {
    match path_of(l) {
        Ok(left) => match pattern_of(r) {
            Ok(p) => Ok(SExprAst::Compare(left, rel_op_ast(op), p)),
            Err(er) => Err(er),
        },
        Err(_) => match (const_value(l), const_value(r)) {
            (Some(a), Some(b)) => Ok(bool_cond(rel_holds(a, op, b))),
            _ => Err(unsupported("Cannot convert expression to path: "@ + expr_debug_text(l))),
        },
    }
}

pub open spec fn add_op_text(op: CedarAddOp) -> Seq<char> {
    match op {
        CedarAddOp::Add => "+"@,
        CedarAddOp::Sub => "-"@,
    }
}

/// The Karu condition a Cedar expression stands for.
pub open spec fn expr_condition(e: SExpr) -> Result<SExprAst, SImportError>
    decreases e, 0nat,
{
    match e {
        SExpr::And(a, b) => match (and_parts(*a), and_parts(*b)) {
            (Err(er), _) => Err(er),
            (Ok(_), Err(er)) => Err(er),
            (Ok(x), Ok(y)) => Ok(SExprAst::And(x + y)),
        },
        SExpr::Or(a, b) => match (or_parts(*a), or_parts(*b)) {
            (Err(er), _) => Err(er),
            (Ok(_), Err(er)) => Err(er),
            (Ok(x), Ok(y)) => Ok(SExprAst::Or(x + y)),
        },
        SExpr::Not(x) => match expr_condition(*x) {
            Ok(c) => Ok(SExprAst::Not(Box::new(c))),
            Err(er) => Err(er),
        },
        SExpr::Relation(l, op, r) => relation_condition(*l, op, *r),
        SExpr::InExpr(l, r) => match pattern_of(*l) {
            Err(er) => Err(er),
            Ok(p) => match path_of(*r) {
                Err(er) => Err(er),
                Ok(path) => Ok(SExprAst::In(p, path)),
            },
        },
        SExpr::Has(b, f) => match path_of(*b) {
            Err(er) => Err(er),
            Ok(path) => Ok(SExprAst::Has(path.push(SegV::Field(f)))),
        },
        SExpr::Like(b, pat) => match path_of(*b) {
            Err(er) => Err(er),
            Ok(path) => Ok(SExprAst::Like(path, pat)),
        },
        SExpr::Is(x, t, in_expr) => match path_of(*x) {
            Err(er) => Err(er),
            Ok(path) => {
                let type_check = equals_pattern(path.push(SegV::Field("type"@)), str_lit(t));
                match in_expr {
                    None => Ok(type_check),
                    Some(g) => match *g {
                        SExpr::Entity(en) => Ok(
                            SExprAst::And(
                                seq![
                                    type_check,
                                    SExprAst::In(str_lit(en.id), path.push(SegV::Field("groups"@))),
                                ],
                            ),
                        ),
                        _ => Err(unsupported("'is ... in' expects an entity reference as the group"@)),
                    },
                }
            },
        },
        SExpr::IfThenElse(c, t, el) => match expr_condition(*c) {
            Err(er) => Err(er),
            Ok(cond) => if *t == SExpr::Bool(true) && *el == SExpr::Bool(false) {
                Ok(cond)
            } else if *t == SExpr::Bool(false) && *el == SExpr::Bool(true) {
                Ok(SExprAst::Not(Box::new(cond)))
            } else if *el == SExpr::Bool(false) {
                match expr_condition(*t) {
                    Err(er) => Err(er),
                    Ok(th) => Ok(SExprAst::And(seq![cond, th])),
                }
            } else if *t == SExpr::Bool(true) {
                match expr_condition(*el) {
                    Err(er) => Err(er),
                    Ok(ot) => Ok(SExprAst::Or(seq![cond, ot])),
                }
            } else {
                Err(unsupported("General if-then-else not supported: one branch must be true or false"@))
            },
        },
        SExpr::Add(a, op, b) => match (const_value(*a), const_value(*b)) {
            (Some(x), Some(y)) => {
                let n = match op {
                    CedarAddOp::Add => x + y,
                    CedarAddOp::Sub => x - y,
                };
                if fits_i64(n) {
                    Ok(computed(n as i64))
                } else {
                    Err(
                        unsupported(
                            "Arithmetic '"@ + add_op_text(op)
                                + "' with non-literal operands not yet supported"@,
                        ),
                    )
                }
            },
            _ => Err(
                unsupported(
                    "Arithmetic '"@ + add_op_text(op) + "' with non-literal operands not yet supported"@,
                ),
            ),
        },
        SExpr::Mul(a, b) => match (const_value(*a), const_value(*b)) {
            (Some(x), Some(y)) => if fits_i64(x * y) {
                Ok(computed((x * y) as i64))
            } else {
                Err(unsupported("Arithmetic '*' with non-literal operands not yet supported"@))
            },
            _ => Err(unsupported("Arithmetic '*' with non-literal operands not yet supported"@)),
        },
        SExpr::Neg(x) => match const_value(*x) {
            Some(n) => if fits_i64(-n) {
                Ok(computed((-n) as i64))
            } else {
                Err(unsupported("Unary negation of non-literal not yet supported"@))
            },
            None => Err(unsupported("Unary negation of non-literal not yet supported"@)),
        },
        SExpr::MethodCall(b, m, args) => method_condition(*b, m, args),
        SExpr::Access(_, _) => match path_of(e) {
            Err(er) => Err(er),
            Ok(path) => Ok(equals_pattern(path, SPattern::Literal(JsonV::Bool(true)))),
        },
        SExpr::Index(_, k) => Err(
            unsupported("Index access '[\""@ + k + "\"]' not directly supported"@),
        ),
        SExpr::Var(name) => Ok(equals_pattern(dotted(name), SPattern::Literal(JsonV::Bool(true)))),
        SExpr::Bool(b) => Ok(bool_cond(b)),
        SExpr::Int(_) => Err(unsupported("Standalone literal not supported as condition"@)),
        SExpr::Str(_) => Err(unsupported("Standalone literal not supported as condition"@)),
        SExpr::Entity(_) => Err(
            unsupported("Standalone entity reference not supported as condition"@),
        ),
        SExpr::ExtFun(name, _) => Err(
            unsupported("Extension function '"@ + name + "' not supported"@),
        ),
        SExpr::SetLiteral(_) => Err(unsupported("Set literals not supported as condition"@)),
        SExpr::Record(_) => Err(unsupported("Record literals not supported as condition"@)),
    }
}

/// The conjuncts of nested `&&`, each converted, left to right.
pub open spec fn and_parts(e: SExpr) -> Result<Seq<SExprAst>, SImportError>
    decreases e, 1nat,
{
    match e {
        SExpr::And(a, b) => match (and_parts(*a), and_parts(*b)) {
            (Err(er), _) => Err(er),
            (Ok(_), Err(er)) => Err(er),
            (Ok(x), Ok(y)) => Ok(x + y),
        },
        _ => match expr_condition(e) {
            Err(er) => Err(er),
            Ok(c) => Ok(seq![c]),
        },
    }
}

/// The disjuncts of nested `||`, each converted, left to right.
pub open spec fn or_parts(e: SExpr) -> Result<Seq<SExprAst>, SImportError>
    decreases e, 1nat,
{
    match e {
        SExpr::Or(a, b) => match (or_parts(*a), or_parts(*b)) {
            (Err(er), _) => Err(er),
            (Ok(_), Err(er)) => Err(er),
            (Ok(x), Ok(y)) => Ok(x + y),
        },
        _ => match expr_condition(e) {
            Err(er) => Err(er),
            Ok(c) => Ok(seq![c]),
        },
    }
}

// ----------------------------------------------------------------------------
// Policies
// ----------------------------------------------------------------------------

/// The value of the first `id` annotation from index `i` on, if it has one.
pub open spec fn id_annotation(anns: Seq<SAnnotation>, i: int) -> Option<Seq<char>>
    decreases anns.len() - i,
{
    if i < 0 || i >= anns.len() {
        None
    } else if anns[i].key == "id"@ {
        anns[i].value
    } else {
        id_annotation(anns, i + 1)
    }
}

/// The rule name: the `@id` annotation, else `policy_<index>`.
pub open spec fn rule_name(p: SPolicy, index: nat) -> Seq<char> {
    match id_annotation(p.annotations, 0) {
        Some(v) => v,
        None => "policy_"@ + decimal(index as int),
    }
}

/// The converted `when` and `unless` conditions of the first `n` conditions;
/// `unless` is negated.
pub open spec fn conditions_upto(cs: Seq<SCondition>, n: nat) -> Result<Seq<SExprAst>, SImportError>
    decreases n,
{
    if n == 0 || n > cs.len() {
        Ok(Seq::empty())
    } else {
        match conditions_upto(cs, (n - 1) as nat) {
            Err(er) => Err(er),
            Ok(acc) => match expr_condition(cs[n - 1].expr) {
                Err(er) => Err(er),
                Ok(c) => Ok(
                    acc.push(
                        if cs[n - 1].is_when {
                            c
                        } else {
                            SExprAst::Not(Box::new(c))
                        },
                    ),
                ),
            },
        }
    }
}

/// The body of a rule from its conditions: none, the one, or their conjunction.
pub open spec fn rule_body(conds: Seq<SExprAst>) -> Option<SExprAst> {
    if conds.len() == 0 {
        None
    } else if conds.len() == 1 {
        Some(conds[0])
    } else {
        Some(SExprAst::And(conds))
    }
}

/// The rule a Cedar policy becomes.
pub open spec fn policy_rule(p: SPolicy, index: nat) -> Result<SRule, SImportError> {
    match principal_conds(p.scope.principal) {
        Err(er) => Err(er),
        Ok(pc) => match resource_conds(p.scope.resource) {
            Err(er) => Err(er),
            Ok(rc) => match conditions_upto(p.conditions, p.conditions.len()) {
                Err(er) => Err(er),
                Ok(cc) => Ok(
                    SRule {
                        name: rule_name(p, index),
                        effect: match p.effect {
                            CedarEffect::Permit => EffectAst::Allow,
                            CedarEffect::Forbid => EffectAst::Deny,
                        },
                        body: rule_body(pc + action_conds(p.scope.action) + rc + cc),
                    },
                ),
            },
        },
    }
}

/// The rules of the first `n` policies, or the first error.
pub open spec fn rules_upto(ps: Seq<SPolicy>, n: nat) -> Result<Seq<SRule>, SImportError>
    decreases n,
{
    if n == 0 || n > ps.len() {
        Ok(Seq::empty())
    } else {
        match rules_upto(ps, (n - 1) as nat) {
            Err(er) => Err(er),
            Ok(rs) => match policy_rule(ps[n - 1], (n - 1) as nat) {
                Err(er) => Err(er),
                Ok(r) => Ok(rs.push(r)),
            },
        }
    }
}

/// What importing a Cedar source yields: its rules, or the first error; a
/// parse error keeps its line.
pub open spec fn import_rules(cs: Seq<char>) -> Result<Seq<SRule>, SImportError> {
    match parse_spec(cs) {
        Err(e) => Err(SImportError { message: e.message, line: Some(e.line) }),
        Ok(ps) => rules_upto(ps, ps.len()),
    }
}

// ----------------------------------------------------------------------------
// Karu source text
// ----------------------------------------------------------------------------

/// `n` levels of four-space indentation.
pub open spec fn indent_text(n: nat) -> Seq<char>
    decreases n,
{
    if n == 0 {
        Seq::empty()
    } else {
        indent_text((n - 1) as nat) + "    "@
    }
}

pub open spec fn seg_text(s: SegV) -> Seq<char> {
    match s {
        SegV::Field(f) => f,
        SegV::Index(i) => "["@ + decimal(i as int) + "]"@,
        SegV::Variable(v) => v,
    }
}

/// A path as Karu writes it: segments joined by dots.
pub open spec fn path_text(p: Seq<SegV>) -> Seq<char> {
    join(p.map_values(|s: SegV| seg_text(s)), "."@)
}

pub open spec fn op_text(op: OpAst) -> Seq<char> {
    match op {
        OpAst::Eq => "=="@,
        OpAst::Ne => "!="@,
        OpAst::Lt => "<"@,
        OpAst::Gt => ">"@,
        OpAst::Le => "<="@,
        OpAst::Ge => ">="@,
        OpAst::ContainsAll => "containsAll"@,
        OpAst::ContainsAny => "containsAny"@,
        OpAst::IpIsInRange => "isInRange"@,
        OpAst::IsIpv4 => "isIpv4"@,
        OpAst::IsIpv6 => "isIpv6"@,
        OpAst::IsLoopback => "isLoopback"@,
        OpAst::IsMulticast => "isMulticast"@,
        OpAst::DecimalLt => "lessThan"@,
        OpAst::DecimalLe => "lessThanOrEqual"@,
        OpAst::DecimalGt => "greaterThan"@,
        OpAst::DecimalGe => "greaterThanOrEqual"@,
    }
}

/// Compact JSON text of a value. Floats are not written (the import never
/// produces one).
pub open spec fn json_text(v: JsonV) -> Seq<char>
    decreases v, 0nat,
{
    match v {
        JsonV::Null => "null"@,
        JsonV::Bool(b) => if b {
            "true"@
        } else {
            "false"@
        },
        JsonV::Number(Number::PosInt(u)) => decimal(u as int),
        JsonV::Number(Number::NegInt(i)) => decimal(i as int),
        JsonV::Number(Number::FloatBits(_)) => "/* complex */"@,
        JsonV::Str(s) => json_string_text(s),
        JsonV::Array(vs) => "["@ + json_items(vs, vs.len()) + "]"@,
        JsonV::Object(es) => "{"@ + json_entries(es, es.len()) + "}"@,
    }
}

/// The first `n` values, as JSON, separated by commas.
pub open spec fn json_items(vs: Seq<JsonV>, n: nat) -> Seq<char>
    decreases vs, n,
{
    if n == 0 || n > vs.len() {
        Seq::empty()
    } else if n == 1 {
        json_text(vs[0])
    } else {
        json_items(vs, (n - 1) as nat) + ","@ + json_text(vs[n - 1])
    }
}

/// The first `n` entries, as JSON `"key":value`, separated by commas.
pub open spec fn json_entries(es: Seq<(Seq<char>, JsonV)>, n: nat) -> Seq<char>
    decreases es, n,
{
    if n == 0 || n > es.len() {
        Seq::empty()
    } else if n == 1 {
        json_string_text(es[0].0) + ":"@ + json_text(es[0].1)
    } else {
        json_entries(es, (n - 1) as nat) + ","@ + json_string_text(es[n - 1].0) + ":"@ + json_text(
            es[n - 1].1,
        )
    }
}

/// A pattern as Karu writes it on the right of a comparison.
pub open spec fn pattern_text(p: SPattern) -> Seq<char> {
    match p {
        SPattern::Literal(JsonV::Str(s)) => "\""@ + s + "\""@,
        SPattern::Literal(v) => json_text(v),
        SPattern::PathRef(path) => path_text(path),
        SPattern::Wildcard => "_"@,
        _ => "/* complex */"@,
    }
}

/// A condition as Karu writes it at the given indentation: conjuncts on
/// their own lines, disjunctions in parentheses.
pub open spec fn expr_text(e: SExprAst, indent: nat) -> Seq<char>
    decreases e, 0nat,
{
    match e {
        SExprAst::And(ps) => exprs_text(ps, ps.len(), indent, " and\n"@ + indent_text(indent)),
        SExprAst::Or(ps) => "("@ + exprs_text(ps, ps.len(), indent, " or "@) + ")"@,
        SExprAst::Not(x) => "not "@ + expr_text(*x, indent),
        SExprAst::Compare(l, op, r) => indent_text(indent) + path_text(l) + " "@ + op_text(op)
            + " "@ + pattern_text(r),
        SExprAst::In(p, path) => indent_text(indent) + pattern_text(p) + " in "@ + path_text(path),
        _ => indent_text(indent) + "/* unsupported */"@,
    }
}

/// The first `n` conditions joined with `sep`.
pub open spec fn exprs_text(ps: Seq<SExprAst>, n: nat, indent: nat, sep: Seq<char>) -> Seq<char>
    decreases ps, n,
{
    if n == 0 || n > ps.len() {
        Seq::empty()
    } else if n == 1 {
        expr_text(ps[0], indent)
    } else {
        exprs_text(ps, (n - 1) as nat, indent, sep) + sep + expr_text(ps[n - 1], indent)
    }
}

pub open spec fn effect_word(e: EffectAst) -> Seq<char> {
    match e {
        EffectAst::Allow => "allow"@,
        EffectAst::Deny => "deny"@,
    }
}

/// A rule as Karu source: `allow name if\n<conditions>;\n`, or `allow name;\n`.
pub open spec fn rule_text(r: SRule) -> Seq<char> {
    match r.body {
        Some(b) => effect_word(r.effect) + " "@ + r.name + " if\n"@ + expr_text(b, 1) + ";\n"@,
        None => effect_word(r.effect) + " "@ + r.name + ";\n"@,
    }
}

/// The rules as Karu source, one after another.
pub open spec fn source_text(rs: Seq<SRule>) -> Seq<char>
    decreases rs.len(),
{
    if rs.len() == 0 {
        Seq::empty()
    } else {
        source_text(rs.drop_last()) + rule_text(rs.last())
    }
}


/// What importing Cedar source gives: a program of the imported rules alone,
/// with no schema, imports, modules, assertions or tests.
pub open spec fn import_program(cs: Seq<char>) -> Result<SProgram, SImportError> {
    match import_rules(cs) {
        Ok(rs) => Ok(
            SProgram {
                use_schema: false,
                imports: Seq::empty(),
                modules: Seq::empty(),
                assertions: Seq::empty(),
                rules: rs,
                tests: Seq::empty(),
            },
        ),
        Err(e) => Err(e),
    }
}

/// What importing a Cedar schema gives: the modules the schema parser reads,
/// or its error with the message and line kept and the column dropped.
pub open spec fn import_schema(cs: Seq<char>) -> Result<Seq<SModule>, SImportError> {
    match parse_schema_spec(cs) {
        Ok(ms) => Ok(ms),
        Err(e) => Err(SImportError { message: e.message, line: Some(e.line) }),
    }
}

} // verus!
