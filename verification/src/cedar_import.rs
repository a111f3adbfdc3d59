//! Import of Cedar policies into Karu: each Cedar policy becomes a Karu rule,
//! its scope and conditions Karu conditions; constructs Karu has no
//! counterpart for are reported as errors.
use vstd::prelude::*;
use crate::ast::{
    PathAst, PathSegmentAst, PatternAst, ExprAst, OpAst, EffectAst, RuleAst, Program, SPattern,
    SExprAst, SRule, SProgram, pattern_view, pattern_pairs_view,
    expr_ast_view, exprs_of_ast, patterns_of, rules_view, lemma_expr_asts_view,
    lemma_pattern_pairs_view, lemma_exprs_of_ast_push, lemma_patterns_of_push,
};
use crate::cedar_parser::{
    CedarExpr, CedarEntityRef, CedarRelOp, CedarAddOp, CedarEffect, CedarPolicy,
    CedarScopeConstraint, CedarActionConstraint, CedarAnnotation, SExpr, SEntityRef, SPolicy,
    SError, exprs_view, annotations_view, conditions_view, policies_view,
    fields_view, lemma_exprs_view, lemma_fields_view, join_strings, entities_view, parse,
    strs_debug_of, expr_view,
};
use crate::cedar_schema_parser::parse_cedarschema;
use crate::cedar_schema_syntax::parse_schema_spec;
use crate::schema::{ModuleDef, modules_view, SModule};
use crate::cedar_translation::{
    SImportError, unsupported, dotted, str_lit, int_json, const_value, path_of,
    pattern_of, patterns_upto, field_patterns_upto, expr_debug_text, exprs_debug_text,
    fields_debug_text, rel_op_name, extfun_path, extfun_literal,
    literals_upto, ip_test_op, decimal_op, method_condition, rel_op_ast, rel_holds,
    relation_condition, bool_cond, computed, expr_condition, and_parts, or_parts, equals_pattern,
    principal_conds, action_conds, action_is, resource_conds, container_field, resource_in,
    slot_error, id_annotation, rule_name, conditions_upto, policy_rule, rules_upto,
    import_rules, indent_text, seg_text, path_text, op_text, json_text, json_items, json_entries,
    pattern_text, expr_text, exprs_text, source_text, import_program,
    import_schema,
};
use crate::json::str_eq;
use crate::json::{Value, JsonV, Number, jv_arr, lemma_jv_arr};
use crate::path::SegV;
use crate::text::{
    split_on_char, to_lowercase, lowercase,
    usize_to_string, i64_to_string, json_string, decimal, debug_str, str_debug,
};
use crate::cedar_syntax::join;

verus! {

/// How a Cedar expression is printed in an error message.
fn expr_debug(e: &CedarExpr) -> (s: String)
    ensures
        s@ == expr_debug_text(e@),
    decreases e, 1nat,
{
    match e {
        CedarExpr::IfThenElse { cond, then_expr, else_expr } => {
            let mut s = String::from_str("IfThenElse { cond: ");
            s.append(expr_debug(cond).as_str());
            s.append(", then_expr: ");
            s.append(expr_debug(then_expr).as_str());
            s.append(", else_expr: ");
            s.append(expr_debug(else_expr).as_str());
            s.append(" }");
            assert(s@ =~= expr_debug_text(e@));
            s
        },
        CedarExpr::Or(a, b) => {
            let mut s = String::from_str("Or(");
            s.append(expr_debug(a).as_str());
            s.append(", ");
            s.append(expr_debug(b).as_str());
            s.append(")");
            assert(s@ =~= expr_debug_text(e@));
            s
        },
        CedarExpr::And(a, b) => {
            let mut s = String::from_str("And(");
            s.append(expr_debug(a).as_str());
            s.append(", ");
            s.append(expr_debug(b).as_str());
            s.append(")");
            assert(s@ =~= expr_debug_text(e@));
            s
        },
        CedarExpr::Relation { lhs, op, rhs } => {
            let mut s = String::from_str("Relation { lhs: ");
            s.append(expr_debug(lhs).as_str());
            s.append(", op: ");
            s.append(rel_op_debug(*op));
            s.append(", rhs: ");
            s.append(expr_debug(rhs).as_str());
            s.append(" }");
            assert(s@ =~= expr_debug_text(e@));
            s
        },
        CedarExpr::InExpr { lhs, rhs } => {
            let mut s = String::from_str("InExpr { lhs: ");
            s.append(expr_debug(lhs).as_str());
            s.append(", rhs: ");
            s.append(expr_debug(rhs).as_str());
            s.append(" }");
            assert(s@ =~= expr_debug_text(e@));
            s
        },
        CedarExpr::Has(a, f) => {
            let mut s = String::from_str("Has(");
            s.append(expr_debug(a).as_str());
            s.append(", ");
            s.append(debug_str(f.as_str()).as_str());
            s.append(")");
            assert(s@ =~= expr_debug_text(e@));
            s
        },
        CedarExpr::Like(a, f) => {
            let mut s = String::from_str("Like(");
            s.append(expr_debug(a).as_str());
            s.append(", ");
            s.append(debug_str(f.as_str()).as_str());
            s.append(")");
            assert(s@ =~= expr_debug_text(e@));
            s
        },
        CedarExpr::Is { expr, entity_type, in_expr } => {
            let mut s = String::from_str("Is { expr: ");
            s.append(expr_debug(expr).as_str());
            s.append(", type_name: ");
            s.append(debug_str(entity_type.as_str()).as_str());
            s.append(", in_expr: ");
            match in_expr {
                None => s.append("None"),
                Some(b) => {
                    s.append("Some(");
                    s.append(expr_debug(b).as_str());
                    s.append(")");
                },
            }
            s.append(" }");
            assert(s@ =~= expr_debug_text(e@));
            s
        },
        CedarExpr::Add(a, op, b) => {
            let mut s = String::from_str("Add(");
            s.append(expr_debug(a).as_str());
            s.append(", ");
            match op {
                CedarAddOp::Add => s.append("Add"),
                CedarAddOp::Sub => s.append("Sub"),
            }
            s.append(", ");
            s.append(expr_debug(b).as_str());
            s.append(")");
            assert(s@ =~= expr_debug_text(e@));
            s
        },
        CedarExpr::Mul(a, b) => {
            let mut s = String::from_str("Mul(");
            s.append(expr_debug(a).as_str());
            s.append(", ");
            s.append(expr_debug(b).as_str());
            s.append(")");
            assert(s@ =~= expr_debug_text(e@));
            s
        },
        CedarExpr::Not(a) => {
            let mut s = String::from_str("Not(");
            s.append(expr_debug(a).as_str());
            s.append(")");
            assert(s@ =~= expr_debug_text(e@));
            s
        },
        CedarExpr::Neg(a) => {
            let mut s = String::from_str("Neg(");
            s.append(expr_debug(a).as_str());
            s.append(")");
            assert(s@ =~= expr_debug_text(e@));
            s
        },
        CedarExpr::Access(a, f) => {
            let mut s = String::from_str("Access(");
            s.append(expr_debug(a).as_str());
            s.append(", ");
            s.append(debug_str(f.as_str()).as_str());
            s.append(")");
            assert(s@ =~= expr_debug_text(e@));
            s
        },
        CedarExpr::MethodCall(a, m, args) => {
            proof {
                assert(decreases_to!(*e => (*e)->MethodCall_2));
                lemma_exprs_view(args@, args@.len());
            }
            let mut s = String::from_str("MethodCall(");
            s.append(expr_debug(a).as_str());
            s.append(", ");
            s.append(debug_str(m.as_str()).as_str());
            s.append(", [");
            s.append(exprs_debug(args).as_str());
            s.append("])");
            assert(s@ =~= expr_debug_text(e@));
            s
        },
        CedarExpr::Index(a, k) => {
            let mut s = String::from_str("Index(");
            s.append(expr_debug(a).as_str());
            s.append(", ");
            s.append(debug_str(k.as_str()).as_str());
            s.append(")");
            assert(s@ =~= expr_debug_text(e@));
            s
        },
        CedarExpr::Var(v) => debug_wrapped_str("Var(", v),
        CedarExpr::Int(n) => {
            let mut s = String::from_str("Int(");
            s.append(i64_to_string(*n).as_str());
            s.append(")");
            assert(s@ =~= expr_debug_text(e@));
            s
        },
        CedarExpr::Str(v) => debug_wrapped_str("Str(", v),
        CedarExpr::Bool(b) => if *b {
            String::from_str("Bool(true)")
        } else {
            String::from_str("Bool(false)")
        },
        CedarExpr::Entity(r) => {
            let mut s = String::from_str("Entity(CedarEntityRef { path: ");
            s.append(strs_debug_of(&r.path).as_str());
            s.append(", id: ");
            s.append(debug_str(r.id.as_str()).as_str());
            s.append(" })");
            assert(s@ =~= expr_debug_text(e@));
            s
        },
        CedarExpr::ExtFun(f, args) => {
            proof {
                assert(decreases_to!(*e => (*e)->ExtFun_1));
                lemma_exprs_view(args@, args@.len());
            }
            let mut s = String::from_str("ExtFun(");
            s.append(debug_str(f.as_str()).as_str());
            s.append(", [");
            s.append(exprs_debug(args).as_str());
            s.append("])");
            assert(s@ =~= expr_debug_text(e@));
            s
        },
        CedarExpr::SetLiteral(xs) => {
            proof {
                assert(decreases_to!(*e => (*e)->SetLiteral_0));
                lemma_exprs_view(xs@, xs@.len());
            }
            let mut s = String::from_str("Set([");
            s.append(exprs_debug(xs).as_str());
            s.append("])");
            assert(s@ =~= expr_debug_text(e@));
            s
        },
        CedarExpr::Record(fs) => {
            proof {
                assert(decreases_to!(*e => (*e)->Record_0));
                lemma_fields_view(fs@, fs@.len());
            }
            let mut s = String::from_str("Record([");
            s.append(fields_debug(fs).as_str());
            s.append("])");
            assert(s@ =~= expr_debug_text(e@));
            s
        },
    }
}

fn rel_op_debug(op: CedarRelOp) -> (s: &'static str)
    ensures
        s@ == rel_op_name(op),
{
    match op {
        CedarRelOp::Eq => "Eq",
        CedarRelOp::Neq => "Neq",
        CedarRelOp::Lt => "Lt",
        CedarRelOp::Lte => "Lte",
        CedarRelOp::Gt => "Gt",
        CedarRelOp::Gte => "Gte",
    }
}

/// `head` + the quoted string + `)`.
fn debug_wrapped_str(head: &str, v: &String) -> (s: String)
    ensures
        s@ == head@ + str_debug(v@) + ")"@,
{
    let mut s = String::from_str(head);
    s.append(debug_str(v.as_str()).as_str());
    s.append(")");
    s
}

/// A list of expressions, printed and separated by `, `.
fn exprs_debug(es: &Vec<CedarExpr>) -> (s: String)
    ensures
        s@ == exprs_debug_text(exprs_view(es@, es@.len()), es@.len()),
    decreases es, 0nat,
{
    let ghost v = exprs_view(es@, es@.len());
    proof {
        lemma_exprs_view(es@, es@.len());
    }
    let mut s = String::new();
    let mut i: usize = 0;
    while i < es.len()
        invariant
            i <= es.len(),
            v == exprs_view(es@, es@.len()),
            v.len() == es.len(),
            forall|j: int| 0 <= j < es.len() ==> #[trigger] v[j] == expr_view(es@[j]),
            s@ == exprs_debug_text(v, i as nat),
        decreases es.len() - i,
    {
        proof {
            vstd::std_specs::vec::axiom_vec_index_decreases(*es, i as int);
            assert(decreases_to!(*es => es[i as int]));
        }
        if i > 0 {
            s.append(", ");
        }
        let d = expr_debug(&es[i]);
        s.append(d.as_str());
        proof {
            assert(v[i as int] == expr_view(es@[i as int]));
            if i == 0 {
                assert(s@ =~= exprs_debug_text(v, 1));
            } else {
                assert(s@ =~= exprs_debug_text(v, (i + 1) as nat));
            }
        }
        i += 1;
    }
    s
}

/// Record fields, each printed as a `(key, value)` pair and separated by `, `.
fn fields_debug(fs: &Vec<(String, CedarExpr)>) -> (s: String)
    ensures
        s@ == fields_debug_text(fields_view(fs@, fs@.len()), fs@.len()),
    decreases fs, 0nat,
{
    let ghost v = fields_view(fs@, fs@.len());
    proof {
        lemma_fields_view(fs@, fs@.len());
    }
    let mut s = String::new();
    let mut i: usize = 0;
    while i < fs.len()
        invariant
            i <= fs.len(),
            v == fields_view(fs@, fs@.len()),
            v.len() == fs.len(),
            forall|j: int| 0 <= j < fs.len() ==> #[trigger] v[j] == (fs@[j].0@, expr_view(fs@[j].1)),
            s@ == fields_debug_text(v, i as nat),
        decreases fs.len() - i,
    {
        proof {
            vstd::std_specs::vec::axiom_vec_index_decreases(*fs, i as int);
            assert(decreases_to!(*fs => fs[i as int]));
            assert(decreases_to!(fs[i as int] => fs[i as int].1));
        }
        if i > 0 {
            s.append(", ");
        }
        s.append("(");
        s.append(debug_str(fs[i].0.as_str()).as_str());
        s.append(", ");
        let d = expr_debug(&fs[i].1);
        s.append(d.as_str());
        s.append(")");
        proof {
            assert(v[i as int] == (fs@[i as int].0@, expr_view(fs@[i as int].1)));
            if i == 0 {
                assert(s@ =~= fields_debug_text(v, 1));
            } else {
                assert(s@ =~= fields_debug_text(v, (i + 1) as nat));
            }
        }
        i += 1;
    }
    s
}

/// An error found while importing Cedar: a Cedar parse error carries its
/// line; a construct Karu has no counterpart for has none.
#[derive(Debug, Clone, PartialEq)]
pub struct ImportError {
    pub message: String,
    pub line: Option<usize>,
}

impl View for ImportError {
    type V = SImportError;

    open spec fn view(&self) -> SImportError {
        SImportError {
            message: self.message@,
            line: match self.line {
                Some(l) => Some(l as nat),
                None => None,
            },
        }
    }
}

impl ImportError {
    /// The message shown for the error: `ImportError at line L: message`, or
    /// `ImportError: message` when there is no line.
    pub fn to_string(&self) -> (s: String)
        ensures
            s@ == (match self.line {
                Some(l) => "ImportError at line "@ + crate::text::decimal(l as int) + ": "@
                    + self.message@,
                None => "ImportError: "@ + self.message@,
            }),
    {
        match self.line {
            Some(l) => {
                let mut s = String::from_str("ImportError at line ");
                let d = crate::text::usize_to_string(l);
                s.append(d.as_str());
                s.append(": ");
                s.append(self.message.as_str());
                s
            },
            None => {
                let mut s = String::from_str("ImportError: ");
                s.append(self.message.as_str());
                s
            },
        }
    }
}

fn unsupported_error(message: String) -> (e: ImportError)
    ensures
        e@ == unsupported(message@),
{
    ImportError { message, line: None }
}

/// The path `a.b.c` as field segments, split at every dot.
pub fn make_path(dotted_text: &str) -> (p: PathAst)
    ensures
        p@ == dotted(dotted_text@),
{
    let parts = split_on_char(dotted_text, '.');
    let mut segments: Vec<PathSegmentAst> = Vec::new();
    let mut i: usize = 0;
    while i < parts.len()
        invariant
            i <= parts.len(),
            segments@.len() == i,
            forall|j: int|
                0 <= j < i ==> #[trigger] crate::ast::seg_ast_view(segments@[j]) == SegV::Field(
                    parts@[j]@,
                ),
        decreases parts.len() - i,
    {
        segments.push(PathSegmentAst::Field(parts[i].clone()));
        i += 1;
    }
    let p = PathAst { segments };
    assert(p@ =~= dotted(dotted_text@));
    p
}

fn copy_path(p: &PathAst) -> (r: PathAst)
    ensures
        r@ == p@,
{
    let mut segments: Vec<PathSegmentAst> = Vec::new();
    let mut i: usize = 0;
    while i < p.segments.len()
        invariant
            i <= p.segments.len(),
            segments@.len() == i,
            forall|j: int|
                0 <= j < i ==> #[trigger] crate::ast::seg_ast_view(segments@[j])
                    == crate::ast::seg_ast_view(p.segments@[j]),
        decreases p.segments.len() - i,
    {
        let s = match &p.segments[i] {
            PathSegmentAst::Field(f) => PathSegmentAst::Field(f.clone()),
            PathSegmentAst::Index(k) => PathSegmentAst::Index(*k),
            PathSegmentAst::Variable(v) => PathSegmentAst::Variable(v.clone()),
        };
        segments.push(s);
        i += 1;
    }
    let r = PathAst { segments };
    assert(r@ =~= p@);
    r
}

/// The path with one more field.
fn push_field(p: PathAst, f: &str) -> (r: PathAst)
    ensures
        r@ == p@.push(SegV::Field(f@)),
{
    let ghost pv = p@;
    let PathAst { mut segments } = p;
    segments.push(PathSegmentAst::Field(f.to_string()));
    let r = PathAst { segments };
    assert(r@ =~= pv.push(SegV::Field(f@)));
    r
}

fn str_literal(s: String) -> (p: PatternAst)
    ensures
        p@ == str_lit(s@),
{
    PatternAst::Literal(Value::String(s))
}

fn int_value(n: i64) -> (v: Value)
    ensures
        v@ == int_json(n),
{
    if n >= 0 {
        Value::Number(Number::PosInt(n as u64))
    } else {
        Value::Number(Number::NegInt(n))
    }
}

/// The value of a constant integer expression, when every step fits in an `i64`.
fn const_of(e: &CedarExpr) -> (r: Option<i64>)
    ensures
        match r {
            Some(n) => const_value(e@) == Some(n as int),
            None => const_value(e@) is None,
        },
    decreases e,
{
    match e {
        CedarExpr::Int(n) => Some(*n),
        CedarExpr::Neg(x) => match const_of(x) {
            Some(n) => if n == i64::MIN {
                None
            } else {
                Some(-n)
            },
            None => None,
        },
        CedarExpr::Add(a, op, b) => match (const_of(a), const_of(b)) {
            (Some(x), Some(y)) => match op {
                CedarAddOp::Add => x.checked_add(y),
                CedarAddOp::Sub => x.checked_sub(y),
            },
            _ => None,
        },
        CedarExpr::Mul(a, b) => match (const_of(a), const_of(b)) {
            (Some(x), Some(y)) => x.checked_mul(y),
            _ => None,
        },
        _ => None,
    }
}

/// The path an expression stands for: a variable followed by fields.
fn expr_to_path(e: &CedarExpr) -> (r: Result<PathAst, ImportError>)
    ensures
        match r {
            Ok(p) => path_of(e@) == Ok::<Seq<SegV>, SImportError>(p@),
            Err(er) => path_of(e@) == Err::<Seq<SegV>, SImportError>(er@),
        },
    decreases e,
{
    match e {
        CedarExpr::Var(name) => Ok(make_path(name.as_str())),
        CedarExpr::Access(b, f) => match expr_to_path(b) {
            Ok(p) => Ok(push_field(p, f.as_str())),
            Err(er) => Err(er),
        },
        CedarExpr::Entity(en) => {
            let mut m = String::from_str("Entity reference ");
            let joined = join_strings(&en.path, "::");
            m.append(joined.as_str());
            m.append("::\"");
            m.append(en.id.as_str());
            m.append("\" cannot be used as a path");
            Err(unsupported_error(m))
        },
        _ => {
            let mut m = String::from_str("Cannot convert expression to path: ");
            let d = expr_debug(e);
            m.append(d.as_str());
            Err(unsupported_error(m))
        },
    }
}

/// The pattern an expression stands for.
fn expr_to_pattern(e: &CedarExpr) -> (r: Result<PatternAst, ImportError>)
    ensures
        match r {
            Ok(p) => pattern_of(e@) == Ok::<SPattern, SImportError>(p@),
            Err(er) => pattern_of(e@) == Err::<SPattern, SImportError>(er@),
        },
    decreases e, 1nat,
{
    match e {
        CedarExpr::Str(s) => Ok(str_literal(s.clone())),
        CedarExpr::Int(n) => Ok(PatternAst::Literal(int_value(*n))),
        CedarExpr::Bool(b) => Ok(PatternAst::Literal(Value::Bool(*b))),
        CedarExpr::Entity(en) => Ok(str_literal(en.id.clone())),
        CedarExpr::Var(name) => Ok(PatternAst::PathRef(make_path(name.as_str()))),
        CedarExpr::Access(_, _) => match expr_to_path(e) {
            Ok(p) => Ok(PatternAst::PathRef(p)),
            Err(er) => Err(er),
        },
        CedarExpr::SetLiteral(items) => {
            proof {
                assert(decreases_to!(*e => (*e)->SetLiteral_0));
            }
            match exprs_to_patterns(items) {
                Ok(ps) => {
                    proof {
                        lemma_exprs_view(items@, items@.len());
                    }
                    Ok(PatternAst::Array(ps))
                },
                Err(er) => {
                    proof {
                        lemma_exprs_view(items@, items@.len());
                    }
                    Err(er)
                },
            }
        },
        CedarExpr::Record(fields) => {
            let ghost fs = fields_view(fields@, fields@.len());
            proof {
                lemma_fields_view(fields@, fields@.len());
            }
            let mut out: Vec<(String, PatternAst)> = Vec::new();
            let mut i: usize = 0;
            while i < fields.len()
                invariant
                    i <= fields.len(),
                    *e == CedarExpr::Record(*fields),
                    fs == fields_view(fields@, fields@.len()),
                    fs.len() == fields.len(),
                    forall|j: int| 0 <= j < fields.len() ==> #[trigger] fs[j] == (fields@[j].0@, expr_view_of(fields@[j].1)),
                    field_patterns_upto(fs, i as nat) == Ok::<Seq<(Seq<char>, SPattern)>, SImportError>(
                        pattern_pairs_view(out@, out@.len()),
                    ),
                decreases fields.len() - i,
            {
                proof {
                    vstd::std_specs::vec::axiom_vec_index_decreases(*fields, i as int);
                    assert(decreases_to!(*e => (*e)->Record_0));
                    assert(decreases_to!(*fields => fields[i as int]));
                    assert(decreases_to!(fields[i as int] => fields[i as int].1));
                    assert(decreases_to!(*e => fields[i as int].1));
                }
                let p = match expr_to_pattern(&fields[i].1) {
                    Ok(p) => p,
                    Err(er) => {
                        assert(field_patterns_upto(fs, (i + 1) as nat) == Err::<
                            Seq<(Seq<char>, SPattern)>,
                            SImportError,
                        >(er@));
                        proof {
                            lemma_field_patterns_err(fs, (i + 1) as nat, fs.len());
                        }
                        return Err(er);
                    },
                };
                let ghost before = out@;
                out.push((fields[i].0.clone(), p));
                proof {
                    lemma_pattern_pairs_view(before, before.len());
                    lemma_pattern_pairs_view(out@, out@.len());
                    assert(pattern_pairs_view(out@, out@.len()) =~= pattern_pairs_view(
                        before,
                        before.len(),
                    ).push((fs[i as int].0, pattern_view(p))));
                }
                i += 1;
            }
            Ok(PatternAst::Object(out))
        },
        _ => {
            let mut m = String::from_str("Cannot convert expression to pattern: ");
            let d = expr_debug(e);
            m.append(d.as_str());
            Err(unsupported_error(m))
        },
    }
}

/// The patterns of a list of expressions, or the first error.
fn exprs_to_patterns(items: &Vec<CedarExpr>) -> (r: Result<Vec<PatternAst>, ImportError>)
    ensures
        match r {
            Ok(ps) => patterns_upto(exprs_view(items@, items@.len()), items@.len()) == Ok::<
                Seq<SPattern>,
                SImportError,
            >(patterns_of(ps@)),
            Err(er) => patterns_upto(exprs_view(items@, items@.len()), items@.len()) == Err::<
                Seq<SPattern>,
                SImportError,
            >(er@),
        },
    decreases items, 0nat,
{
    let ghost es = exprs_view(items@, items@.len());
    proof {
        lemma_exprs_view(items@, items@.len());
    }
    let mut out: Vec<PatternAst> = Vec::new();
    let mut i: usize = 0;
    assert(patterns_of(out@) =~= Seq::<SPattern>::empty());
    while i < items.len()
        invariant
            i <= items.len(),
            es == exprs_view(items@, items@.len()),
            es.len() == items.len(),
            forall|j: int| 0 <= j < items.len() ==> #[trigger] es[j] == expr_view_of(items@[j]),
            patterns_upto(es, i as nat) == Ok::<Seq<SPattern>, SImportError>(patterns_of(out@)),
        decreases items.len() - i,
    {
        proof {
            vstd::std_specs::vec::axiom_vec_index_decreases(*items, i as int);
            assert(decreases_to!(*items => items[i as int]));
        }
        let p = match expr_to_pattern(&items[i]) {
            Ok(p) => p,
            Err(er) => {
                proof {
                    lemma_patterns_err(es, (i + 1) as nat, es.len());
                }
                return Err(er);
            },
        };
        proof {
            lemma_patterns_of_push(out@, p);
        }
        out.push(p);
        i += 1;
    }
    Ok(out)
}

/// The content of a Cedar expression (a name for `expr_view` usable in triggers).
pub open spec fn expr_view_of(e: CedarExpr) -> SExpr {
    e@
}

/// Once the first `k` items give an error, so do the first `n >= k`.
proof fn lemma_patterns_err(es: Seq<SExpr>, k: nat, n: nat)
    requires
        k <= n <= es.len(),
        patterns_upto(es, k) is Err,
    ensures
        patterns_upto(es, n) == patterns_upto(es, k),
    decreases n - k,
{
    if n > k {
        lemma_patterns_err(es, k, (n - 1) as nat);
    }
}

proof fn lemma_field_patterns_err(fs: Seq<(Seq<char>, SExpr)>, k: nat, n: nat)
    requires
        k <= n <= fs.len(),
        field_patterns_upto(fs, k) is Err,
    ensures
        field_patterns_upto(fs, n) == field_patterns_upto(fs, k),
    decreases n - k,
{
    if n > k {
        lemma_field_patterns_err(fs, k, (n - 1) as nat);
    }
}

} // verus!

verus! {

/// The path inside `f(path)`; a string argument becomes the single field `@lit:s`.
fn extfun_to_path(e: &CedarExpr, expected_fn: &str) -> (r: Result<PathAst, ImportError>)
    ensures
        match r {
            Ok(p) => extfun_path(e@, expected_fn@) == Ok::<Seq<SegV>, SImportError>(p@),
            Err(er) => extfun_path(e@, expected_fn@) == Err::<Seq<SegV>, SImportError>(er@),
        },
{
    if let CedarExpr::ExtFun(name, args) = e {
        proof {
            lemma_exprs_view(args@, args@.len());
        }
        if str_eq(name.as_str(), expected_fn) && args.len() == 1 {
            match &args[0] {
                CedarExpr::Var(v) => {
                    return Ok(make_path(v.as_str()));
                },
                CedarExpr::Access(_, _) => {
                    return expr_to_path(&args[0]);
                },
                CedarExpr::Str(lit) => {
                    let mut f = String::from_str("@lit:");
                    f.append(lit.as_str());
                    let p = PathAst { segments: vec![PathSegmentAst::Field(f)] };
                    assert(p@ =~= seq![SegV::Field("@lit:"@ + lit@)]);
                    return Ok(p);
                },
                _ => {
                    let mut m = String::from_str(expected_fn);
                    m.append("() argument must be a path or string literal");
                    return Err(unsupported_error(m));
                },
            }
        }
    }
    let mut m = String::from_str("Expected ");
    m.append(expected_fn);
    m.append("() call, got ");
    let d = expr_debug(e);
    m.append(d.as_str());
    Err(unsupported_error(m))
}

/// The string inside `f("s")`.
fn extfun_to_literal(e: &CedarExpr, expected_fn: &str) -> (r: Result<String, ImportError>)
    ensures
        match r {
            Ok(s) => extfun_literal(e@, expected_fn@) == Ok::<Seq<char>, SImportError>(s@),
            Err(er) => extfun_literal(e@, expected_fn@) == Err::<Seq<char>, SImportError>(er@),
        },
{
    if let CedarExpr::ExtFun(name, args) = e {
        proof {
            lemma_exprs_view(args@, args@.len());
        }
        if str_eq(name.as_str(), expected_fn) && args.len() == 1 {
            if let CedarExpr::Str(lit) = &args[0] {
                return Ok(lit.clone());
            }
            let mut m = String::from_str(expected_fn);
            m.append("() argument must be a string literal");
            return Err(unsupported_error(m));
        }
    }
    let mut m = String::from_str("Expected ");
    m.append(expected_fn);
    m.append("() call with string literal");
    Err(unsupported_error(m))
}

proof fn lemma_literals_err(es: Seq<SExpr>, k: nat, n: nat, m: Seq<char>)
    requires
        k <= n <= es.len(),
        literals_upto(es, k, m) is Err,
    ensures
        literals_upto(es, n, m) == literals_upto(es, k, m),
    decreases n - k,
{
    if n > k {
        lemma_literals_err(es, k, (n - 1) as nat, m);
    }
}

/// The literal values of the elements of a set given to `containsAll` or `containsAny`.
fn set_literals(els: &Vec<CedarExpr>, method: &String) -> (r: Result<Vec<Value>, ImportError>)
    ensures
        match r {
            Ok(vs) => literals_upto(exprs_view(els@, els@.len()), els@.len(), method@) == Ok::<
                Seq<JsonV>,
                SImportError,
            >(jv_arr(vs@, vs@.len())),
            Err(er) => literals_upto(exprs_view(els@, els@.len()), els@.len(), method@) == Err::<
                Seq<JsonV>,
                SImportError,
            >(er@),
        },
{
    let ghost es = exprs_view(els@, els@.len());
    proof {
        lemma_exprs_view(els@, els@.len());
    }
    let mut vals: Vec<Value> = Vec::new();
    let mut i: usize = 0;
    while i < els.len()
        invariant
            i <= els.len(),
            es == exprs_view(els@, els@.len()),
            es.len() == els.len(),
            forall|j: int| 0 <= j < els.len() ==> #[trigger] es[j] == expr_view_of(els@[j]),
            literals_upto(es, i as nat, method@) == Ok::<Seq<JsonV>, SImportError>(
                jv_arr(vals@, vals@.len()),
            ),
        decreases els.len() - i,
    {
        match expr_to_pattern(&els[i]) {
            Ok(PatternAst::Literal(v)) => {
                let ghost before = vals@;
                vals.push(v);
                proof {
                    lemma_jv_arr(before, before.len());
                    lemma_jv_arr(vals@, vals@.len());
                    assert(jv_arr(vals@, vals@.len()) =~= jv_arr(before, before.len()).push(
                        vals@.last()@,
                    ));
                }
            },
            Ok(_) => {
                let mut m = method.clone();
                m.append("() elements must be literals");
                proof {
                    lemma_literals_err(es, (i + 1) as nat, es.len(), method@);
                }
                return Err(unsupported_error(m));
            },
            Err(er) => {
                proof {
                    lemma_literals_err(es, (i + 1) as nat, es.len(), method@);
                }
                return Err(er);
            },
        }
        i += 1;
    }
    Ok(vals)
}

/// `f() expects exactly one argument`.
fn one_argument(method: &String) -> (e: ImportError)
    ensures
        e@ == crate::cedar_translation::one_argument_error(method@),
{
    let mut m = method.clone();
    m.append("() expects exactly one argument");
    unsupported_error(m)
}

fn ip_test_op_of(m: &str) -> (r: Option<OpAst>)
    ensures
        r == ip_test_op(m@),
{
    if str_eq(m, "isIpv4") {
        Some(OpAst::IsIpv4)
    } else if str_eq(m, "isIpv6") {
        Some(OpAst::IsIpv6)
    } else if str_eq(m, "isLoopback") {
        Some(OpAst::IsLoopback)
    } else if str_eq(m, "isMulticast") {
        Some(OpAst::IsMulticast)
    } else {
        None
    }
}

fn decimal_op_of(m: &str) -> (r: Option<OpAst>)
    ensures
        r == decimal_op(m@),
{
    if str_eq(m, "lessThan") {
        Some(OpAst::DecimalLt)
    } else if str_eq(m, "lessThanOrEqual") {
        Some(OpAst::DecimalLe)
    } else if str_eq(m, "greaterThan") {
        Some(OpAst::DecimalGt)
    } else if str_eq(m, "greaterThanOrEqual") {
        Some(OpAst::DecimalGe)
    } else {
        None
    }
}

/// A method call `base.method(args)`: membership, set containment, and the
/// `ip` and `decimal` extension methods.
fn convert_method_call(base: &CedarExpr, method: &String, args: &Vec<CedarExpr>) -> (r: Result<
    ExprAst,
    ImportError,
>)
    ensures
        match r {
            Ok(a) => method_condition(base@, method@, exprs_view(args@, args@.len())) == Ok::<
                SExprAst,
                SImportError,
            >(a@),
            Err(er) => method_condition(base@, method@, exprs_view(args@, args@.len())) == Err::<
                SExprAst,
                SImportError,
            >(er@),
        },
{
    proof {
        lemma_exprs_view(args@, args@.len());
    }
    let m = method.as_str();
    if str_eq(m, "contains") {
        if args.len() != 1 {
            return Err(one_argument(method));
        }
        let path = match expr_to_path(base) {
            Ok(p) => p,
            Err(er) => return Err(er),
        };
        let pattern = match expr_to_pattern(&args[0]) {
            Ok(p) => p,
            Err(er) => return Err(er),
        };
        return Ok(ExprAst::In { pattern, path });
    }
    if str_eq(m, "containsAll") || str_eq(m, "containsAny") {
        if args.len() != 1 {
            return Err(one_argument(method));
        }
        let path = match expr_to_path(base) {
            Ok(p) => p,
            Err(er) => return Err(er),
        };
        let els = match &args[0] {
            CedarExpr::SetLiteral(els) => els,
            _ => {
                let mut msg = method.clone();
                msg.append("() argument must be a set literal");
                return Err(unsupported_error(msg));
            },
        };
        proof {
            lemma_exprs_view(els@, els@.len());
        }
        if els.len() == 0 {
            let mut msg = method.clone();
            msg.append("() with empty set");
            return Err(unsupported_error(msg));
        }
        let vals = match set_literals(els, method) {
            Ok(v) => v,
            Err(er) => return Err(er),
        };
        let op = if str_eq(m, "containsAll") {
            OpAst::ContainsAll
        } else {
            OpAst::ContainsAny
        };
        return Ok(ExprAst::Compare { left: path, op, right: PatternAst::Literal(Value::Array(vals)) });
    }
    if str_eq(m, "isInRange") {
        if args.len() != 1 {
            return Err(one_argument(method));
        }
        let path = match extfun_to_path(base, "ip") {
            Ok(p) => p,
            Err(er) => return Err(er),
        };
        let cidr = match extfun_to_literal(&args[0], "ip") {
            Ok(c) => c,
            Err(er) => return Err(er),
        };
        return Ok(ExprAst::Compare { left: path, op: OpAst::IpIsInRange, right: str_literal(cidr) });
    }
    if let Some(op) = ip_test_op_of(m) {
        let path = match extfun_to_path(base, "ip") {
            Ok(p) => p,
            Err(er) => return Err(er),
        };
        return Ok(ExprAst::Compare { left: path, op, right: PatternAst::Wildcard });
    }
    if let Some(op) = decimal_op_of(m) {
        if args.len() != 1 {
            return Err(one_argument(method));
        }
        let path = match extfun_to_path(base, "decimal") {
            Ok(p) => p,
            Err(er) => return Err(er),
        };
        let value = match extfun_to_literal(&args[0], "decimal") {
            Ok(v) => v,
            Err(er) => return Err(er),
        };
        return Ok(ExprAst::Compare { left: path, op, right: str_literal(value) });
    }
    let mut msg = String::from_str("Method call '.");
    msg.append(m);
    msg.append("()' not supported");
    Err(unsupported_error(msg))
}

/// `_always == _`, or its negation.
fn bool_condition(b: bool) -> (r: ExprAst)
    ensures
        r@ == bool_cond(b),
{
    let always = ExprAst::Compare {
        left: make_path("_always"),
        op: OpAst::Eq,
        right: PatternAst::Wildcard,
    };
    assert(always@ == equals_pattern(dotted("_always"@), SPattern::Wildcard));
    if b {
        always
    } else {
        ExprAst::Not(Box::new(always))
    }
}

/// `_computed == n`.
fn computed_condition(n: i64) -> (r: ExprAst)
    ensures
        r@ == computed(n),
{
    ExprAst::Compare {
        left: make_path("_computed"),
        op: OpAst::Eq,
        right: PatternAst::Literal(int_value(n)),
    }
}

fn rel_op_of(op: CedarRelOp) -> (r: OpAst)
    ensures
        r == rel_op_ast(op),
{
    match op {
        CedarRelOp::Eq => OpAst::Eq,
        CedarRelOp::Neq => OpAst::Ne,
        CedarRelOp::Lt => OpAst::Lt,
        CedarRelOp::Lte => OpAst::Le,
        CedarRelOp::Gt => OpAst::Gt,
        CedarRelOp::Gte => OpAst::Ge,
    }
}

/// A comparison: a path against a pattern, or two constants compared now.
fn convert_relation(lhs: &CedarExpr, op: CedarRelOp, rhs: &CedarExpr) -> (r: Result<
    ExprAst,
    ImportError,
>)
    ensures
        match r {
            Ok(a) => relation_condition(lhs@, op, rhs@) == Ok::<SExprAst, SImportError>(a@),
            Err(er) => relation_condition(lhs@, op, rhs@) == Err::<SExprAst, SImportError>(er@),
        },
{
    match expr_to_path(lhs) {
        Ok(left) => match expr_to_pattern(rhs) {
            Ok(right) => Ok(ExprAst::Compare { left, op: rel_op_of(op), right }),
            Err(er) => Err(er),
        },
        Err(_) => match (const_of(lhs), const_of(rhs)) {
            (Some(a), Some(b)) => {
                let holds = match op {
                    CedarRelOp::Eq => a == b,
                    CedarRelOp::Neq => a != b,
                    CedarRelOp::Lt => a < b,
                    CedarRelOp::Lte => a <= b,
                    CedarRelOp::Gt => a > b,
                    CedarRelOp::Gte => a >= b,
                };
                assert(holds == rel_holds(a as int, op, b as int));
                Ok(bool_condition(holds))
            },
            _ => {
                let mut m = String::from_str("Cannot convert expression to path: ");
                let d = expr_debug(lhs);
                m.append(d.as_str());
                Err(unsupported_error(m))
            },
        },
    }
}

} // verus!

verus! {

/// Whether the expression is the boolean literal `b`.
fn is_bool_literal(e: &CedarExpr, b: bool) -> (r: bool)
    ensures
        r == (e@ == SExpr::Bool(b)),
{
    match e {
        CedarExpr::Bool(x) => *x == b,
        _ => false,
    }
}

fn arithmetic_error(op: &str) -> (e: ImportError)
    ensures
        e@ == unsupported("Arithmetic '"@ + op@ + "' with non-literal operands not yet supported"@),
{
    let mut m = String::from_str("Arithmetic '");
    m.append(op);
    m.append("' with non-literal operands not yet supported");
    unsupported_error(m)
}

/// The two-element list of expressions.
fn pair(a: ExprAst, b: ExprAst) -> (v: Vec<ExprAst>)
    ensures
        exprs_of_ast(v@) == seq![a@, b@],
{
    let v = vec![a, b];
    proof {
        lemma_expr_asts_view(v@, 2);
    }
    assert(exprs_of_ast(v@) =~= seq![v@[0]@, v@[1]@]);
    v
}

/// `expr is Type`, optionally `in Group::"g"`.
fn convert_is(x: &CedarExpr, entity_type: &String, in_expr: &Option<Box<CedarExpr>>) -> (r: Result<
    ExprAst,
    ImportError,
>)
    ensures
        ({
            let s = expr_condition(
                SExpr::Is(
                    Box::new(x@),
                    entity_type@,
                    match in_expr {
                        Some(b) => Some(Box::new((**b)@)),
                        None => None,
                    },
                ),
            );
            match r {
                Ok(a) => s == Ok::<SExprAst, SImportError>(a@),
                Err(er) => s == Err::<SExprAst, SImportError>(er@),
            }
        }),
{
    let base = match expr_to_path(x) {
        Ok(p) => p,
        Err(er) => return Err(er),
    };
    let groups_base = copy_path(&base);
    let type_check = ExprAst::Compare {
        left: push_field(base, "type"),
        op: OpAst::Eq,
        right: str_literal(entity_type.clone()),
    };
    match in_expr {
        None => Ok(type_check),
        Some(g) => match &**g {
            CedarExpr::Entity(en) => {
                let group_check = ExprAst::In {
                    pattern: str_literal(en.id.clone()),
                    path: push_field(groups_base, "groups"),
                };
                Ok(ExprAst::And(pair(type_check, group_check)))
            },
            _ => Err(
                unsupported_error(
                    String::from_str("'is ... in' expects an entity reference as the group"),
                ),
            ),
        },
    }
}

/// The Karu condition a Cedar expression stands for.
fn convert_expr(expr: &CedarExpr) -> (r: Result<ExprAst, ImportError>)
    ensures
        match r {
            Ok(a) => expr_condition(expr@) == Ok::<SExprAst, SImportError>(a@),
            Err(er) => expr_condition(expr@) == Err::<SExprAst, SImportError>(er@),
        },
    decreases expr, 2nat,
{
    match expr {
        CedarExpr::And(a, b) => {
            let mut parts: Vec<ExprAst> = Vec::new();
            assert(exprs_of_ast(parts@) =~= Seq::<SExprAst>::empty());
            match flatten_and(a, &mut parts) {
                Ok(_) => {},
                Err(er) => return Err(er),
            }
            match flatten_and(b, &mut parts) {
                Ok(_) => {},
                Err(er) => return Err(er),
            }
            Ok(ExprAst::And(parts))
        },
        CedarExpr::Or(a, b) => {
            let mut parts: Vec<ExprAst> = Vec::new();
            assert(exprs_of_ast(parts@) =~= Seq::<SExprAst>::empty());
            match flatten_or(a, &mut parts) {
                Ok(_) => {},
                Err(er) => return Err(er),
            }
            match flatten_or(b, &mut parts) {
                Ok(_) => {},
                Err(er) => return Err(er),
            }
            Ok(ExprAst::Or(parts))
        },
        CedarExpr::Not(inner) => match convert_expr(inner) {
            Ok(c) => Ok(ExprAst::Not(Box::new(c))),
            Err(er) => Err(er),
        },
        CedarExpr::Relation { lhs, op, rhs } => convert_relation(lhs, *op, rhs),
        CedarExpr::InExpr { lhs, rhs } => {
            let pattern = match expr_to_pattern(lhs) {
                Ok(p) => p,
                Err(er) => return Err(er),
            };
            let path = match expr_to_path(rhs) {
                Ok(p) => p,
                Err(er) => return Err(er),
            };
            Ok(ExprAst::In { pattern, path })
        },
        CedarExpr::Has(base, field) => match expr_to_path(base) {
            Ok(p) => Ok(ExprAst::Has { path: push_field(p, field.as_str()) }),
            Err(er) => Err(er),
        },
        CedarExpr::Like(base, pat) => match expr_to_path(base) {
            Ok(path) => Ok(ExprAst::Like { path, pattern: pat.clone() }),
            Err(er) => Err(er),
        },
        CedarExpr::Is { expr: x, entity_type, in_expr } => convert_is(x, entity_type, in_expr),
        CedarExpr::IfThenElse { .. } => convert_if(expr),
        CedarExpr::Add(..) => convert_arithmetic(expr),
        CedarExpr::Mul(..) => convert_arithmetic(expr),
        CedarExpr::Neg(..) => convert_arithmetic(expr),
        CedarExpr::MethodCall(base, method, args) => convert_method_call(base, method, args),
        CedarExpr::Access(_, _) => match expr_to_path(expr) {
            Ok(path) => Ok(
                ExprAst::Compare {
                    left: path,
                    op: OpAst::Eq,
                    right: PatternAst::Literal(Value::Bool(true)),
                },
            ),
            Err(er) => Err(er),
        },
        CedarExpr::Index(_, key) => {
            let mut m = String::from_str("Index access '[\"");
            m.append(key.as_str());
            m.append("\"]' not directly supported");
            Err(unsupported_error(m))
        },
        CedarExpr::Var(name) => Ok(
            ExprAst::Compare {
                left: make_path(name.as_str()),
                op: OpAst::Eq,
                right: PatternAst::Literal(Value::Bool(true)),
            },
        ),
        CedarExpr::Bool(b) => Ok(bool_condition(*b)),
        CedarExpr::Int(_) => Err(
            unsupported_error(String::from_str("Standalone literal not supported as condition")),
        ),
        CedarExpr::Str(_) => Err(
            unsupported_error(String::from_str("Standalone literal not supported as condition")),
        ),
        CedarExpr::Entity(_) => Err(
            unsupported_error(
                String::from_str("Standalone entity reference not supported as condition"),
            ),
        ),
        CedarExpr::ExtFun(name, _) => {
            let mut m = String::from_str("Extension function '");
            m.append(name.as_str());
            m.append("' not supported");
            Err(unsupported_error(m))
        },
        CedarExpr::SetLiteral(_) => Err(
            unsupported_error(String::from_str("Set literals not supported as condition")),
        ),
        CedarExpr::Record(_) => Err(
            unsupported_error(String::from_str("Record literals not supported as condition")),
        ),
    }
}

/// `if c then t else e`, with the common shapes simplified.
fn convert_if(expr: &CedarExpr) -> (r: Result<ExprAst, ImportError>)
    requires
        expr is IfThenElse,
    ensures
        match r {
            Ok(a) => expr_condition(expr@) == Ok::<SExprAst, SImportError>(a@),
            Err(er) => expr_condition(expr@) == Err::<SExprAst, SImportError>(er@),
        },
    decreases expr, 1nat,
{
    match expr {
        CedarExpr::IfThenElse { cond, then_expr, else_expr } => {
            let cond_expr = match convert_expr(cond) {
                Ok(c) => c,
                Err(er) => return Err(er),
            };
            let then_true = is_bool_literal(then_expr, true);
            let then_false = is_bool_literal(then_expr, false);
            let else_true = is_bool_literal(else_expr, true);
            let else_false = is_bool_literal(else_expr, false);
            if then_true && else_false {
                Ok(cond_expr)
            } else if then_false && else_true {
                Ok(ExprAst::Not(Box::new(cond_expr)))
            } else if else_false {
                match convert_expr(then_expr) {
                    Ok(t) => Ok(ExprAst::And(pair(cond_expr, t))),
                    Err(er) => Err(er),
                }
            } else if then_true {
                match convert_expr(else_expr) {
                    Ok(el) => Ok(ExprAst::Or(pair(cond_expr, el))),
                    Err(er) => Err(er),
                }
            } else {
                Err(
                    unsupported_error(
                        String::from_str("General if-then-else not supported: one branch must be true or false"),
                    ),
                )
            }
        },
        _ => Err(unsupported_error(String::new())),
    }
}

/// Constant arithmetic, folded now; anything else is an error.
fn convert_arithmetic(expr: &CedarExpr) -> (r: Result<ExprAst, ImportError>)
    requires
        expr is Add || expr is Mul || expr is Neg,
    ensures
        match r {
            Ok(a) => expr_condition(expr@) == Ok::<SExprAst, SImportError>(a@),
            Err(er) => expr_condition(expr@) == Err::<SExprAst, SImportError>(er@),
        },
{
    match expr {
        CedarExpr::Add(a, op, b) => {
            let op_text: &str = match op {
                CedarAddOp::Add => "+",
                CedarAddOp::Sub => "-",
            };
            assert(op_text@ == crate::cedar_translation::add_op_text(*op));
            let folded = match (const_of(a), const_of(b)) {
                (Some(x), Some(y)) => match op {
                    CedarAddOp::Add => x.checked_add(y),
                    CedarAddOp::Sub => x.checked_sub(y),
                },
                _ => None,
            };
            match folded {
                Some(n) => {
                    Ok(computed_condition(n))
                },
                None => Err(arithmetic_error(op_text)),
            }
        },
        CedarExpr::Mul(a, b) => {
            let folded = match (const_of(a), const_of(b)) {
                (Some(x), Some(y)) => x.checked_mul(y),
                _ => None,
            };
            match folded {
                Some(n) => {
                    Ok(computed_condition(n))
                },
                None => {
                    Err(
                        unsupported_error(
                            String::from_str(
                                "Arithmetic '*' with non-literal operands not yet supported",
                            ),
                        ),
                    )
                },
            }
        },
        CedarExpr::Neg(inner) => match const_of(inner) {
            Some(n) => if n == i64::MIN {
                Err(
                    unsupported_error(
                        String::from_str("Unary negation of non-literal not yet supported"),
                    ),
                )
            } else {
                Ok(computed_condition(-n))
            },
            None => Err(
                unsupported_error(String::from_str("Unary negation of non-literal not yet supported")),
            ),
        },
        _ => Err(unsupported_error(String::new())),
    }
}

/// Appends the converted conjuncts of nested `&&`, left to right.
fn flatten_and(expr: &CedarExpr, parts: &mut Vec<ExprAst>) -> (r: Result<(), ImportError>)
    ensures
        match r {
            Ok(_) => and_parts(expr@) matches Ok(s) && exprs_of_ast(final(parts)@) == exprs_of_ast(
                old(parts)@,
            ) + s,
            Err(er) => and_parts(expr@) == Err::<Seq<SExprAst>, SImportError>(er@),
        },
    decreases expr, 3nat,
{
    match expr {
        CedarExpr::And(a, b) => {
            let ghost start = exprs_of_ast(parts@);
            match flatten_and(a, parts) {
                Ok(_) => {},
                Err(er) => return Err(er),
            }
            match flatten_and(b, parts) {
                Ok(_) => {},
                Err(er) => return Err(er),
            }
            proof {
                let sa = and_parts((**a)@)->Ok_0;
                let sb = and_parts((**b)@)->Ok_0;
                assert(exprs_of_ast(parts@) =~= start + (sa + sb));
            }
            Ok(())
        },
        _ => match convert_expr(expr) {
            Ok(c) => {
                proof {
                    lemma_exprs_of_ast_push(parts@, c);
                }
                parts.push(c);
                Ok(())
            },
            Err(er) => Err(er),
        },
    }
}

/// Appends the converted disjuncts of nested `||`, left to right.
fn flatten_or(expr: &CedarExpr, parts: &mut Vec<ExprAst>) -> (r: Result<(), ImportError>)
    ensures
        match r {
            Ok(_) => or_parts(expr@) matches Ok(s) && exprs_of_ast(final(parts)@) == exprs_of_ast(
                old(parts)@,
            ) + s,
            Err(er) => or_parts(expr@) == Err::<Seq<SExprAst>, SImportError>(er@),
        },
    decreases expr, 3nat,
{
    match expr {
        CedarExpr::Or(a, b) => {
            let ghost start = exprs_of_ast(parts@);
            match flatten_or(a, parts) {
                Ok(_) => {},
                Err(er) => return Err(er),
            }
            match flatten_or(b, parts) {
                Ok(_) => {},
                Err(er) => return Err(er),
            }
            proof {
                let sa = or_parts((**a)@)->Ok_0;
                let sb = or_parts((**b)@)->Ok_0;
                assert(exprs_of_ast(parts@) =~= start + (sa + sb));
            }
            Ok(())
        },
        _ => match convert_expr(expr) {
            Ok(c) => {
                proof {
                    lemma_exprs_of_ast_push(parts@, c);
                }
                parts.push(c);
                Ok(())
            },
            Err(er) => Err(er),
        },
    }
}

} // verus!

verus! {

/// Appends one condition.
fn push_condition(conditions: &mut Vec<ExprAst>, c: ExprAst)
    ensures
        exprs_of_ast(final(conditions)@) == exprs_of_ast(old(conditions)@).push(c@),
{
    proof {
        lemma_exprs_of_ast_push(conditions@, c);
    }
    conditions.push(c);
}

fn template_slot_error(slot: &String) -> (e: ImportError)
    ensures
        e@ == slot_error(slot@),
{
    let mut m = String::from_str("Template slot '");
    m.append(slot.as_str());
    m.append("' not supported");
    unsupported_error(m)
}

/// Adds the conditions of a principal constraint.
fn convert_scope_principal(constraint: &CedarScopeConstraint, conditions: &mut Vec<ExprAst>) -> (r:
    Result<(), ImportError>)
    ensures
        match r {
            Ok(_) => principal_conds(constraint@) matches Ok(s) && exprs_of_ast(final(conditions)@)
                == exprs_of_ast(old(conditions)@) + s,
            Err(er) => principal_conds(constraint@) == Err::<Seq<SExprAst>, SImportError>(er@),
        },
{
    let ghost start = exprs_of_ast(conditions@);
    match constraint {
        CedarScopeConstraint::Any => {
            assert(start + Seq::<SExprAst>::empty() =~= start);
        },
        CedarScopeConstraint::Eq(entity) => {
            push_condition(
                conditions,
                ExprAst::Compare {
                    left: make_path("principal"),
                    op: OpAst::Eq,
                    right: str_literal(entity.id.clone()),
                },
            );
            assert(exprs_of_ast(conditions@) =~= start + principal_conds(constraint@)->Ok_0);
        },
        CedarScopeConstraint::In(entity) => {
            push_condition(
                conditions,
                ExprAst::In {
                    pattern: str_literal(entity.id.clone()),
                    path: make_path("principal.groups"),
                },
            );
            assert(exprs_of_ast(conditions@) =~= start + principal_conds(constraint@)->Ok_0);
        },
        CedarScopeConstraint::Is(t) => {
            push_condition(
                conditions,
                ExprAst::Compare {
                    left: make_path("principal.type"),
                    op: OpAst::Eq,
                    right: str_literal(t.clone()),
                },
            );
            assert(exprs_of_ast(conditions@) =~= start + principal_conds(constraint@)->Ok_0);
        },
        CedarScopeConstraint::IsIn(t, entity) => {
            push_condition(
                conditions,
                ExprAst::Compare {
                    left: make_path("principal.type"),
                    op: OpAst::Eq,
                    right: str_literal(t.clone()),
                },
            );
            push_condition(
                conditions,
                ExprAst::In {
                    pattern: str_literal(entity.id.clone()),
                    path: make_path("principal.groups"),
                },
            );
            assert(exprs_of_ast(conditions@) =~= start + principal_conds(constraint@)->Ok_0);
        },
        CedarScopeConstraint::Slot(slot) => {
            return Err(template_slot_error(slot));
        },
    }
    Ok(())
}

fn action_check(entity: &CedarEntityRef) -> (c: ExprAst)
    ensures
        c@ == action_is(entity@),
{
    ExprAst::Compare { left: make_path("action"), op: OpAst::Eq, right: str_literal(entity.id.clone()) }
}

/// Adds the conditions of an action constraint.
fn convert_scope_action(constraint: &CedarActionConstraint, conditions: &mut Vec<ExprAst>)
    ensures
        exprs_of_ast(final(conditions)@) == exprs_of_ast(old(conditions)@) + action_conds(
            constraint@,
        ),
{
    let ghost start = exprs_of_ast(conditions@);
    match constraint {
        CedarActionConstraint::Any => {
            assert(start + Seq::<SExprAst>::empty() =~= start);
        },
        CedarActionConstraint::Eq(entity) => {
            push_condition(conditions, action_check(entity));
            assert(exprs_of_ast(conditions@) =~= start + action_conds(constraint@));
        },
        CedarActionConstraint::In(entity) => {
            push_condition(conditions, action_check(entity));
            assert(exprs_of_ast(conditions@) =~= start + action_conds(constraint@));
        },
        CedarActionConstraint::InList(entities) => {
            let ghost es = entities_view(entities@);
            let mut checks: Vec<ExprAst> = Vec::new();
            let mut i: usize = 0;
            while i < entities.len()
                invariant
                    i <= entities.len(),
                    es == entities_view(entities@),
                    exprs_of_ast(checks@) == es.take(i as int).map_values(
                        |e: SEntityRef| action_is(e),
                    ),
                decreases entities.len() - i,
            {
                let c = action_check(&entities[i]);
                proof {
                    lemma_exprs_of_ast_push(checks@, c);
                }
                checks.push(c);
                assert(es.take(i + 1) =~= es.take(i as int).push(es[i as int]));
                assert(exprs_of_ast(checks@) =~= es.take(i + 1).map_values(
                    |e: SEntityRef| action_is(e),
                ));
                i += 1;
            }
            assert(es.take(i as int) =~= es);
            proof {
                lemma_expr_asts_view(checks@, checks@.len());
            }
            if checks.len() == 1 {
                let c = checks.remove(0);
                push_condition(conditions, c);
            } else {
                push_condition(conditions, ExprAst::Or(checks));
            }
            assert(exprs_of_ast(conditions@) =~= start + action_conds(constraint@));
        },
    }
}

/// The field naming a resource's container: its type in lowercase, or `container`.
fn container_field_of(entity: &CedarEntityRef) -> (f: String)
    ensures
        f@ == container_field(entity@),
{
    if entity.path.len() > 0 {
        to_lowercase(entity.path[entity.path.len() - 1].as_str())
    } else {
        String::from_str("container")
    }
}

fn resource_in_check(entity: &CedarEntityRef) -> (c: ExprAst)
    ensures
        c@ == resource_in(entity@),
{
    let mut dotted_text = String::from_str("resource.");
    let field = container_field_of(entity);
    dotted_text.append(field.as_str());
    ExprAst::Compare {
        left: make_path(dotted_text.as_str()),
        op: OpAst::Eq,
        right: str_literal(entity.id.clone()),
    }
}

/// Adds the conditions of a resource constraint.
fn convert_scope_resource(constraint: &CedarScopeConstraint, conditions: &mut Vec<ExprAst>) -> (r:
    Result<(), ImportError>)
    ensures
        match r {
            Ok(_) => resource_conds(constraint@) matches Ok(s) && exprs_of_ast(final(conditions)@)
                == exprs_of_ast(old(conditions)@) + s,
            Err(er) => resource_conds(constraint@) == Err::<Seq<SExprAst>, SImportError>(er@),
        },
{
    let ghost start = exprs_of_ast(conditions@);
    match constraint {
        CedarScopeConstraint::Any => {
            assert(start + Seq::<SExprAst>::empty() =~= start);
        },
        CedarScopeConstraint::Eq(entity) => {
            push_condition(
                conditions,
                ExprAst::Compare {
                    left: make_path("resource"),
                    op: OpAst::Eq,
                    right: str_literal(entity.id.clone()),
                },
            );
            assert(exprs_of_ast(conditions@) =~= start + resource_conds(constraint@)->Ok_0);
        },
        CedarScopeConstraint::In(entity) => {
            push_condition(conditions, resource_in_check(entity));
            assert(exprs_of_ast(conditions@) =~= start + resource_conds(constraint@)->Ok_0);
        },
        CedarScopeConstraint::Is(t) => {
            push_condition(
                conditions,
                ExprAst::Compare {
                    left: make_path("resource.type"),
                    op: OpAst::Eq,
                    right: str_literal(t.clone()),
                },
            );
            assert(exprs_of_ast(conditions@) =~= start + resource_conds(constraint@)->Ok_0);
        },
        CedarScopeConstraint::IsIn(t, entity) => {
            push_condition(
                conditions,
                ExprAst::Compare {
                    left: make_path("resource.type"),
                    op: OpAst::Eq,
                    right: str_literal(t.clone()),
                },
            );
            push_condition(conditions, resource_in_check(entity));
            assert(exprs_of_ast(conditions@) =~= start + resource_conds(constraint@)->Ok_0);
        },
        CedarScopeConstraint::Slot(slot) => {
            return Err(template_slot_error(slot));
        },
    }
    Ok(())
}

} // verus!

verus! {

/// The value of the first `id` annotation, if it has one.
fn id_annotation_of(anns: &Vec<CedarAnnotation>) -> (r: Option<String>)
    ensures
        id_annotation(annotations_view(anns@), 0) == (match r {
            Some(v) => Some(v@),
            None => None::<Seq<char>>,
        }),
{
    let ghost av = annotations_view(anns@);
    let mut i: usize = 0;
    while i < anns.len()
        invariant
            i <= anns.len(),
            av == annotations_view(anns@),
            id_annotation(av, 0) == id_annotation(av, i as int),
        decreases anns.len() - i,
    {
        if str_eq(anns[i].key.as_str(), "id") {
            return match &anns[i].value {
                Some(v) => Some(v.clone()),
                None => None,
            };
        }
        i += 1;
    }
    None
}

/// The name a Cedar policy gets: its `@id` annotation, or `policy_<index>`.
pub fn policy_name(policy: &CedarPolicy, index: usize) -> (r: String)
    ensures
        r@ == rule_name(policy@, index as nat),
{
    match id_annotation_of(&policy.annotations) {
        Some(v) => v,
        None => {
            let mut n = String::from_str("policy_");
            let d = usize_to_string(index);
            n.append(d.as_str());
            n
        },
    }
}

/// The rule a Cedar policy becomes: named by its `@id` annotation or
/// `policy_<index>`, with the scope and conditions as its body.
fn convert_policy(policy: &CedarPolicy, index: usize) -> (r: Result<RuleAst, ImportError>)
    ensures
        match r {
            Ok(rule) => policy_rule(policy@, index as nat) == Ok::<SRule, SImportError>(rule@),
            Err(er) => policy_rule(policy@, index as nat) == Err::<SRule, SImportError>(er@),
        },
{
    let name = policy_name(policy, index);
    let effect = match policy.effect {
        CedarEffect::Permit => EffectAst::Allow,
        CedarEffect::Forbid => EffectAst::Deny,
    };
    let mut conditions: Vec<ExprAst> = Vec::new();
    assert(exprs_of_ast(conditions@) =~= Seq::<SExprAst>::empty());
    match convert_scope_principal(&policy.scope.principal, &mut conditions) {
        Ok(_) => {},
        Err(er) => return Err(er),
    }
    convert_scope_action(&policy.scope.action, &mut conditions);
    match convert_scope_resource(&policy.scope.resource, &mut conditions) {
        Ok(_) => {},
        Err(er) => return Err(er),
    }
    let ghost scope_conds = exprs_of_ast(conditions@);
    let ghost cs = conditions_view(policy.conditions@);
    let mut i: usize = 0;
    while i < policy.conditions.len()
        invariant
            i <= policy.conditions.len(),
            cs == conditions_view(policy.conditions@),
            principal_conds(policy@.scope.principal) matches Ok(pc) && resource_conds(
                policy@.scope.resource,
            ) matches Ok(rc) && scope_conds == pc + action_conds(policy@.scope.action) + rc,
            name@ == rule_name(policy@, index as nat),
            conditions_upto(cs, i as nat) matches Ok(cc) && exprs_of_ast(conditions@)
                == scope_conds + cc,
        decreases policy.conditions.len() - i,
    {
        let c = &policy.conditions[i];
        let e = match convert_expr(&c.expr) {
            Ok(e) => e,
            Err(er) => {
                proof {
                    lemma_conditions_err(cs, (i + 1) as nat, cs.len());
                }
                return Err(er);
            },
        };
        let ghost before = exprs_of_ast(conditions@);
        if c.is_when {
            push_condition(&mut conditions, e);
        } else {
            push_condition(&mut conditions, ExprAst::Not(Box::new(e)));
        }
        proof {
            let cc = conditions_upto(cs, i as nat)->Ok_0;
            let cc2 = conditions_upto(cs, (i + 1) as nat)->Ok_0;
            assert(cc2 == cc.push(exprs_of_ast(conditions@).last()));
            assert(exprs_of_ast(conditions@) =~= scope_conds + cc2);
        }
        i += 1;
    }
    proof {
        lemma_expr_asts_view(conditions@, conditions@.len());
    }
    let body = if conditions.len() == 0 {
        None
    } else if conditions.len() == 1 {
        Some(conditions.remove(0))
    } else {
        Some(ExprAst::And(conditions))
    };
    Ok(RuleAst { name, effect, body })
}

proof fn lemma_conditions_err(cs: Seq<crate::cedar_parser::SCondition>, k: nat, n: nat)
    requires
        k <= n <= cs.len(),
        conditions_upto(cs, k) is Err,
    ensures
        conditions_upto(cs, n) == conditions_upto(cs, k),
    decreases n - k,
{
    if n > k {
        lemma_conditions_err(cs, k, (n - 1) as nat);
    }
}

proof fn lemma_rules_err(ps: Seq<SPolicy>, k: nat, n: nat)
    requires
        k <= n <= ps.len(),
        rules_upto(ps, k) is Err,
    ensures
        rules_upto(ps, n) == rules_upto(ps, k),
    decreases n - k,
{
    if n > k {
        lemma_rules_err(ps, k, (n - 1) as nat);
    }
}

/// The rules of a parsed policy set, or the first error.
fn convert_policies(policies: &Vec<CedarPolicy>) -> (r: Result<Vec<RuleAst>, ImportError>)
    ensures
        match r {
            Ok(rules) => rules_upto(policies_view(policies@), policies@.len()) == Ok::<
                Seq<SRule>,
                SImportError,
            >(rules_view(rules@)),
            Err(er) => rules_upto(policies_view(policies@), policies@.len()) == Err::<
                Seq<SRule>,
                SImportError,
            >(er@),
        },
{
    let ghost ps = policies_view(policies@);
    let mut rules: Vec<RuleAst> = Vec::new();
    let mut i: usize = 0;
    assert(rules_view(rules@) =~= Seq::<SRule>::empty());
    while i < policies.len()
        invariant
            i <= policies.len(),
            ps == policies_view(policies@),
            rules_upto(ps, i as nat) == Ok::<Seq<SRule>, SImportError>(rules_view(rules@)),
        decreases policies.len() - i,
    {
        let rule = match convert_policy(&policies[i], i) {
            Ok(r) => r,
            Err(er) => {
                proof {
                    lemma_rules_err(ps, (i + 1) as nat, ps.len());
                }
                return Err(er);
            },
        };
        let ghost before = rules@;
        rules.push(rule);
        assert(rules_view(rules@) =~= rules_view(before).push(rules@.last()@));
        i += 1;
    }
    Ok(rules)
}

/// Imports Cedar policies as a Karu program: one rule per policy, in order.
pub fn from_cedar(cedar_source: &str) -> (r: Result<Program, ImportError>)
    requires
        cedar_source@.len() < usize::MAX,
    ensures
        match r {
            Ok(p) => import_rules(cedar_source@) == Ok::<Seq<SRule>, SImportError>(
                rules_view(p.rules@),
            ) && !p.use_schema && p.imports@.len() == 0 && p.modules@.len() == 0
                && p.assertions@.len() == 0 && p.tests@.len() == 0,
            Err(e) => import_rules(cedar_source@) == Err::<Seq<SRule>, SImportError>(e@),
        },
        match r {
            Ok(p) => import_program(cedar_source@) == Ok::<SProgram, SImportError>(p@),
            Err(e) => import_program(cedar_source@) == Err::<SProgram, SImportError>(e@),
        },
{
    let policy_set = match parse(cedar_source) {
        Ok(ps) => ps,
        Err(e) => return Err(ImportError { message: e.message, line: Some(e.line) }),
    };
    let rules = match convert_policies(&policy_set.policies) {
        Ok(r) => r,
        Err(er) => return Err(er),
    };
    let p = Program {
        use_schema: false,
        imports: Vec::new(),
        modules: Vec::new(),
        assertions: Vec::new(),
        rules,
        tests: Vec::new(),
    };
    assert(p@.imports =~= Seq::<Seq<char>>::empty());
    assert(p@.modules =~= Seq::<SModule>::empty());
    assert(p@.assertions =~= Seq::<crate::schema::SAssert>::empty());
    assert(p@.tests =~= Seq::<crate::ast::STest>::empty());
    Ok(p)
}

/// Imports a Cedar schema as Karu module definitions; a parse error keeps its line.
pub fn from_cedarschema(schema_source: &str) -> (r: Result<Vec<ModuleDef>, ImportError>)
    requires
        schema_source@.len() < usize::MAX,
    ensures
        match r {
            Ok(ms) => parse_schema_spec(schema_source@) == Ok::<Seq<crate::schema::SModule>, SError>(
                modules_view(ms@),
            ),
            Err(e) => parse_schema_spec(schema_source@) matches Err(se) && e@ == (SImportError {
                message: se.message,
                line: Some(se.line),
            }),
        },
        match r {
            Ok(ms) => import_schema(schema_source@) == Ok::<Seq<SModule>, SImportError>(modules_view(ms@)),
            Err(e) => import_schema(schema_source@) == Err::<Seq<SModule>, SImportError>(e@),
        },
{
    match parse_cedarschema(schema_source) {
        Ok(ms) => Ok(ms),
        Err(e) => Err(ImportError { message: e.message, line: Some(e.line) }),
    }
}

/// Imports Cedar policies and a Cedar schema together: the policies' rules
/// with the schema's modules, in schema mode.
pub fn from_cedar_with_schema(cedar_source: &str, schema_source: &str) -> (r: Result<
    Program,
    ImportError,
>)
    requires
        cedar_source@.len() < usize::MAX,
        schema_source@.len() < usize::MAX,
    ensures
        match r {
            Ok(p) => import_rules(cedar_source@) == Ok::<Seq<SRule>, SImportError>(
                rules_view(p.rules@),
            ) && parse_schema_spec(schema_source@) == Ok::<Seq<crate::schema::SModule>, SError>(
                modules_view(p.modules@),
            ) && p.use_schema && p.imports@.len() == 0 && p.assertions@.len() == 0
                && p.tests@.len() == 0,
            Err(e) => match import_rules(cedar_source@) {
                Err(pe) => e@ == pe,
                Ok(_) => parse_schema_spec(schema_source@) matches Err(se) && e@ == (SImportError {
                    message: se.message,
                    line: Some(se.line),
                }),
            },
        },
{
    let mut program = match from_cedar(cedar_source) {
        Ok(p) => p,
        Err(e) => return Err(e),
    };
    let modules = match from_cedarschema(schema_source) {
        Ok(m) => m,
        Err(e) => return Err(e),
    };
    program.use_schema = true;
    program.modules = modules;
    Ok(program)
}

} // verus!

verus! {

/// `n` levels of four-space indentation.
fn indent_of(n: usize) -> (s: String)
    ensures
        s@ == indent_text(n as nat),
{
    let mut s = String::new();
    let mut i: usize = 0;
    while i < n
        invariant
            i <= n,
            s@ == indent_text(i as nat),
        decreases n - i,
    {
        s.append("    ");
        i += 1;
    }
    s
}

fn segment_text(seg: &PathSegmentAst) -> (s: String)
    ensures
        s@ == seg_text(seg@),
{
    match seg {
        PathSegmentAst::Field(f) => f.clone(),
        PathSegmentAst::Index(k) => {
            let mut s = String::from_str("[");
            let d = usize_to_string(*k);
            s.append(d.as_str());
            s.append("]");
            s
        },
        PathSegmentAst::Variable(v) => v.clone(),
    }
}

/// A path as Karu writes it: segments joined by dots.
pub fn path_to_string(path: &PathAst) -> (s: String)
    ensures
        s@ == path_text(path@),
{
    let ghost texts = path@.map_values(|g: SegV| seg_text(g));
    let mut s = String::new();
    let mut i: usize = 0;
    while i < path.segments.len()
        invariant
            i <= path.segments.len(),
            texts == path@.map_values(|g: SegV| seg_text(g)),
            texts.len() == path.segments.len(),
            s@ == join(texts.take(i as int), "."@),
        decreases path.segments.len() - i,
    {
        let t = segment_text(&path.segments[i]);
        assert(t@ == texts[i as int]);
        if i > 0 {
            s.append(".");
        }
        s.append(t.as_str());
        assert(texts.take(i + 1).drop_last() =~= texts.take(i as int));
        i += 1;
    }
    assert(texts.take(i as int) =~= texts);
    s
}

fn op_to_str(op: OpAst) -> (s: &'static str)
    ensures
        s@ == op_text(op),
{
    match op {
        OpAst::Eq => "==",
        OpAst::Ne => "!=",
        OpAst::Lt => "<",
        OpAst::Gt => ">",
        OpAst::Le => "<=",
        OpAst::Ge => ">=",
        OpAst::ContainsAll => "containsAll",
        OpAst::ContainsAny => "containsAny",
        OpAst::IpIsInRange => "isInRange",
        OpAst::IsIpv4 => "isIpv4",
        OpAst::IsIpv6 => "isIpv6",
        OpAst::IsLoopback => "isLoopback",
        OpAst::IsMulticast => "isMulticast",
        OpAst::DecimalLt => "lessThan",
        OpAst::DecimalLe => "lessThanOrEqual",
        OpAst::DecimalGt => "greaterThan",
        OpAst::DecimalGe => "greaterThanOrEqual",
    }
}

/// Compact JSON text of a value (floats are not written).
fn json_text_of(v: &Value) -> (s: String)
    ensures
        s@ == json_text(v@),
    decreases v,
{
    match v {
        Value::Null => String::from_str("null"),
        Value::Bool(b) => if *b {
            String::from_str("true")
        } else {
            String::from_str("false")
        },
        Value::Number(Number::PosInt(u)) => crate::text::u64_to_string(*u),
        Value::Number(Number::NegInt(i)) => i64_to_string(*i),
        Value::Number(Number::FloatBits(_)) => String::from_str("/* complex */"),
        Value::String(st) => json_string(st.as_str()),
        Value::Array(vs) => {
            let ghost items = jv_arr(vs@, vs@.len());
            proof {
                lemma_jv_arr(vs@, vs@.len());
            }
            let mut s = String::new();
            let mut i: usize = 0;
            while i < vs.len()
                invariant
                    i <= vs.len(),
                    *v == Value::Array(*vs),
                    items == jv_arr(vs@, vs@.len()),
                    items.len() == vs.len(),
                    forall|j: int| 0 <= j < vs.len() ==> #[trigger] items[j] == vs@[j]@,
                    s@ == json_items(items, i as nat),
                decreases vs.len() - i,
            {
                proof {
                    vstd::std_specs::vec::axiom_vec_index_decreases(*vs, i as int);
                    assert(decreases_to!(*v => (*v)->Array_0));
                    assert(decreases_to!(*v => vs[i as int]));
                }
                let t = json_text_of(&vs[i]);
                if i > 0 {
                    s.append(",");
                }
                s.append(t.as_str());
                i += 1;
            }
            let mut out = String::from_str("[");
            out.append(s.as_str());
            out.append("]");
            out
        },
        Value::Object(es) => {
            let ghost entries = crate::json::jv_obj(es@, es@.len());
            proof {
                crate::json::lemma_jv_obj(es@, es@.len());
            }
            let mut s = String::new();
            let mut i: usize = 0;
            while i < es.len()
                invariant
                    i <= es.len(),
                    *v == Value::Object(*es),
                    entries == crate::json::jv_obj(es@, es@.len()),
                    entries.len() == es.len(),
                    forall|j: int|
                        0 <= j < es.len() ==> #[trigger] entries[j] == (es@[j].0@, es@[j].1@),
                    s@ == json_entries(entries, i as nat),
                decreases es.len() - i,
            {
                proof {
                    vstd::std_specs::vec::axiom_vec_index_decreases(*es, i as int);
                    assert(decreases_to!(*v => (*v)->Object_0));
                    assert(decreases_to!(es[i as int] => es[i as int].1));
                    assert(decreases_to!(*v => es[i as int].1));
                }
                let k = json_string(es[i].0.as_str());
                let t = json_text_of(&es[i].1);
                if i > 0 {
                    s.append(",");
                }
                s.append(k.as_str());
                s.append(":");
                s.append(t.as_str());
                i += 1;
            }
            let mut out = String::from_str("{");
            out.append(s.as_str());
            out.append("}");
            out
        },
    }
}

/// A pattern as Karu writes it.
fn format_pattern(pat: &PatternAst) -> (s: String)
    ensures
        s@ == pattern_text(pat@),
{
    match pat {
        PatternAst::Literal(Value::String(st)) => {
            let mut s = String::from_str("\"");
            s.append(st.as_str());
            s.append("\"");
            s
        },
        PatternAst::Literal(v) => json_text_of(v),
        PatternAst::PathRef(p) => path_to_string(p),
        PatternAst::Wildcard => String::from_str("_"),
        _ => String::from_str("/* complex */"),
    }
}

/// A condition as Karu writes it at the given indentation.
fn format_expr(expr: &ExprAst, indent: usize) -> (s: String)
    ensures
        s@ == expr_text(expr@, indent as nat),
    decreases expr, 1nat,
{
    let pad = indent_of(indent);
    match expr {
        ExprAst::And(parts) => {
            proof {
                assert(decreases_to!(*expr => (*expr)->And_0));
                lemma_expr_asts_view(parts@, parts@.len());
            }
            let mut sep = String::from_str(" and\n");
            sep.append(pad.as_str());
            format_exprs(parts, indent, sep.as_str())
        },
        ExprAst::Or(parts) => {
            proof {
                assert(decreases_to!(*expr => (*expr)->Or_0));
                lemma_expr_asts_view(parts@, parts@.len());
            }
            let inner = format_exprs(parts, indent, " or ");
            let mut s = String::from_str("(");
            s.append(inner.as_str());
            s.append(")");
            s
        },
        ExprAst::Not(inner) => {
            let t = format_expr(inner, indent);
            let mut s = String::from_str("not ");
            s.append(t.as_str());
            s
        },
        ExprAst::Compare { left, op, right } => {
            let mut s = pad;
            let l = path_to_string(left);
            s.append(l.as_str());
            s.append(" ");
            s.append(op_to_str(*op));
            s.append(" ");
            let r = format_pattern(right);
            s.append(r.as_str());
            s
        },
        ExprAst::In { pattern, path } => {
            let mut s = pad;
            let p = format_pattern(pattern);
            s.append(p.as_str());
            s.append(" in ");
            let t = path_to_string(path);
            s.append(t.as_str());
            s
        },
        _ => {
            let mut s = pad;
            s.append("/* unsupported */");
            s
        },
    }
}

/// Conditions written one after another with `sep` between them.
fn format_exprs(parts: &Vec<ExprAst>, indent: usize, sep: &str) -> (s: String)
    ensures
        s@ == exprs_text(exprs_of_ast(parts@), parts@.len(), indent as nat, sep@),
    decreases parts, 0nat,
{
    let ghost ps = exprs_of_ast(parts@);
    proof {
        lemma_expr_asts_view(parts@, parts@.len());
    }
    let mut s = String::new();
    let mut i: usize = 0;
    while i < parts.len()
        invariant
            i <= parts.len(),
            ps == exprs_of_ast(parts@),
            ps.len() == parts.len(),
            forall|j: int| 0 <= j < parts.len() ==> #[trigger] ps[j] == expr_ast_view(parts@[j]),
            s@ == exprs_text(ps, i as nat, indent as nat, sep@),
        decreases parts.len() - i,
    {
        proof {
            vstd::std_specs::vec::axiom_vec_index_decreases(*parts, i as int);
            assert(decreases_to!(*parts => parts[i as int]));
        }
        let t = format_expr(&parts[i], indent);
        if i > 0 {
            s.append(sep);
        }
        s.append(t.as_str());
        i += 1;
    }
    s
}

/// Imports Cedar policies and writes them as Karu source: one rule per
/// policy, `allow name if` followed by its conditions, one per line.
pub fn from_cedar_to_source(cedar_source: &str) -> (r: Result<String, ImportError>)
    requires
        cedar_source@.len() < usize::MAX,
    ensures
        match r {
            Ok(text) => import_rules(cedar_source@) matches Ok(rs) && text@ == source_text(rs),
            Err(e) => import_rules(cedar_source@) == Err::<Seq<SRule>, SImportError>(e@),
        },
{
    let program = match from_cedar(cedar_source) {
        Ok(p) => p,
        Err(e) => return Err(e),
    };
    let ghost rs = rules_view(program.rules@);
    let mut output = String::new();
    let mut i: usize = 0;
    while i < program.rules.len()
        invariant
            i <= program.rules.len(),
            rs == rules_view(program.rules@),
            output@ == source_text(rs.take(i as int)),
        decreases program.rules.len() - i,
    {
        let rule = &program.rules[i];
        let effect = match rule.effect {
            EffectAst::Allow => "allow",
            EffectAst::Deny => "deny",
        };
        output.append(effect);
        output.append(" ");
        output.append(rule.name.as_str());
        match &rule.body {
            Some(body) => {
                output.append(" if\n");
                let t = format_expr(body, 1);
                output.append(t.as_str());
                output.append(";\n");
            },
            None => {
                output.append(";\n");
            },
        }
        assert(rs.take(i + 1).drop_last() =~= rs.take(i as int));
        i += 1;
    }
    assert(rs.take(i as int) =~= rs);
    Ok(output)
}

} // verus!
