//! The compiler from a parsed program to an executable policy: rule bodies
//! become condition trees, assertions are inlined where a rule names them
//! (a cycle among them is an error), names the host registers become host
//! checks, and schema type references become checks of `action`.
use vstd::prelude::*;
use crate::ast::{
    ExprAst, OpAst, PathAst, PathSegmentAst, PatternAst, Program, RuleAst, SExprAst, SPattern,
    SRule, EffectAst, expr_asts_view, patterns_view, pattern_pairs_view, lemma_expr_asts_view,
    lemma_patterns_view, lemma_pattern_pairs_view, rules_view,
};
use crate::json::{JsonV, Number, Value, str_eq, json_eq};
use crate::path::{resolve_spec, binds_view, opt_view_is};
use crate::json::{jv_arr, lemma_jv_arr};
use crate::json_ops::json_equal;
use crate::matcher::any_matches;
use crate::glob::glob_match;
use crate::matcher::{matches_spec, any_spec, some_item_equals};
use crate::glob::glob_spec;
use crate::json_ops::copy_value;
use crate::path::{Path, PathSegment, SegV, segs_view};
use crate::pattern::Pattern;
use crate::rule::Effect;
use crate::schema::{AssertDef, EntityDef, ModuleDef, SAssert, SModule, modules_view};
use crate::ast::asserts_view;
use crate::karu_parser::{ParseError, Parser, NumberReading, source_program, readings_view};
use crate::karu_syntax::SReading;
use crate::karu_syntax::SParseError;
use crate::text::{chars_of, string_of, strings_view};

verus! {

// ----------------------------------------------------------------------------
// Compiled policies
// ----------------------------------------------------------------------------

/// The comparison a condition makes between the value at its path and its
/// pattern.
#[derive(Debug, Clone, Copy, PartialEq, Eq, Structural)]
pub enum Operator {
    Eq,
    Ne,
    Lt,
    Gt,
    Le,
    Ge,
    In,
    Has,
    Like,
    ContainsAll,
    ContainsAny,
    IpIsInRange,
    IsIpv4,
    IsIpv6,
    IsLoopback,
    IsMulticast,
    DecimalLt,
    DecimalLe,
    DecimalGt,
    DecimalGe,
}

/// Whether a quantified condition must hold of every element or of one.
#[derive(Debug, Clone, Copy, PartialEq, Eq, Structural)]
pub enum QuantifierMode {
    ForAll,
    Exists,
}

/// A compiled condition.
#[derive(Debug)]
pub enum ConditionExpr {
    /// The value at `path` compared with `pattern` by `op`.
    Leaf { path: Path, op: Operator, pattern: Pattern },
    /// `body` for every (or some) element of the array at `source`, with
    /// `var` bound to the element.
    Quantified { mode: QuantifierMode, var: String, source: Path, body: Box<ConditionExpr> },
    And(Vec<ConditionExpr>),
    Or(Vec<ConditionExpr>),
    Not(Box<ConditionExpr>),
    /// A check the host registers under this name.
    HostAssert(String),
    /// The value at `path` has the schema type `entity_type`.
    IsType { path: Path, entity_type: String },
}

/// A compiled rule: when its body holds (or it has none), its effect applies.
#[derive(Debug)]
pub struct Rule {
    pub name: String,
    pub effect: Effect,
    pub body: Option<ConditionExpr>,
}

/// A compiled policy: its rules in source order.
#[derive(Debug)]
pub struct Policy {
    pub rules: Vec<Rule>,
}

/// The content of a compiled pattern.
pub enum CPat {
    Literal(JsonV),
    Var(Option<Seq<char>>),
    Object(Seq<(Seq<char>, CPat)>),
    Array(Seq<CPat>),
    PathRef(Seq<SegV>),
    /// A pattern the compiler never produces.
    Other,
}

/// The content of a compiled condition.
pub enum SCond {
    Leaf(Seq<SegV>, Operator, CPat),
    Quantified(QuantifierMode, Seq<char>, Seq<SegV>, Box<SCond>),
    And(Seq<SCond>),
    Or(Seq<SCond>),
    Not(Box<SCond>),
    HostAssert(Seq<char>),
    IsType(Seq<SegV>, Seq<char>),
}

/// The content of a compiled rule.
pub struct SCompiledRule {
    pub name: Seq<char>,
    pub effect: Effect,
    pub body: Option<SCond>,
}

pub open spec fn cpat_view(p: Pattern) -> CPat
    decreases p, 0nat,
{
    match p {
        Pattern::Literal(v) => CPat::Literal(v@),
        Pattern::Variable(Some(n)) => CPat::Var(Some(n@)),
        Pattern::Variable(None) => CPat::Var(None),
        Pattern::Object(fs) => CPat::Object(cpat_pairs_view(fs@, fs@.len())),
        Pattern::Array(ps) => CPat::Array(cpats_view(ps@, ps@.len())),
        Pattern::PathRef(path) => CPat::PathRef(path@),
        _ => CPat::Other,
    }
}

pub open spec fn cpats_view(ps: Seq<Pattern>, n: nat) -> Seq<CPat>
    decreases ps, n,
{
    if n == 0 || n > ps.len() {
        Seq::empty()
    } else {
        cpats_view(ps, (n - 1) as nat).push(cpat_view(ps[n - 1]))
    }
}

pub open spec fn cpat_pairs_view(fs: Seq<(String, Pattern)>, n: nat) -> Seq<(Seq<char>, CPat)>
    decreases fs, n,
{
    if n == 0 || n > fs.len() {
        Seq::empty()
    } else {
        cpat_pairs_view(fs, (n - 1) as nat).push((fs[n - 1].0@, cpat_view(fs[n - 1].1)))
    }
}

pub open spec fn cond_view(c: ConditionExpr) -> SCond
    decreases c, 0nat,
{
    match c {
        ConditionExpr::Leaf { path, op, pattern } => SCond::Leaf(path@, op, cpat_view(pattern)),
        ConditionExpr::Quantified { mode, var, source, body } => SCond::Quantified(
            mode,
            var@,
            source@,
            Box::new(cond_view(*body)),
        ),
        ConditionExpr::And(cs) => SCond::And(conds_view(cs@, cs@.len())),
        ConditionExpr::Or(cs) => SCond::Or(conds_view(cs@, cs@.len())),
        ConditionExpr::Not(x) => SCond::Not(Box::new(cond_view(*x))),
        ConditionExpr::HostAssert(n) => SCond::HostAssert(n@),
        ConditionExpr::IsType { path, entity_type } => SCond::IsType(path@, entity_type@),
    }
}

pub open spec fn conds_view(cs: Seq<ConditionExpr>, n: nat) -> Seq<SCond>
    decreases cs, n,
{
    if n == 0 || n > cs.len() {
        Seq::empty()
    } else {
        conds_view(cs, (n - 1) as nat).push(cond_view(cs[n - 1]))
    }
}

impl View for ConditionExpr {
    type V = SCond;

    open spec fn view(&self) -> SCond {
        cond_view(*self)
    }
}

impl View for Rule {
    type V = SCompiledRule;

    open spec fn view(&self) -> SCompiledRule {
        SCompiledRule {
            name: self.name@,
            effect: self.effect,
            body: match self.body {
                Some(b) => Some(b@),
                None => None,
            },
        }
    }
}

impl View for Policy {
    type V = Seq<SCompiledRule>;

    open spec fn view(&self) -> Seq<SCompiledRule> {
        self.rules@.map_values(|r: Rule| r@)
    }
}

// ----------------------------------------------------------------------------
// What a program compiles to
// ----------------------------------------------------------------------------

/// A source pattern as it compiles: variables capture, `_` captures nothing.
pub open spec fn compile_pattern_spec(p: SPattern) -> CPat
    decreases p, 0nat,
{
    match p {
        SPattern::Literal(v) => CPat::Literal(v),
        SPattern::Variable(n) => CPat::Var(Some(n)),
        SPattern::Wildcard => CPat::Var(None),
        SPattern::Object(fs) => CPat::Object(compile_pairs_spec(fs, fs.len())),
        SPattern::Array(ps) => CPat::Array(compile_patterns_spec(ps, ps.len())),
        SPattern::PathRef(s) => CPat::PathRef(s),
    }
}

pub open spec fn compile_patterns_spec(ps: Seq<SPattern>, n: nat) -> Seq<CPat>
    decreases ps, n,
{
    if n == 0 || n > ps.len() {
        Seq::empty()
    } else {
        compile_patterns_spec(ps, (n - 1) as nat).push(compile_pattern_spec(ps[n - 1]))
    }
}

pub open spec fn compile_pairs_spec(fs: Seq<(Seq<char>, SPattern)>, n: nat) -> Seq<(Seq<char>, CPat)>
    decreases fs, n,
{
    if n == 0 || n > fs.len() {
        Seq::empty()
    } else {
        compile_pairs_spec(fs, (n - 1) as nat).push((fs[n - 1].0, compile_pattern_spec(fs[n - 1].1)))
    }
}

/// The literal value of a listed pattern, `null` for any other pattern.
pub open spec fn literal_or_null(p: SPattern) -> JsonV {
    match p {
        SPattern::Literal(v) => v,
        _ => JsonV::Null,
    }
}

/// The body of the assertion named `name`: where the name is declared more
/// than once, the last declaration.
pub open spec fn assert_lookup(asserts: Seq<SAssert>, name: Seq<char>) -> Option<SExprAst>
    decreases asserts.len(),
{
    if asserts.len() == 0 {
        None
    } else if asserts.last().name == name {
        Some(asserts.last().body)
    } else {
        assert_lookup(asserts.drop_last(), name)
    }
}

/// How many assertions have a name not in `expanding`: what is left to inline.
pub open spec fn pending(asserts: Seq<SAssert>, expanding: Set<Seq<char>>) -> nat
    decreases asserts.len(),
{
    if asserts.len() == 0 {
        0
    } else {
        pending(asserts.drop_last(), expanding) + if expanding.contains(asserts.last().name) {
            0nat
        } else {
            1nat
        }
    }
}

pub proof fn lemma_pending_insert(asserts: Seq<SAssert>, expanding: Set<Seq<char>>, name: Seq<char>)
    requires
        assert_lookup(asserts, name) is Some,
        !expanding.contains(name),
    ensures
        pending(asserts, expanding.insert(name)) < pending(asserts, expanding),
    decreases asserts.len(),
{
    if asserts.last().name != name {
        lemma_pending_insert(asserts.drop_last(), expanding, name);
    } else {
        lemma_pending_le(asserts.drop_last(), expanding, name);
    }
}

pub proof fn lemma_pending_le(asserts: Seq<SAssert>, expanding: Set<Seq<char>>, name: Seq<char>)
    ensures
        pending(asserts, expanding.insert(name)) <= pending(asserts, expanding),
    decreases asserts.len(),
{
    if asserts.len() > 0 {
        lemma_pending_le(asserts.drop_last(), expanding, name);
    }
}

/// The message of a cycle among assertions.
pub open spec fn circular_message(name: Seq<char>) -> Seq<char> {
    "circular assertion reference: `"@ + name + "` references itself"@
}

/// The message of an `is` check of a type no schema declares.
pub open spec fn unknown_type_message(name: Seq<char>) -> Seq<char> {
    "unknown type `"@ + name + "` in `is` expression"@
}

/// The leaf a comparison compiles to.
pub open spec fn compare_leaf(left: Seq<SegV>, op: OpAst, right: SPattern) -> SCond {
    SCond::Leaf(left, operator_of(op), compile_pattern_spec(right))
}

pub open spec fn operator_of(op: OpAst) -> Operator {
    match op {
        OpAst::Eq => Operator::Eq,
        OpAst::Ne => Operator::Ne,
        OpAst::Lt => Operator::Lt,
        OpAst::Gt => Operator::Gt,
        OpAst::Le => Operator::Le,
        OpAst::Ge => Operator::Ge,
        OpAst::ContainsAll => Operator::ContainsAll,
        OpAst::ContainsAny => Operator::ContainsAny,
        OpAst::IpIsInRange => Operator::IpIsInRange,
        OpAst::IsIpv4 => Operator::IsIpv4,
        OpAst::IsIpv6 => Operator::IsIpv6,
        OpAst::IsLoopback => Operator::IsLoopback,
        OpAst::IsMulticast => Operator::IsMulticast,
        OpAst::DecimalLt => Operator::DecimalLt,
        OpAst::DecimalLe => Operator::DecimalLe,
        OpAst::DecimalGt => Operator::DecimalGt,
        OpAst::DecimalGe => Operator::DecimalGe,
    }
}

/// Whether a comparison is how a bare name is written: `name == true`.
pub open spec fn bare_name(left: Seq<SegV>, op: OpAst, right: SPattern) -> Option<Seq<char>> {
    if op == OpAst::Eq && right == SPattern::Literal(JsonV::Bool(true)) && left.len() == 1 {
        match left[0] {
            SegV::Field(n) => Some(n),
            _ => None,
        }
    } else {
        None
    }
}

/// What an expression compiles to, with `asserts` the program's assertions,
/// `host` the names the host checks, `types` the entity types of the schema
/// and `expanding` the assertions being inlined around it; `Err` with the
/// message of the first error.
pub open spec fn compile_spec(
    e: SExprAst,
    asserts: Seq<SAssert>,
    host: Seq<Seq<char>>,
    types: Seq<Seq<char>>,
    expanding: Set<Seq<char>>,
) -> Result<SCond, Seq<char>>
    decreases pending(asserts, expanding), e, 0nat,
{
    match e {
        SExprAst::And(es) => match compile_list_spec(es, asserts, host, types, expanding, es.len()) {
            Err(m) => Err(m),
            Ok(cs) => Ok(
                if cs.len() == 1 {
                    cs[0]
                } else {
                    SCond::And(cs)
                },
            ),
        },
        SExprAst::Or(es) => match compile_list_spec(es, asserts, host, types, expanding, es.len()) {
            Err(m) => Err(m),
            Ok(cs) => Ok(
                if cs.len() == 1 {
                    cs[0]
                } else {
                    SCond::Or(cs)
                },
            ),
        },
        SExprAst::Not(x) => match compile_spec(*x, asserts, host, types, expanding) {
            Err(m) => Err(m),
            Ok(c) => Ok(SCond::Not(Box::new(c))),
        },
        SExprAst::Compare(left, op, right) => match bare_name(left, op, right) {
            Some(name) => match assert_lookup(asserts, name) {
                Some(body) => if expanding.contains(name) {
                    Err(circular_message(name))
                } else {
                    proof {
                        lemma_pending_insert(asserts, expanding, name);
                    }
                    compile_spec(body, asserts, host, types, expanding.insert(name))
                },
                None => if host.contains(name) {
                    Ok(SCond::HostAssert(name))
                } else {
                    Ok(compare_leaf(left, op, right))
                },
            },
            None => Ok(compare_leaf(left, op, right)),
        },
        SExprAst::In(pattern, path) => Ok(SCond::Leaf(path, Operator::In, compile_pattern_spec(pattern))),
        SExprAst::InLiteral(path, values) => Ok(
            SCond::Leaf(
                path,
                Operator::In,
                CPat::Literal(JsonV::Array(values.map_values(|v: SPattern| literal_or_null(v)))),
            ),
        ),
        SExprAst::Has(path) => Ok(SCond::Leaf(path, Operator::Has, CPat::Var(None))),
        SExprAst::Like(path, g) => Ok(SCond::Leaf(path, Operator::Like, CPat::Literal(JsonV::Str(g)))),
        SExprAst::Forall(var, path, body) => match compile_spec(*body, asserts, host, types, expanding) {
            Err(m) => Err(m),
            Ok(c) => Ok(SCond::Quantified(QuantifierMode::ForAll, var, path, Box::new(c))),
        },
        SExprAst::Exists(var, path, body) => match compile_spec(*body, asserts, host, types, expanding) {
            Err(m) => Err(m),
            Ok(c) => Ok(SCond::Quantified(QuantifierMode::Exists, var, path, Box::new(c))),
        },
        SExprAst::TypeRef(_, name) => if host.contains(name) {
            Ok(SCond::HostAssert(name))
        } else {
            Ok(SCond::Leaf(seq![SegV::Field("action"@)], Operator::Eq, CPat::Literal(JsonV::Str(name))))
        },
        SExprAst::IsType(path, t) => if types.contains(t) {
            Ok(SCond::IsType(path, t))
        } else {
            Err(unknown_type_message(t))
        },
    }
}

/// The first `n` expressions of `es` compiled, or the first error.
pub open spec fn compile_list_spec(
    es: Seq<SExprAst>,
    asserts: Seq<SAssert>,
    host: Seq<Seq<char>>,
    types: Seq<Seq<char>>,
    expanding: Set<Seq<char>>,
    n: nat,
) -> Result<Seq<SCond>, Seq<char>>
    decreases pending(asserts, expanding), es, n,
{
    if n == 0 || n > es.len() {
        Ok(Seq::empty())
    } else {
        match compile_list_spec(es, asserts, host, types, expanding, (n - 1) as nat) {
            Err(m) => Err(m),
            Ok(cs) => match compile_spec(es[n - 1], asserts, host, types, expanding) {
                Err(m) => Err(m),
                Ok(c) => Ok(cs.push(c)),
            },
        }
    }
}

/// The entity types the schema modules declare.
pub open spec fn entity_types(mods: Seq<SModule>) -> Seq<Seq<char>>
    decreases mods.len(),
{
    if mods.len() == 0 {
        Seq::empty()
    } else {
        entity_types(mods.drop_last()) + mods.last().entities.map_values(|e: crate::schema::SEntity| e.name)
    }
}

/// What a rule compiles to.
pub open spec fn compile_rule_spec(
    r: SRule,
    asserts: Seq<SAssert>,
    host: Seq<Seq<char>>,
    types: Seq<Seq<char>>,
) -> Result<SCompiledRule, Seq<char>> {
    let effect = match r.effect {
        EffectAst::Allow => Effect::Allow,
        EffectAst::Deny => Effect::Deny,
    };
    match r.body {
        None => Ok(SCompiledRule { name: r.name, effect, body: None }),
        Some(b) => match compile_spec(b, asserts, host, types, Set::empty()) {
            Err(m) => Err(m),
            Ok(c) => Ok(SCompiledRule { name: r.name, effect, body: Some(c) }),
        },
    }
}

/// The first `n` rules compiled, or the first error.
pub open spec fn compile_rules_spec(
    rules: Seq<SRule>,
    asserts: Seq<SAssert>,
    host: Seq<Seq<char>>,
    types: Seq<Seq<char>>,
    n: nat,
) -> Result<Seq<SCompiledRule>, Seq<char>>
    decreases n,
{
    if n == 0 || n > rules.len() {
        Ok(Seq::empty())
    } else {
        match compile_rules_spec(rules, asserts, host, types, (n - 1) as nat) {
            Err(m) => Err(m),
            Ok(rs) => match compile_rule_spec(rules[n - 1], asserts, host, types) {
                Err(m) => Err(m),
                Ok(r) => Ok(rs.push(r)),
            },
        }
    }
}

/// What a program compiles to with the host's names `host`: its rules in
/// order, or the message of the first error.
pub open spec fn compile_program_spec(p: crate::ast::SProgram, host: Seq<Seq<char>>) -> Result<
    Seq<SCompiledRule>,
    Seq<char>,
> {
    compile_rules_spec(p.rules, p.assertions, host, entity_types(p.modules), p.rules.len())
}

// ----------------------------------------------------------------------------
// Lists, element by element
// ----------------------------------------------------------------------------

pub proof fn lemma_cpats_view(ps: Seq<Pattern>, n: nat)
    requires
        n <= ps.len(),
    ensures
        cpats_view(ps, n).len() == n,
        forall|i: int| 0 <= i < n ==> #[trigger] cpats_view(ps, n)[i] == cpat_view(ps[i]),
    decreases n,
{
    if n > 0 {
        lemma_cpats_view(ps, (n - 1) as nat);
    }
}

pub proof fn lemma_cpat_pairs_view(fs: Seq<(String, Pattern)>, n: nat)
    requires
        n <= fs.len(),
    ensures
        cpat_pairs_view(fs, n).len() == n,
        forall|i: int| 0 <= i < n ==> #[trigger] cpat_pairs_view(fs, n)[i] == (fs[i].0@, cpat_view(fs[i].1)),
    decreases n,
{
    if n > 0 {
        lemma_cpat_pairs_view(fs, (n - 1) as nat);
    }
}

pub proof fn lemma_conds_view(cs: Seq<ConditionExpr>, n: nat)
    requires
        n <= cs.len(),
    ensures
        conds_view(cs, n).len() == n,
        forall|i: int| 0 <= i < n ==> #[trigger] conds_view(cs, n)[i] == cond_view(cs[i]),
    decreases n,
{
    if n > 0 {
        lemma_conds_view(cs, (n - 1) as nat);
    }
}

pub proof fn lemma_compile_patterns(ps: Seq<SPattern>, n: nat)
    requires
        n <= ps.len(),
    ensures
        compile_patterns_spec(ps, n).len() == n,
        forall|i: int| 0 <= i < n ==> #[trigger] compile_patterns_spec(ps, n)[i] == compile_pattern_spec(ps[i]),
    decreases n,
{
    if n > 0 {
        lemma_compile_patterns(ps, (n - 1) as nat);
    }
}

pub proof fn lemma_compile_pairs(fs: Seq<(Seq<char>, SPattern)>, n: nat)
    requires
        n <= fs.len(),
    ensures
        compile_pairs_spec(fs, n).len() == n,
        forall|i: int|
            0 <= i < n ==> #[trigger] compile_pairs_spec(fs, n)[i] == (fs[i].0, compile_pattern_spec(fs[i].1)),
    decreases n,
{
    if n > 0 {
        lemma_compile_pairs(fs, (n - 1) as nat);
    }
}

/// Once a prefix of a list fails to compile, every longer prefix fails alike.
pub proof fn lemma_list_err(
    es: Seq<SExprAst>,
    asserts: Seq<SAssert>,
    host: Seq<Seq<char>>,
    types: Seq<Seq<char>>,
    expanding: Set<Seq<char>>,
    k: nat,
    n: nat,
)
    requires
        k <= n <= es.len(),
        compile_list_spec(es, asserts, host, types, expanding, k) is Err,
    ensures
        compile_list_spec(es, asserts, host, types, expanding, n) == compile_list_spec(
            es,
            asserts,
            host,
            types,
            expanding,
            k,
        ),
    decreases n - k,
{
    if n > k {
        lemma_list_err(es, asserts, host, types, expanding, k, (n - 1) as nat);
    }
}

/// Once a prefix of the rules fails to compile, every longer prefix fails alike.
pub proof fn lemma_rules_err(
    rules: Seq<SRule>,
    asserts: Seq<SAssert>,
    host: Seq<Seq<char>>,
    types: Seq<Seq<char>>,
    k: nat,
    n: nat,
)
    requires
        k <= n <= rules.len(),
        compile_rules_spec(rules, asserts, host, types, k) is Err,
    ensures
        compile_rules_spec(rules, asserts, host, types, n) == compile_rules_spec(rules, asserts, host, types, k),
    decreases n - k,
{
    if n > k {
        lemma_rules_err(rules, asserts, host, types, k, (n - 1) as nat);
    }
}

// ----------------------------------------------------------------------------
// Compiling, computed
// ----------------------------------------------------------------------------

fn compile_path(p: &PathAst) -> (r: Path)
    ensures
        r@ == p@,
{
    let mut segs: Vec<PathSegment> = Vec::new();
    let mut i: usize = 0;
    while i < p.segments.len()
        invariant
            i <= p.segments.len(),
            segs.len() == i,
            forall|k: int| 0 <= k < i ==> #[trigger] segs@[k]@ == p.segments@[k]@,
        decreases p.segments.len() - i,
    {
        let s = match &p.segments[i] {
            PathSegmentAst::Field(n) => PathSegment::Field(n.clone()),
            PathSegmentAst::Index(k) => PathSegment::Index(*k),
            PathSegmentAst::Variable(v) => PathSegment::Variable(v.clone()),
        };
        segs.push(s);
        i += 1;
    }
    assert(segs_view(segs@) =~= p@);
    Path::from_segments(segs)
}

fn compile_pattern(p: &PatternAst) -> (r: Pattern)
    ensures
        cpat_view(r) == compile_pattern_spec(p@),
    decreases p,
{
    match p {
        PatternAst::Literal(v) => Pattern::Literal(copy_value(v)),
        PatternAst::Variable(n) => Pattern::Variable(Some(n.clone())),
        PatternAst::Wildcard => Pattern::Variable(None),
        PatternAst::Object(fs) => {
            let ghost sf = pattern_pairs_view(fs@, fs@.len());
            proof {
                lemma_pattern_pairs_view(fs@, fs@.len());
                lemma_compile_pairs(sf, sf.len());
            }
            let mut out: Vec<(String, Pattern)> = Vec::new();
            let mut i: usize = 0;
            while i < fs.len()
                invariant
                    i <= fs.len(),
                    *p == PatternAst::Object(*fs),
                    out.len() == i,
                    sf == pattern_pairs_view(fs@, fs@.len()),
                    sf.len() == fs.len(),
                    forall|k: int| 0 <= k < fs.len() ==> #[trigger] sf[k] == (fs@[k].0@, fs@[k].1@),
                    forall|k: int|
                        0 <= k < i ==> #[trigger] out@[k].0@ == sf[k].0 && cpat_view(out@[k].1)
                            == compile_pattern_spec(sf[k].1),
                decreases fs.len() - i,
            {
                proof {
                    vstd::std_specs::vec::axiom_vec_index_decreases(*fs, i as int);
                    assert(decreases_to!(*p => (*p)->Object_0));
                    assert(decreases_to!(*fs => fs[i as int]));
                    assert(decreases_to!(fs[i as int] => fs[i as int].1));
                    assert(decreases_to!(*p => fs[i as int].1));
                }
                let c = compile_pattern(&fs[i].1);
                out.push((fs[i].0.clone(), c));
                i += 1;
            }
            proof {
                lemma_cpat_pairs_view(out@, out@.len());
                assert(cpat_pairs_view(out@, out@.len()) =~= compile_pairs_spec(sf, sf.len()));
            }
            Pattern::Object(out)
        },
        PatternAst::Array(ps) => {
            let ghost sp = patterns_view(ps@, ps@.len());
            proof {
                lemma_patterns_view(ps@, ps@.len());
                lemma_compile_patterns(sp, sp.len());
            }
            let mut out: Vec<Pattern> = Vec::new();
            let mut i: usize = 0;
            while i < ps.len()
                invariant
                    i <= ps.len(),
                    *p == PatternAst::Array(*ps),
                    out.len() == i,
                    sp == patterns_view(ps@, ps@.len()),
                    sp.len() == ps.len(),
                    forall|k: int| 0 <= k < ps.len() ==> #[trigger] sp[k] == ps@[k]@,
                    forall|k: int|
                        0 <= k < i ==> #[trigger] cpat_view(out@[k]) == compile_pattern_spec(sp[k]),
                decreases ps.len() - i,
            {
                proof {
                    vstd::std_specs::vec::axiom_vec_index_decreases(*ps, i as int);
                    assert(decreases_to!(*p => (*p)->Array_0));
                    assert(decreases_to!(*ps => ps[i as int]));
                    assert(decreases_to!(*p => ps[i as int]));
                }
                let c = compile_pattern(&ps[i]);
                out.push(c);
                i += 1;
            }
            proof {
                lemma_cpats_view(out@, out@.len());
                assert(cpats_view(out@, out@.len()) =~= compile_patterns_spec(sp, sp.len()));
            }
            Pattern::Array(out)
        },
        PatternAst::PathRef(path) => Pattern::PathRef(compile_path(path)),
    }
}

/// Whether `n` is one of `v`.
fn contains_name(v: &Vec<String>, n: &String) -> (r: bool)
    ensures
        r == strings_view(v@).contains(n@),
{
    let mut i: usize = 0;
    while i < v.len()
        invariant
            i <= v.len(),
            forall|k: int| 0 <= k < i ==> #[trigger] v@[k]@ != n@,
        decreases v.len() - i,
    {
        if str_eq(v[i].as_str(), n.as_str()) {
            assert(strings_view(v@)[i as int] == n@);
            return true;
        }
        i += 1;
    }
    assert(!strings_view(v@).contains(n@)) by {
        if strings_view(v@).contains(n@) {
            let k = choose|k: int| 0 <= k < strings_view(v@).len() && strings_view(v@)[k] == n@;
            assert(v@[k]@ == n@);
        }
    }
    false
}

/// The last assertion named `name`.
fn find_assertion(asserts: &Vec<AssertDef>, name: &String) -> (r: Option<usize>)
    ensures
        match r {
            Some(i) => i < asserts.len() && assert_lookup(asserts_view(asserts@), name@) == Some(
                asserts@[i as int].body@,
            ),
            None => assert_lookup(asserts_view(asserts@), name@) is None,
        },
{
    let ghost av = asserts_view(asserts@);
    let mut i = asserts.len();
    assert(av.take(i as int) =~= av);
    while i > 0
        invariant
            i <= asserts.len(),
            av == asserts_view(asserts@),
            assert_lookup(av, name@) == assert_lookup(av.take(i as int), name@),
        decreases i,
    {
        assert(av.take(i as int).last() == asserts@[i - 1]@);
        assert(av.take(i as int).drop_last() =~= av.take(i - 1));
        if str_eq(asserts[i - 1].name.as_str(), name.as_str()) {
            return Some(i - 1);
        }
        i -= 1;
    }
    None
}

/// `v` with `n` added at the end.
fn with_name(v: &Vec<String>, n: &String) -> (r: Vec<String>)
    ensures
        strings_view(r@) == strings_view(v@).push(n@),
{
    let mut r: Vec<String> = Vec::new();
    let mut i: usize = 0;
    while i < v.len()
        invariant
            i <= v.len(),
            r@ == v@.take(i as int),
        decreases v.len() - i,
    {
        r.push(v[i].clone());
        assert(r@ =~= v@.take(i + 1));
        i += 1;
    }
    assert(v@.take(v.len() as int) =~= v@);
    r.push(n.clone());
    assert(strings_view(r@) =~= strings_view(v@).push(n@));
    r
}

fn operator_exec(op: OpAst) -> (r: Operator)
    ensures
        r == operator_of(op),
{
    match op {
        OpAst::Eq => Operator::Eq,
        OpAst::Ne => Operator::Ne,
        OpAst::Lt => Operator::Lt,
        OpAst::Gt => Operator::Gt,
        OpAst::Le => Operator::Le,
        OpAst::Ge => Operator::Ge,
        OpAst::ContainsAll => Operator::ContainsAll,
        OpAst::ContainsAny => Operator::ContainsAny,
        OpAst::IpIsInRange => Operator::IpIsInRange,
        OpAst::IsIpv4 => Operator::IsIpv4,
        OpAst::IsIpv6 => Operator::IsIpv6,
        OpAst::IsLoopback => Operator::IsLoopback,
        OpAst::IsMulticast => Operator::IsMulticast,
        OpAst::DecimalLt => Operator::DecimalLt,
        OpAst::DecimalLe => Operator::DecimalLe,
        OpAst::DecimalGt => Operator::DecimalGt,
        OpAst::DecimalGe => Operator::DecimalGe,
    }
}

/// The name a comparison written `name == true` stands for.
fn bare_name_exec<'a>(left: &'a PathAst, op: OpAst, right: &PatternAst) -> (r: Option<&'a String>)
    ensures
        match r {
            Some(n) => bare_name(left@, op, right@) == Some(n@),
            None => bare_name(left@, op, right@) is None,
        },
{
    if op == OpAst::Eq && left.segments.len() == 1 {
        match right {
            PatternAst::Literal(Value::Bool(true)) => {
                assert(right@ == SPattern::Literal(JsonV::Bool(true)));
                match &left.segments[0] {
                    PathSegmentAst::Field(n) => {
                        assert(left@[0] == SegV::Field(n@));
                        return Some(n);
                    },
                    _ => {
                        assert(left@[0] == left.segments@[0]@);
                        return None;
                    },
                }
            },
            _ => {
                assert(right@ != SPattern::Literal(JsonV::Bool(true)));
                return None;
            },
        }
    }
    None
}

/// Compiles a rule body: conjunctions and disjunctions of one item are
/// that item, a bare name of an assertion is replaced by the assertion's
/// compiled body (an assertion reached again while it is being inlined is
/// an error), and a bare name the host checks becomes a host check.
#[verifier::rlimit(100)]
#[verifier::spinoff_prover]
fn compile_expr_inner(
    e: &ExprAst,
    asserts: &Vec<AssertDef>,
    host: &Vec<String>,
    types: &Vec<String>,
    expanding: &Vec<String>,
) -> (r: Result<ConditionExpr, String>)
    ensures
        match r {
            Ok(c) => compile_spec(
                e@,
                asserts_view(asserts@),
                strings_view(host@),
                strings_view(types@),
                strings_view(expanding@).to_set(),
            ) == Ok::<SCond, Seq<char>>(c@),
            Err(m) => compile_spec(
                e@,
                asserts_view(asserts@),
                strings_view(host@),
                strings_view(types@),
                strings_view(expanding@).to_set(),
            ) == Err::<SCond, Seq<char>>(m@),
        },
    decreases pending(asserts_view(asserts@), strings_view(expanding@).to_set()), e,
{
    let ghost av = asserts_view(asserts@);
    let ghost hv = strings_view(host@);
    let ghost tv = strings_view(types@);
    let ghost ex = strings_view(expanding@).to_set();
    match e {
        ExprAst::And(es) | ExprAst::Or(es) => {
            let ghost ses = expr_asts_view(es@, es@.len());
            proof {
                lemma_expr_asts_view(es@, es@.len());
            }
            let mut cs: Vec<ConditionExpr> = Vec::new();
            let mut i: usize = 0;
            while i < es.len()
                invariant
                    i <= es.len(),
                    *e == ExprAst::And(*es) || *e == ExprAst::Or(*es),
                    av == asserts_view(asserts@),
                    hv == strings_view(host@),
                    tv == strings_view(types@),
                    ex == strings_view(expanding@).to_set(),
                    ses == expr_asts_view(es@, es@.len()),
                    ses.len() == es.len(),
                    forall|k: int| 0 <= k < es.len() ==> #[trigger] ses[k] == es@[k]@,
                    cs.len() == i,
                    compile_list_spec(ses, av, hv, tv, ex, i as nat) == Ok::<Seq<SCond>, Seq<char>>(
                        conds_view(cs@, i as nat),
                    ),
                decreases es.len() - i,
            {
                proof {
                    vstd::std_specs::vec::axiom_vec_index_decreases(*es, i as int);
                    if *e == ExprAst::And(*es) {
                        assert(decreases_to!(*e => (*e)->And_0));
                    } else {
                        assert(decreases_to!(*e => (*e)->Or_0));
                    }
                    assert(decreases_to!(*es => es[i as int]));
                    assert(decreases_to!(*e => es[i as int]));
                }
                match compile_expr_inner(&es[i], asserts, host, types, expanding) {
                    Err(m) => {
                        proof {
                            lemma_list_err(ses, av, hv, tv, ex, (i + 1) as nat, ses.len());
                        }
                        return Err(m);
                    },
                    Ok(c) => {
                        let ghost before = cs@;
                        cs.push(c);
                        proof {
                            lemma_conds_view(cs@, (i + 1) as nat);
                            lemma_conds_view(before, i as nat);
                            assert(conds_view(cs@, (i + 1) as nat) =~= conds_view(before, i as nat).push(c@));
                        }
                    },
                }
                i += 1;
            }
            proof {
                lemma_conds_view(cs@, cs@.len());
            }
            assert(e@ == SExprAst::And(ses) || e@ == SExprAst::Or(ses));
            assert(compile_list_spec(ses, av, hv, tv, ex, ses.len()) == Ok::<Seq<SCond>, Seq<char>>(
                conds_view(cs@, cs@.len()),
            ));
            if cs.len() == 1 {
                proof {
                    lemma_conds_view(cs@, 1);
                }
                let c0 = cs.remove(0);
                assert(compile_spec(e@, av, hv, tv, ex) == Ok::<SCond, Seq<char>>(c0@));
                Ok(c0)
            } else {
                match e {
                    ExprAst::And(_) => {
                        let r = ConditionExpr::And(cs);
                        assert(compile_spec(e@, av, hv, tv, ex) == Ok::<SCond, Seq<char>>(r@));
                        Ok(r)
                    },
                    _ => {
                        let r = ConditionExpr::Or(cs);
                        assert(compile_spec(e@, av, hv, tv, ex) == Ok::<SCond, Seq<char>>(r@));
                        Ok(r)
                    },
                }
            }
        },
        ExprAst::Not(x) => match compile_expr_inner(x, asserts, host, types, expanding) {
            Err(m) => Err(m),
            Ok(c) => Ok(ConditionExpr::Not(Box::new(c))),
        },
        ExprAst::Compare { left, op, right } => {
            match bare_name_exec(left, *op, right) {
                Some(name) => match find_assertion(asserts, name) {
                    Some(idx) => {
                        if contains_name(expanding, name) {
                            assert(ex.contains(name@));
                            let mut m = String::from_str("circular assertion reference: `");
                            m.append(name.as_str());
                            m.append("` references itself");
                            return Err(m);
                        }
                        let ex2 = with_name(expanding, name);
                        proof {
                            assert(strings_view(ex2@).to_set() =~= ex.insert(name@)) by {
                                assert forall|y: Seq<char>| strings_view(ex2@).contains(y) implies ex.insert(
                                    name@,
                                ).contains(y) by {
                                    let k = choose|k: int| 0 <= k < strings_view(ex2@).len() && strings_view(ex2@)[k] == y;
                                    if k < expanding.len() {
                                        assert(strings_view(expanding@)[k] == y);
                                    }
                                }
                                assert forall|y: Seq<char>| ex.insert(name@).contains(y) implies strings_view(
                                    ex2@,
                                ).contains(y) by {
                                    if y == name@ {
                                        assert(strings_view(ex2@)[expanding.len() as int] == y);
                                    } else {
                                        let k = choose|k: int|
                                            0 <= k < strings_view(expanding@).len() && strings_view(expanding@)[k] == y;
                                        assert(strings_view(ex2@)[k] == y);
                                    }
                                }
                            }
                            lemma_pending_insert(av, ex, name@);
                        }
                        return compile_expr_inner(&asserts[idx].body, asserts, host, types, &ex2);
                    },
                    None => {
                        if contains_name(host, name) {
                            return Ok(ConditionExpr::HostAssert(name.clone()));
                        }
                    },
                },
                None => {},
            }
            Ok(
                ConditionExpr::Leaf {
                    path: compile_path(left),
                    op: operator_exec(*op),
                    pattern: compile_pattern(right),
                },
            )
        },
        ExprAst::Forall { var, path, body } => match compile_expr_inner(body, asserts, host, types, expanding) {
            Err(m) => Err(m),
            Ok(c) => Ok(
                ConditionExpr::Quantified {
                    mode: QuantifierMode::ForAll,
                    var: var.clone(),
                    source: compile_path(path),
                    body: Box::new(c),
                },
            ),
        },
        ExprAst::Exists { var, path, body } => match compile_expr_inner(body, asserts, host, types, expanding) {
            Err(m) => Err(m),
            Ok(c) => Ok(
                ConditionExpr::Quantified {
                    mode: QuantifierMode::Exists,
                    var: var.clone(),
                    source: compile_path(path),
                    body: Box::new(c),
                },
            ),
        },
        _ => compile_simple(e, host, types, Ghost(av), Ghost(ex)),
    }
}

/// Compiles an expression with no sub-expression: a membership test,
/// `has`, `like`, a type reference or an `is` check.
fn compile_simple(
    e: &ExprAst,
    host: &Vec<String>,
    types: &Vec<String>,
    Ghost(av): Ghost<Seq<SAssert>>,
    Ghost(ex): Ghost<Set<Seq<char>>>,
) -> (r: Result<ConditionExpr, String>)
    requires
        !(e is And || e is Or || e is Not || e is Compare || e is Forall || e is Exists),
    ensures
        match r {
            Ok(c) => compile_spec(e@, av, strings_view(host@), strings_view(types@), ex) == Ok::<SCond, Seq<char>>(c@),
            Err(m) => compile_spec(e@, av, strings_view(host@), strings_view(types@), ex) == Err::<SCond, Seq<char>>(m@),
        },
{
    match e {
        ExprAst::In { pattern, path } => Ok(
            ConditionExpr::Leaf { path: compile_path(path), op: Operator::In, pattern: compile_pattern(pattern) },
        ),
        ExprAst::InLiteral { path, values } => {
            let ghost sv = patterns_view(values@, values@.len());
            proof {
                lemma_patterns_view(values@, values@.len());
            }
            let mut arr: Vec<Value> = Vec::new();
            let mut i: usize = 0;
            while i < values.len()
                invariant
                    i <= values.len(),
                    arr.len() == i,
                    sv == patterns_view(values@, values@.len()),
                    sv.len() == values.len(),
                    forall|k: int| 0 <= k < values.len() ==> #[trigger] sv[k] == values@[k]@,
                    forall|k: int| 0 <= k < i ==> #[trigger] arr@[k]@ == literal_or_null(sv[k]),
                decreases values.len() - i,
            {
                let v = match &values[i] {
                    PatternAst::Literal(v) => copy_value(v),
                    _ => Value::Null,
                };
                arr.push(v);
                i += 1;
            }
            proof {
                crate::json::lemma_view_array(arr);
            }
            let lit = Value::Array(arr);
            assert(lit@ == JsonV::Array(sv.map_values(|v: SPattern| literal_or_null(v)))) by {
                crate::json::lemma_view_array(arr);
                if let JsonV::Array(items) = lit@ {
                    assert(items =~= sv.map_values(|v: SPattern| literal_or_null(v)));
                }
            }
            Ok(ConditionExpr::Leaf { path: compile_path(path), op: Operator::In, pattern: Pattern::Literal(lit) })
        },
        ExprAst::Has { path } => Ok(
            ConditionExpr::Leaf { path: compile_path(path), op: Operator::Has, pattern: Pattern::Variable(None) },
        ),
        ExprAst::Like { path, pattern } => Ok(
            ConditionExpr::Leaf {
                path: compile_path(path),
                op: Operator::Like,
                pattern: Pattern::Literal(Value::String(pattern.clone())),
            },
        ),
        ExprAst::TypeRef { namespace: _, name } => {
            if contains_name(host, name) {
                return Ok(ConditionExpr::HostAssert(name.clone()));
            }
            let segs = vec![PathSegment::Field(String::from_str("action"))];
            let path = Path::from_segments(segs);
            proof {
                reveal_strlit("action");
                assert(path@ =~= seq![SegV::Field("action"@)]);
            }
            Ok(
                ConditionExpr::Leaf {
                    path,
                    op: Operator::Eq,
                    pattern: Pattern::Literal(Value::String(name.clone())),
                },
            )
        },
        ExprAst::IsType { path, entity_type } => {
            if contains_name(types, entity_type) {
                Ok(ConditionExpr::IsType { path: compile_path(path), entity_type: entity_type.clone() })
            } else {
                let mut m = String::from_str("unknown type `");
                m.append(entity_type.as_str());
                m.append("` in `is` expression");
                Err(m)
            }
        },
        _ => {
            assert(false);
            Err(String::new())
        },
    }
}

/// The entity types the schema modules declare, in order.
fn entity_type_names(mods: &Vec<ModuleDef>) -> (r: Vec<String>)
    ensures
        strings_view(r@) == entity_types(modules_view(mods@)),
{
    let ghost mv = modules_view(mods@);
    let mut r: Vec<String> = Vec::new();
    let mut m: usize = 0;
    assert(mv.take(0) =~= Seq::<SModule>::empty());
    while m < mods.len()
        invariant
            m <= mods.len(),
            mv == modules_view(mods@),
            strings_view(r@) == entity_types(mv.take(m as int)),
        decreases mods.len() - m,
    {
        let ents = &mods[m].entities;
        let ghost before = strings_view(r@);
        let mut k: usize = 0;
        while k < ents.len()
            invariant
                k <= ents.len(),
                strings_view(r@) == before + ents@.take(k as int).map_values(|e: EntityDef| e.name@),
            decreases ents.len() - k,
        {
            let ghost prev = strings_view(r@);
            r.push(ents[k].name.clone());
            assert(strings_view(r@) =~= prev.push(ents@[k as int].name@));
            assert(ents@.take(k + 1).map_values(|e: EntityDef| e.name@) =~= ents@.take(k as int).map_values(
                |e: EntityDef| e.name@,
            ).push(ents@[k as int].name@));
            assert(strings_view(r@) =~= before + ents@.take(k + 1).map_values(|e: EntityDef| e.name@));
            k += 1;
        }
        proof {
            assert(mv.take(m + 1).drop_last() =~= mv.take(m as int));
            assert(mv.take(m + 1).last() == mods@[m as int]@);
            assert(ents@.take(ents.len() as int) =~= ents@);
            assert(mods@[m as int]@.entities.map_values(|e: crate::schema::SEntity| e.name) =~= ents@.map_values(
                |e: EntityDef| e.name@,
            ));
        }
        m += 1;
    }
    assert(mv.take(mods.len() as int) =~= mv);
    r
}

/// The error a failed compilation gives: its message, at no position.
fn error_without_position(message: String) -> (e: ParseError)
    ensures
        e@ == (SParseError { message: message@, line: 0, column: 0, token: None }),
{
    ParseError { message, line: 0, column: 0, token: None }
}

/// Compiles a parsed program into a policy: each rule in order, its body
/// compiled with the program's assertions inlined, the names in
/// `host_asserts` compiled to host checks, and `is` checks resolved against
/// the entity types of the schema modules; the first error stops it.
pub fn compile_program(program: &Program, host_asserts: &Vec<String>) -> (r: Result<Policy, ParseError>)
    ensures
        match r {
            Ok(p) => compile_program_spec(program@, strings_view(host_asserts@)) == Ok::<
                Seq<SCompiledRule>,
                Seq<char>,
            >(p@),
            Err(e) => compile_program_spec(program@, strings_view(host_asserts@)) == Err::<
                Seq<SCompiledRule>,
                Seq<char>,
            >(e@.message) && e@.line == 0 && e@.column == 0 && e@.token is None,
        },
{
    let types = entity_type_names(&program.modules);
    let ghost rv = rules_view(program.rules@);
    let ghost av = asserts_view(program.assertions@);
    let ghost hv = strings_view(host_asserts@);
    let ghost tv = strings_view(types@);
    let empty: Vec<String> = Vec::new();
    assert(strings_view(empty@).to_set() =~= Set::<Seq<char>>::empty());
    let mut rules: Vec<Rule> = Vec::new();
    let mut n: usize = 0;
    assert(rules@.map_values(|r: Rule| r@) =~= Seq::<SCompiledRule>::empty());
    while n < program.rules.len()
        invariant
            n <= program.rules.len(),
            rules.len() == n,
            tv == entity_types(modules_view(program.modules@)),
            rv == rules_view(program.rules@),
            av == asserts_view(program.assertions@),
            hv == strings_view(host_asserts@),
            tv == strings_view(types@),
            strings_view(empty@).to_set() == Set::<Seq<char>>::empty(),
            compile_rules_spec(rv, av, hv, tv, n as nat) == Ok::<Seq<SCompiledRule>, Seq<char>>(
                rules@.map_values(|r: Rule| r@),
            ),
        decreases program.rules.len() - n,
    {
        let rule = &program.rules[n];
        assert(rv[n as int] == rule@);
        let effect = match rule.effect {
            EffectAst::Allow => Effect::Allow,
            EffectAst::Deny => Effect::Deny,
        };
        let body = match &rule.body {
            None => None,
            Some(b) => match compile_expr_inner(b, &program.assertions, host_asserts, &types, &empty) {
                Err(m) => {
                    proof {
                        lemma_rules_err(rv, av, hv, tv, (n + 1) as nat, rv.len());
                    }
                    return Err(error_without_position(m));
                },
                Ok(c) => Some(c),
            },
        };
        let ghost before = rules@;
        rules.push(Rule { name: rule.name.clone(), effect, body });
        assert(rules@.map_values(|r: Rule| r@) =~= before.map_values(|r: Rule| r@).push(rules@[n as int]@));
        n += 1;
    }
    Ok(Policy { rules })
}

// ----------------------------------------------------------------------------
// What a policy decides
// ----------------------------------------------------------------------------

/// Three-valued conjunction: false when either is false, true when both are
/// true, else undecided (`None`).
pub open spec fn kand(a: Option<bool>, b: Option<bool>) -> Option<bool> {
    if a == Some(false) || b == Some(false) {
        Some(false)
    } else if a == Some(true) && b == Some(true) {
        Some(true)
    } else {
        None
    }
}

/// Three-valued disjunction.
pub open spec fn kor(a: Option<bool>, b: Option<bool>) -> Option<bool> {
    if a == Some(true) || b == Some(true) {
        Some(true)
    } else if a == Some(false) && b == Some(false) {
        Some(false)
    } else {
        None
    }
}

pub open spec fn knot(a: Option<bool>) -> Option<bool> {
    match a {
        Some(b) => Some(!b),
        None => None,
    }
}

/// The value a pattern stands for when it is compared: a path reference
/// stands for the value at its path, a literal for itself.
pub open spec fn operand(p: Pattern, root: JsonV, bs: Seq<(Seq<char>, JsonV)>) -> Option<JsonV> {
    match p {
        Pattern::PathRef(q) => resolve_spec(q@, root, bs),
        Pattern::Literal(v) => Some(v@),
        _ => None,
    }
}

/// `d` equals the pattern: the value a path reference stands for, or what
/// the pattern matches.
pub open spec fn eq_holds(d: JsonV, p: Pattern, root: JsonV, bs: Seq<(Seq<char>, JsonV)>) -> bool {
    match p {
        Pattern::PathRef(q) => match resolve_spec(q@, root, bs) {
            Some(w) => json_eq(d, w),
            None => false,
        },
        _ => matches_spec(d, p),
    }
}

/// The pattern is in `d`: the array `d` holds the value a path reference
/// stands for, or the `in` search of the pattern succeeds.
pub open spec fn in_holds(d: JsonV, p: Pattern, root: JsonV, bs: Seq<(Seq<char>, JsonV)>) -> bool {
    match p {
        Pattern::PathRef(q) => match (resolve_spec(q@, root, bs), d) {
            (Some(w), JsonV::Array(items)) => some_item_equals(items, w, 0),
            _ => false,
        },
        _ => any_spec(d, p),
    }
}

/// The integer a number holds, if it is an integer.
pub open spec fn int_of(n: Number) -> Option<int> {
    match n {
        Number::PosInt(u) => Some(u as int),
        Number::NegInt(i) => Some(i as int),
        Number::FloatBits(_) => None,
    }
}

/// How two values compare by an ordering operator: integers by their
/// order; a value that is no number fails; a non-integer number leaves it
/// undecided.
pub open spec fn order_holds(op: Operator, a: JsonV, b: JsonV) -> Option<bool> {
    match (a, b) {
        (JsonV::Number(x), JsonV::Number(y)) => match (int_of(x), int_of(y)) {
            (Some(i), Some(j)) => Some(
                match op {
                    Operator::Lt => i < j,
                    Operator::Gt => i > j,
                    Operator::Le => i <= j,
                    _ => i >= j,
                },
            ),
            _ => None,
        },
        _ => Some(false),
    }
}

/// Every (`all`) or some element of `ws` from index `i` on equals an element of `vs`.
pub open spec fn contains_from(vs: Seq<JsonV>, ws: Seq<JsonV>, all: bool, i: nat) -> bool
    decreases ws.len() - i,
{
    if i >= ws.len() {
        all
    } else if all {
        some_item_equals(vs, ws[i as int], 0) && contains_from(vs, ws, all, i + 1)
    } else {
        some_item_equals(vs, ws[i as int], 0) || contains_from(vs, ws, all, i + 1)
    }
}

/// What a leaf condition gives; `None` where this library does not decide it.
pub open spec fn leaf_holds(
    path: Seq<SegV>,
    op: Operator,
    p: Pattern,
    root: JsonV,
    bs: Seq<(Seq<char>, JsonV)>,
) -> Option<bool> {
    match resolve_spec(path, root, bs) {
        None => match op {
            Operator::IpIsInRange | Operator::IsIpv4 | Operator::IsIpv6 | Operator::IsLoopback
            | Operator::IsMulticast | Operator::DecimalLt | Operator::DecimalLe | Operator::DecimalGt
            | Operator::DecimalGe => None,
            _ => Some(false),
        },
        Some(d) => match op {
            Operator::Has => Some(true),
            Operator::Eq => Some(eq_holds(d, p, root, bs)),
            Operator::Ne => Some(!eq_holds(d, p, root, bs)),
            Operator::In => Some(in_holds(d, p, root, bs)),
            Operator::Like => Some(
                match (d, p) {
                    (JsonV::Str(t), Pattern::Literal(Value::String(g))) => glob_spec(g@, t),
                    _ => false,
                },
            ),
            Operator::Lt | Operator::Gt | Operator::Le | Operator::Ge => match operand(p, root, bs) {
                Some(w) => order_holds(op, d, w),
                None => Some(false),
            },
            Operator::ContainsAll | Operator::ContainsAny => Some(
                match (d, operand(p, root, bs)) {
                    (JsonV::Array(vs), Some(JsonV::Array(ws))) => contains_from(
                        vs,
                        ws,
                        op == Operator::ContainsAll,
                        0,
                    ),
                    _ => false,
                },
            ),
            _ => None,
        },
    }
}

/// The answer the host gave for the check named `name`; `false` when it gave none.
pub open spec fn host_answer(host: Seq<(Seq<char>, bool)>, name: Seq<char>) -> bool
    decreases host.len(),
{
    if host.len() == 0 {
        false
    } else if host[0].0 == name {
        host[0].1
    } else {
        host_answer(host.drop_first(), name)
    }
}

/// What a condition gives on the document `root` with bindings `bs` and the
/// host's answers `host`; `None` where it depends on a comparison this
/// library does not decide.
pub open spec fn cond_eval(
    c: ConditionExpr,
    root: JsonV,
    bs: Seq<(Seq<char>, JsonV)>,
    host: Seq<(Seq<char>, bool)>,
) -> Option<bool>
    decreases c, 0nat,
{
    match c {
        ConditionExpr::Leaf { path, op, pattern } => leaf_holds(path@, op, pattern, root, bs),
        ConditionExpr::Quantified { mode, var, source, body } => match resolve_spec(source@, root, bs) {
            Some(JsonV::Array(items)) => quant_eval(*body, mode, var@, items, root, bs, host, 0),
            _ => Some(false),
        },
        ConditionExpr::And(cs) => all_eval(cs@, root, bs, host, cs@.len()),
        ConditionExpr::Or(cs) => any_eval(cs@, root, bs, host, cs@.len()),
        ConditionExpr::Not(x) => knot(cond_eval(*x, root, bs, host)),
        ConditionExpr::HostAssert(n) => Some(host_answer(host, n@)),
        ConditionExpr::IsType { .. } => None,
    }
}

/// `body` for the elements of `items` from `i` on, each bound to `var`:
/// for all of them, or for one.
pub open spec fn quant_eval(
    body: ConditionExpr,
    mode: QuantifierMode,
    var: Seq<char>,
    items: Seq<JsonV>,
    root: JsonV,
    bs: Seq<(Seq<char>, JsonV)>,
    host: Seq<(Seq<char>, bool)>,
    i: nat,
) -> Option<bool>
    decreases body, (items.len() - i) as nat,
{
    if i >= items.len() {
        Some(mode == QuantifierMode::ForAll)
    } else {
        let here = cond_eval(body, root, seq![(var, items[i as int])] + bs, host);
        let rest = quant_eval(body, mode, var, items, root, bs, host, i + 1);
        if mode == QuantifierMode::ForAll {
            kand(here, rest)
        } else {
            kor(here, rest)
        }
    }
}

/// The three-valued conjunction of the first `n` conditions.
pub open spec fn all_eval(
    cs: Seq<ConditionExpr>,
    root: JsonV,
    bs: Seq<(Seq<char>, JsonV)>,
    host: Seq<(Seq<char>, bool)>,
    n: nat,
) -> Option<bool>
    decreases cs, n,
{
    if n == 0 || n > cs.len() {
        Some(true)
    } else {
        kand(all_eval(cs, root, bs, host, (n - 1) as nat), cond_eval(cs[n - 1], root, bs, host))
    }
}

/// The three-valued disjunction of the first `n` conditions.
pub open spec fn any_eval(
    cs: Seq<ConditionExpr>,
    root: JsonV,
    bs: Seq<(Seq<char>, JsonV)>,
    host: Seq<(Seq<char>, bool)>,
    n: nat,
) -> Option<bool>
    decreases cs, n,
{
    if n == 0 || n > cs.len() {
        Some(false)
    } else {
        kor(any_eval(cs, root, bs, host, (n - 1) as nat), cond_eval(cs[n - 1], root, bs, host))
    }
}

/// Whether a rule applies: it has no body, or its body holds.
pub open spec fn rule_applies(r: Rule, root: JsonV, host: Seq<(Seq<char>, bool)>) -> Option<bool> {
    match r.body {
        None => Some(true),
        Some(c) => cond_eval(c, root, Seq::empty(), host),
    }
}

/// Whether some rule among the first `n` with effect `eff` applies.
pub open spec fn some_applies(
    rules: Seq<Rule>,
    eff: Effect,
    root: JsonV,
    host: Seq<(Seq<char>, bool)>,
    n: nat,
) -> Option<bool>
    decreases n,
{
    if n == 0 || n > rules.len() {
        Some(false)
    } else {
        let prev = some_applies(rules, eff, root, host, (n - 1) as nat);
        if rules[n - 1].effect == eff {
            kor(prev, rule_applies(rules[n - 1], root, host))
        } else {
            prev
        }
    }
}

/// The decision of a policy on `root`: `Deny` when a deny rule applies;
/// otherwise `Allow` when an allow rule applies; otherwise `Deny`; `None`
/// where the decision rests on a condition this library does not decide.
pub open spec fn evaluate_spec(rules: Seq<Rule>, root: JsonV, host: Seq<(Seq<char>, bool)>) -> Option<Effect> {
    let deny = some_applies(rules, Effect::Deny, root, host, rules.len());
    let allow = some_applies(rules, Effect::Allow, root, host, rules.len());
    if deny == Some(true) {
        Some(Effect::Deny)
    } else if deny is None {
        None
    } else if allow == Some(true) {
        Some(Effect::Allow)
    } else if allow is None {
        None
    } else {
        Some(Effect::Deny)
    }
}

// ----------------------------------------------------------------------------
// Deciding, computed
// ----------------------------------------------------------------------------

fn kand_exec(a: Option<bool>, b: Option<bool>) -> (r: Option<bool>)
    ensures
        r == kand(a, b),
{
    if a == Some(false) || b == Some(false) {
        Some(false)
    } else if a == Some(true) && b == Some(true) {
        Some(true)
    } else {
        None
    }
}

fn kor_exec(a: Option<bool>, b: Option<bool>) -> (r: Option<bool>)
    ensures
        r == kor(a, b),
{
    if a == Some(true) || b == Some(true) {
        Some(true)
    } else if a == Some(false) && b == Some(false) {
        Some(false)
    } else {
        None
    }
}

/// Whether some element of `vs` equals `w`.
fn some_equal(vs: &Vec<Value>, w: &Value) -> (r: bool)
    ensures
        r == some_item_equals(jv_arr(vs@, vs@.len()), w@, 0),
{
    proof {
        lemma_jv_arr(vs@, vs@.len());
    }
    let ghost items = jv_arr(vs@, vs@.len());
    let mut i = vs.len();
    let mut r = false;
    while i > 0
        invariant
            i <= vs.len(),
            items == jv_arr(vs@, vs@.len()),
            items.len() == vs.len(),
            forall|k: int| 0 <= k < vs.len() ==> #[trigger] items[k] == vs@[k]@,
            r == some_item_equals(items, w@, i as nat),
        decreases i,
    {
        i -= 1;
        r = json_equal(&vs[i], w) || r;
    }
    r
}

/// `contains_from` on two arrays, computed.
fn contains_exec(vs: &Vec<Value>, ws: &Vec<Value>, all: bool) -> (r: bool)
    ensures
        r == contains_from(jv_arr(vs@, vs@.len()), jv_arr(ws@, ws@.len()), all, 0),
{
    proof {
        lemma_jv_arr(ws@, ws@.len());
    }
    let ghost wv = jv_arr(ws@, ws@.len());
    let mut i = ws.len();
    let mut r = all;
    while i > 0
        invariant
            i <= ws.len(),
            wv == jv_arr(ws@, ws@.len()),
            wv.len() == ws.len(),
            forall|k: int| 0 <= k < ws.len() ==> #[trigger] wv[k] == ws@[k]@,
            r == contains_from(jv_arr(vs@, vs@.len()), wv, all, i as nat),
        decreases i,
    {
        i -= 1;
        let here = some_equal(vs, &ws[i]);
        r = if all {
            here && r
        } else {
            here || r
        };
    }
    r
}

fn eq_holds_exec<'a>(d: &Value, p: &Pattern, root: &'a Value, bs: &Vec<(String, &'a Value)>) -> (r: bool)
    ensures
        r == eq_holds(d@, *p, root@, binds_view(bs@)),
{
    match p {
        Pattern::PathRef(q) => match q.resolve_with_bindings(root, bs) {
            Some(w) => json_equal(d, w),
            None => false,
        },
        _ => crate::matcher::matches(d, p),
    }
}

fn in_holds_exec<'a>(d: &Value, p: &Pattern, root: &'a Value, bs: &Vec<(String, &'a Value)>) -> (r: bool)
    ensures
        r == in_holds(d@, *p, root@, binds_view(bs@)),
{
    match p {
        Pattern::PathRef(q) => match q.resolve_with_bindings(root, bs) {
            Some(w) => match d {
                Value::Array(items) => some_equal(items, w),
                _ => false,
            },
            None => false,
        },
        _ => any_matches(d, p),
    }
}

fn operand_exec<'a>(p: &'a Pattern, root: &'a Value, bs: &Vec<(String, &'a Value)>) -> (r: Option<&'a Value>)
    ensures
        opt_view_is(r, operand(*p, root@, binds_view(bs@))),
{
    match p {
        Pattern::PathRef(q) => q.resolve_with_bindings(root, bs),
        Pattern::Literal(v) => Some(v),
        _ => None,
    }
}

fn order_exec(op: Operator, a: &Value, b: &Value) -> (r: Option<bool>)
    ensures
        r == order_holds(op, a@, b@),
{
    match (a, b) {
        (Value::Number(x), Value::Number(y)) => {
            let i: Option<i128> = match x {
                Number::PosInt(u) => Some(*u as i128),
                Number::NegInt(k) => Some(*k as i128),
                Number::FloatBits(_) => None,
            };
            let j: Option<i128> = match y {
                Number::PosInt(u) => Some(*u as i128),
                Number::NegInt(k) => Some(*k as i128),
                Number::FloatBits(_) => None,
            };
            match (i, j) {
                (Some(i), Some(j)) => Some(
                    match op {
                        Operator::Lt => i < j,
                        Operator::Gt => i > j,
                        Operator::Le => i <= j,
                        _ => i >= j,
                    },
                ),
                _ => None,
            }
        },
        _ => Some(false),
    }
}

fn leaf_exec<'a>(path: &Path, op: Operator, p: &'a Pattern, root: &'a Value, bs: &Vec<(String, &'a Value)>) -> (r:
    Option<bool>)
    ensures
        r == leaf_holds(path@, op, *p, root@, binds_view(bs@)),
{
    match path.resolve_with_bindings(root, bs) {
        None => match op {
            Operator::IpIsInRange | Operator::IsIpv4 | Operator::IsIpv6 | Operator::IsLoopback
            | Operator::IsMulticast | Operator::DecimalLt | Operator::DecimalLe | Operator::DecimalGt
            | Operator::DecimalGe => None,
            _ => Some(false),
        },
        Some(d) => match op {
            Operator::Has => Some(true),
            Operator::Eq => Some(eq_holds_exec(d, p, root, bs)),
            Operator::Ne => Some(!eq_holds_exec(d, p, root, bs)),
            Operator::In => Some(in_holds_exec(d, p, root, bs)),
            Operator::Like => Some(
                match (d, p) {
                    (Value::String(t), Pattern::Literal(Value::String(g))) => glob_match(g.as_str(), t.as_str()),
                    _ => false,
                },
            ),
            Operator::Lt | Operator::Gt | Operator::Le | Operator::Ge => match operand_exec(p, root, bs) {
                Some(w) => order_exec(op, d, w),
                None => Some(false),
            },
            Operator::ContainsAll | Operator::ContainsAny => Some(
                match (d, operand_exec(p, root, bs)) {
                    (Value::Array(vs), Some(Value::Array(ws))) => contains_exec(vs, ws, op == Operator::ContainsAll),
                    _ => false,
                },
            ),
            _ => None,
        },
    }
}

/// The contents of the host's answers.
pub open spec fn host_view(host: Seq<(String, bool)>) -> Seq<(Seq<char>, bool)> {
    host.map_values(|h: (String, bool)| (h.0@, h.1))
}

fn host_answer_exec(host: &Vec<(String, bool)>, name: &String) -> (r: bool)
    ensures
        r == host_answer(host_view(host@), name@),
{
    let ghost hv = host_view(host@);
    let mut i: usize = 0;
    assert(hv.skip(0) =~= hv);
    while i < host.len()
        invariant
            i <= host.len(),
            hv == host_view(host@),
            host_answer(hv, name@) == host_answer(hv.skip(i as int), name@),
        decreases host.len() - i,
    {
        assert(hv.skip(i as int).drop_first() =~= hv.skip(i + 1));
        assert(hv.skip(i as int)[0] == (host@[i as int].0@, host@[i as int].1));
        if str_eq(host[i].0.as_str(), name.as_str()) {
            return host[i].1;
        }
        i += 1;
    }
    assert(hv.skip(i as int) =~= Seq::<(Seq<char>, bool)>::empty());
    false
}

/// What a condition gives, computed.
fn cond_eval_exec<'a>(
    c: &ConditionExpr,
    root: &'a Value,
    bs: &Vec<(String, &'a Value)>,
    host: &Vec<(String, bool)>,
) -> (r: Option<bool>)
    ensures
        r == cond_eval(*c, root@, binds_view(bs@), host_view(host@)),
    decreases c,
{
    match c {
        ConditionExpr::Leaf { path, op, pattern } => leaf_exec(path, *op, pattern, root, bs),
        ConditionExpr::Quantified { mode, var, source, body } => match source.resolve_with_bindings(root, bs) {
            Some(Value::Array(items)) => {
                proof {
                    crate::json::lemma_jv_arr(items@, items@.len());
                }
                let ghost iv = jv_arr(items@, items@.len());
                let mut i = items.len();
                let mut r = Some(*mode == QuantifierMode::ForAll);
                while i > 0
                    invariant
                        i <= items.len(),
                        *c == (ConditionExpr::Quantified { mode: *mode, var: *var, source: *source, body: *body }),
                        iv == jv_arr(items@, items@.len()),
                        iv.len() == items.len(),
                        forall|k: int| 0 <= k < items.len() ==> #[trigger] iv[k] == items@[k]@,
                        r == quant_eval(
                            **body,
                            *mode,
                            var@,
                            iv,
                            root@,
                            binds_view(bs@),
                            host_view(host@),
                            i as nat,
                        ),
                    decreases i,
                {
                    i -= 1;
                    let mut bs2: Vec<(String, &'a Value)> = Vec::new();
                    bs2.push((var.clone(), &items[i]));
                    let mut k: usize = 0;
                    while k < bs.len()
                        invariant
                            k <= bs.len(),
                            bs2.len() == k + 1,
                            bs2@[0].0@ == var@,
                            bs2@[0].1@ == items@[i as int]@,
                            forall|j: int|
                                1 <= j <= k ==> #[trigger] bs2@[j].0@ == bs@[j - 1].0@ && bs2@[j].1@
                                    == bs@[j - 1].1@,
                        decreases bs.len() - k,
                    {
                        bs2.push((bs[k].0.clone(), bs[k].1));
                        k += 1;
                    }
                    assert(iv[i as int] == items@[i as int]@);
                    assert(bs2.len() == bs.len() + 1);
                    assert(binds_view(bs2@) =~= seq![(var@, iv[i as int])] + binds_view(bs@));
                    proof {
                        assert(decreases_to!(*c => (*c)->body));
                    }
                    let here = cond_eval_exec(body, root, &bs2, host);
                    r = if *mode == QuantifierMode::ForAll {
                        kand_exec(here, r)
                    } else {
                        kor_exec(here, r)
                    };
                }
                r
            },
            _ => Some(false),
        },
        ConditionExpr::And(cs) | ConditionExpr::Or(cs) => {
            let all = match c {
                ConditionExpr::And(_) => true,
                _ => false,
            };
            let mut r = Some(all);
            let mut n: usize = 0;
            while n < cs.len()
                invariant
                    n <= cs.len(),
                    *c == ConditionExpr::And(*cs) || *c == ConditionExpr::Or(*cs),
                    all == (*c is And),
                    r == (if all {
                        all_eval(cs@, root@, binds_view(bs@), host_view(host@), n as nat)
                    } else {
                        any_eval(cs@, root@, binds_view(bs@), host_view(host@), n as nat)
                    }),
                decreases cs.len() - n,
            {
                proof {
                    vstd::std_specs::vec::axiom_vec_index_decreases(*cs, n as int);
                    if *c == ConditionExpr::And(*cs) {
                        assert(decreases_to!(*c => (*c)->And_0));
                    } else {
                        assert(decreases_to!(*c => (*c)->Or_0));
                    }
                    assert(decreases_to!(*cs => cs[n as int]));
                    assert(decreases_to!(*c => cs[n as int]));
                }
                let v = cond_eval_exec(&cs[n], root, bs, host);
                r = if all {
                    kand_exec(r, v)
                } else {
                    kor_exec(r, v)
                };
                n += 1;
            }
            r
        },
        ConditionExpr::Not(x) => match cond_eval_exec(x, root, bs, host) {
            Some(b) => Some(!b),
            None => None,
        },
        ConditionExpr::HostAssert(n) => Some(host_answer_exec(host, n)),
        ConditionExpr::IsType { .. } => None,
    }
}

impl Rule {
    /// Whether this rule applies to `request`, with the host's answers
    /// `host` for its host checks: it has no body, or its body holds; `None`
    /// where that rests on a comparison this library does not decide.
    pub fn applies(&self, request: &Value, host: &Vec<(String, bool)>) -> (r: Option<bool>)
        ensures
            r == rule_applies(*self, request@, host_view(host@)),
    {
        match &self.body {
            None => Some(true),
            Some(c) => {
                let bs: Vec<(String, &Value)> = Vec::new();
                assert(binds_view(bs@) =~= Seq::<(Seq<char>, JsonV)>::empty());
                cond_eval_exec(c, request, &bs, host)
            },
        }
    }
}

impl Policy {
    /// Whether some rule with effect `eff` applies.
    fn some_applies_exec(&self, eff: Effect, request: &Value, host: &Vec<(String, bool)>) -> (r: Option<bool>)
        ensures
            r == some_applies(self.rules@, eff, request@, host_view(host@), self.rules@.len()),
    {
        let mut r = Some(false);
        let mut n: usize = 0;
        while n < self.rules.len()
            invariant
                n <= self.rules.len(),
                r == some_applies(self.rules@, eff, request@, host_view(host@), n as nat),
            decreases self.rules.len() - n,
        {
            if self.rules[n].effect == eff {
                let a = self.rules[n].applies(request, host);
                r = kor_exec(r, a);
            }
            n += 1;
        }
        r
    }

    /// The decision on `request`, with the host's answers `host` for its
    /// host checks (a check it did not answer fails): `Deny` when a deny rule
    /// applies, else `Allow` when an allow rule applies, else `Deny`; `None`
    /// where the decision rests on a comparison this library does not decide.
    pub fn evaluate_with_host(&self, request: &Value, host: &Vec<(String, bool)>) -> (e: Option<Effect>)
        ensures
            e == evaluate_spec(self.rules@, request@, host_view(host@)),
    {
        let deny = self.some_applies_exec(Effect::Deny, request, host);
        let allow = self.some_applies_exec(Effect::Allow, request, host);
        if deny == Some(true) {
            Some(Effect::Deny)
        } else if deny.is_none() {
            None
        } else if allow == Some(true) {
            Some(Effect::Allow)
        } else if allow.is_none() {
            None
        } else {
            Some(Effect::Deny)
        }
    }

    /// The decision on `request` with no host checks answered.
    pub fn evaluate(&self, request: &Value) -> (e: Option<Effect>)
        ensures
            e == evaluate_spec(self.rules@, request@, Seq::empty()),
    {
        let host: Vec<(String, bool)> = Vec::new();
        assert(host_view(host@) =~= Seq::<(Seq<char>, bool)>::empty());
        self.evaluate_with_host(request, &host)
    }
}

/// What Karu source compiles to with the host's names `host`: the parse
/// error, or the program compiled (its error at no position); `None` when a
/// number of the source has no reading in `nums`.
pub open spec fn compile_source_spec(
    cs: Seq<char>,
    nums: Seq<(Seq<char>, SReading)>,
    host: Seq<Seq<char>>,
) -> Option<Result<Seq<SCompiledRule>, SParseError>> {
    match source_program(cs, nums, false) {
        None => None,
        Some(Err(e)) => Some(Err(e)),
        Some(Ok(p)) => Some(
            match compile_program_spec(p, host) {
                Ok(rs) => Ok(rs),
                Err(m) => Err(SParseError { message: m, line: 0, column: 0, token: None }),
            },
        ),
    }
}

/// Parses Karu source (test blocks skipped) and compiles it, with the names
/// in `host_asserts` compiled to host checks; `None` when a number of the
/// source has no reading in `numbers`.
pub fn compile_with_host_asserts(
    source: &str,
    host_asserts: &Vec<String>,
    numbers: Vec<(String, NumberReading)>,
) -> (r: Option<Result<Policy, ParseError>>)
    requires
        source@.len() < usize::MAX,
    ensures
        match r {
            None => compile_source_spec(source@, readings_view(numbers@), strings_view(host_asserts@)) is None,
            Some(Ok(p)) => compile_source_spec(source@, readings_view(numbers@), strings_view(host_asserts@))
                == Some(Ok::<Seq<SCompiledRule>, SParseError>(p@)),
            Some(Err(e)) => compile_source_spec(source@, readings_view(numbers@), strings_view(host_asserts@))
                == Some(Err::<Seq<SCompiledRule>, SParseError>(e@)),
        },
{
    match Parser::parse(source, numbers) {
        None => None,
        Some(Err(e)) => Some(Err(e)),
        Some(Ok(program)) => Some(compile_program(&program, host_asserts)),
    }
}

/// Parses Karu source (test blocks skipped) and compiles it; `None` when a
/// number of the source has no reading in `numbers`.
pub fn compile(source: &str, numbers: Vec<(String, NumberReading)>) -> (r: Option<Result<Policy, ParseError>>)
    requires
        source@.len() < usize::MAX,
    ensures
        match r {
            None => compile_source_spec(source@, readings_view(numbers@), Seq::empty()) is None,
            Some(Ok(p)) => compile_source_spec(source@, readings_view(numbers@), Seq::empty()) == Some(
                Ok::<Seq<SCompiledRule>, SParseError>(p@),
            ),
            Some(Err(e)) => compile_source_spec(source@, readings_view(numbers@), Seq::empty()) == Some(
                Err::<Seq<SCompiledRule>, SParseError>(e@),
            ),
        },
{
    let host: Vec<String> = Vec::new();
    assert(strings_view(host@) =~= Seq::<Seq<char>>::empty());
    compile_with_host_asserts(source, &host, numbers)
}

} // verus!
