//! The abstract syntax tree of Karu programs: rules, expressions, patterns
//! and paths, and what each stands for.
use vstd::prelude::*;
use crate::json::{Value, JsonV, jv_obj};
use crate::path::SegV;
use crate::schema::{ModuleDef, AssertDef, SModule, SAssert, modules_view};
use crate::text::strings_view;

verus! {

/// Allow or deny effect.
#[derive(Debug, Clone, Copy, PartialEq, Eq, Structural)]
pub enum EffectAst {
    Allow,
    Deny,
}

/// Expected outcome of a test case.
#[derive(Debug)]
pub enum ExpectedOutcome {
    /// Simple form: `expect allow` or `expect deny`
    Simple(EffectAst),
    /// Per-rule form: `expect { allow viewRule, deny deleteRule }`
    PerRule(Vec<(EffectAst, String)>),
}

/// A path expression (e.g., `resource.context.args`).
#[derive(Debug)]
pub struct PathAst {
    pub segments: Vec<PathSegmentAst>,
}

/// A segment in a path.
#[derive(Debug)]
pub enum PathSegmentAst {
    Field(String),
    Index(usize),
    /// A variable reference (e.g., `path[variable]`)
    Variable(String),
}

/// Comparison operators.
#[derive(Debug, Clone, Copy, PartialEq, Eq, Structural)]
pub enum OpAst {
    Eq,
    Ne,
    Lt,
    Gt,
    Le,
    Ge,
    ContainsAll,
    ContainsAny,
    IpIsInRange,
    IsIpv4,
    IsIpv6,
    IsLoopback,
    IsMulticast,
    DecimalLt,
    DecimalLe,
    DecimalGt,
    DecimalGe,
}

/// A pattern on the right of a comparison or the left of `in`.
#[derive(Debug)]
pub enum PatternAst {
    /// A literal JSON value.
    Literal(Value),
    /// A named variable that captures what it matches.
    Variable(String),
    /// `_`: matches anything.
    Wildcard,
    /// An object pattern `{ key: pattern, ... }`.
    Object(Vec<(String, PatternAst)>),
    /// An array pattern `[pattern, ...]`.
    Array(Vec<PatternAst>),
    /// A reference to another path in the input.
    PathRef(PathAst),
}

/// An expression of a rule body.
#[derive(Debug)]
pub enum ExprAst {
    And(Vec<ExprAst>),
    Or(Vec<ExprAst>),
    Not(Box<ExprAst>),
    /// `path op pattern`
    Compare { left: PathAst, op: OpAst, right: PatternAst },
    /// `pattern in path`
    In { pattern: PatternAst, path: PathAst },
    /// `path in [v1, v2, ...]`
    InLiteral { path: PathAst, values: Vec<PatternAst> },
    /// `has path`
    Has { path: PathAst },
    /// `path like "glob"`
    Like { path: PathAst, pattern: String },
    /// `forall var in path: body`
    Forall { var: String, path: PathAst, body: Box<ExprAst> },
    /// `exists var in path: body`
    Exists { var: String, path: PathAst, body: Box<ExprAst> },
    /// A reference to a schema type.
    TypeRef { namespace: Option<String>, name: String },
    /// `path is Type`
    IsType { path: PathAst, entity_type: String },
}

/// A named rule with its effect and optional condition.
#[derive(Debug)]
pub struct RuleAst {
    pub name: String,
    pub effect: EffectAst,
    pub body: Option<ExprAst>,
}

/// An entity of a test case: its kind (`principal`, `action`, ...) and fields.
#[derive(Debug)]
pub struct TestEntity {
    pub kind: String,
    pub fields: Vec<(String, Value)>,
    /// Written in the shorthand form `principal "id"`.
    pub shorthand: bool,
}

/// An inline test block.
#[derive(Debug)]
pub struct TestDef {
    pub name: String,
    pub entities: Vec<TestEntity>,
    pub expected: ExpectedOutcome,
}

/// A whole Karu program.
#[derive(Debug)]
pub struct Program {
    /// Whether `use schema;` is present.
    pub use_schema: bool,
    pub imports: Vec<String>,
    pub modules: Vec<ModuleDef>,
    pub assertions: Vec<AssertDef>,
    pub rules: Vec<RuleAst>,
    pub tests: Vec<TestDef>,
}

// ----------------------------------------------------------------------------
// Contents
// ----------------------------------------------------------------------------

pub open spec fn seg_ast_view(s: PathSegmentAst) -> SegV {
    match s {
        PathSegmentAst::Field(f) => SegV::Field(f@),
        PathSegmentAst::Index(i) => SegV::Index(i as nat),
        PathSegmentAst::Variable(v) => SegV::Variable(v@),
    }
}

pub open spec fn path_ast_view(p: PathAst) -> Seq<SegV> {
    p.segments@.map_values(|s: PathSegmentAst| seg_ast_view(s))
}

impl View for PathSegmentAst {
    type V = SegV;

    open spec fn view(&self) -> SegV {
        seg_ast_view(*self)
    }
}

impl View for PathAst {
    type V = Seq<SegV>;

    open spec fn view(&self) -> Seq<SegV> {
        path_ast_view(*self)
    }
}

/// The content of a pattern.
pub enum SPattern {
    Literal(JsonV),
    Variable(Seq<char>),
    Wildcard,
    Object(Seq<(Seq<char>, SPattern)>),
    Array(Seq<SPattern>),
    PathRef(Seq<SegV>),
}

/// The content of an expression.
pub enum SExprAst {
    And(Seq<SExprAst>),
    Or(Seq<SExprAst>),
    Not(Box<SExprAst>),
    Compare(Seq<SegV>, OpAst, SPattern),
    In(SPattern, Seq<SegV>),
    InLiteral(Seq<SegV>, Seq<SPattern>),
    Has(Seq<SegV>),
    Like(Seq<SegV>, Seq<char>),
    Forall(Seq<char>, Seq<SegV>, Box<SExprAst>),
    Exists(Seq<char>, Seq<SegV>, Box<SExprAst>),
    TypeRef(Option<Seq<char>>, Seq<char>),
    IsType(Seq<SegV>, Seq<char>),
}

pub open spec fn pattern_view(p: PatternAst) -> SPattern
    decreases p, 0nat,
{
    match p {
        PatternAst::Literal(v) => SPattern::Literal(v@),
        PatternAst::Variable(v) => SPattern::Variable(v@),
        PatternAst::Wildcard => SPattern::Wildcard,
        PatternAst::Object(fs) => SPattern::Object(pattern_pairs_view(fs@, fs@.len())),
        PatternAst::Array(ps) => SPattern::Array(patterns_view(ps@, ps@.len())),
        PatternAst::PathRef(path) => SPattern::PathRef(path@),
    }
}

/// The contents of the first `n` patterns of `ps`.
pub open spec fn patterns_view(ps: Seq<PatternAst>, n: nat) -> Seq<SPattern>
    decreases ps, n,
{
    if n == 0 || n > ps.len() {
        Seq::empty()
    } else {
        patterns_view(ps, (n - 1) as nat).push(pattern_view(ps[n - 1]))
    }
}

/// The contents of the first `n` keyed patterns of `fs`.
pub open spec fn pattern_pairs_view(fs: Seq<(String, PatternAst)>, n: nat) -> Seq<
    (Seq<char>, SPattern),
>
    decreases fs, n,
{
    if n == 0 || n > fs.len() {
        Seq::empty()
    } else {
        pattern_pairs_view(fs, (n - 1) as nat).push((fs[n - 1].0@, pattern_view(fs[n - 1].1)))
    }
}

pub open spec fn expr_ast_view(e: ExprAst) -> SExprAst
    decreases e, 0nat,
{
    match e {
        ExprAst::And(es) => SExprAst::And(expr_asts_view(es@, es@.len())),
        ExprAst::Or(es) => SExprAst::Or(expr_asts_view(es@, es@.len())),
        ExprAst::Not(x) => SExprAst::Not(Box::new(expr_ast_view(*x))),
        ExprAst::Compare { left, op, right } => SExprAst::Compare(left@, op, pattern_view(right)),
        ExprAst::In { pattern, path } => SExprAst::In(pattern_view(pattern), path@),
        ExprAst::InLiteral { path, values } => SExprAst::InLiteral(
            path@,
            patterns_view(values@, values@.len()),
        ),
        ExprAst::Has { path } => SExprAst::Has(path@),
        ExprAst::Like { path, pattern } => SExprAst::Like(path@, pattern@),
        ExprAst::Forall { var, path, body } => SExprAst::Forall(
            var@,
            path@,
            Box::new(expr_ast_view(*body)),
        ),
        ExprAst::Exists { var, path, body } => SExprAst::Exists(
            var@,
            path@,
            Box::new(expr_ast_view(*body)),
        ),
        ExprAst::TypeRef { namespace, name } => SExprAst::TypeRef(
            match namespace {
                Some(ns) => Some(ns@),
                None => None,
            },
            name@,
        ),
        ExprAst::IsType { path, entity_type } => SExprAst::IsType(path@, entity_type@),
    }
}

/// The contents of the first `n` expressions of `es`.
pub open spec fn expr_asts_view(es: Seq<ExprAst>, n: nat) -> Seq<SExprAst>
    decreases es, n,
{
    if n == 0 || n > es.len() {
        Seq::empty()
    } else {
        expr_asts_view(es, (n - 1) as nat).push(expr_ast_view(es[n - 1]))
    }
}

impl View for PatternAst {
    type V = SPattern;

    open spec fn view(&self) -> SPattern {
        pattern_view(*self)
    }
}

impl View for ExprAst {
    type V = SExprAst;

    open spec fn view(&self) -> SExprAst {
        expr_ast_view(*self)
    }
}

/// The contents of a list of expressions.
pub open spec fn exprs_of_ast(v: Seq<ExprAst>) -> Seq<SExprAst> {
    expr_asts_view(v, v.len())
}

/// The contents of a list of patterns.
pub open spec fn patterns_of(v: Seq<PatternAst>) -> Seq<SPattern> {
    patterns_view(v, v.len())
}

/// The content of a rule.
pub struct SRule {
    pub name: Seq<char>,
    pub effect: EffectAst,
    pub body: Option<SExprAst>,
}

impl View for RuleAst {
    type V = SRule;

    open spec fn view(&self) -> SRule {
        SRule {
            name: self.name@,
            effect: self.effect,
            body: match self.body {
                Some(b) => Some(b@),
                None => None,
            },
        }
    }
}

pub open spec fn rules_view(v: Seq<RuleAst>) -> Seq<SRule> {
    v.map_values(|r: RuleAst| r@)
}

pub proof fn lemma_expr_asts_view(es: Seq<ExprAst>, n: nat)
    requires
        n <= es.len(),
    ensures
        expr_asts_view(es, n).len() == n,
        forall|i: int| 0 <= i < n ==> #[trigger] expr_asts_view(es, n)[i] == expr_ast_view(es[i]),
    decreases n,
{
    if n > 0 {
        lemma_expr_asts_view(es, (n - 1) as nat);
    }
}

pub proof fn lemma_patterns_view(ps: Seq<PatternAst>, n: nat)
    requires
        n <= ps.len(),
    ensures
        patterns_view(ps, n).len() == n,
        forall|i: int| 0 <= i < n ==> #[trigger] patterns_view(ps, n)[i] == pattern_view(ps[i]),
    decreases n,
{
    if n > 0 {
        lemma_patterns_view(ps, (n - 1) as nat);
    }
}

pub proof fn lemma_pattern_pairs_view(fs: Seq<(String, PatternAst)>, n: nat)
    requires
        n <= fs.len(),
    ensures
        pattern_pairs_view(fs, n).len() == n,
        forall|i: int|
            0 <= i < n ==> #[trigger] pattern_pairs_view(fs, n)[i] == (
                fs[i].0@,
                pattern_view(fs[i].1),
            ),
    decreases n,
{
    if n > 0 {
        lemma_pattern_pairs_view(fs, (n - 1) as nat);
    }
}

/// `exprs_of_ast` of a list with one more expression.
pub proof fn lemma_exprs_of_ast_push(v: Seq<ExprAst>, e: ExprAst)
    ensures
        exprs_of_ast(v.push(e)) == exprs_of_ast(v).push(e@),
{
    lemma_expr_asts_view(v.push(e), v.len() + 1);
    lemma_expr_asts_view(v, v.len());
    assert(exprs_of_ast(v.push(e)) =~= exprs_of_ast(v).push(e@));
}

/// `patterns_of` of a list with one more pattern.
pub proof fn lemma_patterns_of_push(v: Seq<PatternAst>, p: PatternAst)
    ensures
        patterns_of(v.push(p)) == patterns_of(v).push(p@),
{
    lemma_patterns_view(v.push(p), v.len() + 1);
    lemma_patterns_view(v, v.len());
    assert(patterns_of(v.push(p)) =~= patterns_of(v).push(p@));
}


/// The content of an expected outcome.
pub enum SExpected {
    Simple(EffectAst),
    PerRule(Seq<(EffectAst, Seq<char>)>),
}

/// The content of a test entity.
pub struct STestEntity {
    pub kind: Seq<char>,
    pub fields: Seq<(Seq<char>, JsonV)>,
    pub shorthand: bool,
}

/// The content of a test block.
pub struct STest {
    pub name: Seq<char>,
    pub entities: Seq<STestEntity>,
    pub expected: SExpected,
}

/// The content of a program.
pub struct SProgram {
    pub use_schema: bool,
    pub imports: Seq<Seq<char>>,
    pub modules: Seq<SModule>,
    pub assertions: Seq<SAssert>,
    pub rules: Seq<SRule>,
    pub tests: Seq<STest>,
}

impl View for ExpectedOutcome {
    type V = SExpected;

    open spec fn view(&self) -> SExpected {
        match self {
            ExpectedOutcome::Simple(e) => SExpected::Simple(*e),
            ExpectedOutcome::PerRule(es) => SExpected::PerRule(
                es@.map_values(|p: (EffectAst, String)| (p.0, p.1@)),
            ),
        }
    }
}

impl View for TestEntity {
    type V = STestEntity;

    open spec fn view(&self) -> STestEntity {
        STestEntity {
            kind: self.kind@,
            fields: jv_obj(self.fields@, self.fields@.len()),
            shorthand: self.shorthand,
        }
    }
}

pub open spec fn test_entities_view(v: Seq<TestEntity>) -> Seq<STestEntity> {
    v.map_values(|e: TestEntity| e@)
}

impl View for TestDef {
    type V = STest;

    open spec fn view(&self) -> STest {
        STest {
            name: self.name@,
            entities: test_entities_view(self.entities@),
            expected: self.expected@,
        }
    }
}

pub open spec fn tests_view(v: Seq<TestDef>) -> Seq<STest> {
    v.map_values(|t: TestDef| t@)
}

pub open spec fn asserts_view(v: Seq<AssertDef>) -> Seq<SAssert> {
    v.map_values(|a: AssertDef| a@)
}

impl View for Program {
    type V = SProgram;

    open spec fn view(&self) -> SProgram {
        SProgram {
            use_schema: self.use_schema,
            imports: strings_view(self.imports@),
            modules: modules_view(self.modules@),
            assertions: asserts_view(self.assertions@),
            rules: rules_view(self.rules@),
            tests: tests_view(self.tests@),
        }
    }
}

} // verus!
