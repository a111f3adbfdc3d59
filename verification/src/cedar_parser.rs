//! Parser for the Cedar policy language: a lexer and a recursive-descent
//! parser that stops at the first syntax error.
use vstd::prelude::*;
use crate::text::{push_char, debug_str, i64_to_string, strings_view};
use crate::cedar_lexer::{Tok, STok, TokKind, toks_view, toks_wf, tokenize, lemma_wf_next};
use crate::cedar_syntax::{
    err_tok, kind_name, tok_debug, join, strs_debug, expect_kind, expect_ident, expect_str,
    annotations, effect, entity_ref, entity_ref_tail, path_string, path_string_tail,
    entity_constraint, principal_constraint, resource_constraint, entity_list_tail,
    action_constraint, scope, conditions, policy, policies, parse_tokens, parse_spec, rel_op, add_op,
    expr, or_expr, or_rest, and_expr, and_rest, relation, relation_tail, add_expr, add_rest, mult_expr, mult_rest,
    unary, member, member_rest, primary, set_literal, record_literal, lemma_set_literal_empty, lemma_set_literal_items,
    lemma_record_literal, lemma_expr, lemma_expr_list_empty, lemma_expr_list_first, ident_path, expr_list, list_rest,
    record_fields,
};

verus! {

// ============================================================================
// Cedar AST
// ============================================================================

/// A Cedar policy file: one or more policies.
#[derive(Debug)]
pub struct CedarPolicySet {
    pub policies: Vec<CedarPolicy>,
}

/// A single Cedar policy.
#[derive(Debug)]
pub struct CedarPolicy {
    pub annotations: Vec<CedarAnnotation>,
    pub effect: CedarEffect,
    pub scope: CedarScope,
    pub conditions: Vec<CedarCondition>,
}

/// Policy effect.
#[derive(Debug, Clone, Copy, PartialEq, Eq, Structural)]
pub enum CedarEffect {
    Permit,
    Forbid,
}

/// Annotation on a policy (`@key("value")`).
#[derive(Debug)]
pub struct CedarAnnotation {
    pub key: String,
    pub value: Option<String>,
}

/// Policy scope (principal, action, resource constraints).
#[derive(Debug)]
pub struct CedarScope {
    pub principal: CedarScopeConstraint,
    pub action: CedarActionConstraint,
    pub resource: CedarScopeConstraint,
}

/// A scope constraint for principal or resource.
#[derive(Debug)]
pub enum CedarScopeConstraint {
    /// Matches anything (just `principal` or `resource`).
    Any,
    /// `== Entity`
    Eq(CedarEntityRef),
    /// `in Entity`
    In(CedarEntityRef),
    /// `is Path`
    Is(String),
    /// `is Path in Entity`
    IsIn(String, CedarEntityRef),
    /// `== ?principal` or `in ?resource` (template slot)
    Slot(String),
}

/// Action constraint.
#[derive(Debug)]
pub enum CedarActionConstraint {
    /// Matches any action.
    Any,
    /// `== Entity`
    Eq(CedarEntityRef),
    /// `in Entity`
    In(CedarEntityRef),
    /// `in [Entity, Entity, ...]`
    InList(Vec<CedarEntityRef>),
}

/// Entity reference like `Type::"id"`.
#[derive(Debug)]
pub struct CedarEntityRef {
    pub path: Vec<String>,
    pub id: String,
}

/// When/unless condition.
#[derive(Debug)]
pub struct CedarCondition {
    /// `true` for `when`, `false` for `unless`.
    pub is_when: bool,
    pub expr: CedarExpr,
}

/// Cedar expression.
#[derive(Debug)]
pub enum CedarExpr {
    /// `if cond then a else b`
    IfThenElse { cond: Box<CedarExpr>, then_expr: Box<CedarExpr>, else_expr: Box<CedarExpr> },
    /// `a || b`
    Or(Box<CedarExpr>, Box<CedarExpr>),
    /// `a && b`
    And(Box<CedarExpr>, Box<CedarExpr>),
    /// Relational: `a == b`, `a != b`, `a < b`, etc.
    Relation { lhs: Box<CedarExpr>, op: CedarRelOp, rhs: Box<CedarExpr> },
    /// `a in b`
    InExpr { lhs: Box<CedarExpr>, rhs: Box<CedarExpr> },
    /// `a has field`
    Has(Box<CedarExpr>, String),
    /// `a like "pattern*"`
    Like(Box<CedarExpr>, String),
    /// `a is Type` or `a is Type in b`
    Is { expr: Box<CedarExpr>, entity_type: String, in_expr: Option<Box<CedarExpr>> },
    /// `a + b`, `a - b`
    Add(Box<CedarExpr>, CedarAddOp, Box<CedarExpr>),
    /// `a * b`
    Mul(Box<CedarExpr>, Box<CedarExpr>),
    /// `!a`
    Not(Box<CedarExpr>),
    /// `-a`
    Neg(Box<CedarExpr>),
    /// Member access: `a.field`
    Access(Box<CedarExpr>, String),
    /// Method call: `a.method(args)`
    MethodCall(Box<CedarExpr>, String, Vec<CedarExpr>),
    /// Index: `a["key"]`
    Index(Box<CedarExpr>, String),
    /// Variable: `principal`, `action`, `resource`, `context`, or a plain identifier
    Var(String),
    /// Integer literal
    Int(i64),
    /// String literal
    Str(String),
    /// Boolean literal
    Bool(bool),
    /// Entity reference: `Type::"id"`
    Entity(CedarEntityRef),
    /// Extension function: `ip("10.0.0.1")`, `decimal("1.23")`
    ExtFun(String, Vec<CedarExpr>),
    /// Set literal: `[a, b, c]`
    SetLiteral(Vec<CedarExpr>),
    /// Record literal: `{key: val, ...}`
    Record(Vec<(String, CedarExpr)>),
}

/// Relational operator.
#[derive(Debug, Clone, Copy, PartialEq, Eq, Structural)]
pub enum CedarRelOp {
    Eq,
    Neq,
    Lt,
    Lte,
    Gt,
    Gte,
}

/// Additive operator.
#[derive(Debug, Clone, Copy, PartialEq, Eq, Structural)]
pub enum CedarAddOp {
    Add,
    Sub,
}

/// Parse error with the 1-based line and column where it was found.
#[derive(Debug)]
pub struct CedarParseError {
    pub message: String,
    pub line: usize,
    pub column: usize,
}

// ----------------------------------------------------------------------------
// Contents of the AST
// ----------------------------------------------------------------------------

pub struct SEntityRef {
    pub path: Seq<Seq<char>>,
    pub id: Seq<char>,
}

pub enum SScopeConstraint {
    Any,
    Eq(SEntityRef),
    In(SEntityRef),
    Is(Seq<char>),
    IsIn(Seq<char>, SEntityRef),
    Slot(Seq<char>),
}

pub enum SActionConstraint {
    Any,
    Eq(SEntityRef),
    In(SEntityRef),
    InList(Seq<SEntityRef>),
}

pub struct SScope {
    pub principal: SScopeConstraint,
    pub action: SActionConstraint,
    pub resource: SScopeConstraint,
}

pub struct SAnnotation {
    pub key: Seq<char>,
    pub value: Option<Seq<char>>,
}

pub enum SExpr {
    IfThenElse(Box<SExpr>, Box<SExpr>, Box<SExpr>),
    Or(Box<SExpr>, Box<SExpr>),
    And(Box<SExpr>, Box<SExpr>),
    Relation(Box<SExpr>, CedarRelOp, Box<SExpr>),
    InExpr(Box<SExpr>, Box<SExpr>),
    Has(Box<SExpr>, Seq<char>),
    Like(Box<SExpr>, Seq<char>),
    Is(Box<SExpr>, Seq<char>, Option<Box<SExpr>>),
    Add(Box<SExpr>, CedarAddOp, Box<SExpr>),
    Mul(Box<SExpr>, Box<SExpr>),
    Not(Box<SExpr>),
    Neg(Box<SExpr>),
    Access(Box<SExpr>, Seq<char>),
    MethodCall(Box<SExpr>, Seq<char>, Seq<SExpr>),
    Index(Box<SExpr>, Seq<char>),
    Var(Seq<char>),
    Int(i64),
    Str(Seq<char>),
    Bool(bool),
    Entity(SEntityRef),
    ExtFun(Seq<char>, Seq<SExpr>),
    SetLiteral(Seq<SExpr>),
    Record(Seq<(Seq<char>, SExpr)>),
}

pub struct SCondition {
    pub is_when: bool,
    pub expr: SExpr,
}

pub struct SPolicy {
    pub annotations: Seq<SAnnotation>,
    pub effect: CedarEffect,
    pub scope: SScope,
    pub conditions: Seq<SCondition>,
}

/// A parse error's content: message, line, column.
pub struct SError {
    pub message: Seq<char>,
    pub line: nat,
    pub column: nat,
}

impl View for CedarEntityRef {
    type V = SEntityRef;

    open spec fn view(&self) -> SEntityRef {
        SEntityRef { path: strings_view(self.path@), id: self.id@ }
    }
}

impl View for CedarScopeConstraint {
    type V = SScopeConstraint;

    open spec fn view(&self) -> SScopeConstraint {
        match self {
            CedarScopeConstraint::Any => SScopeConstraint::Any,
            CedarScopeConstraint::Eq(e) => SScopeConstraint::Eq(e@),
            CedarScopeConstraint::In(e) => SScopeConstraint::In(e@),
            CedarScopeConstraint::Is(t) => SScopeConstraint::Is(t@),
            CedarScopeConstraint::IsIn(t, e) => SScopeConstraint::IsIn(t@, e@),
            CedarScopeConstraint::Slot(s) => SScopeConstraint::Slot(s@),
        }
    }
}

pub open spec fn entities_view(v: Seq<CedarEntityRef>) -> Seq<SEntityRef> {
    v.map_values(|e: CedarEntityRef| e@)
}

impl View for CedarActionConstraint {
    type V = SActionConstraint;

    open spec fn view(&self) -> SActionConstraint {
        match self {
            CedarActionConstraint::Any => SActionConstraint::Any,
            CedarActionConstraint::Eq(e) => SActionConstraint::Eq(e@),
            CedarActionConstraint::In(e) => SActionConstraint::In(e@),
            CedarActionConstraint::InList(es) => SActionConstraint::InList(entities_view(es@)),
        }
    }
}

impl View for CedarScope {
    type V = SScope;

    open spec fn view(&self) -> SScope {
        SScope { principal: self.principal@, action: self.action@, resource: self.resource@ }
    }
}

impl View for CedarAnnotation {
    type V = SAnnotation;

    open spec fn view(&self) -> SAnnotation {
        SAnnotation {
            key: self.key@,
            value: match self.value {
                Some(v) => Some(v@),
                None => None,
            },
        }
    }
}

/// The content of an expression.
pub open spec fn expr_view(e: CedarExpr) -> SExpr
    decreases e, 0nat,
{
    match e {
        CedarExpr::IfThenElse { cond, then_expr, else_expr } => SExpr::IfThenElse(
            Box::new(expr_view(*cond)),
            Box::new(expr_view(*then_expr)),
            Box::new(expr_view(*else_expr)),
        ),
        CedarExpr::Or(a, b) => SExpr::Or(Box::new(expr_view(*a)), Box::new(expr_view(*b))),
        CedarExpr::And(a, b) => SExpr::And(Box::new(expr_view(*a)), Box::new(expr_view(*b))),
        CedarExpr::Relation { lhs, op, rhs } => SExpr::Relation(
            Box::new(expr_view(*lhs)),
            op,
            Box::new(expr_view(*rhs)),
        ),
        CedarExpr::InExpr { lhs, rhs } => SExpr::InExpr(
            Box::new(expr_view(*lhs)),
            Box::new(expr_view(*rhs)),
        ),
        CedarExpr::Has(a, f) => SExpr::Has(Box::new(expr_view(*a)), f@),
        CedarExpr::Like(a, f) => SExpr::Like(Box::new(expr_view(*a)), f@),
        CedarExpr::Is { expr, entity_type, in_expr } => SExpr::Is(
            Box::new(expr_view(*expr)),
            entity_type@,
            match in_expr {
                Some(b) => Some(Box::new(expr_view(*b))),
                None => None,
            },
        ),
        CedarExpr::Add(a, op, b) => SExpr::Add(Box::new(expr_view(*a)), op, Box::new(expr_view(*b))),
        CedarExpr::Mul(a, b) => SExpr::Mul(Box::new(expr_view(*a)), Box::new(expr_view(*b))),
        CedarExpr::Not(a) => SExpr::Not(Box::new(expr_view(*a))),
        CedarExpr::Neg(a) => SExpr::Neg(Box::new(expr_view(*a))),
        CedarExpr::Access(a, f) => SExpr::Access(Box::new(expr_view(*a)), f@),
        CedarExpr::MethodCall(a, m, args) => SExpr::MethodCall(
            Box::new(expr_view(*a)),
            m@,
            exprs_view(args@, args@.len()),
        ),
        CedarExpr::Index(a, k) => SExpr::Index(Box::new(expr_view(*a)), k@),
        CedarExpr::Var(v) => SExpr::Var(v@),
        CedarExpr::Int(n) => SExpr::Int(n),
        CedarExpr::Str(s) => SExpr::Str(s@),
        CedarExpr::Bool(b) => SExpr::Bool(b),
        CedarExpr::Entity(e) => SExpr::Entity(e@),
        CedarExpr::ExtFun(f, args) => SExpr::ExtFun(f@, exprs_view(args@, args@.len())),
        CedarExpr::SetLiteral(items) => SExpr::SetLiteral(exprs_view(items@, items@.len())),
        CedarExpr::Record(fields) => SExpr::Record(fields_view(fields@, fields@.len())),
    }
}

/// The contents of the first `n` expressions of `es`.
pub open spec fn exprs_view(es: Seq<CedarExpr>, n: nat) -> Seq<SExpr>
    decreases es, n,
{
    if n == 0 || n > es.len() {
        Seq::empty()
    } else {
        exprs_view(es, (n - 1) as nat).push(expr_view(es[n - 1]))
    }
}

/// The contents of the first `n` record fields of `fs`.
pub open spec fn fields_view(fs: Seq<(String, CedarExpr)>, n: nat) -> Seq<(Seq<char>, SExpr)>
    decreases fs, n,
{
    if n == 0 || n > fs.len() {
        Seq::empty()
    } else {
        fields_view(fs, (n - 1) as nat).push((fs[n - 1].0@, expr_view(fs[n - 1].1)))
    }
}

impl View for CedarExpr {
    type V = SExpr;

    open spec fn view(&self) -> SExpr {
        expr_view(*self)
    }
}

impl View for CedarCondition {
    type V = SCondition;

    open spec fn view(&self) -> SCondition {
        SCondition { is_when: self.is_when, expr: self.expr@ }
    }
}

pub open spec fn annotations_view(v: Seq<CedarAnnotation>) -> Seq<SAnnotation> {
    v.map_values(|a: CedarAnnotation| a@)
}

pub open spec fn conditions_view(v: Seq<CedarCondition>) -> Seq<SCondition> {
    v.map_values(|c: CedarCondition| c@)
}

pub open spec fn policies_view(v: Seq<CedarPolicy>) -> Seq<SPolicy> {
    v.map_values(|p: CedarPolicy| p@)
}

/// The contents of a list of expressions.
pub open spec fn exprs_of(v: Seq<CedarExpr>) -> Seq<SExpr> {
    exprs_view(v, v.len())
}

/// The contents of a list of record fields.
pub open spec fn fields_of(v: Seq<(String, CedarExpr)>) -> Seq<(Seq<char>, SExpr)> {
    fields_view(v, v.len())
}

impl View for CedarPolicy {
    type V = SPolicy;

    open spec fn view(&self) -> SPolicy {
        SPolicy {
            annotations: annotations_view(self.annotations@),
            effect: self.effect,
            scope: self.scope@,
            conditions: conditions_view(self.conditions@),
        }
    }
}

impl View for CedarPolicySet {
    type V = Seq<SPolicy>;

    open spec fn view(&self) -> Seq<SPolicy> {
        policies_view(self.policies@)
    }
}

impl View for CedarParseError {
    type V = SError;

    open spec fn view(&self) -> SError {
        SError { message: self.message@, line: self.line as nat, column: self.column as nat }
    }
}

impl CedarParseError {
    /// The message shown for the error: `Cedar parse error at line L:C: message`.
    pub fn to_string(&self) -> (s: String)
        ensures
            s@ == "Cedar parse error at line "@ + crate::text::decimal(self.line as int) + ":"@
                + crate::text::decimal(self.column as int) + ": "@ + self.message@,
    {
        let mut s = String::from_str("Cedar parse error at line ");
        let l = crate::text::usize_to_string(self.line);
        s.append(l.as_str());
        s.append(":");
        let c = crate::text::usize_to_string(self.column);
        s.append(c.as_str());
        s.append(": ");
        s.append(self.message.as_str());
        s
    }
}

pub proof fn lemma_exprs_view(es: Seq<CedarExpr>, n: nat)
    requires
        n <= es.len(),
    ensures
        exprs_view(es, n).len() == n,
        forall|i: int| 0 <= i < n ==> #[trigger] exprs_view(es, n)[i] == expr_view(es[i]),
    decreases n,
{
    if n > 0 {
        lemma_exprs_view(es, (n - 1) as nat);
    }
}

pub proof fn lemma_fields_view(fs: Seq<(String, CedarExpr)>, n: nat)
    requires
        n <= fs.len(),
    ensures
        fields_view(fs, n).len() == n,
        forall|i: int|
            0 <= i < n ==> #[trigger] fields_view(fs, n)[i] == (fs[i].0@, expr_view(fs[i].1)),
    decreases n,
{
    if n > 0 {
        lemma_fields_view(fs, (n - 1) as nat);
    }
}

pub proof fn lemma_exprs_of_push(v: Seq<CedarExpr>, e: CedarExpr)
    ensures
        exprs_of(v.push(e)) == exprs_of(v).push(expr_view(e)),
{
    lemma_exprs_view(v.push(e), v.len() + 1);
    lemma_exprs_view(v, v.len());
    assert(exprs_of(v.push(e)) =~= exprs_of(v).push(expr_view(e)));
}

pub proof fn lemma_fields_of_push(v: Seq<(String, CedarExpr)>, f: (String, CedarExpr))
    ensures
        fields_of(v.push(f)) == fields_of(v).push((f.0@, expr_view(f.1))),
{
    lemma_fields_view(v.push(f), v.len() + 1);
    lemma_fields_view(v, v.len());
    assert(fields_of(v.push(f)) =~= fields_of(v).push((f.0@, expr_view(f.1))));
}

} // verus!

verus! {

// ============================================================================
// Parser
// ============================================================================

/// What a parsing step yields, compared with the rule `s` it follows: the same
/// result, and on success a next position after `pos` and before the end.
pub open spec fn expr_ok(
    r: Result<(CedarExpr, usize), CedarParseError>,
    s: Result<(SExpr, int), SError>,
    pos: usize,
    len: nat,
) -> bool {
    match r {
        Ok((e, p)) => s == Ok::<(SExpr, int), SError>((e@, p as int)) && pos < p < len,
        Err(er) => s == Err::<(SExpr, int), SError>(er@),
    }
}

/// As `expr_ok`, for a list of expressions, which may be empty.
pub open spec fn list_ok(
    r: Result<(Vec<CedarExpr>, usize), CedarParseError>,
    s: Result<(Seq<SExpr>, int), SError>,
    pos: usize,
    len: nat,
) -> bool {
    match r {
        Ok((v, p)) => s == Ok::<(Seq<SExpr>, int), SError>((exprs_of(v@), p as int)) && pos <= p
            < len,
        Err(er) => s == Err::<(Seq<SExpr>, int), SError>(er@),
    }
}

pub open spec fn str_ok(
    r: Result<(String, usize), CedarParseError>,
    s: Result<(Seq<char>, int), SError>,
    pos: usize,
    len: nat,
) -> bool {
    match r {
        Ok((v, p)) => s == Ok::<(Seq<char>, int), SError>((v@, p as int)) && pos < p < len,
        Err(er) => s == Err::<(Seq<char>, int), SError>(er@),
    }
}

pub open spec fn entity_ok(
    r: Result<(CedarEntityRef, usize), CedarParseError>,
    s: Result<(SEntityRef, int), SError>,
    pos: usize,
    len: nat,
) -> bool {
    match r {
        Ok((v, p)) => s == Ok::<(SEntityRef, int), SError>((v@, p as int)) && pos < p < len,
        Err(er) => s == Err::<(SEntityRef, int), SError>(er@),
    }
}

pub open spec fn scope_constraint_ok(
    r: Result<(CedarScopeConstraint, usize), CedarParseError>,
    s: Result<(SScopeConstraint, int), SError>,
    pos: usize,
    len: nat,
) -> bool {
    match r {
        Ok((v, p)) => s == Ok::<(SScopeConstraint, int), SError>((v@, p as int)) && pos <= p < len,
        Err(er) => s == Err::<(SScopeConstraint, int), SError>(er@),
    }
}

/// Cedar parser: a well-formed token stream.
struct Parser {
    tokens: Vec<Tok>,
}

fn empty_exprs() -> (v: Vec<CedarExpr>)
    ensures
        exprs_of(v@) == Seq::<SExpr>::empty(),
        v@.len() == 0,
{
    let v: Vec<CedarExpr> = Vec::new();
    assert(exprs_of(v@) =~= Seq::<SExpr>::empty());
    v
}

fn empty_fields() -> (v: Vec<(String, CedarExpr)>)
    ensures
        fields_of(v@) == Seq::<(Seq<char>, SExpr)>::empty(),
        v@.len() == 0,
{
    let v: Vec<(String, CedarExpr)> = Vec::new();
    assert(fields_of(v@) =~= Seq::<(Seq<char>, SExpr)>::empty());
    v
}

/// The name of a token kind.
fn kind_name_of(k: TokKind) -> (s: &'static str)
    ensures
        s@ == kind_name(k),
{
    match k {
        TokKind::Permit => "Permit",
        TokKind::Forbid => "Forbid",
        TokKind::When => "When",
        TokKind::Unless => "Unless",
        TokKind::If => "If",
        TokKind::Then => "Then",
        TokKind::Else => "Else",
        TokKind::In => "In",
        TokKind::Like => "Like",
        TokKind::Has => "Has",
        TokKind::Is => "Is",
        TokKind::True => "True",
        TokKind::False => "False",
        TokKind::Principal => "Principal",
        TokKind::Action => "Action",
        TokKind::Resource => "Resource",
        TokKind::Context => "Context",
        TokKind::LParen => "LParen",
        TokKind::RParen => "RParen",
        TokKind::LBracket => "LBracket",
        TokKind::RBracket => "RBracket",
        TokKind::LBrace => "LBrace",
        TokKind::RBrace => "RBrace",
        TokKind::Comma => "Comma",
        TokKind::Semi => "Semi",
        TokKind::Dot => "Dot",
        TokKind::ColonColon => "ColonColon",
        TokKind::At => "At",
        TokKind::Colon => "Colon",
        TokKind::Eq => "Eq",
        TokKind::Neq => "Neq",
        TokKind::Lt => "Lt",
        TokKind::Lte => "Lte",
        TokKind::Gt => "Gt",
        TokKind::Gte => "Gte",
        TokKind::And => "And",
        TokKind::Or => "Or",
        TokKind::Not => "Not",
        TokKind::Plus => "Plus",
        TokKind::Minus => "Minus",
        TokKind::Star => "Star",
        TokKind::Ident => "Ident",
        TokKind::Str => "Str",
        TokKind::Int => "Int",
        TokKind::SlotPrincipal => "SlotPrincipal",
        TokKind::SlotResource => "SlotResource",
        TokKind::Eof => "Eof",
    }
}

/// The strings joined with `sep` between them.
pub(crate) fn join_strings(parts: &Vec<String>, sep: &str) -> (s: String)
    ensures
        s@ == join(strings_view(parts@), sep@),
{
    let ghost ps = strings_view(parts@);
    if parts.len() == 0 {
        return String::new();
    }
    let mut s = parts[0].clone();
    assert(ps.take(1) =~= seq![ps[0]]);
    let mut i: usize = 1;
    while i < parts.len()
        invariant
            1 <= i <= parts.len(),
            ps == strings_view(parts@),
            s@ == join(ps.take(i as int), sep@),
        decreases parts.len() - i,
    {
        assert(ps.take(i + 1).drop_last() =~= ps.take(i as int));
        s.append(sep);
        s.append(parts[i].as_str());
        i += 1;
    }
    assert(ps.take(i as int) =~= ps);
    s
}

/// How a list of strings is printed: `["a", "b"]`.
pub(crate) fn strs_debug_of(parts: &Vec<String>) -> (s: String)
    ensures
        s@ == strs_debug(strings_view(parts@)),
{
    let mut quoted: Vec<String> = Vec::new();
    let mut i: usize = 0;
    while i < parts.len()
        invariant
            i <= parts.len(),
            quoted.len() == i,
            forall|j: int| 0 <= j < i ==> #[trigger] quoted@[j]@ == crate::text::str_debug(parts@[j]@),
        decreases parts.len() - i,
    {
        quoted.push(debug_str(parts[i].as_str()));
        i += 1;
    }
    assert(strings_view(quoted@) =~= strings_view(parts@).map_values(
        |p: Seq<char>| crate::text::str_debug(p),
    ));
    let mut s = String::from_str("[");
    let body = join_strings(&quoted, ", ");
    s.append(body.as_str());
    s.append("]");
    s
}

impl Parser {
    spec fn ts(&self) -> Seq<STok> {
        toks_view(self.tokens@)
    }

    spec fn wf(&self) -> bool {
        toks_wf(self.ts())
    }

    fn err(&self, pos: usize, message: String) -> (e: CedarParseError)
        requires
            pos < self.tokens.len(),
        ensures
            e@ == err_tok(self.ts(), pos as int, message@),
    {
        CedarParseError { message, line: self.tokens[pos].line, column: self.tokens[pos].column }
    }

    /// How the token at `pos` is printed.
    fn tok_debug(&self, pos: usize) -> (s: String)
        requires
            pos < self.tokens.len(),
        ensures
            s@ == tok_debug(self.ts()[pos as int]),
    {
        let t = &self.tokens[pos];
        if t.kind == TokKind::Ident || t.kind == TokKind::Str {
            let mut s = if t.kind == TokKind::Ident {
                String::from_str("Ident(")
            } else {
                String::from_str("Str(")
            };
            let d = debug_str(t.text.as_str());
            s.append(d.as_str());
            s.append(")");
            s
        } else if t.kind == TokKind::Int {
            let mut s = String::from_str("Int(");
            let d = i64_to_string(t.num);
            s.append(d.as_str());
            s.append(")");
            s
        } else {
            String::from_str(kind_name_of(t.kind))
        }
    }

    fn expect(&self, pos: usize, k: TokKind) -> (r: Result<usize, CedarParseError>)
        requires
            self.wf(),
            pos < self.tokens.len(),
            k != TokKind::Eof,
        ensures
            match r {
                Ok(p) => expect_kind(self.ts(), pos as int, k) == Ok::<int, SError>(p as int) && p
                    == pos + 1 && p < self.tokens.len(),
                Err(e) => expect_kind(self.ts(), pos as int, k) == Err::<int, SError>(e@),
            },
    {
        if self.tokens[pos].kind == k {
            proof {
                lemma_wf_next(self.ts(), pos as int);
            }
            Ok(pos + 1)
        } else {
            let mut m = String::from_str("Expected ");
            m.append(kind_name_of(k));
            m.append(", found ");
            let d = self.tok_debug(pos);
            m.append(d.as_str());
            Err(self.err(pos, m))
        }
    }

    fn expect_ident(&self, pos: usize) -> (r: Result<(String, usize), CedarParseError>)
        requires
            self.wf(),
            pos < self.tokens.len(),
        ensures
            str_ok(r, expect_ident(self.ts(), pos as int), pos, self.tokens@.len()),
            r matches Ok((_, p)) ==> p == pos + 1,
    {
        let k = self.tokens[pos].kind;
        if k == TokKind::Ident || k == TokKind::Principal || k == TokKind::Action || k
            == TokKind::Resource || k == TokKind::Context {
            proof {
                lemma_wf_next(self.ts(), pos as int);
            }
            let s = if k == TokKind::Ident {
                self.tokens[pos].text.clone()
            } else if k == TokKind::Principal {
                String::from_str("principal")
            } else if k == TokKind::Action {
                String::from_str("action")
            } else if k == TokKind::Resource {
                String::from_str("resource")
            } else {
                String::from_str("context")
            };
            Ok((s, pos + 1))
        } else {
            let mut m = String::from_str("Expected identifier, found ");
            let d = self.tok_debug(pos);
            m.append(d.as_str());
            Err(self.err(pos, m))
        }
    }

    fn expect_str(&self, pos: usize) -> (r: Result<(String, usize), CedarParseError>)
        requires
            self.wf(),
            pos < self.tokens.len(),
        ensures
            str_ok(r, expect_str(self.ts(), pos as int), pos, self.tokens@.len()),
            r matches Ok((_, p)) ==> p == pos + 1,
    {
        if self.tokens[pos].kind == TokKind::Str {
            proof {
                lemma_wf_next(self.ts(), pos as int);
            }
            Ok((self.tokens[pos].text.clone(), pos + 1))
        } else {
            let mut m = String::from_str("Expected string, found ");
            let d = self.tok_debug(pos);
            m.append(d.as_str());
            Err(self.err(pos, m))
        }
    }
}

} // verus!

verus! {

fn rel_op_of(k: TokKind) -> (r: Option<CedarRelOp>)
    ensures
        r == rel_op(k),
{
    if k == TokKind::Eq {
        Some(CedarRelOp::Eq)
    } else if k == TokKind::Neq {
        Some(CedarRelOp::Neq)
    } else if k == TokKind::Lt {
        Some(CedarRelOp::Lt)
    } else if k == TokKind::Lte {
        Some(CedarRelOp::Lte)
    } else if k == TokKind::Gt {
        Some(CedarRelOp::Gt)
    } else if k == TokKind::Gte {
        Some(CedarRelOp::Gte)
    } else {
        None
    }
}

fn add_op_of(k: TokKind) -> (r: Option<CedarAddOp>)
    ensures
        r == add_op(k),
{
    if k == TokKind::Plus {
        Some(CedarAddOp::Add)
    } else if k == TokKind::Minus {
        Some(CedarAddOp::Sub)
    } else {
        None
    }
}

impl Parser {
    fn parse_expr(&self, pos: usize) -> (r: Result<(CedarExpr, usize), CedarParseError>)
        requires
            self.wf(),
            pos < self.tokens.len(),
        ensures
            expr_ok(r, expr(self.ts(), pos as int), pos, self.tokens@.len()),
        decreases self.tokens@.len() - pos, 20nat,
    {
        proof {
            lemma_expr(self.ts(), pos as int);
        }
        if self.tokens[pos].kind == TokKind::If {
            proof {
                lemma_wf_next(self.ts(), pos as int);
            }
            let (cond, p1) = match self.parse_expr(pos + 1) {
                Ok(x) => x,
                Err(e) => return Err(e),
            };
            let p2 = match self.expect(p1, TokKind::Then) {
                Ok(x) => x,
                Err(e) => return Err(e),
            };
            let (then_expr, p3) = match self.parse_expr(p2) {
                Ok(x) => x,
                Err(e) => return Err(e),
            };
            let p4 = match self.expect(p3, TokKind::Else) {
                Ok(x) => x,
                Err(e) => return Err(e),
            };
            let (else_expr, p5) = match self.parse_expr(p4) {
                Ok(x) => x,
                Err(e) => return Err(e),
            };
            Ok(
                (
                    CedarExpr::IfThenElse {
                        cond: Box::new(cond),
                        then_expr: Box::new(then_expr),
                        else_expr: Box::new(else_expr),
                    },
                    p5,
                ),
            )
        } else {
            self.parse_or(pos)
        }
    }

    fn parse_or(&self, pos: usize) -> (r: Result<(CedarExpr, usize), CedarParseError>)
        requires
            self.wf(),
            pos < self.tokens.len(),
        ensures
            expr_ok(r, or_expr(self.ts(), pos as int), pos, self.tokens@.len()),
        decreases self.tokens@.len() - pos, 19nat,
    {
        let (mut lhs, mut p) = match self.parse_and(pos) {
            Ok(x) => x,
            Err(e) => return Err(e),
        };
        loop
            invariant
                self.wf(),
                pos < p < self.tokens.len(),
                or_expr(self.ts(), pos as int) == or_rest(self.ts(), p as int, lhs@),
            decreases self.tokens@.len() - p,
        {
            if self.tokens[p].kind != TokKind::Or {
                return Ok((lhs, p));
            }
            proof {
                lemma_wf_next(self.ts(), p as int);
            }
            let (rhs, p2) = match self.parse_and(p + 1) {
                Ok(x) => x,
                Err(e) => return Err(e),
            };
            lhs = CedarExpr::Or(Box::new(lhs), Box::new(rhs));
            p = p2;
        }
    }

    fn parse_and(&self, pos: usize) -> (r: Result<(CedarExpr, usize), CedarParseError>)
        requires
            self.wf(),
            pos < self.tokens.len(),
        ensures
            expr_ok(r, and_expr(self.ts(), pos as int), pos, self.tokens@.len()),
        decreases self.tokens@.len() - pos, 17nat,
    {
        let (mut lhs, mut p) = match self.parse_relation(pos) {
            Ok(x) => x,
            Err(e) => return Err(e),
        };
        loop
            invariant
                self.wf(),
                pos < p < self.tokens.len(),
                and_expr(self.ts(), pos as int) == and_rest(self.ts(), p as int, lhs@),
            decreases self.tokens@.len() - p,
        {
            if self.tokens[p].kind != TokKind::And {
                return Ok((lhs, p));
            }
            proof {
                lemma_wf_next(self.ts(), p as int);
            }
            let (rhs, p2) = match self.parse_relation(p + 1) {
                Ok(x) => x,
                Err(e) => return Err(e),
            };
            lhs = CedarExpr::And(Box::new(lhs), Box::new(rhs));
            p = p2;
        }
    }

    fn parse_relation(&self, pos: usize) -> (r: Result<(CedarExpr, usize), CedarParseError>)
        requires
            self.wf(),
            pos < self.tokens.len(),
        ensures
            expr_ok(r, relation(self.ts(), pos as int), pos, self.tokens@.len()),
        decreases self.tokens@.len() - pos, 15nat,
    {
        let (lhs, p1) = match self.parse_add(pos) {
            Ok(x) => x,
            Err(e) => return Err(e),
        };
        self.parse_relation_tail(p1, lhs)
    }

    /// What follows the left operand of a relation: at most one operator and its right side.
    fn parse_relation_tail(&self, pos: usize, lhs: CedarExpr) -> (r: Result<
        (CedarExpr, usize),
        CedarParseError,
    >)
        requires
            self.wf(),
            pos < self.tokens.len(),
        ensures
            match r {
                Ok((e, p)) => relation_tail(self.ts(), pos as int, lhs@) == Ok::<
                    (SExpr, int),
                    SError,
                >((e@, p as int)) && pos <= p < self.tokens.len(),
                Err(er) => relation_tail(self.ts(), pos as int, lhs@) == Err::<(SExpr, int), SError>(
                    er@,
                ),
            },
        decreases self.tokens@.len() - pos, 14nat,
    {
        let k = self.tokens[pos].kind;
        if k == TokKind::Eof {
            return Ok((lhs, pos));
        }
        proof {
            lemma_wf_next(self.ts(), pos as int);
        }
        match rel_op_of(k) {
            Some(op) => {
                let (rhs, p2) = match self.parse_add(pos + 1) {
                    Ok(x) => x,
                    Err(e) => return Err(e),
                };
                return Ok((CedarExpr::Relation { lhs: Box::new(lhs), op, rhs: Box::new(rhs) }, p2));
            },
            None => {},
        }
        if k == TokKind::In {
            let (rhs, p2) = match self.parse_add(pos + 1) {
                Ok(x) => x,
                Err(e) => return Err(e),
            };
            return Ok((CedarExpr::InExpr { lhs: Box::new(lhs), rhs: Box::new(rhs) }, p2));
        }
        if k == TokKind::Has {
            return self.parse_has(pos, lhs);
        }
        if k == TokKind::Like {
            let (pattern, p2) = match self.expect_str(pos + 1) {
                Ok(x) => x,
                Err(e) => return Err(e),
            };
            return Ok((CedarExpr::Like(Box::new(lhs), pattern), p2));
        }
        if k == TokKind::Is {
            return self.parse_is(pos, lhs);
        }
        Ok((lhs, pos))
    }

    /// `lhs has field`, at `has`.
    fn parse_has(&self, pos: usize, lhs: CedarExpr) -> (r: Result<(CedarExpr, usize), CedarParseError>)
        requires
            self.wf(),
            pos < self.tokens.len(),
            self.ts()[pos as int].kind == TokKind::Has,
        ensures
            expr_ok(r, relation_tail(self.ts(), pos as int, lhs@), pos, self.tokens@.len()),
    {
        proof {
            lemma_wf_next(self.ts(), pos as int);
        }
        let q = pos + 1;
        let qk = self.tokens[q].kind;
        if qk == TokKind::Ident || qk == TokKind::Str {
            proof {
                lemma_wf_next(self.ts(), q as int);
            }
            let field = self.tokens[q].text.clone();
            Ok((CedarExpr::Has(Box::new(lhs), field), q + 1))
        } else {
            Err(self.err(q, String::from_str("Expected identifier or string after 'has'")))
        }
    }

    /// `lhs is Type` or `lhs is Type in e`, at `is`.
    fn parse_is(&self, pos: usize, lhs: CedarExpr) -> (r: Result<(CedarExpr, usize), CedarParseError>)
        requires
            self.wf(),
            pos < self.tokens.len(),
            self.ts()[pos as int].kind == TokKind::Is,
        ensures
            expr_ok(r, relation_tail(self.ts(), pos as int, lhs@), pos, self.tokens@.len()),
        decreases self.tokens@.len() - pos, 1nat,
    {
        proof {
            lemma_wf_next(self.ts(), pos as int);
        }
        let (entity_type, p2) = match self.parse_path_string(pos + 1) {
            Ok(x) => x,
            Err(e) => return Err(e),
        };
        if self.tokens[p2].kind == TokKind::In {
            proof {
                lemma_wf_next(self.ts(), p2 as int);
            }
            let (b, p3) = match self.parse_add(p2 + 1) {
                Ok(x) => x,
                Err(e) => return Err(e),
            };
            Ok((CedarExpr::Is { expr: Box::new(lhs), entity_type, in_expr: Some(Box::new(b)) }, p3))
        } else {
            Ok((CedarExpr::Is { expr: Box::new(lhs), entity_type, in_expr: None }, p2))
        }
    }

    fn parse_add(&self, pos: usize) -> (r: Result<(CedarExpr, usize), CedarParseError>)
        requires
            self.wf(),
            pos < self.tokens.len(),
        ensures
            expr_ok(r, add_expr(self.ts(), pos as int), pos, self.tokens@.len()),
        decreases self.tokens@.len() - pos, 13nat,
    {
        let (mut lhs, mut p) = match self.parse_mult(pos) {
            Ok(x) => x,
            Err(e) => return Err(e),
        };
        loop
            invariant
                self.wf(),
                pos < p < self.tokens.len(),
                add_expr(self.ts(), pos as int) == add_rest(self.ts(), p as int, lhs@),
            decreases self.tokens@.len() - p,
        {
            let op = match add_op_of(self.tokens[p].kind) {
                Some(op) => op,
                None => return Ok((lhs, p)),
            };
            proof {
                lemma_wf_next(self.ts(), p as int);
            }
            let (rhs, p2) = match self.parse_mult(p + 1) {
                Ok(x) => x,
                Err(e) => return Err(e),
            };
            lhs = CedarExpr::Add(Box::new(lhs), op, Box::new(rhs));
            p = p2;
        }
    }

    fn parse_mult(&self, pos: usize) -> (r: Result<(CedarExpr, usize), CedarParseError>)
        requires
            self.wf(),
            pos < self.tokens.len(),
        ensures
            expr_ok(r, mult_expr(self.ts(), pos as int), pos, self.tokens@.len()),
        decreases self.tokens@.len() - pos, 11nat,
    {
        let (mut lhs, mut p) = match self.parse_unary(pos) {
            Ok(x) => x,
            Err(e) => return Err(e),
        };
        loop
            invariant
                self.wf(),
                pos < p < self.tokens.len(),
                mult_expr(self.ts(), pos as int) == mult_rest(self.ts(), p as int, lhs@),
            decreases self.tokens@.len() - p,
        {
            if self.tokens[p].kind != TokKind::Star {
                return Ok((lhs, p));
            }
            proof {
                lemma_wf_next(self.ts(), p as int);
            }
            let (rhs, p2) = match self.parse_unary(p + 1) {
                Ok(x) => x,
                Err(e) => return Err(e),
            };
            lhs = CedarExpr::Mul(Box::new(lhs), Box::new(rhs));
            p = p2;
        }
    }

    fn parse_unary(&self, pos: usize) -> (r: Result<(CedarExpr, usize), CedarParseError>)
        requires
            self.wf(),
            pos < self.tokens.len(),
        ensures
            expr_ok(r, unary(self.ts(), pos as int), pos, self.tokens@.len()),
        decreases self.tokens@.len() - pos, 9nat,
    {
        let k = self.tokens[pos].kind;
        if k == TokKind::Not {
            proof {
                lemma_wf_next(self.ts(), pos as int);
            }
            let (e, p1) = match self.parse_unary(pos + 1) {
                Ok(x) => x,
                Err(e) => return Err(e),
            };
            return Ok((CedarExpr::Not(Box::new(e)), p1));
        }
        if k == TokKind::Minus {
            proof {
                lemma_wf_next(self.ts(), pos as int);
            }
            if self.tokens[pos + 1].kind == TokKind::Int {
                let n = self.tokens[pos + 1].num;
                proof {
                    assert(self.ts()[pos + 1].kind == TokKind::Int);
                    lemma_wf_next(self.ts(), pos + 1);
                }
                return Ok((CedarExpr::Int(-n), pos + 2));
            }
            let (e, p1) = match self.parse_unary(pos + 1) {
                Ok(x) => x,
                Err(e) => return Err(e),
            };
            return Ok((CedarExpr::Neg(Box::new(e)), p1));
        }
        self.parse_member(pos)
    }

    #[verifier::rlimit(40)]
    #[verifier::spinoff_prover]
    fn parse_member(&self, pos: usize) -> (r: Result<(CedarExpr, usize), CedarParseError>)
        requires
            self.wf(),
            pos < self.tokens.len(),
        ensures
            expr_ok(r, member(self.ts(), pos as int), pos, self.tokens@.len()),
        decreases self.tokens@.len() - pos, 7nat,
    {
        let (mut e, mut p) = match self.parse_primary(pos) {
            Ok(x) => x,
            Err(er) => return Err(er),
        };
        loop
            invariant
                self.wf(),
                pos < p < self.tokens.len(),
                member(self.ts(), pos as int) == member_rest(self.ts(), p as int, e@),
            decreases self.tokens@.len() - p,
        {
            let k = self.tokens[p].kind;
            if k == TokKind::Dot {
                proof {
                    lemma_wf_next(self.ts(), p as int);
                }
                let (field, p1) = match self.expect_ident(p + 1) {
                    Ok(x) => x,
                    Err(er) => return Err(er),
                };
                if self.tokens[p1].kind == TokKind::LParen {
                    proof {
                        lemma_wf_next(self.ts(), p1 as int);
                    }
                    let (args, p2) = match self.parse_expr_list(p1 + 1) {
                        Ok(x) => x,
                        Err(er) => return Err(er),
                    };
                    let p3 = match self.expect(p2, TokKind::RParen) {
                        Ok(x) => x,
                        Err(er) => return Err(er),
                    };
                    e = CedarExpr::MethodCall(Box::new(e), field, args);
                    p = p3;
                } else {
                    e = CedarExpr::Access(Box::new(e), field);
                    p = p1;
                }
            } else if k == TokKind::LBracket {
                proof {
                    lemma_wf_next(self.ts(), p as int);
                }
                let (key, p1) = match self.expect_str(p + 1) {
                    Ok(x) => x,
                    Err(er) => return Err(er),
                };
                let p2 = match self.expect(p1, TokKind::RBracket) {
                    Ok(x) => x,
                    Err(er) => return Err(er),
                };
                e = CedarExpr::Index(Box::new(e), key);
                p = p2;
            } else {
                return Ok((e, p));
            }
        }
    }

    fn parse_expr_list(&self, pos: usize) -> (r: Result<(Vec<CedarExpr>, usize), CedarParseError>)
        requires
            self.wf(),
            pos < self.tokens.len(),
        ensures
            list_ok(r, expr_list(self.ts(), pos as int), pos, self.tokens@.len()),
        decreases self.tokens@.len() - pos, 21nat,
    {
        let k = self.tokens[pos].kind;
        let mut exprs: Vec<CedarExpr> = Vec::new();
        assert(exprs_of(exprs@) =~= Seq::<SExpr>::empty());
        if k == TokKind::RParen || k == TokKind::RBracket {
            proof {
                lemma_expr_list_empty(self.ts(), pos as int);
            }
            return Ok((exprs, pos));
        }
        proof {
            lemma_expr_list_first(self.ts(), pos as int);
        }
        let (first, p1) = match self.parse_expr(pos) {
            Ok(x) => x,
            Err(e) => return Err(e),
        };
        proof {
            lemma_exprs_of_push(exprs@, first);
        }
        exprs.push(first);
        let mut p = p1;
        loop
            invariant
                self.wf(),
                pos < p < self.tokens.len(),
                expr_list(self.ts(), pos as int) == list_rest(self.ts(), p as int, exprs_of(exprs@)),
            decreases self.tokens@.len() - p,
        {
            if self.tokens[p].kind != TokKind::Comma {
                return Ok((exprs, p));
            }
            proof {
                lemma_wf_next(self.ts(), p as int);
            }
            let (e, p2) = match self.parse_expr(p + 1) {
                Ok(x) => x,
                Err(er) => return Err(er),
            };
            proof {
                lemma_exprs_of_push(exprs@, e);
            }
            exprs.push(e);
            p = p2;
        }
    }
}

} // verus!

verus! {

impl Parser {
    fn parse_primary(&self, pos: usize) -> (r: Result<(CedarExpr, usize), CedarParseError>)
        requires
            self.wf(),
            pos < self.tokens.len(),
        ensures
            expr_ok(r, primary(self.ts(), pos as int), pos, self.tokens@.len()),
        decreases self.tokens@.len() - pos, 5nat,
    {
        let k = self.tokens[pos].kind;
        if k == TokKind::True || k == TokKind::False || k == TokKind::Int || k == TokKind::Str || k
            == TokKind::Principal || k == TokKind::Action || k == TokKind::Resource || k
            == TokKind::Context {
            self.parse_literal(pos)
        } else if k == TokKind::LParen {
            self.parse_paren(pos)
        } else if k == TokKind::LBracket {
            self.parse_set_literal(pos)
        } else if k == TokKind::LBrace {
            self.parse_record_literal(pos)
        } else if k == TokKind::Ident {
            self.parse_ident_expr(pos)
        } else {
            let mut m = String::from_str("Unexpected token: ");
            let d = self.tok_debug(pos);
            m.append(d.as_str());
            Err(self.err(pos, m))
        }
    }

    /// A literal, or one of the variables `principal`, `action`, `resource`, `context`.
    fn parse_literal(&self, pos: usize) -> (r: Result<(CedarExpr, usize), CedarParseError>)
        requires
            self.wf(),
            pos < self.tokens.len(),
            ({
                let k = self.ts()[pos as int].kind;
                k == TokKind::True || k == TokKind::False || k == TokKind::Int || k == TokKind::Str
                    || k == TokKind::Principal || k == TokKind::Action || k == TokKind::Resource
                    || k == TokKind::Context
            }),
        ensures
            expr_ok(r, primary(self.ts(), pos as int), pos, self.tokens@.len()),
    {
        let k = self.tokens[pos].kind;
        proof {
            lemma_wf_next(self.ts(), pos as int);
        }
        let e = if k == TokKind::True {
            CedarExpr::Bool(true)
        } else if k == TokKind::False {
            CedarExpr::Bool(false)
        } else if k == TokKind::Int {
            CedarExpr::Int(self.tokens[pos].num)
        } else if k == TokKind::Str {
            CedarExpr::Str(self.tokens[pos].text.clone())
        } else if k == TokKind::Principal {
            CedarExpr::Var(String::from_str("principal"))
        } else if k == TokKind::Action {
            CedarExpr::Var(String::from_str("action"))
        } else if k == TokKind::Resource {
            CedarExpr::Var(String::from_str("resource"))
        } else {
            CedarExpr::Var(String::from_str("context"))
        };
        Ok((e, pos + 1))
    }

    /// `( e )`
    fn parse_paren(&self, pos: usize) -> (r: Result<(CedarExpr, usize), CedarParseError>)
        requires
            self.wf(),
            pos < self.tokens.len(),
            self.ts()[pos as int].kind == TokKind::LParen,
        ensures
            expr_ok(r, primary(self.ts(), pos as int), pos, self.tokens@.len()),
        decreases self.tokens@.len() - pos, 3nat,
    {
        proof {
            lemma_wf_next(self.ts(), pos as int);
        }
        let (e, p1) = match self.parse_expr(pos + 1) {
            Ok(x) => x,
            Err(er) => return Err(er),
        };
        let p2 = match self.expect(p1, TokKind::RParen) {
            Ok(x) => x,
            Err(er) => return Err(er),
        };
        Ok((e, p2))
    }

    /// `[a, b, ...]`
    fn parse_set_literal(&self, pos: usize) -> (r: Result<(CedarExpr, usize), CedarParseError>)
        requires
            self.wf(),
            pos < self.tokens.len(),
            self.ts()[pos as int].kind == TokKind::LBracket,
        ensures
            expr_ok(r, set_literal(self.ts(), pos as int), pos, self.tokens@.len()),
        decreases self.tokens@.len() - pos, 3nat,
    {
        let ghost ts = self.ts();
        proof {
            lemma_wf_next(ts, pos as int);
        }
        let empty = self.tokens[pos + 1].kind == TokKind::RBracket;
        proof {
            if empty {
                lemma_set_literal_empty(ts, pos as int);
                lemma_expr_list_empty(ts, pos + 1);
            } else {
                lemma_set_literal_items(ts, pos as int);
            }
        }
        let (items, p1) = match self.parse_expr_list(pos + 1) {
            Ok(x) => x,
            Err(er) => return Err(er),
        };
        let p2 = match self.expect(p1, TokKind::RBracket) {
            Ok(x) => x,
            Err(er) => return Err(er),
        };
        Ok((CedarExpr::SetLiteral(items), p2))
    }

    /// `{key: value, ...}`
    fn parse_record_literal(&self, pos: usize) -> (r: Result<(CedarExpr, usize), CedarParseError>)
        requires
            self.wf(),
            pos < self.tokens.len(),
            self.ts()[pos as int].kind == TokKind::LBrace,
        ensures
            expr_ok(r, record_literal(self.ts(), pos as int), pos, self.tokens@.len()),
        decreases self.tokens@.len() - pos, 3nat,
    {
        let ghost ts = self.ts();
        proof {
            lemma_wf_next(ts, pos as int);
        }
        if self.tokens[pos + 1].kind == TokKind::RBrace {
            let v = empty_fields();
            proof {
                lemma_wf_next(ts, pos + 1);
                lemma_record_literal(ts, pos as int);
            }
            return Ok((CedarExpr::Record(v), pos + 2));
        }
        proof {
            lemma_record_literal(ts, pos as int);
        }
        let (fields, p1) = match self.parse_record_fields(pos + 1) {
            Ok(x) => x,
            Err(er) => return Err(er),
        };
        let p2 = match self.expect(p1, TokKind::RBrace) {
            Ok(x) => x,
            Err(er) => return Err(er),
        };
        Ok((CedarExpr::Record(fields), p2))
    }

    /// An identifier: a variable, an extension function call, or the start of
    /// an entity reference or namespaced call.
    fn parse_ident_expr(&self, pos: usize) -> (r: Result<(CedarExpr, usize), CedarParseError>)
        requires
            self.wf(),
            pos < self.tokens.len(),
            self.ts()[pos as int].kind == TokKind::Ident,
        ensures
            expr_ok(r, primary(self.ts(), pos as int), pos, self.tokens@.len()),
        decreases self.tokens@.len() - pos, 3nat,
    {
        let ghost ts = self.ts();
        proof {
            lemma_wf_next(ts, pos as int);
        }
        let name = self.tokens[pos].text.clone();
        let q = pos + 1;
        if self.tokens[q].kind == TokKind::ColonColon {
            let mut path: Vec<String> = Vec::new();
            path.push(name);
            assert(strings_view(path@) =~= seq![ts[pos as int].text]);
            self.parse_ident_path(q, path)
        } else if self.tokens[q].kind == TokKind::LParen {
            proof {
                lemma_wf_next(ts, q as int);
            }
            let (args, p1) = match self.parse_expr_list(q + 1) {
                Ok(x) => x,
                Err(er) => return Err(er),
            };
            let p2 = match self.expect(p1, TokKind::RParen) {
                Ok(x) => x,
                Err(er) => return Err(er),
            };
            Ok((CedarExpr::ExtFun(name, args), p2))
        } else {
            Ok((CedarExpr::Var(name), q))
        }
    }

    /// The fields of a record literal, from its first key on.
    fn parse_record_fields(&self, pos: usize) -> (r: Result<
        (Vec<(String, CedarExpr)>, usize),
        CedarParseError,
    >)
        requires
            self.wf(),
            pos < self.tokens.len(),
        ensures
            match r {
                Ok((v, p)) => record_fields(self.ts(), pos as int, Seq::empty()) == Ok::<
                    (Seq<(Seq<char>, SExpr)>, int),
                    SError,
                >((fields_of(v@), p as int)) && pos < p < self.tokens.len(),
                Err(e) => record_fields(self.ts(), pos as int, Seq::empty()) == Err::<
                    (Seq<(Seq<char>, SExpr)>, int),
                    SError,
                >(e@),
            },
        decreases self.tokens@.len() - pos, 22nat,
    {
        let ghost ts = self.ts();
        let mut fields: Vec<(String, CedarExpr)> = Vec::new();
        assert(fields_of(fields@) =~= Seq::<(Seq<char>, SExpr)>::empty());
        let mut p = pos;
        loop
            invariant
                self.wf(),
                ts == self.ts(),
                pos <= p < self.tokens.len(),
                record_fields(ts, pos as int, Seq::empty()) == record_fields(
                    ts,
                    p as int,
                    fields_of(fields@),
                ),
            decreases self.tokens@.len() - p,
        {
            let tk = self.tokens[p].kind;
            if !(tk == TokKind::Ident || tk == TokKind::Str) {
                return Err(self.err(p, String::from_str("Expected field name in record")));
            }
            let key = self.tokens[p].text.clone();
            proof {
                lemma_wf_next(ts, p as int);
            }
            let p1 = match self.expect(p + 1, TokKind::Colon) {
                Ok(x) => x,
                Err(er) => return Err(er),
            };
            let (v, p2) = match self.parse_expr(p1) {
                Ok(x) => x,
                Err(er) => return Err(er),
            };
            proof {
                lemma_fields_of_push(fields@, (key, v));
            }
            fields.push((key, v));
            if self.tokens[p2].kind != TokKind::Comma {
                return Ok((fields, p2));
            }
            proof {
                lemma_wf_next(ts, p2 as int);
            }
            p = p2 + 1;
        }
    }

    /// After an identifier, at `::`: an entity reference or a namespaced call.
    #[verifier::rlimit(40)]
    #[verifier::spinoff_prover]
    fn parse_ident_path(&self, pos: usize, start: Vec<String>) -> (r: Result<
        (CedarExpr, usize),
        CedarParseError,
    >)
        requires
            self.wf(),
            pos < self.tokens.len(),
        ensures
            expr_ok(r, ident_path(self.ts(), pos as int, strings_view(start@)), pos, self.tokens@.len()),
        decreases self.tokens@.len() - pos, 4nat,
    {
        let ghost ts = self.ts();
        let ghost path0 = strings_view(start@);
        let mut path = start;
        let mut p = pos;
        loop
            invariant
                self.wf(),
                ts == self.ts(),
                path0 == strings_view(start@),
                pos <= p < self.tokens.len(),
                ident_path(ts, pos as int, path0) == ident_path(ts, p as int, strings_view(path@)),
            decreases self.tokens@.len() - p,
        {
            let pk = self.tokens[p].kind;
            if pk == TokKind::ColonColon {
                proof {
                    lemma_wf_next(ts, p as int);
                }
                let q2 = p + 1;
                let tk = self.tokens[q2].kind;
                if tk == TokKind::Str {
                    proof {
                        lemma_wf_next(ts, q2 as int);
                    }
                    let id = self.tokens[q2].text.clone();
                    return Ok((CedarExpr::Entity(CedarEntityRef { path, id }), q2 + 1));
                } else if tk == TokKind::Ident {
                    proof {
                        lemma_wf_next(ts, q2 as int);
                    }
                    let s = self.tokens[q2].text.clone();
                    if self.tokens[q2 + 1].kind == TokKind::LParen {
                        let mut f = join_strings(&path, "::");
                        f.append("::");
                        f.append(s.as_str());
                        proof {
                            lemma_wf_next(ts, q2 + 1);
                        }
                        let (args, p1) = match self.parse_expr_list(q2 + 2) {
                            Ok(x) => x,
                            Err(er) => return Err(er),
                        };
                        let p2 = match self.expect(p1, TokKind::RParen) {
                            Ok(x) => x,
                            Err(er) => return Err(er),
                        };
                        return Ok((CedarExpr::ExtFun(f, args), p2));
                    }
                    let ghost before = path@;
                    path.push(s);
                    assert(strings_view(path@) =~= strings_view(before).push(ts[q2 as int].text));
                    p = q2 + 1;
                } else {
                    return Err(
                        self.err(q2, String::from_str("Expected identifier or string after '::'")),
                    );
                }
            } else if pk == TokKind::LParen {
                let f = join_strings(&path, "::");
                proof {
                    lemma_wf_next(ts, p as int);
                }
                let (args, p1) = match self.parse_expr_list(p + 1) {
                    Ok(x) => x,
                    Err(er) => return Err(er),
                };
                let p2 = match self.expect(p1, TokKind::RParen) {
                    Ok(x) => x,
                    Err(er) => return Err(er),
                };
                return Ok((CedarExpr::ExtFun(f, args), p2));
            } else {
                let mut m = String::from_str("Unexpected path ");
                let d = strs_debug_of(&path);
                m.append(d.as_str());
                m.append(" without entity ID");
                return Err(self.err(p, m));
            }
        }
    }

    fn parse_path_string(&self, pos: usize) -> (r: Result<(String, usize), CedarParseError>)
        requires
            self.wf(),
            pos < self.tokens.len(),
        ensures
            str_ok(r, path_string(self.ts(), pos as int), pos, self.tokens@.len()),
    {
        let (mut path, p1) = match self.expect_ident(pos) {
            Ok(x) => x,
            Err(e) => return Err(e),
        };
        let mut p = p1;
        loop
            invariant
                self.wf(),
                pos < p < self.tokens.len(),
                path_string(self.ts(), pos as int) == path_string_tail(self.ts(), p as int, path@),
            decreases self.tokens@.len() - p,
        {
            if self.tokens[p].kind != TokKind::ColonColon {
                return Ok((path, p));
            }
            proof {
                lemma_wf_next(self.ts(), p as int);
            }
            if self.tokens[p + 1].kind == TokKind::Ident {
                proof {
                    lemma_wf_next(self.ts(), p + 1);
                }
                path.append("::");
                path.append(self.tokens[p + 1].text.as_str());
                p = p + 2;
            } else {
                return Ok((path, p + 1));
            }
        }
    }

    fn parse_entity_ref(&self, pos: usize) -> (r: Result<(CedarEntityRef, usize), CedarParseError>)
        requires
            self.wf(),
            pos < self.tokens.len(),
        ensures
            entity_ok(r, entity_ref(self.ts(), pos as int), pos, self.tokens@.len()),
    {
        let ghost ts = self.ts();
        let (first, p1) = match self.expect_ident(pos) {
            Ok(x) => x,
            Err(e) => return Err(e),
        };
        let mut path: Vec<String> = Vec::new();
        path.push(first);
        assert(strings_view(path@) =~= seq![first@]);
        let mut p = p1;
        loop
            invariant
                self.wf(),
                ts == self.ts(),
                pos < p < self.tokens.len(),
                entity_ref(ts, pos as int) == entity_ref_tail(ts, p as int, strings_view(path@)),
            decreases self.tokens@.len() - p,
        {
            if self.tokens[p].kind != TokKind::ColonColon {
                let mut m = String::from_str(
                    "Expected entity reference (Type::\"id\"), got path ",
                );
                let d = strs_debug_of(&path);
                m.append(d.as_str());
                m.append(" without string ID");
                return Err(self.err(p, m));
            }
            proof {
                lemma_wf_next(ts, p as int);
            }
            let q = p + 1;
            let tk = self.tokens[q].kind;
            if tk == TokKind::Str {
                proof {
                    lemma_wf_next(ts, q as int);
                }
                let id = self.tokens[q].text.clone();
                return Ok((CedarEntityRef { path, id }, q + 1));
            } else if tk == TokKind::Ident {
                proof {
                    lemma_wf_next(ts, q as int);
                }
                let ghost before = path@;
                path.push(self.tokens[q].text.clone());
                assert(strings_view(path@) =~= strings_view(before).push(ts[q as int].text));
                p = q + 1;
            } else {
                return Err(
                    self.err(q, String::from_str("Expected identifier or string after '::'")),
                );
            }
        }
    }
}

} // verus!


verus! {

impl Parser {
    fn parse_annotations(&self, pos: usize) -> (r: Result<
        (Vec<CedarAnnotation>, usize),
        CedarParseError,
    >)
        requires
            self.wf(),
            pos < self.tokens.len(),
        ensures
            match r {
                Ok((v, p)) => annotations(self.ts(), pos as int, Seq::empty()) == Ok::<
                    (Seq<SAnnotation>, int),
                    SError,
                >((annotations_view(v@), p as int)) && pos <= p < self.tokens.len(),
                Err(e) => annotations(self.ts(), pos as int, Seq::empty()) == Err::<
                    (Seq<SAnnotation>, int),
                    SError,
                >(e@),
            },
    {
        let ghost ts = self.ts();
        let mut annots: Vec<CedarAnnotation> = Vec::new();
        assert(annotations_view(annots@) =~= Seq::<SAnnotation>::empty());
        let mut p = pos;
        loop
            invariant
                self.wf(),
                ts == self.ts(),
                pos <= p < self.tokens.len(),
                annotations(ts, pos as int, Seq::empty()) == annotations(
                    ts,
                    p as int,
                    annotations_view(annots@),
                ),
            decreases self.tokens@.len() - p,
        {
            if self.tokens[p].kind != TokKind::At {
                return Ok((annots, p));
            }
            proof {
                lemma_wf_next(ts, p as int);
            }
            let (key, p1) = match self.expect_ident(p + 1) {
                Ok(x) => x,
                Err(e) => return Err(e),
            };
            let (value, p_next) = if self.tokens[p1].kind == TokKind::LParen {
                proof {
                    lemma_wf_next(ts, p1 as int);
                }
                let (v, p2) = match self.expect_str(p1 + 1) {
                    Ok(x) => x,
                    Err(e) => return Err(e),
                };
                let p3 = match self.expect(p2, TokKind::RParen) {
                    Ok(x) => x,
                    Err(e) => return Err(e),
                };
                (Some(v), p3)
            } else {
                (None, p1)
            };
            let ghost before = annots@;
            annots.push(CedarAnnotation { key, value });
            assert(annotations_view(annots@) =~= annotations_view(before).push(annots@.last()@));
            p = p_next;
        }
    }

    fn parse_effect(&self, pos: usize) -> (r: Result<(CedarEffect, usize), CedarParseError>)
        requires
            self.wf(),
            pos < self.tokens.len(),
        ensures
            match r {
                Ok((e, p)) => effect(self.ts(), pos as int) == Ok::<(CedarEffect, int), SError>(
                    (e, p as int),
                ) && p == pos + 1 && p < self.tokens.len(),
                Err(e) => effect(self.ts(), pos as int) == Err::<(CedarEffect, int), SError>(e@),
            },
    {
        let k = self.tokens[pos].kind;
        if k == TokKind::Permit || k == TokKind::Forbid {
            proof {
                lemma_wf_next(self.ts(), pos as int);
            }
            let e = if k == TokKind::Permit {
                CedarEffect::Permit
            } else {
                CedarEffect::Forbid
            };
            Ok((e, pos + 1))
        } else {
            Err(self.err(pos, String::from_str("Expected 'permit' or 'forbid'")))
        }
    }

    fn parse_entity_constraint(&self, pos: usize, slot_name: &str) -> (r: Result<
        (CedarScopeConstraint, usize),
        CedarParseError,
    >)
        requires
            self.wf(),
            pos < self.tokens.len(),
        ensures
            scope_constraint_ok(
                r,
                entity_constraint(self.ts(), pos as int, slot_name@),
                pos,
                self.tokens@.len(),
            ),
    {
        let ghost ts = self.ts();
        let k = self.tokens[pos].kind;
        if k == TokKind::Eq || k == TokKind::In {
            proof {
                lemma_wf_next(ts, pos as int);
            }
            let q = pos + 1;
            let qk = self.tokens[q].kind;
            if qk == TokKind::SlotPrincipal || qk == TokKind::SlotResource {
                proof {
                    lemma_wf_next(ts, q as int);
                }
                let mut slot = String::from_str("?");
                slot.append(slot_name);
                return Ok((CedarScopeConstraint::Slot(slot), q + 1));
            }
            let (entity, p2) = match self.parse_entity_ref(q) {
                Ok(x) => x,
                Err(e) => return Err(e),
            };
            if k == TokKind::Eq {
                Ok((CedarScopeConstraint::Eq(entity), p2))
            } else {
                Ok((CedarScopeConstraint::In(entity), p2))
            }
        } else if k == TokKind::Is {
            proof {
                lemma_wf_next(ts, pos as int);
            }
            let (type_path, p2) = match self.parse_path_string(pos + 1) {
                Ok(x) => x,
                Err(e) => return Err(e),
            };
            if self.tokens[p2].kind == TokKind::In {
                proof {
                    lemma_wf_next(ts, p2 as int);
                }
                let (entity, p3) = match self.parse_entity_ref(p2 + 1) {
                    Ok(x) => x,
                    Err(e) => return Err(e),
                };
                Ok((CedarScopeConstraint::IsIn(type_path, entity), p3))
            } else {
                Ok((CedarScopeConstraint::Is(type_path), p2))
            }
        } else {
            Ok((CedarScopeConstraint::Any, pos))
        }
    }

    fn parse_principal_constraint(&self, pos: usize) -> (r: Result<
        (CedarScopeConstraint, usize),
        CedarParseError,
    >)
        requires
            self.wf(),
            pos < self.tokens.len(),
        ensures
            scope_constraint_ok(r, principal_constraint(self.ts(), pos as int), pos, self.tokens@.len()),
    {
        let p1 = match self.expect(pos, TokKind::Principal) {
            Ok(x) => x,
            Err(e) => return Err(e),
        };
        self.parse_entity_constraint(p1, "principal")
    }

    fn parse_resource_constraint(&self, pos: usize) -> (r: Result<
        (CedarScopeConstraint, usize),
        CedarParseError,
    >)
        requires
            self.wf(),
            pos < self.tokens.len(),
        ensures
            scope_constraint_ok(r, resource_constraint(self.ts(), pos as int), pos, self.tokens@.len()),
    {
        let p1 = match self.expect(pos, TokKind::Resource) {
            Ok(x) => x,
            Err(e) => return Err(e),
        };
        self.parse_entity_constraint(p1, "resource")
    }

    fn parse_action_constraint(&self, pos: usize) -> (r: Result<
        (CedarActionConstraint, usize),
        CedarParseError,
    >)
        requires
            self.wf(),
            pos < self.tokens.len(),
        ensures
            match r {
                Ok((c, p)) => action_constraint(self.ts(), pos as int) == Ok::<
                    (SActionConstraint, int),
                    SError,
                >((c@, p as int)) && pos < p < self.tokens.len(),
                Err(e) => action_constraint(self.ts(), pos as int) == Err::<
                    (SActionConstraint, int),
                    SError,
                >(e@),
            },
    {
        let ghost ts = self.ts();
        let p1 = match self.expect(pos, TokKind::Action) {
            Ok(x) => x,
            Err(e) => return Err(e),
        };
        let k = self.tokens[p1].kind;
        if k == TokKind::Eq {
            proof {
                lemma_wf_next(ts, p1 as int);
            }
            let (entity, p2) = match self.parse_entity_ref(p1 + 1) {
                Ok(x) => x,
                Err(e) => return Err(e),
            };
            return Ok((CedarActionConstraint::Eq(entity), p2));
        }
        if k != TokKind::In {
            return Ok((CedarActionConstraint::Any, p1));
        }
        proof {
            lemma_wf_next(ts, p1 as int);
        }
        let q = p1 + 1;
        if self.tokens[q].kind != TokKind::LBracket {
            let (entity, p2) = match self.parse_entity_ref(q) {
                Ok(x) => x,
                Err(e) => return Err(e),
            };
            return Ok((CedarActionConstraint::In(entity), p2));
        }
        proof {
            lemma_wf_next(ts, q as int);
        }
        let (entities, p3) = match self.parse_entity_list(q + 1) {
            Ok(x) => x,
            Err(e) => return Err(e),
        };
        let p4 = match self.expect(p3, TokKind::RBracket) {
            Ok(x) => x,
            Err(e) => return Err(e),
        };
        Ok((CedarActionConstraint::InList(entities), p4))
    }

    /// The entities of an action list, up to its closing bracket.
    fn parse_entity_list(&self, pos: usize) -> (r: Result<
        (Vec<CedarEntityRef>, usize),
        CedarParseError,
    >)
        requires
            self.wf(),
            pos < self.tokens.len(),
        ensures
            ({
                let s: Result<(Seq<SEntityRef>, int), SError> = if self.ts()[pos as int].kind
                    != TokKind::RBracket {
                    match entity_ref(self.ts(), pos as int) {
                        Err(e) => Err(e),
                        Ok((en, p2)) => entity_list_tail(self.ts(), p2, seq![en]),
                    }
                } else {
                    Ok((Seq::empty(), pos as int))
                };
                match r {
                    Ok((v, p)) => s == Ok::<(Seq<SEntityRef>, int), SError>(
                        (entities_view(v@), p as int),
                    ) && pos <= p < self.tokens.len(),
                    Err(e) => s == Err::<(Seq<SEntityRef>, int), SError>(e@),
                }
            }),
    {
        let ghost ts = self.ts();
        let mut entities: Vec<CedarEntityRef> = Vec::new();
        assert(entities_view(entities@) =~= Seq::<SEntityRef>::empty());
        if self.tokens[pos].kind == TokKind::RBracket {
            return Ok((entities, pos));
        }
        let (first, p1) = match self.parse_entity_ref(pos) {
            Ok(x) => x,
            Err(e) => return Err(e),
        };
        entities.push(first);
        assert(entities_view(entities@) =~= seq![entities@[0]@]);
        self.parse_entity_list_tail(p1, entities)
    }

    /// More entity references of an action list, each after a comma.
    fn parse_entity_list_tail(&self, pos: usize, start: Vec<CedarEntityRef>) -> (r: Result<
        (Vec<CedarEntityRef>, usize),
        CedarParseError,
    >)
        requires
            self.wf(),
            pos < self.tokens.len(),
        ensures
            match r {
                Ok((v, p)) => entity_list_tail(self.ts(), pos as int, entities_view(start@)) == Ok::<
                    (Seq<SEntityRef>, int),
                    SError,
                >((entities_view(v@), p as int)) && pos <= p < self.tokens.len(),
                Err(e) => entity_list_tail(self.ts(), pos as int, entities_view(start@)) == Err::<
                    (Seq<SEntityRef>, int),
                    SError,
                >(e@),
            },
    {
        let ghost ts = self.ts();
        let ghost target = entity_list_tail(ts, pos as int, entities_view(start@));
        let mut entities = start;
        let mut p = pos;
        loop
            invariant
                self.wf(),
                ts == self.ts(),
                pos <= p < self.tokens.len(),
                target == entity_list_tail(ts, pos as int, entities_view(start@)),
                target == entity_list_tail(ts, p as int, entities_view(entities@)),
            decreases self.tokens@.len() - p,
        {
            if self.tokens[p].kind != TokKind::Comma {
                return Ok((entities, p));
            }
            proof {
                lemma_wf_next(ts, p as int);
            }
            let (e, p2) = match self.parse_entity_ref(p + 1) {
                Ok(x) => x,
                Err(er) => return Err(er),
            };
            let ghost before = entities@;
            entities.push(e);
            assert(entities_view(entities@) =~= entities_view(before).push(entities@.last()@));
            p = p2;
        }
    }

    fn parse_scope(&self, pos: usize) -> (r: Result<(CedarScope, usize), CedarParseError>)
        requires
            self.wf(),
            pos < self.tokens.len(),
        ensures
            match r {
                Ok((s, p)) => scope(self.ts(), pos as int) == Ok::<(SScope, int), SError>(
                    (s@, p as int),
                ) && pos < p < self.tokens.len(),
                Err(e) => scope(self.ts(), pos as int) == Err::<(SScope, int), SError>(e@),
            },
    {
        let (principal, p1) = match self.parse_principal_constraint(pos) {
            Ok(x) => x,
            Err(e) => return Err(e),
        };
        let p2 = match self.expect(p1, TokKind::Comma) {
            Ok(x) => x,
            Err(e) => return Err(e),
        };
        let (action, p3) = match self.parse_action_constraint(p2) {
            Ok(x) => x,
            Err(e) => return Err(e),
        };
        let p4 = match self.expect(p3, TokKind::Comma) {
            Ok(x) => x,
            Err(e) => return Err(e),
        };
        let (resource, p5) = match self.parse_resource_constraint(p4) {
            Ok(x) => x,
            Err(e) => return Err(e),
        };
        Ok((CedarScope { principal, action, resource }, p5))
    }

    fn parse_conditions(&self, pos: usize) -> (r: Result<
        (Vec<CedarCondition>, usize),
        CedarParseError,
    >)
        requires
            self.wf(),
            pos < self.tokens.len(),
        ensures
            match r {
                Ok((v, p)) => conditions(self.ts(), pos as int, Seq::empty()) == Ok::<
                    (Seq<SCondition>, int),
                    SError,
                >((conditions_view(v@), p as int)) && pos <= p < self.tokens.len(),
                Err(e) => conditions(self.ts(), pos as int, Seq::empty()) == Err::<
                    (Seq<SCondition>, int),
                    SError,
                >(e@),
            },
    {
        let ghost ts = self.ts();
        let mut conds: Vec<CedarCondition> = Vec::new();
        assert(conditions_view(conds@) =~= Seq::<SCondition>::empty());
        let mut p = pos;
        loop
            invariant
                self.wf(),
                ts == self.ts(),
                pos <= p < self.tokens.len(),
                conditions(ts, pos as int, Seq::empty()) == conditions(
                    ts,
                    p as int,
                    conditions_view(conds@),
                ),
            decreases self.tokens@.len() - p,
        {
            let k = self.tokens[p].kind;
            if !(k == TokKind::When || k == TokKind::Unless) {
                return Ok((conds, p));
            }
            proof {
                lemma_wf_next(ts, p as int);
            }
            let p1 = match self.expect(p + 1, TokKind::LBrace) {
                Ok(x) => x,
                Err(e) => return Err(e),
            };
            let (expr, p2) = match self.parse_expr(p1) {
                Ok(x) => x,
                Err(e) => return Err(e),
            };
            let p3 = match self.expect(p2, TokKind::RBrace) {
                Ok(x) => x,
                Err(e) => return Err(e),
            };
            let ghost before = conds@;
            conds.push(CedarCondition { is_when: k == TokKind::When, expr });
            assert(conditions_view(conds@) =~= conditions_view(before).push(conds@.last()@));
            p = p3;
        }
    }

    fn parse_policy(&self, pos: usize) -> (r: Result<(CedarPolicy, usize), CedarParseError>)
        requires
            self.wf(),
            pos < self.tokens.len(),
        ensures
            match r {
                Ok((pol, p)) => policy(self.ts(), pos as int) == Ok::<(SPolicy, int), SError>(
                    (pol@, p as int),
                ) && pos < p < self.tokens.len(),
                Err(e) => policy(self.ts(), pos as int) == Err::<(SPolicy, int), SError>(e@),
            },
    {
        let (annotations, p1) = match self.parse_annotations(pos) {
            Ok(x) => x,
            Err(e) => return Err(e),
        };
        let (effect, p2) = match self.parse_effect(p1) {
            Ok(x) => x,
            Err(e) => return Err(e),
        };
        let p3 = match self.expect(p2, TokKind::LParen) {
            Ok(x) => x,
            Err(e) => return Err(e),
        };
        let (scope, p4) = match self.parse_scope(p3) {
            Ok(x) => x,
            Err(e) => return Err(e),
        };
        let p5 = match self.expect(p4, TokKind::RParen) {
            Ok(x) => x,
            Err(e) => return Err(e),
        };
        let (conditions, p6) = match self.parse_conditions(p5) {
            Ok(x) => x,
            Err(e) => return Err(e),
        };
        let p7 = match self.expect(p6, TokKind::Semi) {
            Ok(x) => x,
            Err(e) => return Err(e),
        };
        Ok((CedarPolicy { annotations, effect, scope, conditions }, p7))
    }

    fn parse_policy_set(&self) -> (r: Result<CedarPolicySet, CedarParseError>)
        requires
            self.wf(),
        ensures
            match r {
                Ok(ps) => parse_tokens(self.ts()) == Ok::<Seq<SPolicy>, SError>(ps@),
                Err(e) => parse_tokens(self.ts()) == Err::<Seq<SPolicy>, SError>(e@),
            },
    {
        let ghost ts = self.ts();
        let mut list: Vec<CedarPolicy> = Vec::new();
        assert(policies_view(list@) =~= Seq::<SPolicy>::empty());
        let mut p: usize = 0;
        loop
            invariant
                self.wf(),
                ts == self.ts(),
                p < self.tokens.len(),
                parse_tokens(ts) == policies(ts, p as int, policies_view(list@)),
            decreases self.tokens@.len() - p,
        {
            if self.tokens[p].kind == TokKind::Eof {
                return Ok(CedarPolicySet { policies: list });
            }
            let (pol, p1) = match self.parse_policy(p) {
                Ok(x) => x,
                Err(e) => return Err(e),
            };
            let ghost before = list@;
            list.push(pol);
            assert(policies_view(list@) =~= policies_view(before).push(list@.last()@));
            p = p1;
        }
    }
}

/// Parses Cedar source into a policy set, stopping at the first error.
pub fn parse(source: &str) -> (r: Result<CedarPolicySet, CedarParseError>)
    requires
        source@.len() < usize::MAX,
    ensures
        match r {
            Ok(ps) => parse_spec(source@) == Ok::<Seq<SPolicy>, SError>(ps@),
            Err(e) => parse_spec(source@) == Err::<Seq<SPolicy>, SError>(e@),
        },
{
    let tokens = match tokenize(source) {
        Ok(t) => t,
        Err(e) => return Err(e),
    };
    let parser = Parser { tokens };
    parser.parse_policy_set()
}

} // verus!
