//! The concrete syntax tree of a Cedar policy file, as its grammar produces it.
use vstd::prelude::*;

verus! {

/// Identifier token.
#[derive(Debug, Clone, Copy, PartialEq, Eq, Structural)]
pub struct CedarIdent;

/// String literal token (double-quoted).
#[derive(Debug, Clone, Copy, PartialEq, Eq, Structural)]
pub struct CedarString;

/// Integer literal token.
#[derive(Debug, Clone, Copy, PartialEq, Eq, Structural)]
pub struct CedarInt;

/// Entity type path token: `Type` or `Namespace::Type`.
#[derive(Debug, Clone, Copy, PartialEq, Eq, Structural)]
pub struct CedarPath;

/// Record key: identifier or string.
#[derive(Debug, Clone, Copy, PartialEq, Eq, Structural)]
pub struct CedarRecordKey;

/// A Cedar file is a list of policies.
#[derive(Debug)]
pub struct PolicySet {
    pub policies: Vec<Policy>,
}

/// A single Cedar policy: `@annot("v") permit(principal, action, resource) when { ... };`
#[derive(Debug)]
pub struct Policy {
    pub annotations: Vec<Annotation>,
    pub effect: Effect,
    pub scope: Scope,
    pub conditions: Vec<Condition>,
}

/// `@key("value")` annotation.
#[derive(Debug)]
pub struct Annotation {
    pub key: String,
    pub value: Option<AnnotationValue>,
}

/// The parenthesized value of an annotation, with its quotes.
#[derive(Debug)]
pub struct AnnotationValue {
    pub value: String,
}

/// permit | forbid
#[derive(Debug)]
pub enum Effect {
    Permit(()),
    Forbid(()),
}

/// `principal [constraint], action [constraint], resource [constraint]`
#[derive(Debug)]
pub struct Scope {
    pub principal: PrincipalScope,
    pub action: ActionScope,
    pub resource: ResourceScope,
}

/// `principal` with optional constraint.
#[derive(Debug)]
pub struct PrincipalScope {
    pub constraint: Option<ScopeConstraint>,
}

/// `action` with optional constraint.
#[derive(Debug)]
pub struct ActionScope {
    pub constraint: Option<ActionConstraint>,
}

/// `resource` with optional constraint.
#[derive(Debug)]
pub struct ResourceScope {
    pub constraint: Option<ScopeConstraint>,
}

/// `== Entity` or `in Entity` for principal/resource.
#[derive(Debug)]
pub enum ScopeConstraint {
    Eq((), EntityRef),
    In((), EntityRef),
}

/// `== Entity` or `in Entity` or `in [Entity, ...]` for action.
#[derive(Debug)]
pub enum ActionConstraint {
    Eq((), EntityRef),
    In((), EntityRef),
    InList((), (), Vec<EntityRef>, ()),
}

/// Entity reference: `Type::"id"` or `Namespace::Type::"id"`.
#[derive(Debug)]
pub struct EntityRef {
    /// Full type path including namespace: e.g. `Namespace::Type` or just `Type`
    pub path: String,
    /// The quoted id.
    pub id: String,
}

/// `when { expr }` or `unless { expr }`
#[derive(Debug)]
pub enum Condition {
    When((), (), Expr, ()),
    Unless((), (), Expr, ()),
}

/// Cedar expression with operator precedence.
#[derive(Debug)]
pub enum Expr {
    /// `a || b`
    Or(Box<Expr>, (), Box<Expr>),
    /// `a && b`
    And(Box<Expr>, (), Box<Expr>),
    /// `a == b`, `a != b`, `a < b`, etc.
    Relation(Box<Expr>, RelOp, Box<Expr>),
    /// `a in b`
    InExpr(Box<Expr>, (), Box<Expr>),
    /// `a has field`
    Has(Box<Expr>, (), String),
    /// `a has "field"`
    HasStr(Box<Expr>, (), String),
    /// `a like "pattern"`
    Like(Box<Expr>, (), String),
    /// `a + b`
    Add(Box<Expr>, (), Box<Expr>),
    /// `a - b`
    Sub(Box<Expr>, (), Box<Expr>),
    /// `a * b`
    Mul(Box<Expr>, (), Box<Expr>),
    /// `!expr`
    Not((), Box<Expr>),
    /// `-expr`
    Neg((), Box<Expr>),
    /// `expr.field` or `expr.method(args)`
    MemberAccess(Box<Expr>, (), String, Option<CallArgs>),
    /// `expr["key"]`
    IndexAccess(Box<Expr>, (), String, ()),
    /// `if cond then a else b`
    IfThenElse((), Box<Expr>, (), Box<Expr>, (), Box<Expr>),
    /// `(expr)`
    Group((), Box<Expr>, ()),
    Principal(()),
    Action(()),
    Resource(()),
    Context(()),
    True(()),
    False(()),
    /// Integer literal
    IntLit(i64),
    /// String literal, with its quotes
    StrLit(String),
    /// Identifier (function names, entity types, etc.)
    Ident(String),
    /// Set literal: `[expr, ...]`
    SetLit((), Vec<Expr>, ()),
    /// Record literal: `{ key: expr, ... }`
    RecordLit((), Vec<RecordField>, ()),
    /// Function call: `func(args)`
    FuncCall(String, (), Vec<Expr>, ()),
}

/// Relational operators.
#[derive(Debug)]
pub enum RelOp {
    Eq(()),
    Neq(()),
    Lt(()),
    Lte(()),
    Gt(()),
    Gte(()),
}

/// Call arguments: `(expr, ...)`
#[derive(Debug)]
pub struct CallArgs {
    pub args: Vec<Expr>,
}

/// Record field: `key: expr`
#[derive(Debug)]
pub struct RecordField {
    pub key: String,
    pub value: Expr,
}

} // verus!
