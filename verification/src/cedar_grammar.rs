//! The Cedar grammar's syntax tree and its conversion to the Cedar AST of
//! `cedar_parser`.
pub mod grammar;

use vstd::prelude::*;
use crate::cedar_grammar::grammar::{
    PolicySet, Policy, Annotation, Effect, Scope, PrincipalScope, ActionScope, ResourceScope,
    ScopeConstraint, ActionConstraint, EntityRef, Condition, Expr, RelOp, RecordField,
};
use crate::cedar_parser::{
    CedarPolicySet, CedarPolicy, CedarAnnotation, CedarEffect, CedarScope, CedarScopeConstraint,
    CedarActionConstraint, CedarEntityRef, CedarCondition, CedarExpr, CedarRelOp, CedarAddOp,
    SEntityRef, SScopeConstraint, SActionConstraint, SScope, SAnnotation, SCondition, SPolicy,
    SExpr, exprs_of, fields_of, entities_view, annotations_view, conditions_view, policies_view,
    lemma_exprs_of_push, lemma_fields_of_push,
};
use crate::text::{strip_quotes, unquoted, split_double_colon, split_path};

verus! {

// ----------------------------------------------------------------------------
// What each conversion yields
// ----------------------------------------------------------------------------

pub open spec fn entity_ref_ast(e: EntityRef) -> SEntityRef {
    SEntityRef { path: split_path(e.path@), id: unquoted(e.id@) }
}

pub open spec fn entities_ast(es: Seq<EntityRef>) -> Seq<SEntityRef> {
    es.map_values(|e: EntityRef| entity_ref_ast(e))
}

pub open spec fn scope_constraint_ast(c: Option<ScopeConstraint>) -> SScopeConstraint {
    match c {
        None => SScopeConstraint::Any,
        Some(ScopeConstraint::Eq(_, e)) => SScopeConstraint::Eq(entity_ref_ast(e)),
        Some(ScopeConstraint::In(_, e)) => SScopeConstraint::In(entity_ref_ast(e)),
    }
}

pub open spec fn action_constraint_ast(c: Option<ActionConstraint>) -> SActionConstraint {
    match c {
        None => SActionConstraint::Any,
        Some(ActionConstraint::Eq(_, e)) => SActionConstraint::Eq(entity_ref_ast(e)),
        Some(ActionConstraint::In(_, e)) => SActionConstraint::In(entity_ref_ast(e)),
        Some(ActionConstraint::InList(_, _, es, _)) => SActionConstraint::InList(entities_ast(es@)),
    }
}

pub open spec fn effect_ast(e: Effect) -> CedarEffect {
    match e {
        Effect::Permit(_) => CedarEffect::Permit,
        Effect::Forbid(_) => CedarEffect::Forbid,
    }
}

pub open spec fn rel_op_ast(o: RelOp) -> CedarRelOp {
    match o {
        RelOp::Eq(_) => CedarRelOp::Eq,
        RelOp::Neq(_) => CedarRelOp::Neq,
        RelOp::Lt(_) => CedarRelOp::Lt,
        RelOp::Lte(_) => CedarRelOp::Lte,
        RelOp::Gt(_) => CedarRelOp::Gt,
        RelOp::Gte(_) => CedarRelOp::Gte,
    }
}

pub open spec fn annotation_ast(a: Annotation) -> SAnnotation {
    SAnnotation {
        key: a.key@,
        value: match a.value {
            Some(v) => Some(unquoted(v.value@)),
            None => None,
        },
    }
}

/// The expression a grammar expression stands for; groups disappear.
pub open spec fn expr_ast(e: Expr) -> SExpr
    decreases e, 0nat,
{
    match e {
        Expr::Or(l, _, r) => SExpr::Or(Box::new(expr_ast(*l)), Box::new(expr_ast(*r))),
        Expr::And(l, _, r) => SExpr::And(Box::new(expr_ast(*l)), Box::new(expr_ast(*r))),
        Expr::Relation(l, op, r) => SExpr::Relation(
            Box::new(expr_ast(*l)),
            rel_op_ast(op),
            Box::new(expr_ast(*r)),
        ),
        Expr::InExpr(l, _, r) => SExpr::InExpr(Box::new(expr_ast(*l)), Box::new(expr_ast(*r))),
        Expr::Has(x, _, f) => SExpr::Has(Box::new(expr_ast(*x)), f@),
        Expr::HasStr(x, _, f) => SExpr::Has(Box::new(expr_ast(*x)), unquoted(f@)),
        Expr::Like(x, _, p) => SExpr::Like(Box::new(expr_ast(*x)), unquoted(p@)),
        Expr::Add(l, _, r) => SExpr::Add(
            Box::new(expr_ast(*l)),
            CedarAddOp::Add,
            Box::new(expr_ast(*r)),
        ),
        Expr::Sub(l, _, r) => SExpr::Add(
            Box::new(expr_ast(*l)),
            CedarAddOp::Sub,
            Box::new(expr_ast(*r)),
        ),
        Expr::Mul(l, _, r) => SExpr::Mul(Box::new(expr_ast(*l)), Box::new(expr_ast(*r))),
        Expr::Not(_, x) => SExpr::Not(Box::new(expr_ast(*x))),
        Expr::Neg(_, x) => SExpr::Neg(Box::new(expr_ast(*x))),
        Expr::MemberAccess(x, _, f, call) => match call {
            None => SExpr::Access(Box::new(expr_ast(*x)), f@),
            Some(c) => SExpr::MethodCall(
                Box::new(expr_ast(*x)),
                f@,
                exprs_ast(c.args@, c.args@.len()),
            ),
        },
        Expr::IndexAccess(x, _, k, _) => SExpr::Index(Box::new(expr_ast(*x)), unquoted(k@)),
        Expr::IfThenElse(_, c, _, t, _, el) => SExpr::IfThenElse(
            Box::new(expr_ast(*c)),
            Box::new(expr_ast(*t)),
            Box::new(expr_ast(*el)),
        ),
        Expr::Group(_, x, _) => expr_ast(*x),
        Expr::Principal(_) => SExpr::Var("principal"@),
        Expr::Action(_) => SExpr::Var("action"@),
        Expr::Resource(_) => SExpr::Var("resource"@),
        Expr::Context(_) => SExpr::Var("context"@),
        Expr::True(_) => SExpr::Bool(true),
        Expr::False(_) => SExpr::Bool(false),
        Expr::IntLit(n) => SExpr::Int(n),
        Expr::StrLit(s) => SExpr::Str(unquoted(s@)),
        Expr::Ident(name) => SExpr::Var(name@),
        Expr::SetLit(_, es, _) => SExpr::SetLiteral(exprs_ast(es@, es@.len())),
        Expr::RecordLit(_, fs, _) => SExpr::Record(fields_ast(fs@, fs@.len())),
        Expr::FuncCall(name, _, args, _) => SExpr::ExtFun(name@, exprs_ast(args@, args@.len())),
    }
}

/// The expressions the first `n` of `es` stand for.
pub open spec fn exprs_ast(es: Seq<Expr>, n: nat) -> Seq<SExpr>
    decreases es, n,
{
    if n == 0 || n > es.len() {
        Seq::empty()
    } else {
        exprs_ast(es, (n - 1) as nat).push(expr_ast(es[n - 1]))
    }
}

/// The record fields the first `n` of `fs` stand for; keys lose their quotes.
pub open spec fn fields_ast(fs: Seq<RecordField>, n: nat) -> Seq<(Seq<char>, SExpr)>
    decreases fs, n,
{
    if n == 0 || n > fs.len() {
        Seq::empty()
    } else {
        fields_ast(fs, (n - 1) as nat).push((unquoted(fs[n - 1].key@), expr_ast(fs[n - 1].value)))
    }
}

pub open spec fn condition_ast(c: Condition) -> SCondition {
    match c {
        Condition::When(_, _, e, _) => SCondition { is_when: true, expr: expr_ast(e) },
        Condition::Unless(_, _, e, _) => SCondition { is_when: false, expr: expr_ast(e) },
    }
}

pub open spec fn policy_ast(p: Policy) -> SPolicy {
    SPolicy {
        annotations: p.annotations@.map_values(|a: Annotation| annotation_ast(a)),
        effect: effect_ast(p.effect),
        scope: SScope {
            principal: scope_constraint_ast(p.scope.principal.constraint),
            action: action_constraint_ast(p.scope.action.constraint),
            resource: scope_constraint_ast(p.scope.resource.constraint),
        },
        conditions: p.conditions@.map_values(|c: Condition| condition_ast(c)),
    }
}

proof fn lemma_exprs_ast(es: Seq<Expr>, n: nat)
    requires
        n <= es.len(),
    ensures
        exprs_ast(es, n).len() == n,
        forall|i: int| 0 <= i < n ==> #[trigger] exprs_ast(es, n)[i] == expr_ast(es[i]),
    decreases n,
{
    if n > 0 {
        lemma_exprs_ast(es, (n - 1) as nat);
    }
}

proof fn lemma_fields_ast(fs: Seq<RecordField>, n: nat)
    requires
        n <= fs.len(),
    ensures
        fields_ast(fs, n).len() == n,
        forall|i: int|
            0 <= i < n ==> #[trigger] fields_ast(fs, n)[i] == (
                unquoted(fs[i].key@),
                expr_ast(fs[i].value),
            ),
    decreases n,
{
    if n > 0 {
        lemma_fields_ast(fs, (n - 1) as nat);
    }
}

// ----------------------------------------------------------------------------
// Conversions
// ----------------------------------------------------------------------------

impl PolicySet {
    /// Converts to the canonical `CedarPolicySet`.
    pub fn to_ast(&self) -> (r: CedarPolicySet)
        ensures
            r@ == self.policies@.map_values(|p: Policy| policy_ast(p)),
    {
        let mut policies: Vec<CedarPolicy> = Vec::new();
        let mut i: usize = 0;
        while i < self.policies.len()
            invariant
                i <= self.policies.len(),
                policies_view(policies@) == self.policies@.take(i as int).map_values(
                    |p: Policy| policy_ast(p),
                ),
            decreases self.policies.len() - i,
        {
            let p = self.policies[i].to_ast();
            let ghost before = policies@;
            policies.push(p);
            assert(policies_view(policies@) =~= policies_view(before).push(p@));
            assert(self.policies@.take(i + 1) =~= self.policies@.take(i as int).push(
                self.policies@[i as int],
            ));
            i += 1;
        }
        assert(self.policies@.take(i as int) =~= self.policies@);
        CedarPolicySet { policies }
    }
}

impl Policy {
    pub fn to_ast(&self) -> (r: CedarPolicy)
        ensures
            r@ == policy_ast(*self),
    {
        let mut annotations: Vec<CedarAnnotation> = Vec::new();
        let mut i: usize = 0;
        while i < self.annotations.len()
            invariant
                i <= self.annotations.len(),
                annotations_view(annotations@) == self.annotations@.take(i as int).map_values(
                    |a: Annotation| annotation_ast(a),
                ),
            decreases self.annotations.len() - i,
        {
            let a = self.annotations[i].to_ast();
            let ghost before = annotations@;
            annotations.push(a);
            assert(annotations_view(annotations@) =~= annotations_view(before).push(a@));
            assert(self.annotations@.take(i + 1) =~= self.annotations@.take(i as int).push(
                self.annotations@[i as int],
            ));
            i += 1;
        }
        assert(self.annotations@.take(i as int) =~= self.annotations@);
        let mut conditions: Vec<CedarCondition> = Vec::new();
        let mut j: usize = 0;
        while j < self.conditions.len()
            invariant
                j <= self.conditions.len(),
                conditions_view(conditions@) == self.conditions@.take(j as int).map_values(
                    |c: Condition| condition_ast(c),
                ),
            decreases self.conditions.len() - j,
        {
            let c = self.conditions[j].to_ast();
            let ghost before = conditions@;
            conditions.push(c);
            assert(conditions_view(conditions@) =~= conditions_view(before).push(c@));
            assert(self.conditions@.take(j + 1) =~= self.conditions@.take(j as int).push(
                self.conditions@[j as int],
            ));
            j += 1;
        }
        assert(self.conditions@.take(j as int) =~= self.conditions@);
        CedarPolicy {
            annotations,
            effect: self.effect.to_ast(),
            scope: self.scope.to_ast(),
            conditions,
        }
    }
}

impl Annotation {
    pub fn to_ast(&self) -> (r: CedarAnnotation)
        ensures
            r@ == annotation_ast(*self),
    {
        let value = match &self.value {
            Some(v) => Some(strip_quotes(v.value.as_str())),
            None => None,
        };
        CedarAnnotation { key: self.key.clone(), value }
    }
}

impl Effect {
    pub fn to_ast(&self) -> (r: CedarEffect)
        ensures
            r == effect_ast(*self),
    {
        match self {
            Effect::Permit(_) => CedarEffect::Permit,
            Effect::Forbid(_) => CedarEffect::Forbid,
        }
    }
}

impl Scope {
    pub fn to_ast(&self) -> (r: CedarScope)
        ensures
            r@ == (SScope {
                principal: scope_constraint_ast(self.principal.constraint),
                action: action_constraint_ast(self.action.constraint),
                resource: scope_constraint_ast(self.resource.constraint),
            }),
    {
        CedarScope {
            principal: self.principal.to_ast(),
            action: self.action.to_ast(),
            resource: self.resource.to_ast(),
        }
    }
}

impl PrincipalScope {
    pub fn to_ast(&self) -> (r: CedarScopeConstraint)
        ensures
            r@ == scope_constraint_ast(self.constraint),
    {
        match &self.constraint {
            None => CedarScopeConstraint::Any,
            Some(c) => c.to_ast(),
        }
    }
}

impl ResourceScope {
    pub fn to_ast(&self) -> (r: CedarScopeConstraint)
        ensures
            r@ == scope_constraint_ast(self.constraint),
    {
        match &self.constraint {
            None => CedarScopeConstraint::Any,
            Some(c) => c.to_ast(),
        }
    }
}

impl ScopeConstraint {
    pub fn to_ast(&self) -> (r: CedarScopeConstraint)
        ensures
            r@ == scope_constraint_ast(Some(*self)),
    {
        match self {
            ScopeConstraint::Eq(_, e) => CedarScopeConstraint::Eq(e.to_entity_ref()),
            ScopeConstraint::In(_, e) => CedarScopeConstraint::In(e.to_entity_ref()),
        }
    }
}

impl ActionScope {
    pub fn to_ast(&self) -> (r: CedarActionConstraint)
        ensures
            r@ == action_constraint_ast(self.constraint),
    {
        match &self.constraint {
            None => CedarActionConstraint::Any,
            Some(c) => c.to_ast(),
        }
    }
}

impl ActionConstraint {
    pub fn to_ast(&self) -> (r: CedarActionConstraint)
        ensures
            r@ == action_constraint_ast(Some(*self)),
    {
        match self {
            ActionConstraint::Eq(_, e) => CedarActionConstraint::Eq(e.to_entity_ref()),
            ActionConstraint::In(_, e) => CedarActionConstraint::In(e.to_entity_ref()),
            ActionConstraint::InList(_, _, entities, _) => {
                let mut out: Vec<CedarEntityRef> = Vec::new();
                let mut i: usize = 0;
                while i < entities.len()
                    invariant
                        i <= entities.len(),
                        entities_view(out@) == entities_ast(entities@.take(i as int)),
                    decreases entities.len() - i,
                {
                    let e = entities[i].to_entity_ref();
                    let ghost before = out@;
                    out.push(e);
                    assert(entities_view(out@) =~= entities_view(before).push(e@));
                    assert(entities@.take(i + 1) =~= entities@.take(i as int).push(
                        entities@[i as int],
                    ));
                    i += 1;
                }
                assert(entities@.take(i as int) =~= entities@);
                CedarActionConstraint::InList(out)
            },
        }
    }
}

impl EntityRef {
    pub fn to_entity_ref(&self) -> (r: CedarEntityRef)
        ensures
            r@ == entity_ref_ast(*self),
    {
        CedarEntityRef {
            path: split_double_colon(self.path.as_str()),
            id: strip_quotes(self.id.as_str()),
        }
    }
}

impl Condition {
    pub fn to_ast(&self) -> (r: CedarCondition)
        ensures
            r@ == condition_ast(*self),
    {
        match self {
            Condition::When(_, _, expr, _) => CedarCondition { is_when: true, expr: expr.to_ast() },
            Condition::Unless(_, _, expr, _) => CedarCondition {
                is_when: false,
                expr: expr.to_ast(),
            },
        }
    }
}

impl RelOp {
    pub fn to_ast(&self) -> (r: CedarRelOp)
        ensures
            r == rel_op_ast(*self),
    {
        match self {
            RelOp::Eq(_) => CedarRelOp::Eq,
            RelOp::Neq(_) => CedarRelOp::Neq,
            RelOp::Lt(_) => CedarRelOp::Lt,
            RelOp::Lte(_) => CedarRelOp::Lte,
            RelOp::Gt(_) => CedarRelOp::Gt,
            RelOp::Gte(_) => CedarRelOp::Gte,
        }
    }
}

/// Converts a list of grammar expressions.
fn exprs_to_ast(es: &Vec<Expr>) -> (r: Vec<CedarExpr>)
    ensures
        exprs_of(r@) == exprs_ast(es@, es@.len()),
    decreases es, 0nat,
{
    let mut out: Vec<CedarExpr> = Vec::new();
    let mut i: usize = 0;
    proof {
        lemma_exprs_ast(es@, es@.len());
    }
    assert(exprs_of(out@) =~= Seq::<SExpr>::empty());
    while i < es.len()
        invariant
            i <= es.len(),
            exprs_of(out@) == es@.take(i as int).map_values(|e: Expr| expr_ast(e)),
        decreases es.len() - i,
    {
        proof {
            vstd::std_specs::vec::axiom_vec_index_decreases(*es, i as int);
            assert(decreases_to!(*es => es[i as int]));
        }
        let e = es[i].to_ast();
        proof {
            lemma_exprs_of_push(out@, e);
        }
        out.push(e);
        assert(es@.take(i + 1).map_values(|e: Expr| expr_ast(e)) =~= es@.take(i as int).map_values(
            |e: Expr| expr_ast(e),
        ).push(expr_ast(es@[i as int])));
        i += 1;
    }
    assert(es@.take(i as int).map_values(|e: Expr| expr_ast(e)) =~= exprs_ast(es@, es@.len()));
    out
}

/// Converts the fields of a record literal.
fn fields_to_ast(fs: &Vec<RecordField>) -> (r: Vec<(String, CedarExpr)>)
    ensures
        fields_of(r@) == fields_ast(fs@, fs@.len()),
    decreases fs, 0nat,
{
    let mut out: Vec<(String, CedarExpr)> = Vec::new();
    let mut i: usize = 0;
    proof {
        lemma_fields_ast(fs@, fs@.len());
    }
    assert(fields_of(out@) =~= Seq::<(Seq<char>, SExpr)>::empty());
    while i < fs.len()
        invariant
            i <= fs.len(),
            fields_of(out@) == fs@.take(i as int).map_values(
                |f: RecordField| (unquoted(f.key@), expr_ast(f.value)),
            ),
        decreases fs.len() - i,
    {
        proof {
            vstd::std_specs::vec::axiom_vec_index_decreases(*fs, i as int);
            assert(decreases_to!(*fs => fs[i as int]));
            assert(decreases_to!(fs[i as int] => fs[i as int].value));
        }
        let key = strip_quotes(fs[i].key.as_str());
        let v = fs[i].value.to_ast();
        proof {
            lemma_fields_of_push(out@, (key, v));
        }
        out.push((key, v));
        assert(fs@.take(i + 1).map_values(|f: RecordField| (unquoted(f.key@), expr_ast(f.value)))
            =~= fs@.take(i as int).map_values(
            |f: RecordField| (unquoted(f.key@), expr_ast(f.value)),
        ).push((unquoted(fs@[i as int].key@), expr_ast(fs@[i as int].value))));
        i += 1;
    }
    assert(fs@.take(i as int).map_values(|f: RecordField| (unquoted(f.key@), expr_ast(f.value)))
        =~= fields_ast(fs@, fs@.len()));
    out
}

impl Expr {
    /// Converts to the canonical `CedarExpr`.
    pub fn to_ast(&self) -> (r: CedarExpr)
        ensures
            r@ == expr_ast(*self),
        decreases *self, 1nat,
    {
        match self {
            Expr::Or(l, _, r) => CedarExpr::Or(Box::new(l.to_ast()), Box::new(r.to_ast())),
            Expr::And(l, _, r) => CedarExpr::And(Box::new(l.to_ast()), Box::new(r.to_ast())),
            Expr::Relation(l, op, r) => CedarExpr::Relation {
                lhs: Box::new(l.to_ast()),
                op: op.to_ast(),
                rhs: Box::new(r.to_ast()),
            },
            Expr::InExpr(l, _, r) => CedarExpr::InExpr {
                lhs: Box::new(l.to_ast()),
                rhs: Box::new(r.to_ast()),
            },
            Expr::Has(e, _, field) => CedarExpr::Has(Box::new(e.to_ast()), field.clone()),
            Expr::HasStr(e, _, field) => CedarExpr::Has(
                Box::new(e.to_ast()),
                strip_quotes(field.as_str()),
            ),
            Expr::Like(e, _, pattern) => CedarExpr::Like(
                Box::new(e.to_ast()),
                strip_quotes(pattern.as_str()),
            ),
            Expr::Add(l, _, r) => CedarExpr::Add(
                Box::new(l.to_ast()),
                CedarAddOp::Add,
                Box::new(r.to_ast()),
            ),
            Expr::Sub(l, _, r) => CedarExpr::Add(
                Box::new(l.to_ast()),
                CedarAddOp::Sub,
                Box::new(r.to_ast()),
            ),
            Expr::Mul(l, _, r) => CedarExpr::Mul(Box::new(l.to_ast()), Box::new(r.to_ast())),
            Expr::Not(_, e) => CedarExpr::Not(Box::new(e.to_ast())),
            Expr::Neg(_, e) => CedarExpr::Neg(Box::new(e.to_ast())),
            Expr::MemberAccess(e, _, field, call_args) => match call_args {
                None => CedarExpr::Access(Box::new(e.to_ast()), field.clone()),
                Some(args) => {
                    proof {
                        assert(decreases_to!(*self => (*self)->MemberAccess_3));
                        assert(decreases_to!((*self)->MemberAccess_3 => (*self)->MemberAccess_3->Some_0));
                        assert(decreases_to!((*self)->MemberAccess_3->Some_0 => (*self)->MemberAccess_3->Some_0.args));
                    }
                    CedarExpr::MethodCall(
                        Box::new(e.to_ast()),
                        field.clone(),
                        exprs_to_ast(&args.args),
                    )
                },
            },
            Expr::IndexAccess(e, _, key, _) => CedarExpr::Index(
                Box::new(e.to_ast()),
                strip_quotes(key.as_str()),
            ),
            Expr::IfThenElse(_, cond, _, then_e, _, else_e) => CedarExpr::IfThenElse {
                cond: Box::new(cond.to_ast()),
                then_expr: Box::new(then_e.to_ast()),
                else_expr: Box::new(else_e.to_ast()),
            },
            Expr::Group(_, e, _) => e.to_ast(),
            Expr::Principal(_) => CedarExpr::Var(String::from_str("principal")),
            Expr::Action(_) => CedarExpr::Var(String::from_str("action")),
            Expr::Resource(_) => CedarExpr::Var(String::from_str("resource")),
            Expr::Context(_) => CedarExpr::Var(String::from_str("context")),
            Expr::True(_) => CedarExpr::Bool(true),
            Expr::False(_) => CedarExpr::Bool(false),
            Expr::IntLit(n) => CedarExpr::Int(*n),
            Expr::StrLit(s) => CedarExpr::Str(strip_quotes(s.as_str())),
            Expr::Ident(name) => CedarExpr::Var(name.clone()),
            Expr::SetLit(_, elems, _) => {
                proof {
                    assert(decreases_to!(*self => (*self)->SetLit_1));
                }
                CedarExpr::SetLiteral(exprs_to_ast(elems))
            },
            Expr::RecordLit(_, fields, _) => {
                proof {
                    assert(decreases_to!(*self => (*self)->RecordLit_1));
                }
                CedarExpr::Record(fields_to_ast(fields))
            },
            Expr::FuncCall(name, _, args, _) => {
                proof {
                    assert(decreases_to!(*self => (*self)->FuncCall_2));
                }
                CedarExpr::ExtFun(name.clone(), exprs_to_ast(args))
            },
        }
    }
}

} // verus!
