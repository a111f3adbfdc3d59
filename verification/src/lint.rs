//! Policy linter: detects common pitfalls in Karu programs.
//!
//! W001 (`forall-empty-vacuous`): a `forall` is vacuously true over an empty
//! collection. A `forall` counts as guarded when it stands in a conjunction
//! beside a condition on its source path, on a path that extends it, or on a
//! path it extends.
use vstd::prelude::*;
use crate::ast::{
    ExprAst, PathAst, PathSegmentAst, Program, RuleAst, SExprAst, expr_ast_view, exprs_of_ast,
    lemma_expr_asts_view, seg_ast_view,
};
use crate::cedar_syntax::join;
use crate::path::SegV;
use crate::text::{decimal, usize_to_string};

verus! {

/// A warning produced by the linter.
#[derive(Debug)]
pub struct LintWarning {
    /// Machine-readable code, e.g. "W001".
    pub code: &'static str,
    /// Human-readable message.
    pub message: String,
    /// Suggested fix description (for code actions).
    pub suggestion: Option<String>,
    /// Name of the rule that triggered this warning.
    pub rule_name: String,
    /// The source path in the forall (for precise positioning).
    pub forall_path: Option<String>,
}

/// The content of a warning.
pub struct SLintWarning {
    pub code: Seq<char>,
    pub message: Seq<char>,
    pub suggestion: Option<Seq<char>>,
    pub rule_name: Seq<char>,
    pub forall_path: Option<Seq<char>>,
}

impl View for LintWarning {
    type V = SLintWarning;

    open spec fn view(&self) -> SLintWarning {
        SLintWarning {
            code: self.code@,
            message: self.message@,
            suggestion: match self.suggestion {
                Some(s) => Some(s@),
                None => None,
            },
            rule_name: self.rule_name@,
            forall_path: match self.forall_path {
                Some(s) => Some(s@),
                None => None,
            },
        }
    }
}

pub open spec fn warnings_view(v: Seq<LintWarning>) -> Seq<SLintWarning> {
    v.map_values(|w: LintWarning| w@)
}

// ----------------------------------------------------------------------------
// What the linter reports
// ----------------------------------------------------------------------------

/// A path as the linter prints it: fields by name, indices and variables in brackets.
pub open spec fn lint_seg_text(s: SegV) -> Seq<char> {
    match s {
        SegV::Field(f) => f,
        SegV::Index(i) => "["@ + decimal(i as int) + "]"@,
        SegV::Variable(v) => "["@ + v + "]"@,
    }
}

pub open spec fn lint_path_text(p: Seq<SegV>) -> Seq<char> {
    join(p.map_values(|s: SegV| lint_seg_text(s)), "."@)
}

/// The W001 warning for a `forall` over `path` in rule `rule`.
pub open spec fn w001(path: Seq<SegV>, rule: Seq<char>) -> SLintWarning {
    let p = lint_path_text(path);
    SLintWarning {
        code: "W001"@,
        message: "forall over `"@ + p
            + "` is vacuously true when the collection is empty - this may unintentionally grant access"@,
        suggestion: Some("Add a guard: `has "@ + p + " and forall ...`"@),
        rule_name: rule,
        forall_path: Some(p),
    }
}

/// Whether `a` is a prefix of `b`.
pub open spec fn is_prefix(a: Seq<SegV>, b: Seq<SegV>) -> bool {
    a.len() <= b.len() && forall|i: int| 0 <= i < a.len() ==> a[i] == b[i]
}

/// The paths a condition refers to directly (not inside conjunctions,
/// disjunctions or quantifiers).
pub open spec fn referenced_paths(e: SExprAst) -> Seq<Seq<SegV>>
    decreases e,
{
    match e {
        SExprAst::Compare(left, _, _) => seq![left],
        SExprAst::In(_, path) => seq![path],
        SExprAst::InLiteral(path, _) => seq![path],
        SExprAst::Has(path) => seq![path],
        SExprAst::Like(path, _) => seq![path],
        SExprAst::Not(inner) => referenced_paths(*inner),
        _ => Seq::empty(),
    }
}

/// Whether some condition of `es` other than the one at `skip` refers to a
/// path that is a prefix of `fp` or that `fp` is a prefix of.
pub open spec fn guarded(es: Seq<SExprAst>, skip: int, fp: Seq<SegV>) -> bool {
    exists|j: int, k: int|
        0 <= j < es.len() && j != skip && 0 <= k < referenced_paths(es[j]).len() && (is_prefix(
            #[trigger] referenced_paths(es[j])[k],
            fp,
        ) || is_prefix(fp, referenced_paths(es[j])[k]))
}

/// The warnings for a condition, in the order the linter finds them.
pub open spec fn expr_warnings(e: SExprAst, rule: Seq<char>) -> Seq<SLintWarning>
    decreases e, 1nat,
{
    match e {
        SExprAst::And(es) => and_warnings(es, es.len(), rule),
        SExprAst::Or(es) => or_warnings(es, es.len(), rule),
        SExprAst::Not(inner) => expr_warnings(*inner, rule),
        SExprAst::Forall(_, path, body) => seq![w001(path, rule)] + expr_warnings(*body, rule),
        _ => Seq::empty(),
    }
}

/// The warnings for the first `n` conjuncts: an unguarded `forall` warns,
/// and every conjunct is searched for more.
pub open spec fn and_warnings(es: Seq<SExprAst>, n: nat, rule: Seq<char>) -> Seq<SLintWarning>
    decreases es, n,
{
    if n == 0 || n > es.len() {
        Seq::empty()
    } else {
        let i = n - 1;
        and_warnings(es, i as nat, rule) + match es[i] {
            SExprAst::Forall(_, path, body) => (if guarded(es, i, path) {
                Seq::empty()
            } else {
                seq![w001(path, rule)]
            }) + expr_warnings(*body, rule),
            _ => expr_warnings(es[i], rule),
        }
    }
}

/// The warnings for the first `n` disjuncts.
pub open spec fn or_warnings(es: Seq<SExprAst>, n: nat, rule: Seq<char>) -> Seq<SLintWarning>
    decreases es, n,
{
    if n == 0 || n > es.len() {
        Seq::empty()
    } else {
        or_warnings(es, (n - 1) as nat, rule) + expr_warnings(es[n - 1], rule)
    }
}

pub open spec fn rule_warnings(body: Option<SExprAst>, rule: Seq<char>) -> Seq<SLintWarning> {
    match body {
        Some(b) => expr_warnings(b, rule),
        None => Seq::empty(),
    }
}

/// The warnings for the first `n` rules of a program.
pub open spec fn program_warnings(rules: Seq<RuleAst>, n: nat) -> Seq<SLintWarning>
    decreases n,
{
    if n == 0 || n > rules.len() {
        Seq::empty()
    } else {
        program_warnings(rules, (n - 1) as nat) + rule_warnings(
            match rules[n - 1].body {
                Some(b) => Some(b@),
                None => None,
            },
            rules[n - 1].name@,
        )
    }
}

// ----------------------------------------------------------------------------
// The linter
// ----------------------------------------------------------------------------

fn lint_segment_text(seg: &PathSegmentAst) -> (s: String)
    ensures
        s@ == lint_seg_text(seg@),
{
    match seg {
        PathSegmentAst::Field(f) => f.clone(),
        PathSegmentAst::Index(k) => {
            let mut s = String::from_str("[");
            let d = usize_to_string(*k);
            s.append(d.as_str());
            s.append("]");
            s
        },
        PathSegmentAst::Variable(v) => {
            let mut s = String::from_str("[");
            s.append(v.as_str());
            s.append("]");
            s
        },
    }
}

/// A path as the linter prints it.
fn path_to_string(path: &PathAst) -> (s: String)
    ensures
        s@ == lint_path_text(path@),
{
    let ghost texts = path@.map_values(|g: SegV| lint_seg_text(g));
    let mut s = String::new();
    let mut i: usize = 0;
    while i < path.segments.len()
        invariant
            i <= path.segments.len(),
            texts == path@.map_values(|g: SegV| lint_seg_text(g)),
            texts.len() == path.segments.len(),
            s@ == join(texts.take(i as int), "."@),
        decreases path.segments.len() - i,
    {
        let t = lint_segment_text(&path.segments[i]);
        assert(t@ == texts[i as int]);
        if i > 0 {
            s.append(".");
        }
        s.append(t.as_str());
        assert(texts.take(i + 1).drop_last() =~= texts.take(i as int));
        i += 1;
    }
    assert(texts.take(i as int) =~= texts);
    s
}

fn segment_eq(a: &PathSegmentAst, b: &PathSegmentAst) -> (r: bool)
    ensures
        r == (a@ == b@),
{
    match (a, b) {
        (PathSegmentAst::Field(x), PathSegmentAst::Field(y)) => crate::json::str_eq(
            x.as_str(),
            y.as_str(),
        ),
        (PathSegmentAst::Index(x), PathSegmentAst::Index(y)) => *x == *y,
        (PathSegmentAst::Variable(x), PathSegmentAst::Variable(y)) => crate::json::str_eq(
            x.as_str(),
            y.as_str(),
        ),
        _ => false,
    }
}

/// Whether `path` is a prefix of `target`.
fn is_path_prefix(path: &PathAst, target: &PathAst) -> (r: bool)
    ensures
        r == is_prefix(path@, target@),
{
    if path.segments.len() > target.segments.len() {
        return false;
    }
    let mut i: usize = 0;
    while i < path.segments.len()
        invariant
            i <= path.segments.len() <= target.segments.len(),
            forall|j: int| 0 <= j < i ==> path@[j] == target@[j],
        decreases path.segments.len() - i,
    {
        if !segment_eq(&path.segments[i], &target.segments[i]) {
            assert(path@[i as int] != target@[i as int]);
            return false;
        }
        i += 1;
    }
    true
}

/// Whether `e` refers directly to a path that is a prefix of `fp` or that `fp` is a prefix of.
fn refers_to(e: &ExprAst, fp: &PathAst) -> (r: bool)
    ensures
        r == exists|k: int|
            0 <= k < referenced_paths(e@).len() && (is_prefix(
                #[trigger] referenced_paths(e@)[k],
                fp@,
            ) || is_prefix(fp@, referenced_paths(e@)[k])),
    decreases e,
{
    let p = match e {
        ExprAst::Compare { left, .. } => left,
        ExprAst::In { path, .. } => path,
        ExprAst::InLiteral { path, .. } => path,
        ExprAst::Has { path } => path,
        ExprAst::Like { path, .. } => path,
        ExprAst::Not(inner) => {
            assert(referenced_paths(e@) == referenced_paths((**inner)@));
            return refers_to(inner, fp);
        },
        _ => {
            return false;
        },
    };
    assert(referenced_paths(e@) == seq![p@]);
    let r = is_path_prefix(p, fp) || is_path_prefix(fp, p);
    assert(r ==> referenced_paths(e@)[0] == p@);
    r
}

/// Whether a sibling of the conjunct at `skip` guards the path `fp`.
fn has_guard_for_path(siblings: &Vec<ExprAst>, skip: usize, forall_path: &PathAst) -> (r: bool)
    ensures
        r == guarded(exprs_of_ast(siblings@), skip as int, forall_path@),
{
    let ghost es = exprs_of_ast(siblings@);
    proof {
        lemma_expr_asts_view(siblings@, siblings@.len());
    }
    let mut j: usize = 0;
    while j < siblings.len()
        invariant
            j <= siblings.len(),
            es == exprs_of_ast(siblings@),
            es.len() == siblings.len(),
            forall|m: int| 0 <= m < siblings.len() ==> #[trigger] es[m] == expr_ast_view(siblings@[m]),
            forall|m: int, k: int|
                0 <= m < j && m != skip && 0 <= k < referenced_paths(es[m]).len() ==> !(is_prefix(
                    #[trigger] referenced_paths(es[m])[k],
                    forall_path@,
                ) || is_prefix(forall_path@, referenced_paths(es[m])[k])),
        decreases siblings.len() - j,
    {
        if j != skip && refers_to(&siblings[j], forall_path) {
            proof {
                let rp = referenced_paths(es[j as int]);
                let k = choose|k: int|
                    0 <= k < rp.len() && (is_prefix(#[trigger] rp[k], forall_path@) || is_prefix(
                        forall_path@,
                        rp[k],
                    ));
                assert(0 <= k < referenced_paths(es[j as int]).len());
            }
            return true;
        }
        j += 1;
    }
    false
}

/// The W001 warning for a `forall` over `path` in rule `rule_name`.
fn emit_w001(path: &PathAst, rule_name: &str, warnings: &mut Vec<LintWarning>)
    ensures
        warnings_view(final(warnings)@) == warnings_view(old(warnings)@).push(
            w001(path@, rule_name@),
        ),
{
    let path_str = path_to_string(path);
    let mut message = String::from_str("forall over `");
    message.append(path_str.as_str());
    message.append(
        "` is vacuously true when the collection is empty - this may unintentionally grant access",
    );
    let mut suggestion = String::from_str("Add a guard: `has ");
    suggestion.append(path_str.as_str());
    suggestion.append(" and forall ...`");
    let ghost before = warnings@;
    warnings.push(
        LintWarning {
            code: "W001",
            message,
            suggestion: Some(suggestion),
            rule_name: rule_name.to_string(),
            forall_path: Some(path_str),
        },
    );
    assert(warnings_view(warnings@) =~= warnings_view(before).push(warnings@.last()@));
}

/// Appends the warnings for unguarded `forall`s in a condition.
fn check_forall_vacuous(expr: &ExprAst, rule_name: &str, warnings: &mut Vec<LintWarning>)
    ensures
        warnings_view(final(warnings)@) == warnings_view(old(warnings)@) + expr_warnings(
            expr@,
            rule_name@,
        ),
    decreases expr, 1nat,
{
    let ghost start = warnings_view(warnings@);
    match expr {
        ExprAst::And(exprs) => {
            proof {
                assert(decreases_to!(*expr => (*expr)->And_0));
                lemma_expr_asts_view(exprs@, exprs@.len());
            }
            check_conjuncts(exprs, rule_name, warnings);
        },
        ExprAst::Or(exprs) => {
            proof {
                assert(decreases_to!(*expr => (*expr)->Or_0));
                lemma_expr_asts_view(exprs@, exprs@.len());
            }
            check_disjuncts(exprs, rule_name, warnings);
        },
        ExprAst::Not(inner) => {
            check_forall_vacuous(inner, rule_name, warnings);
        },
        ExprAst::Forall { path, body, .. } => {
            emit_w001(path, rule_name, warnings);
            check_forall_vacuous(body, rule_name, warnings);
            assert(warnings_view(warnings@) =~= start + expr_warnings(expr@, rule_name@));
        },
        _ => {
            assert(warnings_view(warnings@) =~= start + expr_warnings(expr@, rule_name@));
        },
    }
}

/// Appends the warnings of the conjuncts of an `And`.
fn check_conjuncts(exprs: &Vec<ExprAst>, rule_name: &str, warnings: &mut Vec<LintWarning>)
    ensures
        warnings_view(final(warnings)@) == warnings_view(old(warnings)@) + and_warnings(
            exprs_of_ast(exprs@),
            exprs@.len(),
            rule_name@,
        ),
    decreases exprs, 0nat,
{
    let ghost es = exprs_of_ast(exprs@);
    let ghost start = warnings_view(warnings@);
    proof {
        lemma_expr_asts_view(exprs@, exprs@.len());
    }
    let mut i: usize = 0;
    assert(start + and_warnings(es, 0, rule_name@) =~= start);
    while i < exprs.len()
        invariant
            i <= exprs.len(),
            es == exprs_of_ast(exprs@),
            es.len() == exprs.len(),
            forall|m: int| 0 <= m < exprs.len() ==> #[trigger] es[m] == expr_ast_view(exprs@[m]),
            warnings_view(warnings@) == start + and_warnings(es, i as nat, rule_name@),
        decreases exprs.len() - i,
    {
        proof {
            vstd::std_specs::vec::axiom_vec_index_decreases(*exprs, i as int);
            assert(decreases_to!(*exprs => exprs[i as int]));
        }
        let ghost before = warnings_view(warnings@);
        match &exprs[i] {
            ExprAst::Forall { path, body, .. } => {
                proof {
                    assert(decreases_to!(exprs[i as int] => (exprs[i as int])->Forall_body));
                }
                if !has_guard_for_path(exprs, i, path) {
                    emit_w001(path, rule_name, warnings);
                }
                check_forall_vacuous(body, rule_name, warnings);
            },
            _ => {
                check_forall_vacuous(&exprs[i], rule_name, warnings);
            },
        }
        assert(warnings_view(warnings@) =~= start + and_warnings(es, (i + 1) as nat, rule_name@));
        i += 1;
    }
}

/// Appends the warnings of the disjuncts of an `Or`.
fn check_disjuncts(exprs: &Vec<ExprAst>, rule_name: &str, warnings: &mut Vec<LintWarning>)
    ensures
        warnings_view(final(warnings)@) == warnings_view(old(warnings)@) + or_warnings(
            exprs_of_ast(exprs@),
            exprs@.len(),
            rule_name@,
        ),
    decreases exprs, 0nat,
{
    let ghost es = exprs_of_ast(exprs@);
    let ghost start = warnings_view(warnings@);
    proof {
        lemma_expr_asts_view(exprs@, exprs@.len());
    }
    let mut i: usize = 0;
    assert(start + or_warnings(es, 0, rule_name@) =~= start);
    while i < exprs.len()
        invariant
            i <= exprs.len(),
            es == exprs_of_ast(exprs@),
            es.len() == exprs.len(),
            forall|m: int| 0 <= m < exprs.len() ==> #[trigger] es[m] == expr_ast_view(exprs@[m]),
            warnings_view(warnings@) == start + or_warnings(es, i as nat, rule_name@),
        decreases exprs.len() - i,
    {
        proof {
            vstd::std_specs::vec::axiom_vec_index_decreases(*exprs, i as int);
            assert(decreases_to!(*exprs => exprs[i as int]));
        }
        check_forall_vacuous(&exprs[i], rule_name, warnings);
        assert(warnings_view(warnings@) =~= start + or_warnings(es, (i + 1) as nat, rule_name@));
        i += 1;
    }
}

/// Appends the warnings of one rule.
fn lint_rule(rule: &RuleAst, warnings: &mut Vec<LintWarning>)
    ensures
        warnings_view(final(warnings)@) == warnings_view(old(warnings)@) + rule_warnings(
            match rule.body {
                Some(b) => Some(b@),
                None => None,
            },
            rule.name@,
        ),
{
    match &rule.body {
        Some(body) => check_forall_vacuous(body, rule.name.as_str(), warnings),
        None => {
            assert(warnings_view(warnings@) =~= warnings_view(warnings@) + Seq::<
                SLintWarning,
            >::empty());
        },
    }
}

/// Runs every lint rule on a program: the W001 warnings of its rules, in order.
pub fn lint(program: &Program) -> (warnings: Vec<LintWarning>)
    ensures
        warnings_view(warnings@) == program_warnings(program.rules@, program.rules@.len()),
{
    let mut warnings: Vec<LintWarning> = Vec::new();
    let mut i: usize = 0;
    assert(warnings_view(warnings@) =~= Seq::<SLintWarning>::empty());
    while i < program.rules.len()
        invariant
            i <= program.rules.len(),
            warnings_view(warnings@) == program_warnings(program.rules@, i as nat),
        decreases program.rules.len() - i,
    {
        lint_rule(&program.rules[i], &mut warnings);
        i += 1;
    }
    warnings
}

} // verus!
