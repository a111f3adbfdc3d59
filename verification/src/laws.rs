//! Properties of the library that hold for all inputs.
use vstd::prelude::*;
use crate::json::{JsonV, obj_lookup, json_wf};
use crate::pattern::Pattern;
use crate::matcher::{
    matches_spec, binds_spec, fields_match, fields_binds, any_spec, every_elem_matches,
    some_elem_matches,
};
use crate::glob::glob_spec;
use crate::path::{SegV, walk, resolve_spec};
use crate::ast::{EffectAst, SExprAst};
use crate::cedar_parser::{SPolicy, CedarEffect, SExpr};
use crate::cedar_syntax::parse_spec;
use crate::cedar_translation::{
    import_rules, rules_upto, rule_name, int_json, expr_condition, and_parts, or_parts, method_condition, path_of,
    pattern_of, ip_test_op, decimal_op, unsupported, import_program, import_schema, SImportError,
};
use crate::ast::SProgram;
use crate::schema::SModule;
use crate::cedar_schema_syntax::{parse_schema_spec, add_top_level, add_decls, empty_smodule, SDecls};
use crate::cedar_schema_grammar::grammar::{Schema, SchemaItem, NamespaceInnerDecl};
use crate::cedar_schema_grammar::{schema_ast, schema_upto, module_upto};
use crate::resolver::{
    SResolve, SAction, SResolveError, ResolvePhase, step_spec, advance, bump, cycle_text, schema_error_text,
    resolve_wf,
};
use crate::karu_parser::source_program;
use crate::karu_syntax::{
    SReading, PIn, SItems, tk, skip_braces, skip_test, test_block, test_name, test_items,
    test_value, value_entries, value_items, entity_fields, expect_entries, expect_tok, skip_opt, items,
    program,
};
use crate::karu_lexer::{Token, SSpanned, lex_from, karu_lex_spec, lex_token, next_spec, ws_end, keyword, word_end};
use crate::karu_syntax::op_of;
use crate::cedar_translation::{op_text, rel_op_ast, rel_holds, relation_condition};
use crate::cedar_syntax::rel_op;
use crate::cedar_lexer::operator_kind;
use crate::cedar_parser::CedarRelOp;
use crate::compiler::{ConditionExpr, Operator, cond_eval, cond_view, knot, bare_name};
use crate::json::Number;
use crate::path::Path;
use crate::cedar_lexer::line_col;
use crate::karu_syntax::token_word;
use crate::text::is_whitespace_spec;
use crate::cedar_parser::SError;
use crate::ast::{SExpected, STestEntity};
use crate::lint::{expr_warnings, and_warnings, referenced_paths, is_prefix, guarded};
use crate::compiler::{
    Rule, SCond, rule_applies, some_applies, evaluate_spec, compile_spec, assert_lookup, circular_message,
};
use crate::rule::Effect;
use crate::ast::{OpAst, SPattern};
use crate::schema::SAssert;
use crate::ast::STest;
use crate::inline_tests::{test_result, test_input, expected_effect, effect_word, outcome_word, coverage_of};

verus! {

proof fn lemma_lookup_extend(es: Seq<(Seq<char>, JsonV)>, more: Seq<(Seq<char>, JsonV)>, k: Seq<char>)
    requires
        obj_lookup(es, k) is Some,
    ensures
        obj_lookup(es + more, k) == obj_lookup(es, k),
    decreases es.len(),
{
    assert((es + more)[0] == es[0]);
    if es[0].0 != k {
        assert((es + more).drop_first() == es.drop_first() + more);
        lemma_lookup_extend(es.drop_first(), more, k);
    }
}

proof fn lemma_fields_extend(
    es: Seq<(Seq<char>, JsonV)>,
    more: Seq<(Seq<char>, JsonV)>,
    fs: Seq<(String, Pattern)>,
    n: nat,
)
    requires
        n <= fs.len(),
        fields_match(es, fs, n),
    ensures
        fields_match(es + more, fs, n),
        fields_binds(es + more, fs, n) == fields_binds(es, fs, n),
    decreases n,
{
    if n > 0 {
        lemma_fields_extend(es, more, fs, (n - 1) as nat);
        lemma_lookup_extend(es, more, fs[n - 1].0@);
    }
}

/// Partial matching: an object pattern that matches some data still matches,
/// and captures the same, when the data gains further entries.
pub proof fn law_extra_keys_ignored(
    es: Seq<(Seq<char>, JsonV)>,
    more: Seq<(Seq<char>, JsonV)>,
    fs: Vec<(String, Pattern)>,
)
    requires
        matches_spec(JsonV::Object(es), Pattern::Object(fs)),
    ensures
        matches_spec(JsonV::Object(es + more), Pattern::Object(fs)),
        binds_spec(JsonV::Object(es + more), Pattern::Object(fs)) == binds_spec(
            JsonV::Object(es),
            Pattern::Object(fs),
        ),
{
    lemma_fields_extend(es, more, fs@, fs@.len());
}

/// An object pattern with no fields matches every object and nothing else.
pub proof fn law_empty_object_pattern(d: JsonV, fs: Vec<(String, Pattern)>)
    requires
        fs@.len() == 0,
    ensures
        matches_spec(d, Pattern::Object(fs)) == (d is Object),
{
    if let JsonV::Object(es) = d {
        assert(fields_match(es, fs@, 0));
    }
}

/// A wildcard or variable matches every value.
pub proof fn law_variable_matches_all(d: JsonV, name: Option<String>)
    ensures
        matches_spec(d, Pattern::Variable(name)),
{
}

/// A negated pattern matches exactly the data the pattern does not match.
pub proof fn law_not(d: JsonV, p: Pattern)
    ensures
        matches_spec(d, Pattern::Not(Box::new(p))) == !matches_spec(d, p),
{
}

/// A named variable captures exactly the value it matched.
pub proof fn law_variable_captures(d: JsonV, name: String)
    ensures
        binds_spec(d, Pattern::Variable(Some(name))) == Map::<Seq<char>, JsonV>::empty().insert(
            name@,
            d,
        ),
{
}

proof fn lemma_every_some(vs: Seq<JsonV>, p: Pattern, i: nat)
    requires
        i < vs.len(),
        every_elem_matches(vs, p, i),
    ensures
        some_elem_matches(vs, p, i),
{
}

/// Where every element of a non-empty array matches, the `in` search finds one.
pub proof fn law_all_implies_any(vs: Seq<JsonV>, p: Pattern)
    requires
        vs.len() > 0,
        every_elem_matches(vs, p, 0),
    ensures
        any_spec(JsonV::Array(vs), p),
{
    lemma_every_some(vs, p, 0);
}

/// The `in` search never finds anything in an empty array unless the
/// pattern is a literal array holding it.
pub proof fn law_empty_array_search(p: Pattern)
    ensures
        any_spec(JsonV::Array(Seq::empty()), p) == crate::matcher::literal_array_holds(
            JsonV::Array(Seq::empty()),
            p,
        ),
{
}

proof fn lemma_star_all(t: Seq<char>)
    ensures
        glob_spec(seq!['*'], t),
    decreases t.len(),
{
    let p = seq!['*'];
    assert(p[0] == '*');
    assert(p.drop_first().len() == 0);
    if t.len() > 0 {
        lemma_star_all(t.drop_first());
        assert(glob_spec(p, t) == (glob_spec(p.drop_first(), t) || glob_spec(p, t.drop_first())));
    } else {
        assert(glob_spec(p.drop_first(), t));
    }
}

/// The wildcard pattern `*` matches every string.
pub proof fn law_star_matches_all(t: Seq<char>)
    ensures
        glob_spec(seq!['*'], t),
{
    lemma_star_all(t);
}

proof fn lemma_glob_literal(t: Seq<char>)
    requires
        forall|i: int| 0 <= i < t.len() ==> t[i] != '*' && t[i] != '?',
    ensures
        glob_spec(t, t),
    decreases t.len(),
{
    if t.len() > 0 {
        lemma_glob_literal(t.drop_first());
    }
}

/// A pattern without wildcards matches itself.
pub proof fn law_glob_literal_self(t: Seq<char>)
    requires
        forall|i: int| 0 <= i < t.len() ==> t[i] != '*' && t[i] != '?',
    ensures
        glob_spec(t, t),
{
    lemma_glob_literal(t);
}

/// No segment of `s` is a variable.
pub open spec fn variable_free(s: Seq<SegV>) -> bool {
    forall|k: int| 0 <= k < s.len() ==> !(#[trigger] s[k] is Variable)
}

proof fn lemma_walk_suffix(s1: Seq<SegV>, s2: Seq<SegV>, root: JsonV, r2: JsonV, j: nat, cur: JsonV)
    requires
        variable_free(s2),
        j <= s2.len(),
    ensures
        walk(s1 + s2, root, Seq::empty(), false, s1.len() + j, cur) == walk(
            s2,
            r2,
            Seq::empty(),
            false,
            j,
            cur,
        ),
    decreases s2.len() - j,
{
    let s = s1 + s2;
    if j < s2.len() {
        assert(s[s1.len() + j as int] == s2[j as int]);
        assert(!(s2[j as int] is Variable));
        match s2[j as int] {
            SegV::Field(n) => {
                assert(crate::path::bind_lookup(Seq::empty(), n) is None);
                match crate::json::get_field_spec(cur, n) {
                    Some(nx) => lemma_walk_suffix(s1, s2, root, r2, j + 1, nx),
                    None => {},
                }
            },
            SegV::Index(k) => {
                match crate::json::get_index_spec(cur, k as int) {
                    Some(nx) => lemma_walk_suffix(s1, s2, root, r2, j + 1, nx),
                    None => {},
                }
            },
            SegV::Variable(_) => {},
        }
    }
}

proof fn lemma_walk_prefix(s1: Seq<SegV>, s2: Seq<SegV>, root: JsonV, i: nat, cur: JsonV)
    requires
        variable_free(s2),
        i <= s1.len(),
    ensures
        walk(s1 + s2, root, Seq::empty(), false, i, cur) == match walk(
            s1,
            root,
            Seq::empty(),
            false,
            i,
            cur,
        ) {
            Some(v) => walk(s2, v, Seq::empty(), false, 0, v),
            None => None,
        },
    decreases s1.len() - i,
{
    let s = s1 + s2;
    if i == s1.len() {
        lemma_walk_suffix(s1, s2, root, cur, 0, cur);
    } else {
        assert(s[i as int] == s1[i as int]);
        let e = Seq::<(Seq<char>, JsonV)>::empty();
        let next = match s1[i as int] {
            SegV::Field(n) => if i == 0 && crate::path::bind_lookup(e, n) is Some {
                crate::path::bind_lookup(e, n)
            } else {
                crate::json::get_field_spec(cur, n)
            },
            SegV::Index(k) => crate::json::get_index_spec(cur, k as int),
            SegV::Variable(v) => if v.len() >= 6 && v.take(6) == crate::path::path_var_prefix() {
                crate::path::step_by_key(
                    cur,
                    walk(crate::path::parse_path_spec(v.skip(6)), root, e, true, 0, root),
                )
            } else {
                crate::path::step_by_key(cur, crate::path::bind_lookup(e, v))
            },
        };
        match next {
            Some(nx) => lemma_walk_prefix(s1, s2, root, i + 1, nx),
            None => {},
        }
    }
}

/// Path composition: without bindings, resolving `s1` followed by a
/// variable-free `s2` is resolving `s1`, then resolving `s2` from there.
pub proof fn law_resolve_concat(s1: Seq<SegV>, s2: Seq<SegV>, root: JsonV)
    requires
        variable_free(s2),
    ensures
        resolve_spec(s1 + s2, root, Seq::empty()) == match resolve_spec(s1, root, Seq::empty()) {
            Some(v) => resolve_spec(s2, v, Seq::empty()),
            None => None,
        },
{
    lemma_walk_prefix(s1, s2, root, 0, root);
}

/// Resolving the empty path gives the document itself.
pub proof fn law_resolve_root(root: JsonV)
    ensures
        resolve_spec(Seq::empty(), root, Seq::empty()) == Some(root),
{
}

/// After binding `name` to `v`, looking `name` up gives `v`, and every other
/// name keeps what it was bound to.
pub proof fn law_bind_then_get(m: Map<Seq<char>, JsonV>, name: Seq<char>, v: JsonV, other: Seq<char>)
    requires
        other != name,
    ensures
        m.insert(name, v).dom().contains(name),
        m.insert(name, v)[name] == v,
        m.insert(name, v).dom().contains(other) == m.dom().contains(other),
        m.dom().contains(other) ==> m.insert(name, v)[other] == m[other],
{
}

/// Merging: a name bound on the right takes the right value; a name bound
/// only on the left keeps the left value; nothing else is bound.
pub proof fn law_merge_prefers_right(a: Map<Seq<char>, JsonV>, b: Map<Seq<char>, JsonV>, k: Seq<char>)
    ensures
        a.union_prefer_right(b).dom().contains(k) == (a.dom().contains(k) || b.dom().contains(k)),
        b.dom().contains(k) ==> a.union_prefer_right(b)[k] == b[k],
        a.dom().contains(k) && !b.dom().contains(k) ==> a.union_prefer_right(b)[k] == a[k],
{
}

/// The effect a Cedar policy's rule has.
pub open spec fn effect_of(p: SPolicy) -> EffectAst {
    match p.effect {
        CedarEffect::Permit => EffectAst::Allow,
        CedarEffect::Forbid => EffectAst::Deny,
    }
}

proof fn lemma_rules_upto(ps: Seq<SPolicy>, n: nat)
    requires
        n <= ps.len(),
        rules_upto(ps, n) is Ok,
    ensures
        rules_upto(ps, n)->Ok_0.len() == n,
        forall|i: int|
            0 <= i < n ==> (#[trigger] rules_upto(ps, n)->Ok_0[i]).name == rule_name(ps[i], i as nat)
                && rules_upto(ps, n)->Ok_0[i].effect == effect_of(ps[i]),
    decreases n,
{
    if n > 0 {
        lemma_rules_upto(ps, (n - 1) as nat);
    }
}

/// Importing Cedar gives one rule per policy, in order: a `permit` becomes
/// an `allow` and a `forbid` a `deny`, named by the policy's `@id`
/// annotation, or `policy_<index>` without one.
pub proof fn law_import_rule_per_policy(cs: Seq<char>)
    requires
        import_rules(cs) is Ok,
    ensures
        parse_spec(cs) is Ok,
        import_rules(cs)->Ok_0.len() == parse_spec(cs)->Ok_0.len(),
        forall|i: int|
            0 <= i < parse_spec(cs)->Ok_0.len() ==> (#[trigger] import_rules(cs)->Ok_0[i]).name
                == rule_name(parse_spec(cs)->Ok_0[i], i as nat) && import_rules(cs)->Ok_0[i].effect
                == effect_of(parse_spec(cs)->Ok_0[i]),
{
    let ps = parse_spec(cs)->Ok_0;
    lemma_rules_upto(ps, ps.len());
}

/// Every warning the linter gives for a condition is a W001 warning of the
/// rule it was asked about.
pub proof fn law_lint_warnings_are_w001(e: SExprAst, rule: Seq<char>)
    ensures
        forall|k: int|
            0 <= k < expr_warnings(e, rule).len() ==> (#[trigger] expr_warnings(e, rule)[k]).code
                == "W001"@ && expr_warnings(e, rule)[k].rule_name == rule,
    decreases e, 1nat,
{
    match e {
        SExprAst::And(es) => lemma_and_w001(es, es.len(), rule),
        SExprAst::Or(es) => lemma_or_w001(es, es.len(), rule),
        SExprAst::Not(inner) => law_lint_warnings_are_w001(*inner, rule),
        SExprAst::Forall(_, _, body) => law_lint_warnings_are_w001(*body, rule),
        _ => {},
    }
}

proof fn lemma_and_w001(es: Seq<SExprAst>, n: nat, rule: Seq<char>)
    ensures
        forall|k: int|
            0 <= k < and_warnings(es, n, rule).len() ==> (#[trigger] and_warnings(es, n, rule)[k]).code
                == "W001"@ && and_warnings(es, n, rule)[k].rule_name == rule,
    decreases es, n,
{
    if n > 0 && n <= es.len() {
        let i = n - 1;
        lemma_and_w001(es, i as nat, rule);
        assert(es[i as int] == es[i as int]);
        match es[i as int] {
            SExprAst::Forall(_, _, body) => law_lint_warnings_are_w001(*body, rule),
            _ => law_lint_warnings_are_w001(es[i as int], rule),
        }
    }
}

proof fn lemma_or_w001(es: Seq<SExprAst>, n: nat, rule: Seq<char>)
    ensures
        forall|k: int|
            0 <= k < crate::lint::or_warnings(es, n, rule).len() ==> (
            #[trigger] crate::lint::or_warnings(es, n, rule)[k]).code == "W001"@
                && crate::lint::or_warnings(es, n, rule)[k].rule_name == rule,
    decreases es, n,
{
    if n > 0 && n <= es.len() {
        lemma_or_w001(es, (n - 1) as nat, rule);
        law_lint_warnings_are_w001(es[n - 1], rule);
    }
}

/// A guard beside a `forall` silences its warning: in `guard and forall x
/// in p: body`, where the guard refers to `p` (or a path above or below it),
/// only the guard and the body are searched for warnings.
pub proof fn law_guard_silences_forall(
    guard: SExprAst,
    v: Seq<char>,
    p: Seq<SegV>,
    body: SExprAst,
    q: Seq<SegV>,
    rule: Seq<char>,
)
    requires
        referenced_paths(guard).contains(q),
        is_prefix(q, p) || is_prefix(p, q),
    ensures
        expr_warnings(SExprAst::And(seq![guard, SExprAst::Forall(v, p, Box::new(body))]), rule)
            == expr_warnings(guard, rule) + expr_warnings(body, rule),
{
    let es = seq![guard, SExprAst::Forall(v, p, Box::new(body))];
    let k = choose|k: int| 0 <= k < referenced_paths(guard).len() && referenced_paths(guard)[k] == q;
    assert(es[0] == guard);
    assert(referenced_paths(es[0])[k] == q);
    assert(guarded(es, 1, p));
    assert(and_warnings(es, 0, rule) == Seq::<crate::lint::SLintWarning>::empty());
    assert(and_warnings(es, 1, rule) =~= expr_warnings(guard, rule));
    assert(es.len() == 2);
    assert(es[1] == SExprAst::Forall(v, p, Box::new(body)));
    assert(Seq::<crate::lint::SLintWarning>::empty() + expr_warnings(body, rule) =~= expr_warnings(
        body,
        rule,
    ));
    assert(and_warnings(es, 2, rule) =~= expr_warnings(guard, rule) + expr_warnings(body, rule));
}


// ----------------------------------------------------------------------------
// Converting Cedar conditions
// ----------------------------------------------------------------------------

/// The conjuncts a converted condition contributes to an enclosing `&&`:
/// those of a converted `&&`, else the condition itself.
pub open spec fn conj_parts(x: SExpr, c: SExprAst) -> Seq<SExprAst> {
    if x is And && c is And {
        c->And_0
    } else {
        seq![c]
    }
}

/// The disjuncts a converted condition contributes to an enclosing `||`.
pub open spec fn disj_parts(x: SExpr, c: SExprAst) -> Seq<SExprAst> {
    if x is Or && c is Or {
        c->Or_0
    } else {
        seq![c]
    }
}

proof fn lemma_and_parts(x: SExpr)
    ensures
        and_parts(x) is Ok <==> expr_condition(x) is Ok,
        expr_condition(x) is Err ==> and_parts(x) == Err::<Seq<SExprAst>, _>(expr_condition(x)->Err_0),
        expr_condition(x) is Ok ==> and_parts(x) == Ok::<_, crate::cedar_translation::SImportError>(
            conj_parts(x, expr_condition(x)->Ok_0),
        ),
{
}

proof fn lemma_or_parts(x: SExpr)
    ensures
        or_parts(x) is Ok <==> expr_condition(x) is Ok,
        expr_condition(x) is Err ==> or_parts(x) == Err::<Seq<SExprAst>, _>(expr_condition(x)->Err_0),
        expr_condition(x) is Ok ==> or_parts(x) == Ok::<_, crate::cedar_translation::SImportError>(
            disj_parts(x, expr_condition(x)->Ok_0),
        ),
{
}

/// Cedar `a && b` becomes one flat Karu conjunction: the conjuncts of `a`
/// then those of `b`, a nested `&&` on either side spliced in; it fails when
/// either side fails, with the error of the first side that does.
pub proof fn law_and_flattens(a: SExpr, b: SExpr)
    ensures
        expr_condition(a) is Ok && expr_condition(b) is Ok ==> expr_condition(
            SExpr::And(Box::new(a), Box::new(b)),
        ) == Ok::<SExprAst, crate::cedar_translation::SImportError>(
            SExprAst::And(
                conj_parts(a, expr_condition(a)->Ok_0) + conj_parts(b, expr_condition(b)->Ok_0),
            ),
        ),
        expr_condition(a) is Err ==> expr_condition(SExpr::And(Box::new(a), Box::new(b)))
            == expr_condition(a),
        expr_condition(a) is Ok && expr_condition(b) is Err ==> expr_condition(
            SExpr::And(Box::new(a), Box::new(b)),
        ) == expr_condition(b),
{
    lemma_and_parts(a);
    lemma_and_parts(b);
}

/// Cedar `a || b` becomes one flat Karu disjunction, as `&&` does.
pub proof fn law_or_flattens(a: SExpr, b: SExpr)
    ensures
        expr_condition(a) is Ok && expr_condition(b) is Ok ==> expr_condition(
            SExpr::Or(Box::new(a), Box::new(b)),
        ) == Ok::<SExprAst, crate::cedar_translation::SImportError>(
            SExprAst::Or(
                disj_parts(a, expr_condition(a)->Ok_0) + disj_parts(b, expr_condition(b)->Ok_0),
            ),
        ),
        expr_condition(a) is Err ==> expr_condition(SExpr::Or(Box::new(a), Box::new(b)))
            == expr_condition(a),
        expr_condition(a) is Ok && expr_condition(b) is Err ==> expr_condition(
            SExpr::Or(Box::new(a), Box::new(b)),
        ) == expr_condition(b),
{
    lemma_or_parts(a);
    lemma_or_parts(b);
}

/// `if C then true else false` is `C`, `if C then false else true` is
/// `not C`, and an if-then-else with no boolean literal branch is refused.
pub proof fn law_if_then_else(c: SExpr, t: SExpr, u: SExpr)
    requires
        expr_condition(c) is Ok,
    ensures
        expr_condition(
            SExpr::IfThenElse(Box::new(c), Box::new(SExpr::Bool(true)), Box::new(SExpr::Bool(false))),
        ) == expr_condition(c),
        expr_condition(
            SExpr::IfThenElse(Box::new(c), Box::new(SExpr::Bool(false)), Box::new(SExpr::Bool(true))),
        ) == Ok::<SExprAst, crate::cedar_translation::SImportError>(
            SExprAst::Not(Box::new(expr_condition(c)->Ok_0)),
        ),
        !(t is Bool) && !(u is Bool) ==> expr_condition(
            SExpr::IfThenElse(Box::new(c), Box::new(t), Box::new(u)),
        ) == Err::<SExprAst, crate::cedar_translation::SImportError>(
            unsupported("General if-then-else not supported: one branch must be true or false"@),
        ),
{
}

/// The method names the import knows.
pub open spec fn known_method(m: Seq<char>) -> bool {
    m == "contains"@ || m == "containsAll"@ || m == "containsAny"@ || m == "isInRange"@
        || ip_test_op(m) is Some || decimal_op(m) is Some
}

/// `base.contains(x)` becomes `x in base`; any method the import does not
/// know is refused with its name in the message.
pub proof fn law_method_dispatch(base: SExpr, m: Seq<char>, args: Seq<SExpr>)
    ensures
        expr_condition(SExpr::MethodCall(Box::new(base), m, args)) == method_condition(base, m, args),
        m == "contains"@ && args.len() == 1 && path_of(base) is Ok && pattern_of(args[0]) is Ok
            ==> method_condition(base, m, args) == Ok::<SExprAst, crate::cedar_translation::SImportError>(
            SExprAst::In(pattern_of(args[0])->Ok_0, path_of(base)->Ok_0),
        ),
        !known_method(m) ==> method_condition(base, m, args) == Err::<
            SExprAst,
            crate::cedar_translation::SImportError,
        >(unsupported("Method call '."@ + m + "()' not supported"@)),
{
}

// ----------------------------------------------------------------------------
// Importing programs and schemas
// ----------------------------------------------------------------------------

/// An imported Cedar policy set is a program of rules alone: no schema,
/// imports, modules, assertions or tests, and one rule per policy, in
/// order, `permit` as `allow` and `forbid` as `deny`, named by the policy's
/// `@id` or by its index.
pub proof fn law_import_program(cs: Seq<char>)
    requires
        import_program(cs) is Ok,
    ensures
        parse_spec(cs) is Ok,
        !import_program(cs)->Ok_0.use_schema,
        import_program(cs)->Ok_0.imports.len() == 0,
        import_program(cs)->Ok_0.modules.len() == 0,
        import_program(cs)->Ok_0.assertions.len() == 0,
        import_program(cs)->Ok_0.tests.len() == 0,
        import_program(cs)->Ok_0.rules.len() == parse_spec(cs)->Ok_0.len(),
        forall|i: int|
            0 <= i < parse_spec(cs)->Ok_0.len() ==> (#[trigger] import_program(cs)->Ok_0.rules[i]).name
                == rule_name(parse_spec(cs)->Ok_0[i], i as nat) && import_program(cs)->Ok_0.rules[i].effect
                == effect_of(parse_spec(cs)->Ok_0[i]),
{
    law_import_rule_per_policy(cs);
}

/// Importing a Cedar schema gives exactly what the schema parser gives; a
/// parse error keeps its message and line and drops its column.
pub proof fn law_import_schema_is_parse(cs: Seq<char>)
    ensures
        parse_schema_spec(cs) is Ok ==> import_schema(cs) == Ok::<Seq<SModule>, SImportError>(
            parse_schema_spec(cs)->Ok_0,
        ),
        parse_schema_spec(cs) is Err ==> import_schema(cs) == Err::<Seq<SModule>, SImportError>(
            SImportError {
                message: parse_schema_spec(cs)->Err_0.message,
                line: Some(parse_schema_spec(cs)->Err_0.line),
            },
        ),
{
}

/// A declaration outside any namespace joins the unnamed module that the
/// declarations just before it opened; after a namespace, or first of all,
/// it opens a new unnamed module. Either way the modules before are kept.
pub proof fn law_top_level_grouping(ms: Seq<SModule>, d: SDecls)
    ensures
        ms.len() > 0 && ms.last().name is None ==> add_top_level(ms, d) == ms.drop_last().push(
            add_decls(ms.last(), d),
        ),
        ms.len() == 0 || ms.last().name is Some ==> add_top_level(ms, d) == ms.push(
            add_decls(empty_smodule(None), d),
        ),
        add_top_level(ms, d).last().name is None,
{
    if ms.len() == 0 || ms.last().name is Some {
        assert(ms.push(empty_smodule(None)).drop_last() =~= ms);
    }
}

/// The number of namespaces among the first `n` schema items.
pub open spec fn namespace_count(items: Seq<SchemaItem>, n: nat) -> nat
    decreases n,
{
    if n == 0 || n > items.len() {
        0
    } else {
        namespace_count(items, (n - 1) as nat) + if items[n - 1] is Namespace {
            1nat
        } else {
            0nat
        }
    }
}

proof fn lemma_module_upto_name(name: Option<Seq<char>>, ds: Seq<NamespaceInnerDecl>, n: nat)
    ensures
        module_upto(name, ds, n).name == name,
    decreases n,
{
    if n > 0 && n <= ds.len() {
        lemma_module_upto_name(name, ds, (n - 1) as nat);
    }
}

/// The paths of the namespaces among the first `n` items, in order.
pub open spec fn namespace_paths(items: Seq<SchemaItem>, n: nat) -> Seq<Seq<char>>
    decreases n,
{
    if n == 0 || n > items.len() {
        Seq::empty()
    } else {
        let prev = namespace_paths(items, (n - 1) as nat);
        match items[n - 1] {
            SchemaItem::Namespace(ns) => prev.push(ns.path@),
            _ => prev,
        }
    }
}

proof fn lemma_schema_upto(items: Seq<SchemaItem>, n: nat)
    requires
        n <= items.len(),
    ensures
        schema_upto(items, n).0.name is None,
        schema_upto(items, n).1.len() == namespace_count(items, n),
        namespace_paths(items, n).len() == namespace_count(items, n),
        forall|k: int| 0 <= k < schema_upto(items, n).1.len() ==> (#[trigger] schema_upto(items, n).1[k]).name is Some,
        forall|k: int|
            0 <= k < schema_upto(items, n).1.len() ==> (#[trigger] schema_upto(items, n).1[k]).name == Some(
                namespace_paths(items, n)[k],
            ),
    decreases n,
{
    if n > 0 {
        lemma_schema_upto(items, (n - 1) as nat);
        if let SchemaItem::Namespace(ns) = items[n - 1] {
            lemma_module_upto_name(Some(ns.path@), ns.decls@, ns.decls@.len());
        }
    }
}

/// A schema's modules, as the grammar gives them: an unnamed module first
/// when there are declarations outside every namespace, then one module per
/// namespace, in source order, named by the namespace's path.
pub proof fn law_schema_modules(s: Schema)
    ensures
        ({
            let top = schema_upto(s.items@, s.items@.len()).0;
            let has_top = top.entities.len() > 0 || top.actions.len() > 0 || top.abstracts.len() > 0;
            let off: int = if has_top {
                1int
            } else {
                0int
            };
            let paths = namespace_paths(s.items@, s.items@.len());
            &&& schema_ast(s).len() == paths.len() + off
            &&& has_top ==> schema_ast(s)[0].name is None
            &&& forall|k: int| off <= k < schema_ast(s).len() ==> (#[trigger] schema_ast(s)[k]).name == Some(paths[k - off])
        }),
{
    lemma_schema_upto(s.items@, s.items@.len());
    let (d, ms) = schema_upto(s.items@, s.items@.len());
    if d.entities.len() > 0 || d.actions.len() > 0 || d.abstracts.len() > 0 {
        assert forall|k: int| 1 <= k < schema_ast(s).len() implies (#[trigger] schema_ast(s)[k]).name == Some(
            namespace_paths(s.items@, s.items@.len())[k - 1],
        ) by {
            assert(schema_ast(s)[k] == ms[k - 1]);
        }
    }
}

// ----------------------------------------------------------------------------
// Import resolution
// ----------------------------------------------------------------------------

/// An imported file already on the chain of files being followed ends
/// resolution with a cycle error naming the chain.
pub proof fn law_resolve_cycle(s: SResolve, src: Seq<char>, nums: Seq<(Seq<char>, SReading)>, p: SProgram)
    requires
        resolve_wf(s),
        s.phase == ResolvePhase::AwaitImport,
        source_program(src, nums, false) == Some(Ok::<SProgram, crate::karu_syntax::SParseError>(p)),
        !(s.frames.last().program.use_schema && !p.use_schema),
        s.stack.contains(s.pending),
    ensures
        step_spec(s, Ok(src), nums) matches Some((s2, SAction::Fail(e))) && s2.phase == ResolvePhase::Finished
            && e == (SResolveError { message: cycle_text(s.stack, s.pending), path: s.pending }),
{
}

/// A `use schema;` file that imports an untyped file ends resolution with an
/// error about the importing file.
pub proof fn law_resolve_schema_import(s: SResolve, src: Seq<char>, nums: Seq<(Seq<char>, SReading)>, p: SProgram)
    requires
        resolve_wf(s),
        s.phase == ResolvePhase::AwaitImport,
        source_program(src, nums, false) == Some(Ok::<SProgram, crate::karu_syntax::SParseError>(p)),
    ensures
        s.frames.last().program.use_schema && !p.use_schema ==> (step_spec(s, Ok(src), nums) matches Some(
            (s2, SAction::Fail(e)),
        ) && s2.phase == ResolvePhase::Finished && e == (SResolveError {
            message: schema_error_text(s.frames.last().program.imports[s.frames.last().next as int]),
            path: s.frames.last().path,
        })),
{
}

/// A file imported a second time, not on the current chain, is not followed
/// again and not loaded again as a program: resolution moves on to the next
/// import of the importing file.
pub proof fn law_resolve_imported_twice(s: SResolve, src: Seq<char>, nums: Seq<(Seq<char>, SReading)>, p: SProgram)
    requires
        resolve_wf(s),
        s.phase == ResolvePhase::AwaitImport,
        source_program(src, nums, false) == Some(Ok::<SProgram, crate::karu_syntax::SParseError>(p)),
        !(s.frames.last().program.use_schema && !p.use_schema),
        s.visited.contains(s.pending),
        !s.stack.contains(s.pending),
    ensures
        step_spec(s, Ok(src), nums) == Some(advance(SResolve { frames: bump(s.frames), ..s })),
{
}

/// The JSON number the Cedar import makes of an integer is in canonical
/// form: a `PosInt` for a non-negative one, a negative `NegInt` otherwise.
pub proof fn law_int_json_canonical(n: i64)
    ensures
        json_wf(int_json(n)),
        n >= 0 ==> int_json(n) == JsonV::Number(crate::json::Number::PosInt(n as u64)),
{
}

// ----------------------------------------------------------------------------
// Parsing with and without test blocks
// ----------------------------------------------------------------------------

/// The token stream ends with `Eof`.
pub open spec fn eof_last(c: PIn) -> bool {
    c.ts.len() > 0 && c.ts[c.ts.len() - 1].token == Token::Eof
}

/// Skipping braces from `a` or from `b` ends alike, at any open depth.
pub open spec fn brace_neutral(c: PIn, a: int, b: int) -> bool {
    forall|d: nat| d >= 1 ==> #[trigger] skip_braces(c, a, d) == skip_braces(c, b, d)
}

proof fn lemma_step(c: PIn, pos: int)
    requires
        0 <= pos < c.ts.len(),
        tk(c, pos) != Token::LBrace,
        tk(c, pos) != Token::RBrace,
        tk(c, pos) != Token::Eof,
    ensures
        brace_neutral(c, pos, pos + 1),
{
    assert forall|d: nat| d >= 1 implies #[trigger] skip_braces(c, pos, d) == skip_braces(c, pos + 1, d) by {}
}

proof fn lemma_trans(c: PIn, a: int, b: int, e: int)
    requires
        brace_neutral(c, a, b),
        brace_neutral(c, b, e),
    ensures
        brace_neutral(c, a, e),
{
    assert forall|d: nat| d >= 1 implies #[trigger] skip_braces(c, a, d) == skip_braces(c, e, d) by {
        assert(skip_braces(c, a, d) == skip_braces(c, b, d));
        assert(skip_braces(c, b, d) == skip_braces(c, e, d));
    }
}

proof fn lemma_group(c: PIn, pos: int, p1: int)
    requires
        0 <= pos < c.ts.len(),
        0 <= p1 < c.ts.len(),
        tk(c, pos) == Token::LBrace,
        tk(c, p1) == Token::RBrace,
        brace_neutral(c, pos + 1, p1),
    ensures
        brace_neutral(c, pos, p1 + 1),
{
    assert forall|d: nat| d >= 1 implies #[trigger] skip_braces(c, pos, d) == skip_braces(c, p1 + 1, d) by {
        assert(skip_braces(c, pos, d) == skip_braces(c, pos + 1, d + 1));
        assert(skip_braces(c, pos + 1, (d + 1) as nat) == skip_braces(c, p1, (d + 1) as nat));
        assert(skip_braces(c, p1, (d + 1) as nat) == skip_braces(c, p1 + 1, d));
    }
}

proof fn lemma_before_eof(c: PIn, pos: int)
    requires
        eof_last(c),
        0 <= pos < c.ts.len(),
        tk(c, pos) != Token::Eof,
    ensures
        pos + 1 < c.ts.len(),
{
}

proof fn lemma_test_value(c: PIn, pos: int)
    requires
        eof_last(c),
        test_value(c, pos) is Ok,
    ensures
        pos < test_value(c, pos)->Ok_0.1 < c.ts.len(),
        brace_neutral(c, pos, test_value(c, pos)->Ok_0.1),
    decreases crate::karu_syntax::rem(c, pos), 3nat,
{
    let t = tk(c, pos);
    lemma_before_eof(c, pos);
    if t == Token::LBrace {
        lemma_value_entries(c, pos + 1, Seq::empty());
        let p1 = value_entries(c, pos + 1, Seq::empty())->Ok_0.1;
        lemma_group(c, pos, p1);
        lemma_before_eof(c, p1);
    } else if t == Token::LBracket {
        lemma_step(c, pos);
        lemma_value_items(c, pos + 1, Seq::empty());
        let p1 = value_items(c, pos + 1, Seq::empty())->Ok_0.1;
        lemma_before_eof(c, p1);
        lemma_step(c, p1);
        lemma_trans(c, pos, pos + 1, p1);
        lemma_trans(c, pos, p1, p1 + 1);
    } else {
        lemma_step(c, pos);
    }
}

proof fn lemma_value_entries(c: PIn, pos: int, es: Seq<(Seq<char>, JsonV)>)
    requires
        eof_last(c),
        value_entries(c, pos, es) is Ok,
    ensures
        pos <= value_entries(c, pos, es)->Ok_0.1 < c.ts.len(),
        tk(c, value_entries(c, pos, es)->Ok_0.1) == Token::RBrace,
        brace_neutral(c, pos, value_entries(c, pos, es)->Ok_0.1),
    decreases crate::karu_syntax::rem(c, pos), 2nat,
{
    if tk(c, pos) != Token::RBrace {
        lemma_before_eof(c, pos);
        lemma_step(c, pos);
        let p1 = pos + 1;
        lemma_before_eof(c, p1);
        lemma_step(c, p1);
        let p2 = p1 + 1;
        lemma_test_value(c, p2);
        let (k, _) = crate::karu_syntax::expect_ident(c, pos)->Ok_0;
        let (v, p3) = test_value(c, p2)->Ok_0;
        let q = skip_opt(c, p3, Token::Comma);
        if tk(c, p3) == Token::Comma {
            lemma_step(c, p3);
        }
        lemma_value_entries(c, q, crate::karu_syntax::map_insert(es, k, v));
        lemma_trans(c, pos, p1, p2);
        lemma_trans(c, pos, p2, p3);
        lemma_trans(c, pos, p3, q);
        lemma_trans(c, pos, q, value_entries(c, pos, es)->Ok_0.1);
    }
}

proof fn lemma_value_items(c: PIn, pos: int, vs: Seq<JsonV>)
    requires
        eof_last(c),
        value_items(c, pos, vs) is Ok,
    ensures
        pos <= value_items(c, pos, vs)->Ok_0.1 < c.ts.len(),
        tk(c, value_items(c, pos, vs)->Ok_0.1) == Token::RBracket,
        brace_neutral(c, pos, value_items(c, pos, vs)->Ok_0.1),
    decreases crate::karu_syntax::rem(c, pos), 4nat,
{
    if tk(c, pos) != Token::RBracket {
        lemma_test_value(c, pos);
        let (v, p1) = test_value(c, pos)->Ok_0;
        let q = skip_opt(c, p1, Token::Comma);
        if tk(c, p1) == Token::Comma {
            lemma_step(c, p1);
        }
        lemma_value_items(c, q, vs.push(v));
        lemma_trans(c, pos, p1, q);
        lemma_trans(c, pos, q, value_items(c, pos, vs)->Ok_0.1);
    }
}

proof fn lemma_entity_fields(c: PIn, pos: int, fs: Seq<(Seq<char>, JsonV)>)
    requires
        eof_last(c),
        entity_fields(c, pos, fs) is Ok,
    ensures
        pos <= entity_fields(c, pos, fs)->Ok_0.1 < c.ts.len(),
        tk(c, entity_fields(c, pos, fs)->Ok_0.1) == Token::RBrace,
        brace_neutral(c, pos, entity_fields(c, pos, fs)->Ok_0.1),
    decreases crate::karu_syntax::rem(c, pos),
{
    if tk(c, pos) != Token::RBrace {
        lemma_before_eof(c, pos);
        lemma_step(c, pos);
        let p1 = pos + 1;
        lemma_before_eof(c, p1);
        lemma_step(c, p1);
        let p2 = p1 + 1;
        lemma_test_value(c, p2);
        let (k, _) = crate::karu_syntax::expect_ident(c, pos)->Ok_0;
        let (v, p3) = test_value(c, p2)->Ok_0;
        let q = skip_opt(c, p3, Token::Comma);
        if tk(c, p3) == Token::Comma {
            lemma_step(c, p3);
        }
        lemma_entity_fields(c, q, fs.push((k, v)));
        lemma_trans(c, pos, p1, p2);
        lemma_trans(c, pos, p2, p3);
        lemma_trans(c, pos, p3, q);
        lemma_trans(c, pos, q, entity_fields(c, pos, fs)->Ok_0.1);
    }
}

proof fn lemma_expect_entries(c: PIn, pos: int, acc: Seq<(EffectAst, Seq<char>)>)
    requires
        eof_last(c),
        expect_entries(c, pos, acc) is Ok,
    ensures
        pos <= expect_entries(c, pos, acc)->Ok_0.1 < c.ts.len(),
        tk(c, expect_entries(c, pos, acc)->Ok_0.1) == Token::RBrace,
        brace_neutral(c, pos, expect_entries(c, pos, acc)->Ok_0.1),
    decreases crate::karu_syntax::rem(c, pos),
{
    if tk(c, pos) != Token::RBrace {
        lemma_before_eof(c, pos);
        lemma_step(c, pos);
        let p1 = pos + 1;
        lemma_before_eof(c, p1);
        lemma_step(c, p1);
        let p2 = p1 + 1;
        let eff = if tk(c, pos) == Token::Allow {
            EffectAst::Allow
        } else {
            EffectAst::Deny
        };
        let (n, _) = crate::karu_syntax::expect_ident(c, p1)->Ok_0;
        let q = skip_opt(c, p2, Token::Comma);
        if tk(c, p2) == Token::Comma {
            lemma_step(c, p2);
        }
        lemma_expect_entries(c, q, acc.push((eff, n)));
        lemma_trans(c, pos, p1, p2);
        lemma_trans(c, pos, p2, q);
        lemma_trans(c, pos, q, expect_entries(c, pos, acc)->Ok_0.1);
    }
}

proof fn lemma_test_items(c: PIn, pos: int, ents: Seq<STestEntity>, exp: Option<SExpected>)
    requires
        eof_last(c),
        test_items(c, pos, ents, exp) is Ok,
    ensures
        pos <= test_items(c, pos, ents, exp)->Ok_0.2 < c.ts.len(),
        tk(c, test_items(c, pos, ents, exp)->Ok_0.2) == Token::RBrace,
        brace_neutral(c, pos, test_items(c, pos, ents, exp)->Ok_0.2),
    decreases crate::karu_syntax::rem(c, pos),
{
    let end = test_items(c, pos, ents, exp)->Ok_0.2;
    if tk(c, pos) == Token::RBrace {
    } else if tk(c, pos) == Token::Expect {
        lemma_before_eof(c, pos);
        lemma_step(c, pos);
        let q = pos + 1;
        if tk(c, q) == Token::LBrace {
            lemma_expect_entries(c, q + 1, Seq::empty());
            let (es, p1) = expect_entries(c, q + 1, Seq::empty())->Ok_0;
            lemma_group(c, q, p1);
            lemma_before_eof(c, p1);
            lemma_test_items(c, p1 + 1, ents, Some(SExpected::PerRule(es)));
            lemma_trans(c, pos, q, p1 + 1);
            lemma_trans(c, pos, p1 + 1, end);
        } else {
            lemma_before_eof(c, q);
            lemma_step(c, q);
            let e2 = if tk(c, q) == Token::Allow {
                EffectAst::Allow
            } else {
                EffectAst::Deny
            };
            lemma_test_items(c, q + 1, ents, Some(SExpected::Simple(e2)));
            lemma_trans(c, pos, q, q + 1);
            lemma_trans(c, pos, q + 1, end);
        }
    } else {
        lemma_before_eof(c, pos);
        lemma_step(c, pos);
        let (kind, p1) = crate::karu_syntax::expect_ident(c, pos)->Ok_0;
        if tk(c, p1) == Token::LBrace {
            lemma_entity_fields(c, p1 + 1, Seq::empty());
            let (fs, p2) = entity_fields(c, p1 + 1, Seq::empty())->Ok_0;
            lemma_group(c, p1, p2);
            lemma_before_eof(c, p2);
            lemma_test_items(c, p2 + 1, ents.push(STestEntity { kind, fields: fs, shorthand: false }), exp);
            lemma_trans(c, pos, p1, p2 + 1);
            lemma_trans(c, pos, p2 + 1, end);
        } else {
            lemma_test_value(c, p1);
            let (v, p2) = test_value(c, p1)->Ok_0;
            lemma_test_items(
                c,
                p2,
                ents.push(STestEntity { kind, fields: seq![("id"@, v)], shorthand: true }),
                exp,
            );
            lemma_trans(c, pos, p1, p2);
            lemma_trans(c, pos, p2, end);
        }
    }
}

proof fn lemma_skip_test(c: PIn, pos: int)
    requires
        eof_last(c),
        test_block(c, pos) is Ok,
    ensures
        skip_test(c, pos) == Ok::<int, crate::karu_syntax::SParseError>(test_block(c, pos)->Ok_0.1),
{
    let (_, p1) = test_name(c, pos)->Ok_0;
    let p2 = p1 + 1;
    lemma_test_items(c, p2, Seq::empty(), None);
    let p3 = test_items(c, p2, Seq::empty(), None)->Ok_0.2;
    assert(skip_braces(c, p2, 1) == skip_braces(c, p3, 1));
    assert(skip_braces(c, p3, 1) == skip_braces(c, p3 + 1, 0));
}

/// The declarations other than tests agree.
pub open spec fn same_decls(a: SItems, b: SItems) -> bool {
    a.modules == b.modules && a.assertions == b.assertions && a.rules == b.rules
}

proof fn lemma_items_skip_tests(c: PIn, pos: int, acc: SItems, acc2: SItems)
    requires
        eof_last(c),
        items(c, true, pos, acc) is Ok,
        same_decls(acc, acc2),
    ensures
        items(c, false, pos, acc2) == Ok::<SItems, crate::karu_syntax::SParseError>(
            SItems { tests: acc2.tests, ..items(c, true, pos, acc)->Ok_0 },
        ),
    decreases crate::karu_syntax::rem(c, pos),
{
    let t = tk(c, pos);
    if t == Token::Eof {
    } else if t == Token::Mod {
        let (m, p1) = crate::karu_syntax::module(c, pos)->Ok_0;
        lemma_items_skip_tests(
            c,
            p1,
            SItems { modules: acc.modules.push(m), ..acc },
            SItems { modules: acc2.modules.push(m), ..acc2 },
        );
    } else if t == Token::Assert {
        let (a, p1) = crate::karu_syntax::assert_def(c, pos)->Ok_0;
        lemma_items_skip_tests(
            c,
            p1,
            SItems { assertions: acc.assertions.push(a), ..acc },
            SItems { assertions: acc2.assertions.push(a), ..acc2 },
        );
    } else if t == Token::Allow || t == Token::Deny {
        let (r, p1) = crate::karu_syntax::rule(c, pos)->Ok_0;
        lemma_items_skip_tests(
            c,
            p1,
            SItems { rules: acc.rules.push(r), ..acc },
            SItems { rules: acc2.rules.push(r), ..acc2 },
        );
    } else if t == Token::Test {
        let (tb, p1) = test_block(c, pos)->Ok_0;
        lemma_skip_test(c, pos);
        lemma_items_skip_tests(c, p1, SItems { tests: acc.tests.push(tb), ..acc }, acc2);
    }
}

/// Parsing without test blocks skips them and otherwise agrees with parsing
/// them: when the source parses with its tests, it parses without them to
/// the same program, with no tests.
pub proof fn law_parse_skips_tests(cs: Seq<char>, nums: Seq<(Seq<char>, SReading)>)
    requires
        source_program(cs, nums, true) matches Some(Ok(_)),
    ensures
        source_program(cs, nums, false) == Some(
            Ok::<SProgram, crate::karu_syntax::SParseError>(
                SProgram { tests: Seq::empty(), ..source_program(cs, nums, true)->0->Ok_0 },
            ),
        ),
{
    let ts = karu_lex_spec(cs)->Ok_0;
    lemma_lex_ends_with_eof(cs, 0, Seq::empty());
    let c = PIn { ts, nums };
    assert(eof_last(c));
    let empty = SItems {
        modules: Seq::empty(),
        assertions: Seq::empty(),
        rules: Seq::empty(),
        tests: Seq::empty(),
    };
    if c.ts.len() > 0 {
        let u: Result<(bool, int), crate::karu_syntax::SParseError> = if tk(c, 0) == Token::Use {
            match expect_tok(c, 1, Token::Schema) {
                Err(e) => Err(e),
                Ok(p1) => match expect_tok(c, p1, Token::Semi) {
                    Err(e) => Err(e),
                    Ok(p2) => Ok((true, p2)),
                },
            }
        } else {
            Ok((false, 0))
        };
        if let Ok((_, p1)) = u {
            if let Ok((_, p2)) = crate::karu_syntax::imports(c, p1, Seq::empty()) {
                lemma_items_skip_tests(c, p2, empty, empty);
            }
        }
    }
}

proof fn lemma_lex_ends_with_eof(cs: Seq<char>, i: int, acc: Seq<SSpanned>)
    requires
        lex_from(cs, i, acc) is Ok,
    ensures
        lex_from(cs, i, acc)->Ok_0.len() > 0,
        lex_from(cs, i, acc)->Ok_0.last().token == Token::Eof,
    decreases cs.len() - i,
{
    if 0 <= i <= cs.len() {
        if let Ok((t, e)) = crate::karu_lexer::next_spec(cs, i) {
            if t.token != Token::Eof && i < e <= cs.len() {
                lemma_lex_ends_with_eof(cs, e, if t.token == Token::Comment { acc } else { acc.push(t) });
            }
        }
    }
}
// ----------------------------------------------------------------------------
// Policy decisions
// ----------------------------------------------------------------------------

/// A rule of the given effect that applies makes "some rule of that effect
/// applies" true.
pub proof fn lemma_some_applies_true(
    rules: Seq<Rule>,
    eff: Effect,
    root: JsonV,
    host: Seq<(Seq<char>, bool)>,
    k: int,
    n: nat,
)
    requires
        0 <= k < n <= rules.len(),
        rules[k].effect == eff,
        rule_applies(rules[k], root, host) == Some(true),
    ensures
        some_applies(rules, eff, root, host, n) == Some(true),
    decreases n,
{
    if k < n - 1 {
        lemma_some_applies_true(rules, eff, root, host, k, (n - 1) as nat);
    }
}

/// Where no rule applies, "some rule applies" is false.
pub proof fn lemma_some_applies_false(
    rules: Seq<Rule>,
    eff: Effect,
    root: JsonV,
    host: Seq<(Seq<char>, bool)>,
    n: nat,
)
    requires
        n <= rules.len(),
        forall|k: int| 0 <= k < rules.len() ==> rule_applies(#[trigger] rules[k], root, host) == Some(false),
    ensures
        some_applies(rules, eff, root, host, n) == Some(false),
    decreases n,
{
    if n > 0 {
        lemma_some_applies_false(rules, eff, root, host, (n - 1) as nat);
    }
}

/// Deny overrides allow: when a deny rule applies to a request, the policy
/// denies it, whatever its allow rules say.
pub proof fn law_deny_overrides(rules: Seq<Rule>, k: int, root: JsonV, host: Seq<(Seq<char>, bool)>)
    requires
        0 <= k < rules.len(),
        rules[k].effect == Effect::Deny,
        rule_applies(rules[k], root, host) == Some(true),
    ensures
        evaluate_spec(rules, root, host) == Some(Effect::Deny),
{
    lemma_some_applies_true(rules, Effect::Deny, root, host, k, rules.len());
}

/// A policy allows a request exactly when every deny rule is found not to
/// apply and some allow rule applies.
pub proof fn law_allow_exactly(rules: Seq<Rule>, root: JsonV, host: Seq<(Seq<char>, bool)>)
    ensures
        evaluate_spec(rules, root, host) == Some(Effect::Allow) <==> (some_applies(
            rules,
            Effect::Deny,
            root,
            host,
            rules.len(),
        ) == Some(false) && some_applies(rules, Effect::Allow, root, host, rules.len()) == Some(true)),
{
    let deny = some_applies(rules, Effect::Deny, root, host, rules.len());
    let allow = some_applies(rules, Effect::Allow, root, host, rules.len());
    match deny {
        Some(d) => {
            if !d {
                match allow {
                    Some(a) => {},
                    None => {},
                }
            }
        },
        None => {},
    }
}

/// Deny by default: when no rule applies to a request, the policy denies it.
pub proof fn law_default_deny(rules: Seq<Rule>, root: JsonV, host: Seq<(Seq<char>, bool)>)
    requires
        forall|k: int| 0 <= k < rules.len() ==> rule_applies(#[trigger] rules[k], root, host) == Some(false),
    ensures
        evaluate_spec(rules, root, host) == Some(Effect::Deny),
{
    lemma_some_applies_false(rules, Effect::Deny, root, host, rules.len());
    lemma_some_applies_false(rules, Effect::Allow, root, host, rules.len());
}

/// A rule names an assertion by writing its name alone: it compiles to what
/// the assertion's body compiles to, with the assertion marked as being
/// inlined.
pub proof fn law_assertion_inlined(
    name: Seq<char>,
    asserts: Seq<SAssert>,
    host: Seq<Seq<char>>,
    types: Seq<Seq<char>>,
    expanding: Set<Seq<char>>,
)
    requires
        assert_lookup(asserts, name) is Some,
        !expanding.contains(name),
    ensures
        compile_spec(
            SExprAst::Compare(seq![SegV::Field(name)], OpAst::Eq, SPattern::Literal(JsonV::Bool(true))),
            asserts,
            host,
            types,
            expanding,
        ) == compile_spec(assert_lookup(asserts, name)->0, asserts, host, types, expanding.insert(name)),
{
}

/// An assertion reached again while it is being inlined is a cycle: the
/// compilation fails, naming it.
pub proof fn law_assertion_cycle(
    name: Seq<char>,
    asserts: Seq<SAssert>,
    host: Seq<Seq<char>>,
    types: Seq<Seq<char>>,
    expanding: Set<Seq<char>>,
)
    requires
        assert_lookup(asserts, name) is Some,
        expanding.contains(name),
    ensures
        compile_spec(
            SExprAst::Compare(seq![SegV::Field(name)], OpAst::Eq, SPattern::Literal(JsonV::Bool(true))),
            asserts,
            host,
            types,
            expanding,
        ) == Err::<SCond, Seq<char>>(circular_message(name)),
{
}

/// An inline test that expects an effect passes exactly when the policy
/// decides that effect on the request the test describes; where it fails,
/// its message names both.
pub proof fn law_simple_test_passes(ls: Seq<Seq<char>>, rules: Seq<Rule>, t: STest, eff: EffectAst)
    requires
        t.expected == SExpected::Simple(eff),
    ensures
        test_result(ls, rules, t).passed <==> evaluate_spec(rules, test_input(t), Seq::empty()) == Some(
            expected_effect(eff),
        ),
        !test_result(ls, rules, t).passed ==> test_result(ls, rules, t).message == "expected "@ + effect_word(
            expected_effect(eff),
        ) + ", got "@ + outcome_word(evaluate_spec(rules, test_input(t), Seq::empty())),
{
}

/// A rule's coverage is full exactly when some test has it apply and some
/// has it not.
pub proof fn law_full_coverage(ls: Seq<Seq<char>>, r: Rule, tests: Seq<STest>)
    ensures
        coverage_of(ls, r, tests).status == "full"@ <==> (coverage_of(ls, r, tests).has_positive
            && coverage_of(ls, r, tests).has_negative),
{
    reveal_strlit("full");
    reveal_strlit("partial");
    reveal_strlit("none");
    assert("partial"@.len() != "full"@.len());
    assert("none"@[0] != "full"@[0]);
}

// ----------------------------------------------------------------------------
// Lexing what a punctuation token prints as
// ----------------------------------------------------------------------------

/// A text of one or two characters with no whitespace that the lexer reads
/// as the token `t`, ending at `n`, lexes to `t` and then `Eof`.
proof fn lemma_lex_short(cs: Seq<char>, t: Token, n: int)
    requires
        1 <= cs.len() <= 2,
        n == cs.len(),
        !is_whitespace_spec(cs[0]),
        cs.len() == 2 ==> cs[1] != '\n',
        lex_token(cs, 0) == Ok::<(Token, Seq<char>, int), SError>((t, Seq::empty(), n)),
        t != Token::Eof,
        t != Token::Comment,
    ensures
        karu_lex_spec(cs) == Ok::<Seq<SSpanned>, SError>(
            seq![
                SSpanned { token: t, text: Seq::empty(), line: 1, column: 1 },
                SSpanned { token: Token::Eof, text: Seq::empty(), line: 1, column: (n + 1) as nat },
            ],
        ),
{
    assert(ws_end(cs, 0) == 0);
    assert(line_col(cs, 0) == (1nat, 1nat));
    assert(ws_end(cs, n) == n);
    if n == 2 {
        assert(line_col(cs, 1) == (1nat, 2nat));
        assert(cs[0] != '\n');
    } else {
        assert(cs[0] != '\n');
    }
    assert(line_col(cs, n) == (1nat, (n + 1) as nat));
    let first = SSpanned { token: t, text: Seq::empty(), line: 1, column: 1 };
    assert(next_spec(cs, 0) == Ok::<(SSpanned, int), SError>((first, n)));
    assert(lex_from(cs, 0, Seq::empty()) == lex_from(cs, n, seq![first]));
    assert(seq![first].push(SSpanned { token: Token::Eof, text: Seq::empty(), line: 1, column: (n + 1) as nat })
        =~= seq![
        first,
        SSpanned { token: Token::Eof, text: Seq::empty(), line: 1, column: (n + 1) as nat },
    ]);
}

/// Each punctuation and comparison token, printed as its source spelling,
/// lexes back to itself followed by `Eof`.
pub proof fn law_punctuation_round_trip(t: Token)
    requires
        t == Token::LParen || t == Token::RParen || t == Token::LBrace || t == Token::RBrace || t
            == Token::LBracket || t == Token::RBracket || t == Token::Comma || t == Token::Colon || t
            == Token::Semi || t == Token::Dot || t == Token::Pipe || t == Token::Question || t == Token::Lt
            || t == Token::Gt || t == Token::Eq || t == Token::Ne || t == Token::Le || t == Token::Ge,
    ensures
        karu_lex_spec(token_word(t)) == Ok::<Seq<SSpanned>, SError>(
            seq![
                SSpanned { token: t, text: Seq::empty(), line: 1, column: 1 },
                SSpanned {
                    token: Token::Eof,
                    text: Seq::empty(),
                    line: 1,
                    column: (token_word(t).len() + 1) as nat,
                },
            ],
        ),
{
    reveal_strlit("(");
    reveal_strlit(")");
    reveal_strlit("{");
    reveal_strlit("}");
    reveal_strlit("[");
    reveal_strlit("]");
    reveal_strlit(",");
    reveal_strlit(":");
    reveal_strlit(";");
    reveal_strlit(".");
    reveal_strlit("|");
    reveal_strlit("?");
    reveal_strlit("<");
    reveal_strlit(">");
    reveal_strlit("==");
    reveal_strlit("!=");
    reveal_strlit("<=");
    reveal_strlit(">=");
    let cs = token_word(t);
    lemma_lex_short(cs, t, cs.len() as int);
}

// ----------------------------------------------------------------------------
// What comparison operators mean
// ----------------------------------------------------------------------------

/// `n` is the integer `i`, in canonical form (a negative number is a `NegInt`).
pub open spec fn int_num(n: Number, i: int) -> bool {
    match n {
        Number::PosInt(u) => i == u,
        Number::NegInt(k) => k < 0 && i == k,
        Number::FloatBits(_) => false,
    }
}

/// The relation between integers that an operator written with the
/// character `c`, followed by `=` when `two`, denotes in both Karu and Cedar:
/// `<`, `<=`, `>`, `>=`, `==`, `!=`.
pub open spec fn holds_by_chars(c: char, two: bool, i: int, j: int) -> bool {
    if c == '<' {
        if two {
            i <= j
        } else {
            i < j
        }
    } else if c == '>' {
        if two {
            i >= j
        } else {
            i > j
        }
    } else if c == '=' {
        two && i == j
    } else if c == '!' {
        two && i != j
    } else {
        false
    }
}

/// A compiled comparison of the value at a path with an integer literal,
/// where the path holds an integer: what it evaluates to, by the operator's
/// leaf semantics.
proof fn lemma_int_compare(
    l: Seq<SegV>,
    o: OpAst,
    y: Number,
    asserts: Seq<SAssert>,
    host: Seq<Seq<char>>,
    types: Seq<Seq<char>>,
    expanding: Set<Seq<char>>,
    c: ConditionExpr,
    root: JsonV,
    bs: Seq<(Seq<char>, JsonV)>,
    answers: Seq<(Seq<char>, bool)>,
    x: Number,
    i: int,
    j: int,
)
    requires
        o == OpAst::Eq || o == OpAst::Ne || o == OpAst::Lt || o == OpAst::Gt || o == OpAst::Le || o == OpAst::Ge,
        compile_spec(SExprAst::Compare(l, o, SPattern::Literal(JsonV::Number(y))), asserts, host, types, expanding)
            == Ok::<SCond, Seq<char>>(c@),
        resolve_spec(l, root, bs) == Some(JsonV::Number(x)),
        int_num(x, i),
        int_num(y, j),
    ensures
        cond_eval(c, root, bs, answers) == Some(
            if o == OpAst::Eq {
                i == j
            } else if o == OpAst::Ne {
                i != j
            } else if o == OpAst::Lt {
                i < j
            } else if o == OpAst::Gt {
                i > j
            } else if o == OpAst::Le {
                i <= j
            } else {
                i >= j
            },
        ),
{
    assert(bare_name(l, o, SPattern::Literal(JsonV::Number(y))) is None);
    match c {
        ConditionExpr::Leaf { path, op, pattern } => {
            assert(path@ == l);
            match pattern {
                Pattern::Literal(v) => {
                    assert(v@ == JsonV::Number(y));
                },
                _ => {
                    assert(false);
                },
            }
        },
        _ => {
            assert(false);
        },
    }
}

/// The comparison operators of Karu mean what they are written as: a
/// comparison lexed from `<`, `<=`, `>`, `>=`, `==` or `!=`, parsed, compiled
/// and evaluated with integers on both sides, holds exactly when that
/// relation holds between the integers.
pub proof fn law_karu_comparison_meaning(
    cs: Seq<char>,
    k: int,
    t: Token,
    text: Seq<char>,
    e: int,
    o: OpAst,
    l: Seq<SegV>,
    y: Number,
    asserts: Seq<SAssert>,
    host: Seq<Seq<char>>,
    types: Seq<Seq<char>>,
    expanding: Set<Seq<char>>,
    c: ConditionExpr,
    root: JsonV,
    bs: Seq<(Seq<char>, JsonV)>,
    answers: Seq<(Seq<char>, bool)>,
    x: Number,
    i: int,
    j: int,
)
    requires
        0 <= k < cs.len(),
        lex_token(cs, k) == Ok::<(Token, Seq<char>, int), SError>((t, text, e)),
        op_of(t) == Some(o),
        compile_spec(SExprAst::Compare(l, o, SPattern::Literal(JsonV::Number(y))), asserts, host, types, expanding)
            == Ok::<SCond, Seq<char>>(c@),
        resolve_spec(l, root, bs) == Some(JsonV::Number(x)),
        int_num(x, i),
        int_num(y, j),
    ensures
        cond_eval(c, root, bs, answers) == Some(holds_by_chars(cs[k], e - k == 2, i, j)),
{
    lemma_int_compare(l, o, y, asserts, host, types, expanding, c, root, bs, answers, x, i, j);
    let ch = cs[k];
    assert(keyword(cs.subrange(k, word_end(cs, k + 1))) != t);
    if ch == '<' || ch == '>' || ch == '=' || ch == '!' {
    } else {
        assert(false);
    }
}

/// Each comparison token parses to the operator that prints as the token's
/// own spelling, and every comparison token parses to an operator.
pub proof fn law_karu_operator_spelling(t: Token)
    ensures
        op_of(t) matches Some(o) ==> op_text(o) == token_word(t),
        (t == Token::Eq || t == Token::Ne || t == Token::Lt || t == Token::Gt || t == Token::Le || t == Token::Ge)
            ==> op_of(t) is Some,
{
}

/// Inequality is the negation of equality: a compiled `path != pattern`
/// holds exactly when `path == pattern` does not, wherever the path has a
/// value.
pub proof fn law_ne_negates_eq(
    l: Seq<SegV>,
    p: SPattern,
    asserts: Seq<SAssert>,
    host: Seq<Seq<char>>,
    types: Seq<Seq<char>>,
    expanding: Set<Seq<char>>,
    path: Path,
    op: Operator,
    pattern: Pattern,
    root: JsonV,
    bs: Seq<(Seq<char>, JsonV)>,
    answers: Seq<(Seq<char>, bool)>,
)
    requires
        compile_spec(SExprAst::Compare(l, OpAst::Ne, p), asserts, host, types, expanding) == Ok::<SCond, Seq<char>>(
            cond_view(ConditionExpr::Leaf { path, op, pattern }),
        ),
        resolve_spec(l, root, bs) is Some,
    ensures
        cond_eval(ConditionExpr::Leaf { path, op, pattern }, root, bs, answers) == knot(
            cond_eval(ConditionExpr::Leaf { path, op: Operator::Eq, pattern }, root, bs, answers),
        ),
        cond_eval(ConditionExpr::Leaf { path, op, pattern }, root, bs, answers) is Some,
{
    assert(bare_name(l, OpAst::Ne, p) is None);
}

/// A Cedar relation between a path and an integer literal, imported,
/// compiled and evaluated with an integer at the path, holds exactly when
/// the Cedar relation holds between the two integers (the relation Cedar
/// folds constant comparisons with).
pub proof fn law_import_relation_meaning(
    lhs: SExpr,
    r: CedarRelOp,
    rhs: SExpr,
    l: Seq<SegV>,
    y: Number,
    asserts: Seq<SAssert>,
    host: Seq<Seq<char>>,
    types: Seq<Seq<char>>,
    expanding: Set<Seq<char>>,
    c: ConditionExpr,
    root: JsonV,
    bs: Seq<(Seq<char>, JsonV)>,
    answers: Seq<(Seq<char>, bool)>,
    x: Number,
    i: int,
    j: int,
)
    requires
        path_of(lhs) == Ok::<Seq<SegV>, SImportError>(l),
        pattern_of(rhs) == Ok::<SPattern, SImportError>(SPattern::Literal(JsonV::Number(y))),
        expr_condition(SExpr::Relation(Box::new(lhs), r, Box::new(rhs))) matches Ok(a) && compile_spec(
            a,
            asserts,
            host,
            types,
            expanding,
        ) == Ok::<SCond, Seq<char>>(c@),
        resolve_spec(l, root, bs) == Some(JsonV::Number(x)),
        int_num(x, i),
        int_num(y, j),
    ensures
        cond_eval(c, root, bs, answers) == Some(rel_holds(i, r, j)),
{
    let o = rel_op_ast(r);
    lemma_int_compare(l, o, y, asserts, host, types, expanding, c, root, bs, answers, x, i, j);
}

/// Cedar's relational operators mean what they are written as: where the
/// lexer reads an operator from the character `c` (followed by `n`) and the
/// parser takes it as a relation, that relation holds between integers
/// exactly when the written one does; and each of `<`, `<=`, `>`, `>=`,
/// `==`, `!=` is read as a relation.
pub proof fn law_cedar_relation_spelling(c: char, has_n: bool, n: char, i: int, j: int)
    ensures
        operator_kind(c, has_n, n) matches Some((k, len)) ==> (rel_op(k) matches Some(r) ==> rel_holds(i, r, j)
            == holds_by_chars(c, len == 2, i, j)),
        (c == '<' || c == '>' || ((c == '=' || c == '!') && has_n && n == '=')) ==> (operator_kind(
            c,
            has_n,
            n,
        ) matches Some((k, _)) && rel_op(k) is Some),
{
}

} // verus!
