//! Running the inline tests of a Karu file against its compiled policy,
//! with the coverage each rule gets from them.
use vstd::prelude::*;
use crate::ast::{EffectAst, ExpectedOutcome, Program, STest, STestEntity, SExpected, TestDef, TestEntity, tests_view};
use crate::compiler::{Policy, Rule, evaluate_spec, rule_applies, host_view};
use crate::json::{JsonV, Value, str_eq, jv_obj, lemma_jv_obj};
use crate::json_ops::copy_value;
use crate::rule::Effect;
use crate::outline::{line_with, lines_view, line_with_exec};
use crate::text::{chars_of, contains_seq, find_exec, lines_exec, lines_of};

verus! {

/// The outcome of one inline test.
#[derive(Debug)]
pub struct TestResult {
    pub name: String,
    /// 0-based line where `test "name"` appears.
    pub line: u32,
    pub passed: bool,
    /// Why it failed; empty when it passed.
    pub message: String,
}

/// How the inline tests cover one rule.
#[derive(Debug)]
pub struct RuleCoverage {
    pub name: String,
    /// 0-based line of the rule.
    pub line: u32,
    /// Some test has the rule apply.
    pub has_positive: bool,
    /// Some test has it not apply.
    pub has_negative: bool,
    /// `none`, `partial` or `full`.
    pub status: String,
}

/// The results of a file's inline tests, with coverage.
#[derive(Debug)]
pub struct InlineTestResults {
    pub tests: Vec<TestResult>,
    pub coverage: Vec<RuleCoverage>,
}

pub struct STestResult {
    pub name: Seq<char>,
    pub line: u32,
    pub passed: bool,
    pub message: Seq<char>,
}

pub struct SCoverage {
    pub name: Seq<char>,
    pub line: u32,
    pub has_positive: bool,
    pub has_negative: bool,
    pub status: Seq<char>,
}

pub struct SInlineResults {
    pub tests: Seq<STestResult>,
    pub coverage: Seq<SCoverage>,
}

impl View for TestResult {
    type V = STestResult;

    open spec fn view(&self) -> STestResult {
        STestResult { name: self.name@, line: self.line, passed: self.passed, message: self.message@ }
    }
}

impl View for RuleCoverage {
    type V = SCoverage;

    open spec fn view(&self) -> SCoverage {
        SCoverage {
            name: self.name@,
            line: self.line,
            has_positive: self.has_positive,
            has_negative: self.has_negative,
            status: self.status@,
        }
    }
}

impl View for InlineTestResults {
    type V = SInlineResults;

    open spec fn view(&self) -> SInlineResults {
        SInlineResults {
            tests: self.tests@.map_values(|t: TestResult| t@),
            coverage: self.coverage@.map_values(|c: RuleCoverage| c@),
        }
    }
}

// ----------------------------------------------------------------------------
// The request a test describes
// ----------------------------------------------------------------------------

/// The first index from `i` on of an entry with key `k`.
pub open spec fn key_index(es: Seq<(Seq<char>, JsonV)>, k: Seq<char>, i: int) -> Option<int>
    decreases es.len() - i,
{
    if i < 0 || i >= es.len() {
        None
    } else if es[i].0 == k {
        Some(i)
    } else {
        key_index(es, k, i + 1)
    }
}

/// `es` with key `k` set to `v`: in place where the key is, else at the end.
pub open spec fn obj_insert(es: Seq<(Seq<char>, JsonV)>, k: Seq<char>, v: JsonV) -> Seq<(Seq<char>, JsonV)> {
    match key_index(es, k, 0) {
        Some(i) => es.update(i, (k, v)),
        None => es.push((k, v)),
    }
}

/// The value of the last field named `id`.
pub open spec fn last_id(fields: Seq<(Seq<char>, JsonV)>) -> Option<JsonV>
    decreases fields.len(),
{
    if fields.len() == 0 {
        None
    } else if fields.last().0 == "id"@ {
        Some(fields.last().1)
    } else {
        last_id(fields.drop_last())
    }
}

/// `es` with the first `n` fields of an entity of kind `kind` set under
/// `kind.field`.
pub open spec fn insert_fields(
    es: Seq<(Seq<char>, JsonV)>,
    kind: Seq<char>,
    fields: Seq<(Seq<char>, JsonV)>,
    n: nat,
) -> Seq<(Seq<char>, JsonV)>
    decreases n,
{
    if n == 0 || n > fields.len() {
        es
    } else {
        obj_insert(
            insert_fields(es, kind, fields, (n - 1) as nat),
            kind + "."@ + fields[n - 1].0,
            fields[n - 1].1,
        )
    }
}

/// `es` with an entity's fields set, and its kind set to its `id`.
pub open spec fn add_entity(es: Seq<(Seq<char>, JsonV)>, e: STestEntity) -> Seq<(Seq<char>, JsonV)> {
    let with = insert_fields(es, e.kind, e.fields, e.fields.len());
    match last_id(e.fields) {
        Some(id) => obj_insert(with, e.kind, id),
        None => with,
    }
}

/// The flat request of the first `n` entities.
pub open spec fn flat_entities(ents: Seq<STestEntity>, n: nat) -> Seq<(Seq<char>, JsonV)>
    decreases n,
{
    if n == 0 || n > ents.len() {
        Seq::empty()
    } else {
        add_entity(flat_entities(ents, (n - 1) as nat), ents[n - 1])
    }
}

/// The request a test describes: one flat object with `kind.field` keys,
/// and each entity's `id` under its kind.
pub open spec fn test_input(t: STest) -> JsonV {
    JsonV::Object(flat_entities(t.entities, t.entities.len()))
}

// ----------------------------------------------------------------------------
// Results
// ----------------------------------------------------------------------------

pub open spec fn effect_word(e: Effect) -> Seq<char> {
    match e {
        Effect::Allow => "Allow"@,
        Effect::Deny => "Deny"@,
    }
}

/// How a decision prints; `undecided` where the library does not decide it.
pub open spec fn outcome_word(r: Option<Effect>) -> Seq<char> {
    match r {
        Some(e) => effect_word(e),
        None => "undecided"@,
    }
}

pub open spec fn expected_effect(e: EffectAst) -> Effect {
    match e {
        EffectAst::Allow => Effect::Allow,
        EffectAst::Deny => Effect::Deny,
    }
}

/// The first rule from `i` on named `name`.
pub open spec fn find_rule(rules: Seq<Rule>, name: Seq<char>, i: int) -> Option<int>
    decreases rules.len() - i,
{
    if i < 0 || i >= rules.len() {
        None
    } else if rules[i].name@ == name {
        Some(i)
    } else {
        find_rule(rules, name, i + 1)
    }
}

/// What one rule alone gives: its effect where it applies, `Deny` where not.
pub open spec fn rule_outcome(r: Rule, input: JsonV) -> Option<Effect> {
    match rule_applies(r, input, Seq::empty()) {
        Some(true) => Some(r.effect),
        Some(false) => Some(Effect::Deny),
        None => None,
    }
}

/// The complaints about the first `n` per-rule expectations.
pub open spec fn per_rule_msgs(rules: Seq<Rule>, input: JsonV, es: Seq<(EffectAst, Seq<char>)>, n: nat) -> Seq<
    Seq<char>,
>
    decreases n,
{
    if n == 0 || n > es.len() {
        Seq::empty()
    } else {
        let prev = per_rule_msgs(rules, input, es, (n - 1) as nat);
        let (eff, name) = es[n - 1];
        let want = expected_effect(eff);
        match find_rule(rules, name, 0) {
            Some(k) => {
                let got = rule_outcome(rules[k], input);
                if got != Some(want) {
                    prev.push(
                        "rule '"@ + name + "': expected "@ + effect_word(want) + ", got "@ + outcome_word(got),
                    )
                } else {
                    prev
                }
            },
            None => prev.push("rule '"@ + name + "' not found"@),
        }
    }
}

/// The messages joined by `; `.
pub open spec fn join_msgs(ms: Seq<Seq<char>>) -> Seq<char>
    decreases ms.len(),
{
    if ms.len() == 0 {
        Seq::empty()
    } else if ms.len() == 1 {
        ms[0]
    } else {
        join_msgs(ms.drop_last()) + "; "@ + ms.last()
    }
}

/// The first line from `i` on that holds `test` and the quoted name.
pub open spec fn test_name_line(ls: Seq<Seq<char>>, name: Seq<char>, i: int) -> Option<int>
    decreases ls.len() - i,
{
    if i < 0 || i >= ls.len() {
        None
    } else if contains_seq(ls[i], "test"@) && contains_seq(ls[i], "\""@ + name + "\""@) {
        Some(i)
    } else {
        test_name_line(ls, name, i + 1)
    }
}

/// The result of one test against the rules.
pub open spec fn test_result(ls: Seq<Seq<char>>, rules: Seq<Rule>, t: STest) -> STestResult {
    let input = test_input(t);
    let line: u32 = match test_name_line(ls, t.name, 0) {
        Some(i) => i as u32,
        None => 0,
    };
    let (passed, message) = match t.expected {
        SExpected::Simple(eff) => {
            let want = expected_effect(eff);
            let got = evaluate_spec(rules, input, Seq::empty());
            if got == Some(want) {
                (true, Seq::<char>::empty())
            } else {
                (false, "expected "@ + effect_word(want) + ", got "@ + outcome_word(got))
            }
        },
        SExpected::PerRule(es) => {
            let msgs = per_rule_msgs(rules, input, es, es.len());
            (msgs.len() == 0, join_msgs(msgs))
        },
    };
    STestResult { name: t.name, line, passed, message }
}

/// Whether, among the first `n` tests, one has the rule's applying be `b`.
pub open spec fn some_test_gives(r: Rule, tests: Seq<STest>, b: bool, n: nat) -> bool
    decreases n,
{
    if n == 0 || n > tests.len() {
        false
    } else {
        some_test_gives(r, tests, b, (n - 1) as nat) || rule_applies(r, test_input(tests[n - 1]), Seq::empty())
            == Some(b)
    }
}

/// The coverage of one rule by the tests.
pub open spec fn coverage_of(ls: Seq<Seq<char>>, r: Rule, tests: Seq<STest>) -> SCoverage {
    let pos = some_test_gives(r, tests, true, tests.len());
    let neg = some_test_gives(r, tests, false, tests.len());
    SCoverage {
        name: r.name@,
        line: match line_with(ls, "allow "@ + r.name@, "deny "@ + r.name@, 0) {
            Some(i) => i as u32,
            None => 0,
        },
        has_positive: pos,
        has_negative: neg,
        status: if pos && neg {
            "full"@
        } else if pos || neg {
            "partial"@
        } else {
            "none"@
        },
    }
}

/// The results of the tests against the rules, with each rule's coverage.
pub open spec fn inline_results_spec(ls: Seq<Seq<char>>, rules: Seq<Rule>, tests: Seq<STest>) -> SInlineResults {
    SInlineResults {
        tests: Seq::new(tests.len(), |k: int| test_result(ls, rules, tests[k])),
        coverage: Seq::new(rules.len(), |k: int| coverage_of(ls, rules[k], tests)),
    }
}

// ----------------------------------------------------------------------------
// Running, computed
// ----------------------------------------------------------------------------

/// The content of an object's entries.
pub open spec fn entries_view(es: Seq<(String, Value)>) -> Seq<(Seq<char>, JsonV)> {
    jv_obj(es, es.len())
}

/// Sets key `k` of the entries to `v`.
fn obj_insert_exec(es: &mut Vec<(String, Value)>, k: String, v: Value)
    ensures
        entries_view(final(es)@) == obj_insert(entries_view(old(es)@), k@, v@),
{
    let ghost ov = entries_view(es@);
    proof {
        lemma_jv_obj(es@, es@.len());
    }
    let mut i: usize = 0;
    while i < es.len()
        invariant
            i <= es.len(),
            ov == entries_view(es@),
            es@ == old(es)@,
            ov.len() == es.len(),
            forall|j: int| 0 <= j < es.len() ==> #[trigger] ov[j] == (es@[j].0@, es@[j].1@),
            key_index(ov, k@, 0) == key_index(ov, k@, i as int),
        decreases es.len() - i,
    {
        if str_eq(es[i].0.as_str(), k.as_str()) {
            let ghost kv = k@;
            let ghost vv = v@;
            assert(ov[i as int].0 == kv);
            assert(key_index(ov, kv, i as int) == Some(i as int));
            es.set(i, (k, v));
            proof {
                lemma_jv_obj(es@, es@.len());
                assert(entries_view(es@) =~= ov.update(i as int, (kv, vv)));
            }
            return;
        }
        i += 1;
    }
    let ghost kv = k@;
    let ghost vv = v@;
    es.push((k, v));
    proof {
        lemma_jv_obj(es@, es@.len());
        assert(entries_view(es@) =~= ov.push((kv, vv)));
    }
}

/// Adds an entity of a test to the flat request.
fn add_entity_exec(es: &mut Vec<(String, Value)>, e: &TestEntity)
    ensures
        entries_view(final(es)@) == add_entity(entries_view(old(es)@), e@),
{
    let ghost fv = jv_obj(e.fields@, e.fields@.len());
    let ghost start = entries_view(es@);
    proof {
        lemma_jv_obj(e.fields@, e.fields@.len());
    }
    let mut id: Option<usize> = None;
    let mut i: usize = 0;
    assert(fv.take(0) =~= Seq::<(Seq<char>, JsonV)>::empty());
    while i < e.fields.len()
        invariant
            i <= e.fields.len(),
            fv == jv_obj(e.fields@, e.fields@.len()),
            fv.len() == e.fields.len(),
            forall|j: int| 0 <= j < e.fields.len() ==> #[trigger] fv[j] == (e.fields@[j].0@, e.fields@[j].1@),
            start == entries_view(old(es)@),
            entries_view(es@) == insert_fields(start, e.kind@, fv, i as nat),
            match id {
                Some(k) => k < i && last_id(fv.take(i as int)) == Some(fv[k as int].1),
                None => last_id(fv.take(i as int)) is None,
            },
        decreases e.fields.len() - i,
    {
        let f = &e.fields[i];
        let mut key = e.kind.clone();
        key.append(".");
        key.append(f.0.as_str());
        obj_insert_exec(es, key, copy_value(&f.1));
        proof {
            assert(fv.take(i + 1).drop_last() =~= fv.take(i as int));
            assert(fv.take(i + 1).last() == fv[i as int]);
        }
        if str_eq(f.0.as_str(), "id") {
            id = Some(i);
        }
        i += 1;
    }
    assert(fv.take(e.fields.len() as int) =~= fv);
    match id {
        Some(k) => obj_insert_exec(es, e.kind.clone(), copy_value(&e.fields[k].1)),
        None => {},
    }
}

/// The request a test describes.
fn test_input_exec(t: &TestDef) -> (v: Value)
    ensures
        v@ == test_input(t@),
{
    let mut es: Vec<(String, Value)> = Vec::new();
    let ghost ents = t@.entities;
    let mut i: usize = 0;
    assert(entries_view(es@) =~= Seq::<(Seq<char>, JsonV)>::empty());
    while i < t.entities.len()
        invariant
            i <= t.entities.len(),
            ents == t@.entities,
            ents.len() == t.entities.len(),
            entries_view(es@) == flat_entities(ents, i as nat),
        decreases t.entities.len() - i,
    {
        assert(ents[i as int] == t.entities@[i as int]@);
        add_entity_exec(&mut es, &t.entities[i]);
        i += 1;
    }
    Value::Object(es)
}

fn effect_word_exec(e: Effect) -> (s: String)
    ensures
        s@ == effect_word(e),
{
    match e {
        Effect::Allow => String::from_str("Allow"),
        Effect::Deny => String::from_str("Deny"),
    }
}

fn outcome_word_exec(r: Option<Effect>) -> (s: String)
    ensures
        s@ == outcome_word(r),
{
    match r {
        Some(e) => effect_word_exec(e),
        None => String::from_str("undecided"),
    }
}

fn find_rule_exec(rules: &Vec<Rule>, name: &String) -> (r: Option<usize>)
    ensures
        match r {
            Some(k) => find_rule(rules@, name@, 0) == Some(k as int) && k < rules.len(),
            None => find_rule(rules@, name@, 0) is None,
        },
{
    let mut i: usize = 0;
    while i < rules.len()
        invariant
            i <= rules.len(),
            find_rule(rules@, name@, 0) == find_rule(rules@, name@, i as int),
        decreases rules.len() - i,
    {
        if str_eq(rules[i].name.as_str(), name.as_str()) {
            return Some(i);
        }
        i += 1;
    }
    None
}

fn rule_outcome_exec(r: &Rule, input: &Value) -> (o: Option<Effect>)
    ensures
        o == rule_outcome(*r, input@),
{
    let host: Vec<(String, bool)> = Vec::new();
    assert(host_view(host@) =~= Seq::<(Seq<char>, bool)>::empty());
    match r.applies(input, &host) {
        Some(true) => Some(r.effect),
        Some(false) => Some(Effect::Deny),
        None => None,
    }
}

/// The complaints about per-rule expectations.
fn per_rule_exec(rules: &Vec<Rule>, input: &Value, es: &Vec<(EffectAst, String)>) -> (r: Vec<String>)
    ensures
        r@.map_values(|m: String| m@) == per_rule_msgs(
            rules@,
            input@,
            es@.map_values(|p: (EffectAst, String)| (p.0, p.1@)),
            es.len() as nat,
        ),
{
    let ghost ev = es@.map_values(|p: (EffectAst, String)| (p.0, p.1@));
    let mut out: Vec<String> = Vec::new();
    let mut n: usize = 0;
    assert(out@.map_values(|m: String| m@) =~= Seq::<Seq<char>>::empty());
    while n < es.len()
        invariant
            n <= es.len(),
            ev == es@.map_values(|p: (EffectAst, String)| (p.0, p.1@)),
            out@.map_values(|m: String| m@) == per_rule_msgs(rules@, input@, ev, n as nat),
        decreases es.len() - n,
    {
        let (eff, name) = (es[n].0, &es[n].1);
        assert(ev[n as int] == (eff, name@));
        let want = match eff {
            EffectAst::Allow => Effect::Allow,
            EffectAst::Deny => Effect::Deny,
        };
        let ghost before = out@;
        match find_rule_exec(rules, name) {
            Some(k) => {
                let got = rule_outcome_exec(&rules[k], input);
                if got != Some(want) {
                    let mut m = String::from_str("rule '");
                    m.append(name.as_str());
                    m.append("': expected ");
                    m.append(effect_word_exec(want).as_str());
                    m.append(", got ");
                    m.append(outcome_word_exec(got).as_str());
                    out.push(m);
                    assert(out@.map_values(|m: String| m@) =~= before.map_values(|m: String| m@).push(
                        out@.last()@,
                    ));
                }
            },
            None => {
                let mut m = String::from_str("rule '");
                m.append(name.as_str());
                m.append("' not found");
                out.push(m);
                assert(out@.map_values(|m: String| m@) =~= before.map_values(|m: String| m@).push(
                    out@.last()@,
                ));
            },
        }
        n += 1;
    }
    out
}

/// The messages joined by `; `.
fn join_exec(ms: &Vec<String>) -> (s: String)
    ensures
        s@ == join_msgs(ms@.map_values(|m: String| m@)),
{
    let ghost mv = ms@.map_values(|m: String| m@);
    if ms.len() == 0 {
        return String::new();
    }
    let mut s = ms[0].clone();
    let mut i: usize = 1;
    assert(mv.take(1) =~= seq![mv[0]]);
    while i < ms.len()
        invariant
            1 <= i <= ms.len(),
            mv == ms@.map_values(|m: String| m@),
            s@ == join_msgs(mv.take(i as int)),
        decreases ms.len() - i,
    {
        assert(mv.take(i + 1).drop_last() =~= mv.take(i as int));
        s.append("; ");
        s.append(ms[i].as_str());
        i += 1;
    }
    assert(mv.take(ms.len() as int) =~= mv);
    s
}

/// The first line that holds `test` and the quoted name.
fn test_name_line_exec(ls: &Vec<Vec<char>>, name: &String, Ghost(lv): Ghost<Seq<Seq<char>>>) -> (r: Option<usize>)
    requires
        lv == lines_view(ls@),
    ensures
        match r {
            Some(k) => test_name_line(lv, name@, 0) == Some(k as int),
            None => test_name_line(lv, name@, 0) is None,
        },
{
    let word = chars_of("test");
    let mut quoted = chars_of("\"");
    let mut nc = chars_of(name.as_str());
    quoted.append(&mut nc);
    quoted.push('"');
    proof {
        reveal_strlit("\"");
    }
    assert(quoted@ =~= "\""@ + name@ + "\""@);
    let mut i: usize = 0;
    while i < ls.len()
        invariant
            i <= ls.len(),
            lv == lines_view(ls@),
            word@ == "test"@,
            quoted@ == "\""@ + name@ + "\""@,
            test_name_line(lv, name@, 0) == test_name_line(lv, name@, i as int),
        decreases ls.len() - i,
    {
        assert(lv[i as int] == ls@[i as int]@);
        if find_exec(&ls[i], &word).is_some() && find_exec(&ls[i], &quoted).is_some() {
            return Some(i);
        }
        i += 1;
    }
    None
}

/// The result of one test.
fn test_result_exec(
    ls: &Vec<Vec<char>>,
    policy: &Policy,
    t: &TestDef,
    input: &Value,
    Ghost(lv): Ghost<Seq<Seq<char>>>,
) -> (r: TestResult)
    requires
        lv == lines_view(ls@),
        input@ == test_input(t@),
    ensures
        r@ == test_result(lv, policy.rules@, t@),
{
    let line: u32 = match test_name_line_exec(ls, &t.name, Ghost(lv)) {
        Some(i) => i as u32,
        None => 0,
    };
    let (passed, message) = match &t.expected {
        ExpectedOutcome::Simple(eff) => {
            let want = match eff {
                EffectAst::Allow => Effect::Allow,
                EffectAst::Deny => Effect::Deny,
            };
            let got = policy.evaluate(input);
            if got == Some(want) {
                (true, String::new())
            } else {
                let mut m = String::from_str("expected ");
                m.append(effect_word_exec(want).as_str());
                m.append(", got ");
                m.append(outcome_word_exec(got).as_str());
                (false, m)
            }
        },
        ExpectedOutcome::PerRule(es) => {
            let msgs = per_rule_exec(&policy.rules, input, es);
            let passed = msgs.len() == 0;
            (passed, join_exec(&msgs))
        },
    };
    TestResult { name: t.name.clone(), line, passed, message }
}

/// The coverage of one rule by the tests, whose requests are `inputs`.
fn coverage_exec(
    ls: &Vec<Vec<char>>,
    r: &Rule,
    inputs: &Vec<Value>,
    Ghost(tests): Ghost<Seq<STest>>,
    Ghost(lv): Ghost<Seq<Seq<char>>>,
) -> (c: RuleCoverage)
    requires
        lv == lines_view(ls@),
        inputs.len() == tests.len(),
        forall|k: int| 0 <= k < inputs.len() ==> #[trigger] inputs@[k]@ == test_input(tests[k]),
    ensures
        c@ == coverage_of(lv, *r, tests),
{
    let host: Vec<(String, bool)> = Vec::new();
    assert(host_view(host@) =~= Seq::<(Seq<char>, bool)>::empty());
    let mut pos = false;
    let mut neg = false;
    let mut n: usize = 0;
    while n < inputs.len()
        invariant
            n <= inputs.len(),
            inputs.len() == tests.len(),
            forall|k: int| 0 <= k < inputs.len() ==> #[trigger] inputs@[k]@ == test_input(tests[k]),
            host_view(host@) == Seq::<(Seq<char>, bool)>::empty(),
            pos == some_test_gives(*r, tests, true, n as nat),
            neg == some_test_gives(*r, tests, false, n as nat),
        decreases inputs.len() - n,
    {
        let a = r.applies(&inputs[n], &host);
        pos = pos || a == Some(true);
        neg = neg || a == Some(false);
        n += 1;
    }
    let name_chars = chars_of(r.name.as_str());
    let mut a = chars_of("allow ");
    let mut na = name_chars.clone();
    a.append(&mut na);
    let mut b = chars_of("deny ");
    let mut nb = name_chars.clone();
    b.append(&mut nb);
    let line: u32 = match line_with_exec(ls, &a, &b, Ghost(lv)) {
        Some(i) => i as u32,
        None => 0,
    };
    let status = if pos && neg {
        String::from_str("full")
    } else if pos || neg {
        String::from_str("partial")
    } else {
        String::from_str("none")
    };
    RuleCoverage { name: r.name.clone(), line, has_positive: pos, has_negative: neg, status }
}

/// Runs a file's inline tests against its compiled policy: each test's
/// request is its entities flattened into one object (`kind.field` keys,
/// and each entity's `id` under its kind); a test expecting an effect passes
/// when the policy decides it, one expecting per-rule effects when each named
/// rule alone gives its effect. Each rule's coverage says whether some test
/// has it apply and some has it not. `None` when the program has no tests.
pub fn run_inline_tests(source: &str, program: &Program, policy: &Policy) -> (r: Option<InlineTestResults>)
    ensures
        r is None <==> program.tests.len() == 0,
        r matches Some(x) ==> x@ == inline_results_spec(lines_of(source@), policy.rules@, program@.tests),
{
    if program.tests.len() == 0 {
        return None;
    }
    let cs = chars_of(source);
    let ls = lines_exec(&cs);
    let ghost lv = lines_of(cs@);
    assert(lines_view(ls@) == lv);
    let ghost tests = program@.tests;
    let mut inputs: Vec<Value> = Vec::new();
    let mut i: usize = 0;
    while i < program.tests.len()
        invariant
            i <= program.tests.len(),
            tests == program@.tests,
            tests.len() == program.tests.len(),
            inputs.len() == i,
            forall|k: int| 0 <= k < i ==> #[trigger] inputs@[k]@ == test_input(tests[k]),
        decreases program.tests.len() - i,
    {
        assert(tests[i as int] == program.tests@[i as int]@);
        inputs.push(test_input_exec(&program.tests[i]));
        i += 1;
    }
    let mut results: Vec<TestResult> = Vec::new();
    let mut k: usize = 0;
    while k < program.tests.len()
        invariant
            k <= program.tests.len(),
            tests == program@.tests,
            tests.len() == program.tests.len(),
            inputs.len() == program.tests.len(),
            forall|j: int| 0 <= j < inputs.len() ==> #[trigger] inputs@[j]@ == test_input(tests[j]),
            lv == lines_view(ls@),
            results.len() == k,
            forall|j: int| 0 <= j < k ==> #[trigger] results@[j]@ == test_result(lv, policy.rules@, tests[j]),
        decreases program.tests.len() - k,
    {
        assert(tests[k as int] == program.tests@[k as int]@);
        results.push(test_result_exec(&ls, policy, &program.tests[k], &inputs[k], Ghost(lv)));
        k += 1;
    }
    let mut coverage: Vec<RuleCoverage> = Vec::new();
    let mut m: usize = 0;
    while m < policy.rules.len()
        invariant
            m <= policy.rules.len(),
            inputs.len() == tests.len(),
            forall|j: int| 0 <= j < inputs.len() ==> #[trigger] inputs@[j]@ == test_input(tests[j]),
            lv == lines_view(ls@),
            coverage.len() == m,
            forall|j: int| 0 <= j < m ==> #[trigger] coverage@[j]@ == coverage_of(lv, policy.rules@[j], tests),
        decreases policy.rules.len() - m,
    {
        coverage.push(coverage_exec(&ls, &policy.rules[m], &inputs, Ghost(tests), Ghost(lv)));
        m += 1;
    }
    let out = InlineTestResults { tests: results, coverage };
    assert(out@.tests =~= Seq::new(tests.len(), |j: int| test_result(lv, policy.rules@, tests[j])));
    assert(out@.coverage =~= Seq::new(policy.rules@.len(), |j: int| coverage_of(lv, policy.rules@[j], tests)));
    Some(out)
}

} // verus!
