//! Structural matching of JSON data against patterns.
//!
//! Object patterns match when the data has every key the pattern names with a
//! matching value; keys the pattern does not name are ignored. Array patterns
//! match element by element. Named variables capture the values they match.
use vstd::prelude::*;
use crate::json::{Value, JsonV, json_eq, obj_lookup, lemma_view_array};
use crate::json_ops::{json_equal, copy_value};
use crate::pattern::{Pattern, TypeConstraint};
use crate::bindings::Bindings;
use crate::glob::{glob_spec, glob_match};

verus! {

/// Whether `d` is of the JSON type `c`.
pub open spec fn type_ok(d: JsonV, c: TypeConstraint) -> bool {
    match c {
        TypeConstraint::String => d is Str,
        TypeConstraint::Number => d is Number,
        TypeConstraint::Bool => d is Bool,
        TypeConstraint::Array => d is Array,
        TypeConstraint::Object => d is Object,
        TypeConstraint::Null => d is Null,
    }
}

/// Whether data `d` matches pattern `p`.
pub open spec fn matches_spec(d: JsonV, p: Pattern) -> bool
    decreases p, 0int,
{
    match p {
        Pattern::Literal(v) => json_eq(d, v@),
        Pattern::Variable(_) => true,
        Pattern::Object(fs) => match d {
            JsonV::Object(es) => fields_match(es, fs@, fs@.len()),
            _ => false,
        },
        Pattern::Array(ps) => match d {
            JsonV::Array(vs) => vs.len() == ps@.len() && elems_match(vs, ps@, ps@.len()),
            _ => false,
        },
        Pattern::Not(inner) => !matches_spec(d, *inner),
        Pattern::Or(alts) => any_alt(d, alts@, 0),
        Pattern::And(cs) => all_conj(d, cs@, cs@.len()),
        Pattern::PathRef(_) => false,
        Pattern::Glob(g) => match d {
            JsonV::Str(s) => glob_spec(g@, s),
            _ => false,
        },
        Pattern::Type(c) => type_ok(d, c),
    }
}

/// The first `n` field patterns all find their key in `es` with a matching value.
pub open spec fn fields_match(es: Seq<(Seq<char>, JsonV)>, fs: Seq<(String, Pattern)>, n: nat) -> bool
    decreases fs, n,
{
    if n == 0 || n > fs.len() {
        n == 0
    } else {
        fields_match(es, fs, (n - 1) as nat) && match obj_lookup(es, fs[n - 1].0@) {
            Some(v) => matches_spec(v, fs[n - 1].1),
            None => false,
        }
    }
}

/// The first `n` element patterns match the corresponding elements.
pub open spec fn elems_match(vs: Seq<JsonV>, ps: Seq<Pattern>, n: nat) -> bool
    decreases ps, n,
{
    if n == 0 || n > ps.len() {
        n == 0
    } else {
        elems_match(vs, ps, (n - 1) as nat) && n - 1 < vs.len() && matches_spec(
            vs[n - 1],
            ps[n - 1],
        )
    }
}

/// Some alternative from index `i` on matches.
pub open spec fn any_alt(d: JsonV, alts: Seq<Pattern>, i: nat) -> bool
    decreases alts, alts.len() - i,
{
    if i >= alts.len() {
        false
    } else {
        matches_spec(d, alts[i as int]) || any_alt(d, alts, i + 1)
    }
}

/// The first `n` conjuncts match.
pub open spec fn all_conj(d: JsonV, cs: Seq<Pattern>, n: nat) -> bool
    decreases cs, n,
{
    if n == 0 || n > cs.len() {
        n == 0
    } else {
        all_conj(d, cs, (n - 1) as nat) && matches_spec(d, cs[n - 1])
    }
}

/// What a successful match of `d` against `p` captures: each named variable
/// maps to the value it matched; where a name is captured twice, the later
/// capture (in pattern order) wins. An `Or` captures what its first matching
/// alternative captures; a `Not` captures nothing.
pub open spec fn binds_spec(d: JsonV, p: Pattern) -> Map<Seq<char>, JsonV>
    decreases p, 0int,
{
    match p {
        Pattern::Variable(Some(n)) => Map::empty().insert(n@, d),
        Pattern::Object(fs) => match d {
            JsonV::Object(es) => fields_binds(es, fs@, fs@.len()),
            _ => Map::empty(),
        },
        Pattern::Array(ps) => match d {
            JsonV::Array(vs) => elems_binds(vs, ps@, ps@.len()),
            _ => Map::empty(),
        },
        Pattern::Or(alts) => or_binds(d, alts@, 0),
        Pattern::And(cs) => conj_binds(d, cs@, cs@.len()),
        _ => Map::empty(),
    }
}

/// Captures of the first `n` field patterns.
pub open spec fn fields_binds(es: Seq<(Seq<char>, JsonV)>, fs: Seq<(String, Pattern)>, n: nat) -> Map<
    Seq<char>,
    JsonV,
>
    decreases fs, n,
{
    if n == 0 || n > fs.len() {
        Map::empty()
    } else {
        fields_binds(es, fs, (n - 1) as nat).union_prefer_right(
            match obj_lookup(es, fs[n - 1].0@) {
                Some(v) => binds_spec(v, fs[n - 1].1),
                None => Map::empty(),
            },
        )
    }
}

/// Captures of the first `n` element patterns.
pub open spec fn elems_binds(vs: Seq<JsonV>, ps: Seq<Pattern>, n: nat) -> Map<Seq<char>, JsonV>
    decreases ps, n,
{
    if n == 0 || n > ps.len() {
        Map::empty()
    } else {
        elems_binds(vs, ps, (n - 1) as nat).union_prefer_right(
            if n - 1 < vs.len() {
                binds_spec(vs[n - 1], ps[n - 1])
            } else {
                Map::empty()
            },
        )
    }
}

/// Captures of the first matching alternative from index `i` on.
pub open spec fn or_binds(d: JsonV, alts: Seq<Pattern>, i: nat) -> Map<Seq<char>, JsonV>
    decreases alts, alts.len() - i,
{
    if i >= alts.len() {
        Map::empty()
    } else if matches_spec(d, alts[i as int]) {
        binds_spec(d, alts[i as int])
    } else {
        or_binds(d, alts, i + 1)
    }
}

/// Captures of the first `n` conjuncts.
pub open spec fn conj_binds(d: JsonV, cs: Seq<Pattern>, n: nat) -> Map<Seq<char>, JsonV>
    decreases cs, n,
{
    if n == 0 || n > cs.len() {
        Map::empty()
    } else {
        conj_binds(d, cs, (n - 1) as nat).union_prefer_right(binds_spec(d, cs[n - 1]))
    }
}

} // verus!

verus! {

/// Whether `p` contains a named variable anywhere (not counting under `Not`,
/// whose captures are discarded, where it still counts).
pub open spec fn needs_bindings(p: Pattern) -> bool
    decreases p, 0int,
{
    match p {
        Pattern::Variable(Some(_)) => true,
        Pattern::Object(fs) => fields_need(fs@, fs@.len()),
        Pattern::Array(ps) => list_needs(ps@, ps@.len()),
        Pattern::Not(inner) => needs_bindings(*inner),
        Pattern::Or(ps) => list_needs(ps@, ps@.len()),
        Pattern::And(ps) => list_needs(ps@, ps@.len()),
        _ => false,
    }
}

pub open spec fn fields_need(fs: Seq<(String, Pattern)>, n: nat) -> bool
    decreases fs, n,
{
    if n == 0 || n > fs.len() {
        false
    } else {
        fields_need(fs, (n - 1) as nat) || needs_bindings(fs[n - 1].1)
    }
}

pub open spec fn list_needs(ps: Seq<Pattern>, n: nat) -> bool
    decreases ps, n,
{
    if n == 0 || n > ps.len() {
        false
    } else {
        list_needs(ps, (n - 1) as nat) || needs_bindings(ps[n - 1])
    }
}

/// A pattern without named variables captures nothing.
pub proof fn lemma_no_binds(d: JsonV, p: Pattern)
    requires
        !needs_bindings(p),
    ensures
        binds_spec(d, p) == Map::<Seq<char>, JsonV>::empty(),
    decreases p, 0int,
{
    match p {
        Pattern::Object(fs) => {
            if let JsonV::Object(es) = d {
                lemma_no_binds_fields(es, fs@, fs@.len());
            }
        },
        Pattern::Array(ps) => {
            if let JsonV::Array(vs) = d {
                lemma_no_binds_elems(vs, ps@, ps@.len());
            }
        },
        Pattern::Or(ps) => {
            lemma_no_binds_or(d, ps@, 0);
        },
        Pattern::And(ps) => {
            lemma_no_binds_conj(d, ps@, ps@.len());
        },
        _ => {},
    }
}

proof fn lemma_no_binds_fields(es: Seq<(Seq<char>, JsonV)>, fs: Seq<(String, Pattern)>, n: nat)
    requires
        !fields_need(fs, n),
    ensures
        fields_binds(es, fs, n) == Map::<Seq<char>, JsonV>::empty(),
    decreases fs, n,
{
    if 0 < n <= fs.len() {
        lemma_no_binds_fields(es, fs, (n - 1) as nat);
        if let Some(v) = obj_lookup(es, fs[n - 1].0@) {
            lemma_no_binds(v, fs[n - 1].1);
        }
        assert(fields_binds(es, fs, n) =~= Map::<Seq<char>, JsonV>::empty());
    }
}

proof fn lemma_no_binds_elems(vs: Seq<JsonV>, ps: Seq<Pattern>, n: nat)
    requires
        !list_needs(ps, n),
    ensures
        elems_binds(vs, ps, n) == Map::<Seq<char>, JsonV>::empty(),
    decreases ps, n,
{
    if 0 < n <= ps.len() {
        lemma_no_binds_elems(vs, ps, (n - 1) as nat);
        if n - 1 < vs.len() {
            lemma_no_binds(vs[n - 1], ps[n - 1]);
        }
        assert(elems_binds(vs, ps, n) =~= Map::<Seq<char>, JsonV>::empty());
    }
}

proof fn lemma_list_needs(ps: Seq<Pattern>, n: nat, i: int)
    requires
        !list_needs(ps, n),
        0 <= i < n <= ps.len(),
    ensures
        !needs_bindings(ps[i]),
    decreases n,
{
    if i < n - 1 {
        lemma_list_needs(ps, (n - 1) as nat, i);
    }
}

proof fn lemma_no_binds_or(d: JsonV, ps: Seq<Pattern>, i: nat)
    requires
        !list_needs(ps, ps.len()),
    ensures
        or_binds(d, ps, i) == Map::<Seq<char>, JsonV>::empty(),
    decreases ps, ps.len() - i,
{
    if i < ps.len() {
        lemma_list_needs(ps, ps.len(), i as int);
        lemma_no_binds(d, ps[i as int]);
        lemma_no_binds_or(d, ps, i + 1);
    }
}

proof fn lemma_no_binds_conj(d: JsonV, ps: Seq<Pattern>, n: nat)
    requires
        !list_needs(ps, n),
    ensures
        conj_binds(d, ps, n) == Map::<Seq<char>, JsonV>::empty(),
    decreases ps, n,
{
    if 0 < n <= ps.len() {
        lemma_no_binds_conj(d, ps, (n - 1) as nat);
        lemma_no_binds(d, ps[n - 1]);
        assert(conj_binds(d, ps, n) =~= Map::<Seq<char>, JsonV>::empty());
    }
}

proof fn lemma_fields_match_mono(es: Seq<(Seq<char>, JsonV)>, fs: Seq<(String, Pattern)>, m: nat, n: nat)
    requires
        m <= n <= fs.len(),
        fields_match(es, fs, n),
    ensures
        fields_match(es, fs, m),
    decreases n - m,
{
    if m < n {
        lemma_fields_match_mono(es, fs, m, (n - 1) as nat);
    }
}

proof fn lemma_elems_match_mono(vs: Seq<JsonV>, ps: Seq<Pattern>, m: nat, n: nat)
    requires
        m <= n <= ps.len(),
        elems_match(vs, ps, n),
    ensures
        elems_match(vs, ps, m),
    decreases n - m,
{
    if m < n {
        lemma_elems_match_mono(vs, ps, m, (n - 1) as nat);
    }
}

proof fn lemma_all_conj_mono(d: JsonV, cs: Seq<Pattern>, m: nat, n: nat)
    requires
        m <= n <= cs.len(),
        all_conj(d, cs, n),
    ensures
        all_conj(d, cs, m),
    decreases n - m,
{
    if m < n {
        lemma_all_conj_mono(d, cs, m, (n - 1) as nat);
    }
}

/// Whether `data` matches `pattern` (nothing is captured).
fn match_ref_inner(data: &Value, pattern: &Pattern) -> (r: bool)
    ensures
        r == matches_spec(data@, *pattern),
    decreases pattern,
{
    match pattern {
        Pattern::Literal(lit) => json_equal(data, lit),
        Pattern::Variable(_) => true,
        Pattern::Object(fs) => {
            match data {
                Value::Object(es) => {
                    let ghost ev = crate::json::jv_obj(es@, es@.len());
                    assert(data@ == JsonV::Object(ev));
                    let mut i: usize = 0;
                    while i < fs.len()
                        invariant
                            i <= fs.len(),
                            data@ == JsonV::Object(ev),
                            *pattern == Pattern::Object(*fs),
                            fields_match(ev, fs@, i as nat),
                        decreases fs.len() - i,
                    {
                        let found = data.get_field(fs[i].0.as_str());
                        match found {
                            Some(v) => {
                                proof {
                                    vstd::std_specs::vec::axiom_vec_index_decreases(*fs, i as int);
                                    assert(decreases_to!(*pattern => (*pattern)->Object_0));
                                    assert(decreases_to!(*fs => fs[i as int]));
                                    assert(decreases_to!(fs[i as int] => fs[i as int].1));
                                }
                                if !match_ref_inner(v, &fs[i].1) {
                                    proof {
                                        if fields_match(ev, fs@, fs@.len()) {
                                            lemma_fields_match_mono(ev, fs@, (i + 1) as nat, fs@.len());
                                        }
                                    }
                                    return false;
                                }
                            },
                            None => {
                                proof {
                                    if fields_match(ev, fs@, fs@.len()) {
                                        lemma_fields_match_mono(ev, fs@, (i + 1) as nat, fs@.len());
                                    }
                                }
                                return false;
                            },
                        }
                        i += 1;
                    }
                    true
                },
                _ => false,
            }
        },
        Pattern::Array(ps) => {
            match data {
                Value::Array(vs) => {
                    proof {
                        lemma_view_array(*vs);
                    }
                    let ghost vv = crate::json::jv_arr(vs@, vs@.len());
                    if vs.len() != ps.len() {
                        return false;
                    }
                    let mut i: usize = 0;
                    while i < ps.len()
                        invariant
                            i <= ps.len(),
                            vs.len() == ps.len(),
                            vv.len() == vs.len(),
                            data@ == JsonV::Array(vv),
                            forall|k: int| 0 <= k < vs.len() ==> #[trigger] vv[k] == vs@[k]@,
                            *pattern == Pattern::Array(*ps),
                            elems_match(vv, ps@, i as nat),
                        decreases ps.len() - i,
                    {
                        proof {
                            vstd::std_specs::vec::axiom_vec_index_decreases(*ps, i as int);
                            assert(decreases_to!(*pattern => (*pattern)->Array_0));
                            assert(decreases_to!(*ps => ps[i as int]));
                        }
                        if !match_ref_inner(&vs[i], &ps[i]) {
                            proof {
                                if elems_match(vv, ps@, ps@.len()) {
                                    lemma_elems_match_mono(vv, ps@, (i + 1) as nat, ps@.len());
                                }
                            }
                            return false;
                        }
                        i += 1;
                    }
                    true
                },
                _ => false,
            }
        },
        Pattern::Not(inner) => {
            proof {
                assert(decreases_to!(*pattern => (*pattern)->Not_0));
            }
            !match_ref_inner(data, inner)
        },
        Pattern::Or(alts) => {
            let mut i: usize = 0;
            while i < alts.len()
                invariant
                    i <= alts.len(),
                    *pattern == Pattern::Or(*alts),
                    any_alt(data@, alts@, 0) == any_alt(data@, alts@, i as nat),
                decreases alts.len() - i,
            {
                proof {
                    vstd::std_specs::vec::axiom_vec_index_decreases(*alts, i as int);
                    assert(decreases_to!(*pattern => (*pattern)->Or_0));
                    assert(decreases_to!(*alts => alts[i as int]));
                }
                if match_ref_inner(data, &alts[i]) {
                    return true;
                }
                i += 1;
            }
            false
        },
        Pattern::And(cs) => {
            let mut i: usize = 0;
            while i < cs.len()
                invariant
                    i <= cs.len(),
                    *pattern == Pattern::And(*cs),
                    all_conj(data@, cs@, i as nat),
                decreases cs.len() - i,
            {
                proof {
                    vstd::std_specs::vec::axiom_vec_index_decreases(*cs, i as int);
                    assert(decreases_to!(*pattern => (*pattern)->And_0));
                    assert(decreases_to!(*cs => cs[i as int]));
                }
                if !match_ref_inner(data, &cs[i]) {
                    proof {
                        if all_conj(data@, cs@, cs@.len()) {
                            lemma_all_conj_mono(data@, cs@, (i + 1) as nat, cs@.len());
                        }
                    }
                    return false;
                }
                i += 1;
            }
            true
        },
        Pattern::PathRef(_) => false,
        Pattern::Glob(g) => match data {
            Value::String(s) => glob_match(g.as_str(), s.as_str()),
            _ => false,
        },
        Pattern::Type(c) => match c {
            TypeConstraint::String => matches!(data, Value::String(_)),
            TypeConstraint::Number => matches!(data, Value::Number(_)),
            TypeConstraint::Bool => matches!(data, Value::Bool(_)),
            TypeConstraint::Array => matches!(data, Value::Array(_)),
            TypeConstraint::Object => matches!(data, Value::Object(_)),
            TypeConstraint::Null => matches!(data, Value::Null),
        },
    }
}

} // verus!

verus! {

/// Matches `data` against `pattern`, adding the captures to `bindings`.
fn match_inner(data: &Value, pattern: &Pattern, bindings: &mut Bindings) -> (r: bool)
    requires
        old(bindings).wf(),
    ensures
        final(bindings).wf(),
        r == matches_spec(data@, *pattern),
        r ==> final(bindings)@ == old(bindings)@.union_prefer_right(binds_spec(data@, *pattern)),
    decreases pattern,
{
    match pattern {
        Pattern::Literal(lit) => {
            assert(old(bindings)@.union_prefer_right(Map::empty()) =~= old(bindings)@);
            json_equal(data, lit)
        },
        Pattern::Variable(name) => {
            match name {
                Some(n) => {
                    let c = copy_value(data);
                    bindings.bind(n.as_str(), c);
                    assert(old(bindings)@.union_prefer_right(Map::empty().insert(n@, data@))
                        =~= old(bindings)@.insert(n@, data@));
                },
                None => {
                    assert(old(bindings)@.union_prefer_right(Map::empty()) =~= old(bindings)@);
                },
            }
            true
        },
        Pattern::Object(fs) => {
            match data {
                Value::Object(es) => {
                    let ghost ev = crate::json::jv_obj(es@, es@.len());
                    let ghost start = bindings@;
                    assert(data@ == JsonV::Object(ev));
                    assert(start.union_prefer_right(fields_binds(ev, fs@, 0)) =~= start);
                    let mut i: usize = 0;
                    while i < fs.len()
                        invariant
                            i <= fs.len(),
                            data@ == JsonV::Object(ev),
                            *pattern == Pattern::Object(*fs),
                            fields_match(ev, fs@, i as nat),
                            bindings.wf(),
                            bindings@ == start.union_prefer_right(fields_binds(ev, fs@, i as nat)),
                        decreases fs.len() - i,
                    {
                        let found = data.get_field(fs[i].0.as_str());
                        match found {
                            Some(v) => {
                                proof {
                                    vstd::std_specs::vec::axiom_vec_index_decreases(*fs, i as int);
                                    assert(decreases_to!(*pattern => (*pattern)->Object_0));
                                    assert(decreases_to!(*fs => fs[i as int]));
                                    assert(decreases_to!(fs[i as int] => fs[i as int].1));
                                }
                                if !match_inner(v, &fs[i].1, bindings) {
                                    proof {
                                        if fields_match(ev, fs@, fs@.len()) {
                                            lemma_fields_match_mono(ev, fs@, (i + 1) as nat, fs@.len());
                                        }
                                    }
                                    return false;
                                }
                                assert(bindings@ =~= start.union_prefer_right(
                                    fields_binds(ev, fs@, (i + 1) as nat),
                                ));
                            },
                            None => {
                                proof {
                                    if fields_match(ev, fs@, fs@.len()) {
                                        lemma_fields_match_mono(ev, fs@, (i + 1) as nat, fs@.len());
                                    }
                                }
                                return false;
                            },
                        }
                        i += 1;
                    }
                    true
                },
                _ => false,
            }
        },
        Pattern::Array(ps) => {
            match data {
                Value::Array(vs) => {
                    proof {
                        lemma_view_array(*vs);
                    }
                    let ghost vv = crate::json::jv_arr(vs@, vs@.len());
                    let ghost start = bindings@;
                    if vs.len() != ps.len() {
                        return false;
                    }
                    assert(start.union_prefer_right(elems_binds(vv, ps@, 0)) =~= start);
                    let mut i: usize = 0;
                    while i < ps.len()
                        invariant
                            i <= ps.len(),
                            vs.len() == ps.len(),
                            vv.len() == vs.len(),
                            data@ == JsonV::Array(vv),
                            forall|k: int| 0 <= k < vs.len() ==> #[trigger] vv[k] == vs@[k]@,
                            *pattern == Pattern::Array(*ps),
                            elems_match(vv, ps@, i as nat),
                            bindings.wf(),
                            bindings@ == start.union_prefer_right(elems_binds(vv, ps@, i as nat)),
                        decreases ps.len() - i,
                    {
                        proof {
                            vstd::std_specs::vec::axiom_vec_index_decreases(*ps, i as int);
                            assert(decreases_to!(*pattern => (*pattern)->Array_0));
                            assert(decreases_to!(*ps => ps[i as int]));
                        }
                        if !match_inner(&vs[i], &ps[i], bindings) {
                            proof {
                                if elems_match(vv, ps@, ps@.len()) {
                                    lemma_elems_match_mono(vv, ps@, (i + 1) as nat, ps@.len());
                                }
                            }
                            return false;
                        }
                        assert(bindings@ =~= start.union_prefer_right(
                            elems_binds(vv, ps@, (i + 1) as nat),
                        ));
                        i += 1;
                    }
                    true
                },
                _ => false,
            }
        },
        Pattern::Not(inner) => {
            proof {
                assert(decreases_to!(*pattern => (*pattern)->Not_0));
            }
            let mut scratch = Bindings::new();
            let m = match_inner(data, inner, &mut scratch);
            assert(old(bindings)@.union_prefer_right(Map::empty()) =~= old(bindings)@);
            !m
        },
        Pattern::Or(alts) => {
            let mut i: usize = 0;
            while i < alts.len()
                invariant
                    i <= alts.len(),
                    *pattern == Pattern::Or(*alts),
                    any_alt(data@, alts@, 0) == any_alt(data@, alts@, i as nat),
                    or_binds(data@, alts@, 0) == or_binds(data@, alts@, i as nat),
                    bindings.wf(),
                    bindings@ == old(bindings)@,
                decreases alts.len() - i,
            {
                proof {
                    vstd::std_specs::vec::axiom_vec_index_decreases(*alts, i as int);
                    assert(decreases_to!(*pattern => (*pattern)->Or_0));
                    assert(decreases_to!(*alts => alts[i as int]));
                }
                let mut alt_bindings = Bindings::new();
                if match_inner(data, &alts[i], &mut alt_bindings) {
                    assert(alt_bindings@ =~= binds_spec(data@, alts@[i as int]));
                    bindings.extend(alt_bindings);
                    return true;
                }
                i += 1;
            }
            false
        },
        Pattern::And(cs) => {
            let ghost start = bindings@;
            assert(start.union_prefer_right(conj_binds(data@, cs@, 0)) =~= start);
            let mut i: usize = 0;
            while i < cs.len()
                invariant
                    i <= cs.len(),
                    *pattern == Pattern::And(*cs),
                    all_conj(data@, cs@, i as nat),
                    bindings.wf(),
                    bindings@ == start.union_prefer_right(conj_binds(data@, cs@, i as nat)),
                decreases cs.len() - i,
            {
                proof {
                    vstd::std_specs::vec::axiom_vec_index_decreases(*cs, i as int);
                    assert(decreases_to!(*pattern => (*pattern)->And_0));
                    assert(decreases_to!(*cs => cs[i as int]));
                }
                if !match_inner(data, &cs[i], bindings) {
                    proof {
                        if all_conj(data@, cs@, cs@.len()) {
                            lemma_all_conj_mono(data@, cs@, (i + 1) as nat, cs@.len());
                        }
                    }
                    return false;
                }
                assert(bindings@ =~= start.union_prefer_right(conj_binds(data@, cs@, (i + 1) as nat)));
                i += 1;
            }
            true
        },
        _ => {
            assert(old(bindings)@.union_prefer_right(Map::empty()) =~= old(bindings)@);
            match_ref_inner(data, pattern)
        },
    }
}

/// Whether `data` matches `pattern`.
pub fn matches(data: &Value, pattern: &Pattern) -> (r: bool)
    ensures
        r == matches_spec(data@, *pattern),
{
    match_with_bindings(data, pattern).is_some()
}

/// Whether `data` matches `pattern`, without capturing anything.
pub fn matches_ref(data: &Value, pattern: &Pattern) -> (r: bool)
    ensures
        r == matches_spec(data@, *pattern),
{
    match_ref_inner(data, pattern)
}

fn pattern_needs_bindings(pattern: &Pattern) -> (r: bool)
    ensures
        r == needs_bindings(*pattern),
    decreases pattern,
{
    match pattern {
        Pattern::Variable(Some(_)) => true,
        Pattern::Object(fs) => {
            let mut i: usize = 0;
            while i < fs.len()
                invariant
                    i <= fs.len(),
                    *pattern == Pattern::Object(*fs),
                    !fields_need(fs@, i as nat),
                decreases fs.len() - i,
            {
                proof {
                    vstd::std_specs::vec::axiom_vec_index_decreases(*fs, i as int);
                    assert(decreases_to!(*pattern => (*pattern)->Object_0));
                    assert(decreases_to!(*fs => fs[i as int]));
                    assert(decreases_to!(fs[i as int] => fs[i as int].1));
                }
                if pattern_needs_bindings(&fs[i].1) {
                    proof {
                        lemma_fields_need_mono(fs@, (i + 1) as nat, fs@.len());
                    }
                    return true;
                }
                i += 1;
            }
            false
        },
        Pattern::Array(ps) => list_needs_exec(pattern, ps),
        Pattern::Or(ps) => list_needs_exec(pattern, ps),
        Pattern::And(ps) => list_needs_exec(pattern, ps),
        Pattern::Not(inner) => {
            proof {
                assert(decreases_to!(*pattern => (*pattern)->Not_0));
            }
            pattern_needs_bindings(inner)
        },
        _ => false,
    }
}

fn list_needs_exec(pattern: &Pattern, ps: &Vec<Pattern>) -> (r: bool)
    requires
        *pattern == Pattern::Array(*ps) || *pattern == Pattern::Or(*ps) || *pattern == Pattern::And(*ps),
    ensures
        r == list_needs(ps@, ps@.len()),
    decreases pattern, 0int,
{
    let mut i: usize = 0;
    while i < ps.len()
        invariant
            i <= ps.len(),
            *pattern == Pattern::Array(*ps) || *pattern == Pattern::Or(*ps) || *pattern == Pattern::And(*ps),
            !list_needs(ps@, i as nat),
        decreases ps.len() - i,
    {
        proof {
            vstd::std_specs::vec::axiom_vec_index_decreases(*ps, i as int);
            assert(decreases_to!(*ps => ps[i as int]));
            if *pattern == Pattern::Array(*ps) {
                assert(decreases_to!(*pattern => (*pattern)->Array_0));
            } else if *pattern == Pattern::Or(*ps) {
                assert(decreases_to!(*pattern => (*pattern)->Or_0));
            } else {
                assert(decreases_to!(*pattern => (*pattern)->And_0));
            }
        }
        if pattern_needs_bindings(&ps[i]) {
            proof {
                lemma_list_needs_mono(ps@, (i + 1) as nat, ps@.len());
            }
            return true;
        }
        i += 1;
    }
    false
}

proof fn lemma_fields_need_mono(fs: Seq<(String, Pattern)>, m: nat, n: nat)
    requires
        m <= n <= fs.len(),
        fields_need(fs, m),
    ensures
        fields_need(fs, n),
    decreases n - m,
{
    if m < n {
        lemma_fields_need_mono(fs, m, (n - 1) as nat);
    }
}

proof fn lemma_list_needs_mono(ps: Seq<Pattern>, m: nat, n: nat)
    requires
        m <= n <= ps.len(),
        list_needs(ps, m),
    ensures
        list_needs(ps, n),
    decreases n - m,
{
    if m < n {
        lemma_list_needs_mono(ps, m, (n - 1) as nat);
    }
}

/// Matches `data` against `pattern`; on a match, returns what the named
/// variables captured, and `None` otherwise.
pub fn match_with_bindings(data: &Value, pattern: &Pattern) -> (r: Option<Bindings>)
    ensures
        r is Some <==> matches_spec(data@, *pattern),
        r matches Some(b) ==> b.wf() && b@ == binds_spec(data@, *pattern),
{
    if !pattern_needs_bindings(pattern) {
        proof {
            lemma_no_binds(data@, *pattern);
        }
        return if match_ref_inner(data, pattern) {
            Some(Bindings::new())
        } else {
            None
        };
    }
    let mut bindings = Bindings::new();
    if match_inner(data, pattern, &mut bindings) {
        assert(bindings@ =~= binds_spec(data@, *pattern));
        Some(bindings)
    } else {
        None
    }
}

} // verus!

verus! {

/// Some element of `vs` from index `i` on matches `p`.
pub open spec fn some_elem_matches(vs: Seq<JsonV>, p: Pattern, i: nat) -> bool
    decreases vs.len() - i,
{
    if i >= vs.len() {
        false
    } else {
        matches_spec(vs[i as int], p) || some_elem_matches(vs, p, i + 1)
    }
}

/// Captures of the first element of `vs` from index `i` on that matches `p`.
pub open spec fn first_elem_binds(vs: Seq<JsonV>, p: Pattern, i: nat) -> Option<Map<Seq<char>, JsonV>>
    decreases vs.len() - i,
{
    if i >= vs.len() {
        None
    } else if matches_spec(vs[i as int], p) {
        Some(binds_spec(vs[i as int], p))
    } else {
        first_elem_binds(vs, p, i + 1)
    }
}

/// Some element of `items` from index `i` on equals `d`.
pub open spec fn some_item_equals(items: Seq<JsonV>, d: JsonV, i: nat) -> bool
    decreases items.len() - i,
{
    if i >= items.len() {
        false
    } else {
        json_eq(items[i as int], d) || some_item_equals(items, d, i + 1)
    }
}

/// The reverse form of `in`: the pattern is a literal array holding `d`.
pub open spec fn literal_array_holds(d: JsonV, p: Pattern) -> bool {
    match p {
        Pattern::Literal(v) => match v@ {
            JsonV::Array(items) => some_item_equals(items, d, 0),
            _ => false,
        },
        _ => false,
    }
}

/// The `in` search: some element of the data array matches the pattern, or
/// the pattern is a literal array that holds the data.
pub open spec fn any_spec(d: JsonV, p: Pattern) -> bool {
    (match d {
        JsonV::Array(vs) => some_elem_matches(vs, p, 0),
        _ => false,
    }) || literal_array_holds(d, p)
}

/// Every element of `vs` from index `i` on matches `p`.
pub open spec fn every_elem_matches(vs: Seq<JsonV>, p: Pattern, i: nat) -> bool
    decreases vs.len() - i,
{
    if i >= vs.len() {
        true
    } else {
        matches_spec(vs[i as int], p) && every_elem_matches(vs, p, i + 1)
    }
}

fn literal_array_contains(data: &Value, pattern: &Pattern) -> (r: bool)
    ensures
        r == literal_array_holds(data@, *pattern),
{
    match pattern {
        Pattern::Literal(Value::Array(items)) => {
            proof {
                lemma_view_array(*items);
            }
            let ghost iv = crate::json::jv_arr(items@, items@.len());
            let mut i: usize = 0;
            while i < items.len()
                invariant
                    i <= items.len(),
                    iv.len() == items.len(),
                    iv == crate::json::jv_arr(items@, items@.len()),
                    *pattern == Pattern::Literal(Value::Array(*items)),
                    forall|k: int| 0 <= k < items.len() ==> #[trigger] iv[k] == items@[k]@,
                    some_item_equals(iv, data@, 0) == some_item_equals(iv, data@, i as nat),
                decreases items.len() - i,
            {
                if json_equal(&items[i], data) {
                    return true;
                }
                i += 1;
            }
            false
        },
        _ => false,
    }
}

/// The `in` search: whether some element of the array `data` matches
/// `pattern`, or (reverse form) `pattern` is a literal array holding `data`.
pub fn any_matches(data: &Value, pattern: &Pattern) -> (r: bool)
    ensures
        r == any_spec(data@, *pattern),
{
    if let Value::Array(arr) = data {
        proof {
            lemma_view_array(*arr);
        }
        let ghost av = crate::json::jv_arr(arr@, arr@.len());
        let mut i: usize = 0;
        while i < arr.len()
            invariant
                i <= arr.len(),
                av.len() == arr.len(),
                data@ == JsonV::Array(av),
                forall|k: int| 0 <= k < arr.len() ==> #[trigger] av[k] == arr@[k]@,
                some_elem_matches(av, *pattern, 0) == some_elem_matches(av, *pattern, i as nat),
            decreases arr.len() - i,
        {
            if match_ref_inner(&arr[i], pattern) {
                return true;
            }
            i += 1;
        }
    }
    literal_array_contains(data, pattern)
}

/// Like `any_matches`, returning what the first matching element captured
/// (nothing is captured in the reverse form).
pub fn any_match_with_bindings(data: &Value, pattern: &Pattern) -> (r: Option<Bindings>)
    ensures
        r is Some <==> any_spec(data@, *pattern),
        r matches Some(b) ==> b.wf() && b@ == match data@ {
            JsonV::Array(vs) => match first_elem_binds(vs, *pattern, 0) {
                Some(m) => m,
                None => Map::empty(),
            },
            _ => Map::empty(),
        },
{
    if let Value::Array(arr) = data {
        proof {
            lemma_view_array(*arr);
        }
        let ghost av = crate::json::jv_arr(arr@, arr@.len());
        let mut i: usize = 0;
        while i < arr.len()
            invariant
                i <= arr.len(),
                av.len() == arr.len(),
                data@ == JsonV::Array(av),
                forall|k: int| 0 <= k < arr.len() ==> #[trigger] av[k] == arr@[k]@,
                some_elem_matches(av, *pattern, 0) == some_elem_matches(av, *pattern, i as nat),
                first_elem_binds(av, *pattern, 0) == first_elem_binds(av, *pattern, i as nat),
            decreases arr.len() - i,
        {
            if let Some(b) = match_with_bindings(&arr[i], pattern) {
                return Some(b);
            }
            i += 1;
        }
    }
    if literal_array_contains(data, pattern) {
        Some(Bindings::new())
    } else {
        None
    }
}

/// Whether `data` is an array and every element matches `pattern`.
pub fn all_match(data: &Value, pattern: &Pattern) -> (r: bool)
    ensures
        r == match data@ {
            JsonV::Array(vs) => every_elem_matches(vs, *pattern, 0),
            _ => false,
        },
{
    if let Value::Array(arr) = data {
        proof {
            lemma_view_array(*arr);
        }
        let ghost av = crate::json::jv_arr(arr@, arr@.len());
        let mut i: usize = 0;
        while i < arr.len()
            invariant
                i <= arr.len(),
                av.len() == arr.len(),
                data@ == JsonV::Array(av),
                forall|k: int| 0 <= k < arr.len() ==> #[trigger] av[k] == arr@[k]@,
                every_elem_matches(av, *pattern, 0) == every_elem_matches(av, *pattern, i as nat),
            decreases arr.len() - i,
        {
            if !match_ref_inner(&arr[i], pattern) {
                return false;
            }
            i += 1;
        }
        true
    } else {
        false
    }
}

} // verus!
