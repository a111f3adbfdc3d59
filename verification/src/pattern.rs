//! Patterns that describe the shape of JSON data. Object patterns match by
//! structure: keys the pattern does not mention are ignored.
use vstd::prelude::*;
use crate::json::Value;
use crate::path::Path;

verus! {

/// The kind of value a type-constraint pattern accepts.
#[derive(Debug, Clone, Copy, PartialEq, Eq, Structural)]
pub enum TypeConstraint {
    String,
    Number,
    Bool,
    Array,
    Object,
    Null,
}

/// A pattern that can be matched against JSON data.
#[derive(Debug)]
pub enum Pattern {
    /// Matches values equal to this one.
    Literal(Value),
    /// Matches objects having every listed key with a matching value; other
    /// keys of the data are ignored. Keys are distinct.
    Object(Vec<(String, Pattern)>),
    /// Matches arrays of the same length, element by element.
    Array(Vec<Pattern>),
    /// Matches anything; a named variable captures the matched value.
    Variable(Option<String>),
    /// Matches when the inner pattern does not.
    Not(Box<Pattern>),
    /// Matches when any alternative matches.
    Or(Vec<Pattern>),
    /// Matches when every conjunct matches.
    And(Vec<Pattern>),
    /// A reference to another path in the data, resolved before matching.
    PathRef(Path),
    /// Matches strings by a wildcard pattern (`*`, `?`).
    Glob(String),
    /// Matches values of one JSON type.
    Type(TypeConstraint),
}

/// The map a list of keyed patterns denotes: a later entry overrides an earlier one.
pub open spec fn pmap(es: Seq<(String, Pattern)>) -> Map<Seq<char>, Pattern>
    decreases es.len(),
{
    if es.len() == 0 {
        Map::empty()
    } else {
        pmap(es.drop_last()).insert(es.last().0@, es.last().1)
    }
}

/// No two entries share a key.
pub open spec fn pkeys_distinct(es: Seq<(String, Pattern)>) -> bool {
    forall|i: int, j: int| 0 <= i < j < es.len() ==> es[i].0@ != es[j].0@
}

proof fn lemma_pmap_push(es: Seq<(String, Pattern)>, e: (String, Pattern))
    ensures
        pmap(es.push(e)) == pmap(es).insert(e.0@, e.1),
{
    assert(es.push(e).drop_last() == es);
}

proof fn lemma_pmap_update(es: Seq<(String, Pattern)>, j: int, e: (String, Pattern))
    requires
        0 <= j < es.len(),
        es[j].0@ == e.0@,
        pkeys_distinct(es),
    ensures
        pmap(es.update(j, e)) == pmap(es).insert(e.0@, e.1),
        pkeys_distinct(es.update(j, e)),
    decreases es.len(),
{
    let u = es.update(j, e);
    if j == es.len() - 1 {
        assert(u.drop_last() == es.drop_last());
    } else {
        let d = es.drop_last();
        assert(pkeys_distinct(d));
        lemma_pmap_update(d, j, e);
        assert(u.drop_last() == d.update(j, e));
        assert(es.last().0@ != e.0@);
        assert(pmap(u) =~= pmap(es).insert(e.0@, e.1));
    }
}

impl Pattern {
    /// Matches values equal to `v`.
    pub fn literal(v: Value) -> (p: Pattern)
        ensures
            p == Pattern::Literal(v),
    {
        Pattern::Literal(v)
    }

    /// An anonymous wildcard: matches anything, captures nothing.
    pub fn wildcard() -> (p: Pattern)
        ensures
            p == Pattern::Variable(None),
    {
        Pattern::Variable(None)
    }

    /// A named variable: matches anything and captures it under `name`.
    pub fn var(name: &str) -> (p: Pattern)
        ensures
            p matches Pattern::Variable(Some(n)) && n@ == name@,
    {
        Pattern::Variable(Some(String::from_str(name)))
    }

    /// An object pattern from key/pattern pairs; where a key is given twice the
    /// later pattern is kept.
    pub fn object(pairs: Vec<(String, Pattern)>) -> (p: Pattern)
        ensures
            p matches Pattern::Object(fs) && pkeys_distinct(fs@) && pmap(fs@) == pmap(pairs@),
    {
        let ghost ps = pairs@;
        let mut out: Vec<(String, Pattern)> = Vec::new();
        let mut rest = pairs;
        assert(ps.len() == rest.len());
        let mut i: usize = 0;
        assert(ps.take(0) == Seq::<(String, Pattern)>::empty());
        while rest.len() > 0
            invariant
                i + rest.len() == ps.len(),
                ps.len() <= usize::MAX,
                rest@ == ps.skip(i as int),
                pkeys_distinct(out@),
                pmap(out@) == pmap(ps.take(i as int)),
            decreases rest.len(),
        {
            let (k, v) = rest.remove(0);
            assert(ps[i as int] == (k, v));
            proof {
                lemma_pmap_push(ps.take(i as int), (k, v));
                assert(ps.take(i + 1) == ps.take(i as int).push((k, v)));
            }
            let mut j: usize = 0;
            let mut found = false;
            while j < out.len()
                invariant_except_break
                    !found,
                invariant
                    j <= out.len(),
                    forall|m: int| 0 <= m < j ==> out@[m].0@ != k@,
                ensures
                    found ==> j < out.len() && out@[j as int].0@ == k@,
                    !found ==> forall|m: int| 0 <= m < out.len() ==> out@[m].0@ != k@,
                decreases out.len() - j,
            {
                if out[j].0 == k {
                    found = true;
                    break;
                }
                j += 1;
            }
            if found {
                proof {
                    lemma_pmap_update(out@, j as int, (k, v));
                }
                out.set(j, (k, v));
            } else {
                proof {
                    lemma_pmap_push(out@, (k, v));
                    assert(pkeys_distinct(out@.push((k, v))));
                }
                out.push((k, v));
            }
            assert(rest@ =~= ps.skip(i + 1));
            i += 1;
        }
        assert(ps.take(i as int) == ps);
        Pattern::Object(out)
    }

    /// Matches arrays element by element.
    pub fn array(patterns: Vec<Pattern>) -> (p: Pattern)
        ensures
            p == Pattern::Array(patterns),
    {
        Pattern::Array(patterns)
    }

    /// Negates this pattern.
    pub fn not(self) -> (p: Pattern)
        ensures
            p == Pattern::Not(Box::new(self)),
    {
        Pattern::Not(Box::new(self))
    }

    /// Matches when any of `patterns` matches.
    pub fn or(patterns: Vec<Pattern>) -> (p: Pattern)
        ensures
            p == Pattern::Or(patterns),
    {
        Pattern::Or(patterns)
    }

    /// Matches when all of `patterns` match.
    pub fn and(patterns: Vec<Pattern>) -> (p: Pattern)
        ensures
            p == Pattern::And(patterns),
    {
        Pattern::And(patterns)
    }

    /// A wildcard string pattern (`*` any run of characters, `?` one character).
    pub fn glob(pattern: &str) -> (p: Pattern)
        ensures
            p matches Pattern::Glob(g) && g@ == pattern@,
    {
        Pattern::Glob(String::from_str(pattern))
    }

    /// A type-constraint pattern.
    pub fn type_of(constraint: TypeConstraint) -> (p: Pattern)
        ensures
            p == Pattern::Type(constraint),
    {
        Pattern::Type(constraint)
    }

    /// Matches strings.
    pub fn is_string() -> (p: Pattern)
        ensures
            p == Pattern::Type(TypeConstraint::String),
    {
        Pattern::Type(TypeConstraint::String)
    }

    /// Matches numbers.
    pub fn is_number() -> (p: Pattern)
        ensures
            p == Pattern::Type(TypeConstraint::Number),
    {
        Pattern::Type(TypeConstraint::Number)
    }

    /// Matches booleans.
    pub fn is_bool() -> (p: Pattern)
        ensures
            p == Pattern::Type(TypeConstraint::Bool),
    {
        Pattern::Type(TypeConstraint::Bool)
    }

    /// Matches arrays.
    pub fn is_array() -> (p: Pattern)
        ensures
            p == Pattern::Type(TypeConstraint::Array),
    {
        Pattern::Type(TypeConstraint::Array)
    }

    /// Matches objects.
    pub fn is_object() -> (p: Pattern)
        ensures
            p == Pattern::Type(TypeConstraint::Object),
    {
        Pattern::Type(TypeConstraint::Object)
    }
}

} // verus!
