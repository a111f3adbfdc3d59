//! Variable bindings captured by pattern matching.
use vstd::prelude::*;
use crate::json::{Value, JsonV};
use crate::json_ops::copy_value;

verus! {

/// A binding context: values captured under variable names.
#[derive(Debug)]
pub struct Bindings {
    values: Vec<(String, Value)>,
}

/// The map a list of entries denotes: later entries override earlier ones.
pub open spec fn bmap(es: Seq<(String, Value)>) -> Map<Seq<char>, JsonV>
    decreases es.len(),
{
    if es.len() == 0 {
        Map::empty()
    } else {
        bmap(es.drop_last()).insert(es.last().0@, es.last().1@)
    }
}

/// No two entries share a key.
pub open spec fn keys_distinct(es: Seq<(String, Value)>) -> bool {
    forall|i: int, j: int| 0 <= i < j < es.len() ==> es[i].0@ != es[j].0@
}

proof fn lemma_bmap(es: Seq<(String, Value)>)
    requires
        keys_distinct(es),
    ensures
        bmap(es).dom().finite(),
        bmap(es).dom().len() == es.len(),
        forall|k: Seq<char>| #[trigger]
            bmap(es).dom().contains(k) <==> exists|i: int| 0 <= i < es.len() && es[i].0@ == k,
        forall|i: int| 0 <= i < es.len() ==> #[trigger] bmap(es)[es[i].0@] == es[i].1@,
    decreases es.len(),
{
    if es.len() > 0 {
        let d = es.drop_last();
        assert(keys_distinct(d));
        lemma_bmap(d);
        let lk = es.last().0@;
        assert(!bmap(d).dom().contains(lk)) by {
            if bmap(d).dom().contains(lk) {
                let i = choose|i: int| 0 <= i < d.len() && d[i].0@ == lk;
                assert(es[i].0@ == es[es.len() - 1].0@);
            }
        }
        assert forall|k: Seq<char>| #[trigger]
            bmap(es).dom().contains(k) <==> exists|i: int| 0 <= i < es.len() && es[i].0@ == k by {
            if bmap(d).dom().contains(k) {
                let i = choose|i: int| 0 <= i < d.len() && d[i].0@ == k;
                assert(es[i].0@ == k);
            }
            if exists|i: int| 0 <= i < es.len() && es[i].0@ == k {
                let i = choose|i: int| 0 <= i < es.len() && es[i].0@ == k;
                if i < es.len() - 1 {
                    assert(d[i].0@ == k);
                }
            }
        }
        assert forall|i: int| 0 <= i < es.len() implies #[trigger] bmap(es)[es[i].0@] == es[i].1@ by {
            if i < es.len() - 1 {
                assert(d[i] == es[i]);
                assert(es[i].0@ != lk);
            }
        }
    }
}

proof fn lemma_bmap_update(es: Seq<(String, Value)>, j: int, e: (String, Value))
    requires
        0 <= j < es.len(),
        es[j].0@ == e.0@,
        keys_distinct(es),
    ensures
        bmap(es.update(j, e)) == bmap(es).insert(e.0@, e.1@),
        keys_distinct(es.update(j, e)),
    decreases es.len(),
{
    let u = es.update(j, e);
    if j == es.len() - 1 {
        assert(u.drop_last() == es.drop_last());
    } else {
        let d = es.drop_last();
        assert(keys_distinct(d));
        lemma_bmap_update(d, j, e);
        assert(u.drop_last() == d.update(j, e));
        assert(es.last().0@ != e.0@);
        assert(bmap(u) =~= bmap(es).insert(e.0@, e.1@));
    }
}

proof fn lemma_bmap_push(es: Seq<(String, Value)>, e: (String, Value))
    ensures
        bmap(es.push(e)) == bmap(es).insert(e.0@, e.1@),
{
    assert(es.push(e).drop_last() == es);
}

impl View for Bindings {
    type V = Map<Seq<char>, JsonV>;

    closed spec fn view(&self) -> Map<Seq<char>, JsonV> {
        bmap(self.values@)
    }
}

impl Bindings {
    /// Well-formedness: no name is bound twice.
    pub closed spec fn wf(&self) -> bool {
        keys_distinct(self.values@)
    }

    /// An empty binding context.
    pub fn new() -> (b: Bindings)
        ensures
            b.wf(),
            b@ == Map::<Seq<char>, JsonV>::empty(),
    {
        Bindings { values: Vec::new() }
    }

    /// Binds `value` to `name`, replacing an earlier binding of that name.
    pub fn bind(&mut self, name: &str, value: Value)
        requires
            old(self).wf(),
        ensures
            final(self).wf(),
            final(self)@ == old(self)@.insert(name@, value@),
    {
        let key = String::from_str(name);
        let mut i: usize = 0;
        while i < self.values.len()
            invariant
                i <= self.values.len(),
                key@ == name@,
                forall|j: int| 0 <= j < i ==> self.values@[j].0@ != name@,
                keys_distinct(self.values@),
                self.values@ == old(self).values@,
            decreases self.values.len() - i,
        {
            if self.values[i].0 == key {
                let ghost old_vals = self.values@;
                proof {
                    lemma_bmap_update(old_vals, i as int, (key, value));
                }
                self.values.set(i, (key, value));
                return;
            }
            i += 1;
        }
        let ghost old_vals = self.values@;
        proof {
            lemma_bmap_push(old_vals, (key, value));
            assert(keys_distinct(old_vals.push((key, value))));
        }
        self.values.push((key, value));
    }

    fn find(&self, name: &str) -> (r: Option<usize>)
        ensures
            match r {
                Some(i) => i < self.values.len() && self.values@[i as int].0@ == name@,
                None => forall|j: int| 0 <= j < self.values.len() ==> self.values@[j].0@ != name@,
            },
    {
        let key = String::from_str(name);
        let mut i: usize = 0;
        while i < self.values.len()
            invariant
                i <= self.values.len(),
                key@ == name@,
                forall|j: int| 0 <= j < i ==> self.values@[j].0@ != name@,
            decreases self.values.len() - i,
        {
            if self.values[i].0 == key {
                return Some(i);
            }
            i += 1;
        }
        None
    }

    /// The value bound to `name`.
    pub fn get(&self, name: &str) -> (r: Option<&Value>)
        requires
            self.wf(),
        ensures
            r is Some <==> self@.dom().contains(name@),
            r matches Some(v) ==> v@ == self@[name@],
    {
        proof {
            lemma_bmap(self.values@);
        }
        match self.find(name) {
            Some(i) => Some(&self.values[i].1),
            None => None,
        }
    }

    /// Whether `name` is bound.
    pub fn contains(&self, name: &str) -> (r: bool)
        requires
            self.wf(),
        ensures
            r == self@.dom().contains(name@),
    {
        proof {
            lemma_bmap(self.values@);
        }
        self.find(name).is_some()
    }

    /// All bindings, each name once.
    pub fn iter(&self) -> (r: Vec<(&String, &Value)>)
        requires
            self.wf(),
        ensures
            r.len() == self@.len(),
            forall|i: int, j: int| 0 <= i < j < r.len() ==> r@[i].0@ != r@[j].0@,
            forall|i: int|
                0 <= i < r.len() ==> self@.dom().contains(#[trigger] r@[i].0@) && self@[r@[i].0@]
                    == r@[i].1@,
    {
        proof {
            lemma_bmap(self.values@);
        }
        let mut r: Vec<(&String, &Value)> = Vec::new();
        let mut i: usize = 0;
        while i < self.values.len()
            invariant
                i <= self.values.len(),
                r.len() == i,
                forall|j: int| 0 <= j < i ==> #[trigger] r@[j].0 == self.values@[j].0 && r@[j].1
                    == self.values@[j].1,
            decreases self.values.len() - i,
        {
            r.push((&self.values[i].0, &self.values[i].1));
            i += 1;
        }
        proof {
            assert forall|i: int|
                0 <= i < r.len() implies self@.dom().contains(#[trigger] r@[i].0@) && self@[r@[i].0@]
                == r@[i].1@ by {
                assert(bmap(self.values@)[self.values@[i].0@] == self.values@[i].1@);
            }
        }
        r
    }

    /// The number of bound names.
    pub fn len(&self) -> (n: usize)
        requires
            self.wf(),
        ensures
            n == self@.len(),
    {
        proof {
            lemma_bmap(self.values@);
        }
        self.values.len()
    }

    /// Whether nothing is bound.
    pub fn is_empty(&self) -> (b: bool)
        requires
            self.wf(),
        ensures
            b == (self@.len() == 0),
    {
        proof {
            lemma_bmap(self.values@);
        }
        self.values.len() == 0
    }

    /// Adds every binding of `other`; `other` wins where both bind a name.
    pub fn extend(&mut self, other: Bindings)
        requires
            old(self).wf(),
            other.wf(),
        ensures
            final(self).wf(),
            final(self)@ == old(self)@.union_prefer_right(other@),
    {
        let ghost start = self@;
        let ghost ovals = other.values@;
        let Bindings { values } = other;
        let mut i: usize = 0;
        let mut vals = values;
        assert(ovals.len() == vals.len());
        assert(ovals.take(0) == Seq::<(String, Value)>::empty());
        assert(start.union_prefer_right(bmap(ovals.take(0))) =~= start);
        while vals.len() > 0
            invariant
                i <= ovals.len(),
                vals@ == ovals.skip(i as int),
                i + vals.len() == ovals.len(),
                ovals.len() <= usize::MAX,
                self@ == start.union_prefer_right(bmap(ovals.take(i as int))),
                self.wf(),
            decreases vals.len(),
        {
            let (k, v) = vals.remove(0);
            assert(ovals[i as int] == (k, v));
            proof {
                lemma_bmap_push(ovals.take(i as int), (k, v));
                assert(ovals.take(i + 1) == ovals.take(i as int).push((k, v)));
            }
            self.bind(k.as_str(), v);
            proof {
                assert(self@ =~= start.union_prefer_right(bmap(ovals.take(i + 1))));
                assert(vals@ =~= ovals.skip(i + 1));
            }
            i += 1;
        }
        assert(ovals.take(i as int) == ovals);
    }

    /// A new context with the bindings of both; `other` wins where both bind a name.
    pub fn merged(&self, other: &Bindings) -> (r: Bindings)
        requires
            self.wf(),
            other.wf(),
        ensures
            r.wf(),
            r@ == self@.union_prefer_right(other@),
    {
        let mut result = self.copy();
        let o = other.copy();
        result.extend(o);
        result
    }

    /// A copy of this context.
    pub fn copy(&self) -> (r: Bindings)
        requires
            self.wf(),
        ensures
            r.wf(),
            r@ == self@,
    {
        let mut vals: Vec<(String, Value)> = Vec::new();
        let mut i: usize = 0;
        while i < self.values.len()
            invariant
                i <= self.values.len(),
                keys_distinct(self.values@),
                vals.len() == i,
                forall|j: int| 0 <= j < i ==> (#[trigger] vals@[j]).0@ == self.values@[j].0@
                    && vals@[j].1@ == self.values@[j].1@,
                bmap(vals@) == bmap(self.values@.take(i as int)),
            decreases self.values.len() - i,
        {
            let k = self.values[i].0.clone();
            let v = copy_value(&self.values[i].1);
            proof {
                lemma_bmap_push(vals@, (k, v));
                lemma_bmap_push(self.values@.take(i as int), self.values@[i as int]);
                assert(self.values@.take(i + 1) == self.values@.take(i as int).push(self.values@[i as int]));
            }
            vals.push((k, v));
            i += 1;
        }
        assert(self.values@.take(i as int) == self.values@);
        Bindings { values: vals }
    }
}

} // verus!
