//! A JSON document model: the data that policies are evaluated against.
use vstd::prelude::*;

verus! {

/// A JSON number, kept in the representation a JSON number has:
/// a non-negative integer, a negative integer, or a finite binary64 float
/// held by its IEEE-754 bit pattern.
#[derive(Debug, Clone, Copy)]
pub enum Number {
    PosInt(u64),
    NegInt(i64),
    FloatBits(u64),
}

impl Number {
    /// The representation is the canonical one: `NegInt` holds a negative
    /// integer only (a non-negative one is a `PosInt`).
    pub open spec fn wf(self) -> bool {
        match self {
            Number::NegInt(i) => i < 0,
            _ => true,
        }
    }
}

/// A JSON value.
#[derive(Debug)]
pub enum Value {
    Null,
    Bool(bool),
    Number(Number),
    String(String),
    Array(Vec<Value>),
    /// Object entries in document order.
    Object(Vec<(String, Value)>),
}

/// The mathematical content of a JSON value.
pub enum JsonV {
    Null,
    Bool(bool),
    Number(Number),
    Str(Seq<char>),
    Array(Seq<JsonV>),
    Object(Seq<(Seq<char>, JsonV)>),
}

/// Every number in the value is in canonical representation.
pub open spec fn json_wf(v: JsonV) -> bool
    decreases v,
{
    match v {
        JsonV::Number(n) => n.wf(),
        JsonV::Array(vs) => forall|i: int| 0 <= i < vs.len() ==> json_wf(#[trigger] vs[i]),
        JsonV::Object(es) => forall|i: int| 0 <= i < es.len() ==> json_wf(#[trigger] es[i].1),
        _ => true,
    }
}

/// The content of a value.
pub open spec fn jv(v: Value) -> JsonV
    decreases v, 0nat,
{
    match v {
        Value::Null => JsonV::Null,
        Value::Bool(b) => JsonV::Bool(b),
        Value::Number(n) => JsonV::Number(n),
        Value::String(s) => JsonV::Str(s@),
        Value::Array(vs) => JsonV::Array(jv_arr(vs@, vs@.len())),
        Value::Object(es) => JsonV::Object(jv_obj(es@, es@.len())),
    }
}

/// The contents of the first `n` elements of `vs`.
pub open spec fn jv_arr(vs: Seq<Value>, n: nat) -> Seq<JsonV>
    decreases vs, n,
{
    if n == 0 || n > vs.len() {
        Seq::empty()
    } else {
        jv_arr(vs, (n - 1) as nat).push(jv(vs[n - 1]))
    }
}

/// The contents of the first `n` entries of `es`.
pub open spec fn jv_obj(es: Seq<(String, Value)>, n: nat) -> Seq<(Seq<char>, JsonV)>
    decreases es, n,
{
    if n == 0 || n > es.len() {
        Seq::empty()
    } else {
        jv_obj(es, (n - 1) as nat).push((es[n - 1].0@, jv(es[n - 1].1)))
    }
}

impl View for Value {
    type V = JsonV;

    open spec fn view(&self) -> JsonV {
        jv(*self)
    }
}

} // verus!

verus! {

/// JSON equality: structural, arrays element-wise in order, objects as maps
/// from keys to values (each key of one found in the other with an equal value,
/// and the same number of entries).
pub open spec fn json_eq(a: JsonV, b: JsonV) -> bool
    decreases a, 0nat,
{
    match (a, b) {
        (JsonV::Null, JsonV::Null) => true,
        (JsonV::Bool(x), JsonV::Bool(y)) => x == y,
        (JsonV::Number(x), JsonV::Number(y)) => number_eq(x, y),
        (JsonV::Str(x), JsonV::Str(y)) => x == y,
        (JsonV::Array(xs), JsonV::Array(ys)) => xs.len() == ys.len() && arrays_eq(xs, ys, 0),
        (JsonV::Object(xs), JsonV::Object(ys)) => xs.len() == ys.len() && objects_eq(xs, ys, 0),
        _ => false,
    }
}

/// Element-wise equality of `xs[i..]` with `ys[i..]`.
pub open spec fn arrays_eq(xs: Seq<JsonV>, ys: Seq<JsonV>, i: nat) -> bool
    decreases xs, xs.len() - i,
{
    if i >= xs.len() {
        true
    } else {
        i < ys.len() && json_eq(xs[i as int], ys[i as int]) && arrays_eq(xs, ys, i + 1)
    }
}

/// Every entry of `xs[i..]` has an equal value under its key in `ys`.
pub open spec fn objects_eq(xs: Seq<(Seq<char>, JsonV)>, ys: Seq<(Seq<char>, JsonV)>, i: nat) -> bool
    decreases xs, xs.len() - i,
{
    if i >= xs.len() {
        true
    } else {
        match obj_lookup(ys, xs[i as int].0) {
            Some(v) => json_eq(xs[i as int].1, v) && objects_eq(xs, ys, i + 1),
            None => false,
        }
    }
}

/// Whether two numbers are equal.
pub open spec fn number_eq(a: Number, b: Number) -> bool {
    match (a, b) {
        (Number::PosInt(x), Number::PosInt(y)) => x == y,
        (Number::NegInt(x), Number::NegInt(y)) => x == y,
        (Number::FloatBits(x), Number::FloatBits(y)) => x == y || (is_zero_bits(x) && is_zero_bits(y)),
        _ => false,
    }
}

pub open spec fn is_zero_bits(b: u64) -> bool {
    b == 0 || b == 0x8000_0000_0000_0000u64
}

/// The value under the first entry with key `key`.
pub open spec fn obj_lookup(es: Seq<(Seq<char>, JsonV)>, key: Seq<char>) -> Option<JsonV>
    decreases es.len(),
{
    if es.len() == 0 {
        None
    } else if es[0].0 == key {
        Some(es[0].1)
    } else {
        obj_lookup(es.drop_first(), key)
    }
}

/// `v.get(key)`: the field `key` of an object; nothing for other values.
pub open spec fn get_field_spec(v: JsonV, key: Seq<char>) -> Option<JsonV> {
    match v {
        JsonV::Object(es) => obj_lookup(es, key),
        _ => None,
    }
}

/// `v.get(idx)`: the element `idx` of an array; nothing for other values.
pub open spec fn get_index_spec(v: JsonV, idx: int) -> Option<JsonV> {
    match v {
        JsonV::Array(vs) => if 0 <= idx < vs.len() { Some(vs[idx]) } else { None },
        _ => None,
    }
}

pub proof fn lemma_jv_arr(vs: Seq<Value>, n: nat)
    requires
        n <= vs.len(),
    ensures
        jv_arr(vs, n).len() == n,
        forall|i: int| 0 <= i < n ==> #[trigger] jv_arr(vs, n)[i] == jv(vs[i]),
    decreases n,
{
    if n > 0 {
        lemma_jv_arr(vs, (n - 1) as nat);
    }
}

pub proof fn lemma_jv_obj(es: Seq<(String, Value)>, n: nat)
    requires
        n <= es.len(),
    ensures
        jv_obj(es, n).len() == n,
        forall|i: int| 0 <= i < n ==> #[trigger] jv_obj(es, n)[i] == (es[i].0@, jv(es[i].1)),
    decreases n,
{
    if n > 0 {
        lemma_jv_obj(es, (n - 1) as nat);
    }
}

/// The content of an array value, element by element.
pub proof fn lemma_view_array(vs: Vec<Value>)
    ensures
        Value::Array(vs)@ matches JsonV::Array(s) && s.len() == vs.len()
            && forall|i: int| 0 <= i < vs.len() ==> #[trigger] s[i] == vs@[i]@,
{
    lemma_jv_arr(vs@, vs@.len());
}

/// The content of an object value, entry by entry.
pub proof fn lemma_view_object(es: Vec<(String, Value)>)
    ensures
        Value::Object(es)@ matches JsonV::Object(s) && s.len() == es.len()
            && forall|i: int| 0 <= i < es.len() ==> #[trigger] s[i] == (es@[i].0@, es@[i].1@),
{
    lemma_jv_obj(es@, es@.len());
}

/// The first entry with key `key` is at `i` exactly when no earlier entry has that key.
pub proof fn lemma_obj_lookup_at(es: Seq<(Seq<char>, JsonV)>, key: Seq<char>, i: int)
    requires
        0 <= i <= es.len(),
        forall|j: int| 0 <= j < i ==> es[j].0 != key,
    ensures
        i < es.len() && es[i].0 == key ==> obj_lookup(es, key) == Some(es[i].1),
        i == es.len() ==> obj_lookup(es, key) is None,
    decreases i,
{
    if i > 0 {
        assert(es[0].0 != key);
        let t = es.drop_first();
        assert forall|j: int| 0 <= j < i - 1 implies t[j].0 != key by {
            assert(t[j] == es[j + 1]);
        }
        lemma_obj_lookup_at(t, key, i - 1);
    }
}

impl Value {
    /// `v.get(key)` on an object; `None` on other values.
    pub fn get_field(&self, key: &str) -> (r: Option<&Value>)
        ensures
            match r {
                Some(x) => get_field_spec(self@, key@) == Some(x@),
                None => get_field_spec(self@, key@) is None,
            },
    {
        match self {
            Value::Object(es) => {
                proof {
                    lemma_view_object(*es);
                }
                let ghost s = jv_obj(es@, es@.len());
                let k = String::from_str(key);
                let mut i: usize = 0;
                while i < es.len()
                    invariant
                        i <= es.len(),
                        self@ == JsonV::Object(s),
                        s.len() == es.len(),
                        forall|k: int| 0 <= k < es.len() ==> #[trigger] s[k] == (es@[k].0@, es@[k].1@),
                        forall|j: int| 0 <= j < i ==> s[j].0 != key@,
                        k@ == key@,
                    decreases es.len() - i,
                {
                    if es[i].0 == k {
                        proof {
                            lemma_obj_lookup_at(s, key@, i as int);
                        }
                        return Some(&es[i].1);
                    }
                    i += 1;
                }
                proof {
                    lemma_obj_lookup_at(s, key@, i as int);
                }
                None
            },
            _ => None,
        }
    }

    /// `v.get(idx)` on an array; `None` on other values.
    pub fn get_index(&self, idx: usize) -> (r: Option<&Value>)
        ensures
            match r {
                Some(x) => get_index_spec(self@, idx as int) == Some(x@),
                None => get_index_spec(self@, idx as int) is None,
            },
    {
        match self {
            Value::Array(vs) => {
                proof {
                    lemma_view_array(*vs);
                }
                if idx < vs.len() {
                    Some(&vs[idx])
                } else {
                    None
                }
            },
            _ => None,
        }
    }
}

/// Equality of two string slices by content.
pub fn str_eq(a: &str, b: &str) -> (r: bool)
    ensures
        r == (a@ == b@),
{
    let n = a.unicode_len();
    if n != b.unicode_len() {
        return false;
    }
    let mut i: usize = 0;
    while i < n
        invariant
            n == a@.len(),
            n == b@.len(),
            i <= n,
            forall|j: int| 0 <= j < i ==> a@[j] == b@[j],
        decreases n - i,
    {
        if a.get_char(i) != b.get_char(i) {
            return false;
        }
        i += 1;
    }
    assert(a@ =~= b@);
    true
}

} // verus!

verus! {

} // verus!
