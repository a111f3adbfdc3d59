//! Equality and copying of JSON values.
use vstd::prelude::*;
use crate::json::{
    JsonV, Value, Number, jv, jv_arr, jv_obj, json_eq, arrays_eq, objects_eq, obj_lookup, number_eq,
    lemma_view_array, lemma_view_object,
};

verus! {

/// A copy of a value with the same content.
pub fn copy_value(v: &Value) -> (r: Value)
    ensures
        r@ == v@,
    decreases v,
{
    match v {
        Value::Null => Value::Null,
        Value::Bool(b) => Value::Bool(*b),
        Value::Number(n) => Value::Number(*n),
        Value::String(s) => Value::String(s.clone()),
        Value::Array(vs) => {
            let mut out: Vec<Value> = Vec::new();
            let mut i: usize = 0;
            while i < vs.len()
                invariant
                    i <= vs.len(),
                    *v == Value::Array(*vs),
                    out.len() == i,
                    forall|j: int| 0 <= j < i ==> #[trigger] out@[j]@ == vs@[j]@,
                decreases vs.len() - i,
            {
                proof {
                    vstd::std_specs::vec::axiom_vec_index_decreases(*vs, i as int);
                    assert(decreases_to!(*v => (*v)->Array_0));
                    assert(decreases_to!(*vs => vs[i as int]));
                    assert(decreases_to!(*v => vs[i as int]));
                }
                let c = copy_value(&vs[i]);
                out.push(c);
                i += 1;
            }
            proof {
                lemma_view_array(*vs);
                lemma_view_array(out);
                let a = jv_arr(vs@, vs@.len());
                let b = jv_arr(out@, out@.len());
                assert(a =~= b);
            }
            Value::Array(out)
        },
        Value::Object(es) => {
            let mut out: Vec<(String, Value)> = Vec::new();
            let mut i: usize = 0;
            while i < es.len()
                invariant
                    i <= es.len(),
                    *v == Value::Object(*es),
                    out.len() == i,
                    forall|j: int|
                        0 <= j < i ==> (#[trigger] out@[j]).0@ == es@[j].0@ && out@[j].1@
                            == es@[j].1@,
                decreases es.len() - i,
            {
                proof {
                    vstd::std_specs::vec::axiom_vec_index_decreases(*es, i as int);
                    assert(decreases_to!(*v => (*v)->Object_0));
                    assert(decreases_to!(*es => es[i as int]));
                    assert(decreases_to!(es[i as int] => es[i as int].1));
                    assert(decreases_to!(*v => es[i as int].1));
                }
                let c = copy_value(&es[i].1);
                let k = es[i].0.clone();
                out.push((k, c));
                i += 1;
            }
            proof {
                lemma_view_object(*es);
                lemma_view_object(out);
                let a = jv_obj(es@, es@.len());
                let b = jv_obj(out@, out@.len());
                assert(a =~= b);
            }
            Value::Object(out)
        },
    }
}

/// Whether two numbers are equal.
pub fn number_equal(a: Number, b: Number) -> (r: bool)
    ensures
        r == number_eq(a, b),
{
    match (a, b) {
        (Number::PosInt(x), Number::PosInt(y)) => x == y,
        (Number::NegInt(x), Number::NegInt(y)) => x == y,
        (Number::FloatBits(x), Number::FloatBits(y)) => x == y || ((x == 0 || x
            == 0x8000_0000_0000_0000u64) && (y == 0 || y == 0x8000_0000_0000_0000u64)),
        _ => false,
    }
}

/// Whether two values are equal as JSON.
pub fn json_equal(a: &Value, b: &Value) -> (r: bool)
    ensures
        r == json_eq(a@, b@),
    decreases a,
{
    match (a, b) {
        (Value::Null, Value::Null) => true,
        (Value::Bool(x), Value::Bool(y)) => *x == *y,
        (Value::Number(x), Value::Number(y)) => number_equal(*x, *y),
        (Value::String(x), Value::String(y)) => *x == *y,
        (Value::Array(xs), Value::Array(ys)) => {
            proof {
                lemma_view_array(*xs);
                lemma_view_array(*ys);
            }
            let ghost sx = jv_arr(xs@, xs@.len());
            let ghost sy = jv_arr(ys@, ys@.len());
            if xs.len() != ys.len() {
                return false;
            }
            let mut i: usize = 0;
            while i < xs.len()
                invariant
                    i <= xs.len(),
                    xs.len() == ys.len(),
                    *a == Value::Array(*xs),
                    *b == Value::Array(*ys),
                    sx == jv_arr(xs@, xs@.len()),
                    sy == jv_arr(ys@, ys@.len()),
                    sx.len() == xs.len(),
                    sy.len() == ys.len(),
                    forall|k: int| 0 <= k < xs.len() ==> #[trigger] sx[k] == xs@[k]@,
                    forall|k: int| 0 <= k < ys.len() ==> #[trigger] sy[k] == ys@[k]@,
                    arrays_eq(sx, sy, 0) == arrays_eq(sx, sy, i as nat),
                decreases xs.len() - i,
            {
                proof {
                    vstd::std_specs::vec::axiom_vec_index_decreases(*xs, i as int);
                    assert(decreases_to!(*a => (*a)->Array_0));
                    assert(decreases_to!(*xs => xs[i as int]));
                    assert(decreases_to!(*a => xs[i as int]));
                }
                let e = json_equal(&xs[i], &ys[i]);
                assert(arrays_eq(sx, sy, i as nat) == (json_eq(sx[i as int], sy[i as int])
                    && arrays_eq(sx, sy, (i + 1) as nat)));
                if !e {
                    return false;
                }
                i += 1;
            }
            true
        },
        (Value::Object(xs), Value::Object(ys)) => {
            proof {
                lemma_view_object(*xs);
                lemma_view_object(*ys);
            }
            let ghost sx = jv_obj(xs@, xs@.len());
            let ghost sy = jv_obj(ys@, ys@.len());
            if xs.len() != ys.len() {
                return false;
            }
            let mut i: usize = 0;
            while i < xs.len()
                invariant
                    i <= xs.len(),
                    xs.len() == ys.len(),
                    sx.len() == xs.len(),
                    sy.len() == ys.len(),
                    b@ == JsonV::Object(sy),
                    *a == Value::Object(*xs),
                    sx == jv_obj(xs@, xs@.len()),
                    forall|k: int| 0 <= k < xs.len() ==> #[trigger] sx[k] == (xs@[k].0@, xs@[k].1@),
                    objects_eq(sx, sy, 0) == objects_eq(sx, sy, i as nat),
                decreases xs.len() - i,
            {
                let found = b.get_field(xs[i].0.as_str());
                assert(sx[i as int] == (xs@[i as int].0@, xs@[i as int].1@));
                match found {
                    Some(v) => {
                        proof {
                            vstd::std_specs::vec::axiom_vec_index_decreases(*xs, i as int);
                            assert(decreases_to!(*a => (*a)->Object_0));
                    assert(decreases_to!(*xs => xs[i as int]));
                    assert(decreases_to!(xs[i as int] => xs[i as int].1));
                    assert(decreases_to!(*a => xs[i as int].1));
                        }
                        let e = json_equal(&xs[i].1, v);
                        assert(objects_eq(sx, sy, i as nat) == (json_eq(sx[i as int].1, v@)
                            && objects_eq(sx, sy, (i + 1) as nat)));
                        if !e {
                            return false;
                        }
                    },
                    None => {
                        return false;
                    },
                }
                i += 1;
            }
            true
        },
        _ => false,
    }
}

} // verus!
