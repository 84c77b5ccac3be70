//! The dynamic value kind that the engine evaluates over.
//!
//! A value is null, a bool, a 64-bit integer, a float, a string, an
//! ordered list, or a string-keyed mapping.  A mapping is held as a
//! list of pairs; when a key occurs twice the first pair wins, and the
//! writers of this crate never produce a second one.  At the
//! specification level a value is a [`SpecVal`], reached through `@`.
use crate::num::float_eq;
use crate::num::number_eq;
use vstd::prelude::*;

verus! {

broadcast use vstd::std_specs::vec::group_vec_axioms;

/// The specification-level form of a dynamic value.
pub enum SpecVal {
    Null,
    Bool(bool),
    Int(i64),
    Float(serde_json::Number),
    Str(Seq<char>),
    Array(Seq<SpecVal>),
    Object(Seq<(Seq<char>, SpecVal)>),
}

/// A dynamic value: the input of a flow, the output it accumulates,
/// and everything the evaluator produces in between.
#[derive(Debug, PartialEq)]
pub enum Value {
    Null,
    Bool(bool),
    Int(i64),
    Float(serde_json::Number),
    Str(String),
    Array(Vec<Value>),
    Object(Vec<(String, Value)>),
}

// The index guards below keep every recursive call inside the list,
// which is what the termination measure needs.
pub open spec fn spec_val_of(v: Value) -> SpecVal
    decreases v,
    via spec_val_of_decreases
{
    match v {
        Value::Null => SpecVal::Null,
        Value::Bool(b) => SpecVal::Bool(b),
        Value::Int(i) => SpecVal::Int(i),
        Value::Float(n) => SpecVal::Float(n),
        Value::Str(s) => SpecVal::Str(s@),
        Value::Array(items) => SpecVal::Array(
            Seq::new(
                items@.len(),
                |i: int|
                    if 0 <= i < items@.len() {
                        spec_val_of(items@[i])
                    } else {
                        SpecVal::Null
                    },
            ),
        ),
        Value::Object(fields) => SpecVal::Object(
            Seq::new(
                fields@.len(),
                |i: int|
                    if 0 <= i < fields@.len() {
                        (fields@[i].0@, spec_val_of(fields@[i].1))
                    } else {
                        (Seq::empty(), SpecVal::Null)
                    },
            ),
        ),
    }
}

#[via_fn]
proof fn spec_val_of_decreases(v: Value) {
    broadcast use vstd::std_specs::vec::group_vec_axioms;

    match v {
        Value::Array(items) => {
            assert forall|i: int| 0 <= i < items@.len() implies decreases_to!(v => items@[i]) by {
                assert(decreases_to!(v => items));
                assert(decreases_to!(items => items@));
                assert(decreases_to!(items@ => items@[i]));
            }
        },
        Value::Object(fields) => {
            assert forall|i: int|
                0 <= i < fields@.len() implies decreases_to!(v => fields@[i].1) by {
                assert(decreases_to!(v => fields));
                assert(decreases_to!(fields => fields@));
                assert(decreases_to!(fields@ => fields@[i]));
                assert(decreases_to!(fields@[i] => fields@[i].1));
            }
        },
        _ => {},
    }
}

impl View for Value {
    type V = SpecVal;

    open spec fn view(&self) -> SpecVal {
        spec_val_of(*self)
    }
}

/// The specification-level view of a value list.
pub open spec fn spec_vals_of(s: Seq<Value>) -> Seq<SpecVal> {
    Seq::new(s.len(), |i: int| spec_val_of(s[i]))
}

/// The specification-level view of a field list.
pub open spec fn spec_fields_of(s: Seq<(String, Value)>) -> Seq<(Seq<char>, SpecVal)> {
    Seq::new(s.len(), |i: int| (s[i].0@, spec_val_of(s[i].1)))
}

pub broadcast proof fn lemma_object_view(fields: Vec<(String, Value)>)
    ensures
        #[trigger] spec_val_of(Value::Object(fields)) == SpecVal::Object(spec_fields_of(fields@)),
{
    let a = spec_val_of(Value::Object(fields))->Object_0;
    let b = spec_fields_of(fields@);
    assert forall|i: int| 0 <= i < a.len() implies a[i] == b[i] by {}
    assert(a =~= b);
}

pub broadcast proof fn lemma_array_view(items: Vec<Value>)
    ensures
        #[trigger] spec_val_of(Value::Array(items)) == SpecVal::Array(
            Seq::new(items@.len(), |i: int| spec_val_of(items@[i])),
        ),
{
    let a = spec_val_of(Value::Array(items))->Array_0;
    let b = Seq::new(items@.len(), |i: int| spec_val_of(items@[i]));
    assert forall|i: int| 0 <= i < a.len() implies a[i] == b[i] by {}
    assert(a =~= b);
}

/// The value under a key in a mapping: the first pair that carries the
/// key, or `None`.
pub open spec fn spec_obj_lookup(fields: Seq<(Seq<char>, SpecVal)>, key: Seq<char>) -> Option<
    SpecVal,
>
    decreases fields.len(),
{
    if fields.len() == 0 {
        None
    } else if fields[0].0 == key {
        Some(fields[0].1)
    } else {
        spec_obj_lookup(fields.drop_first(), key)
    }
}

/// Structural value equality: kinds must match, floats compare as
/// floats, lists element by element in order, mappings by key with no
/// regard to order.
pub open spec fn spec_val_eq(a: SpecVal, b: SpecVal) -> bool
    decreases a,
    via spec_val_eq_decreases
{
    match (a, b) {
        (SpecVal::Null, SpecVal::Null) => true,
        (SpecVal::Bool(x), SpecVal::Bool(y)) => x == y,
        (SpecVal::Int(x), SpecVal::Int(y)) => x == y,
        (SpecVal::Float(x), SpecVal::Float(y)) => float_eq(x, y),
        (SpecVal::Str(x), SpecVal::Str(y)) => x == y,
        (SpecVal::Array(x), SpecVal::Array(y)) => x.len() == y.len() && (forall|i: int|
            0 <= i < x.len() ==> spec_val_eq(#[trigger] x[i], y[i])),
        (SpecVal::Object(x), SpecVal::Object(y)) => x.len() == y.len() && (forall|i: int|
            0 <= i < x.len() ==> match spec_obj_lookup(y, (#[trigger] x[i]).0) {
                Some(bv) => spec_val_eq(x[i].1, bv),
                None => false,
            }),
        _ => false,
    }
}

#[via_fn]
proof fn spec_val_eq_decreases(a: SpecVal, b: SpecVal) {
    match (a, b) {
        (SpecVal::Array(x), SpecVal::Array(y)) => {
            assert forall|i: int| 0 <= i < x.len() implies decreases_to!(a => x[i]) by {
                assert(decreases_to!(a => x));
                assert(decreases_to!(x => x[i]));
            }
        },
        (SpecVal::Object(x), SpecVal::Object(y)) => {
            assert forall|i: int| 0 <= i < x.len() implies decreases_to!(a => x[i].1) by {
                assert(decreases_to!(a => x));
                assert(decreases_to!(x => x[i]));
                assert(decreases_to!(x[i] => x[i].1));
            }
        },
        _ => {},
    }
}

impl Value {
    /// A deep copy whose view is the view of the original.
    #[verifier::loop_isolation(false)]
    pub fn duplicate(&self) -> (r: Value)
        ensures
            r@ == self@,
        decreases *self,
    {
        match self {
            Value::Null => Value::Null,
            Value::Bool(b) => Value::Bool(*b),
            Value::Int(i) => Value::Int(*i),
            Value::Float(n) => Value::Float(n.clone()),
            Value::Str(s) => Value::Str(s.clone()),
            Value::Array(items) => {
                let mut out: Vec<Value> = Vec::new();
                let mut i: usize = 0;
                while i < items.len()
                    invariant
                        i <= items.len(),
                        out@.len() == i as int,
                        forall|j: int| 0 <= j < i ==> #[trigger] out@[j]@ == items@[j]@,
                    decreases items.len() - i,
                {
                    proof {
                        assert(*self == Value::Array(*items));
                        assert(decreases_to!(*self => (*self)->Array_0));
                        assert(decreases_to!(*items => items@));
                        assert(decreases_to!(items@ => items@[i as int]));
                    }
                    out.push(items[i].duplicate());
                    i = i + 1;
                }
                let r = Value::Array(out);
                proof {
                    let sa = spec_val_of(r)->Array_0;
                    let sb = spec_val_of(*self)->Array_0;
                    assert forall|j: int| 0 <= j < sa.len() implies sa[j] == sb[j] by {
                        assert(out@[j]@ == items@[j]@);
                    }
                    assert(sa =~= sb);
                }
                r
            },
            Value::Object(fields) => {
                let mut out: Vec<(String, Value)> = Vec::new();
                let mut i: usize = 0;
                while i < fields.len()
                    invariant
                        i <= fields.len(),
                        out@.len() == i as int,
                        forall|j: int|
                            0 <= j < i ==> #[trigger] out@[j].0@ == fields@[j].0@ && out@[j].1@
                                == fields@[j].1@,
                    decreases fields.len() - i,
                {
                    proof {
                        assert(*self == Value::Object(*fields));
                        assert(decreases_to!(*self => (*self)->Object_0));
                        assert(decreases_to!(*fields => fields@));
                        assert(decreases_to!(fields@ => fields@[i as int]));
                        assert(decreases_to!(fields@[i as int] => fields@[i as int].1));
                    }
                    let k = fields[i].0.clone();
                    let v = fields[i].1.duplicate();
                    out.push((k, v));
                    i = i + 1;
                }
                let r = Value::Object(out);
                proof {
                    let sa = spec_val_of(r)->Object_0;
                    let sb = spec_val_of(*self)->Object_0;
                    assert forall|j: int| 0 <= j < sa.len() implies sa[j] == sb[j] by {
                        assert(out@[j].0@ == fields@[j].0@ && out@[j].1@ == fields@[j].1@);
                    }
                    assert(sa =~= sb);
                }
                r
            },
        }
    }
}

/// The first pair of `fields` that carries `key`, as the evaluator and
/// the assignment writer look fields up.
#[verifier::loop_isolation(false)]
pub fn obj_get<'a>(fields: &'a Vec<(String, Value)>, key: &str) -> (r: Option<&'a Value>)
    ensures
        match r {
            Some(v) => spec_obj_lookup(spec_fields_of(fields@), key@) == Some(v@),
            None => spec_obj_lookup(spec_fields_of(fields@), key@) is None,
        },
{
    let ghost full = spec_fields_of(fields@);
    proof {
        assert(full.skip(0) =~= full);
    }
    let mut i: usize = 0;
    while i < fields.len()
        invariant
            i <= fields.len(),
            full == spec_fields_of(fields@),
            spec_obj_lookup(full, key@) == spec_obj_lookup(full.skip(i as int), key@),
        decreases fields.len() - i,
    {
        proof {
            assert(full.skip(i as int)[0] == full[i as int]);
            assert(full.skip(i as int).drop_first() =~= full.skip(i as int + 1));
        }
        if str_eq(fields[i].0.as_str(), key) {
            return Some(&fields[i].1);
        }
        i = i + 1;
    }
    proof {
        assert(full.skip(i as int).len() == 0);
    }
    None
}

/// Whether two string slices hold the same characters.
#[verifier::loop_isolation(false)]
pub fn str_eq(a: &str, b: &str) -> (r: bool)
    ensures
        r == (a@ == b@),
{
    let ca = crate::text::chars_of(a);
    let cb = crate::text::chars_of(b);
    if ca.len() != cb.len() {
        return false;
    }
    let mut k: usize = 0;
    while k < ca.len()
        invariant
            k <= ca@.len(),
            ca@.len() == cb@.len(),
            forall|q: int| 0 <= q < k ==> ca@[q] == cb@[q],
        decreases ca.len() - k,
    {
        if ca[k] != cb[k] {
            return false;
        }
        k = k + 1;
    }
    proof {
        assert(a@ =~= b@);
    }
    true
}

/// Structural equality of two values, as the `==` operator of the
/// expression language compares.
#[verifier::loop_isolation(false)]
pub fn val_eq(a: &Value, b: &Value) -> (r: bool)
    ensures
        r == spec_val_eq(a@, b@),
    decreases *a,
{
    match (a, b) {
        (Value::Null, Value::Null) => true,
        (Value::Bool(x), Value::Bool(y)) => *x == *y,
        (Value::Int(x), Value::Int(y)) => *x == *y,
        (Value::Float(x), Value::Float(y)) => number_eq(x, y),
        (Value::Str(x), Value::Str(y)) => str_eq(x.as_str(), y.as_str()),
        (Value::Array(x), Value::Array(y)) => {
            let ghost sa = spec_val_of(*a)->Array_0;
            let ghost sb = spec_val_of(*b)->Array_0;
            if x.len() != y.len() {
                return false;
            }
            let mut i: usize = 0;
            while i < x.len()
                invariant
                    i <= x.len(),
                    x@.len() == y@.len(),
                    sa == spec_val_of(*a)->Array_0,
                    sb == spec_val_of(*b)->Array_0,
                    *a matches Value::Array(xx) && xx@ == x@,
                    *b matches Value::Array(yy) && yy@ == y@,
                    sa.len() == x@.len() && sb.len() == y@.len(),
                    forall|j: int| 0 <= j < i ==> spec_val_eq(#[trigger] sa[j], sb[j]),
                decreases x.len() - i,
            {
                proof {
                    assert(*a == Value::Array(*x));
                    assert(decreases_to!(*a => (*a)->Array_0));
                    assert(decreases_to!(*x => x@));
                    assert(decreases_to!(x@ => x@[i as int]));
                    assert(sa[i as int] == x@[i as int]@);
                    assert(sb[i as int] == y@[i as int]@);
                }
                if !val_eq(&x[i], &y[i]) {
                    return false;
                }
                i = i + 1;
            }
            true
        },
        (Value::Object(x), Value::Object(y)) => {
            let ghost sa = spec_val_of(*a)->Object_0;
            let ghost sb = spec_val_of(*b)->Object_0;
            proof {
                lemma_object_view(*x);
                lemma_object_view(*y);
                assert(sa == spec_fields_of(x@));
                assert(sb == spec_fields_of(y@));
            }
            if x.len() != y.len() {
                return false;
            }
            let mut i: usize = 0;
            while i < x.len()
                invariant
                    i <= x.len(),
                    x@.len() == y@.len(),
                    sa == spec_val_of(*a)->Object_0,
                    sb == spec_val_of(*b)->Object_0,
                    *a matches Value::Object(xx) && xx@ == x@,
                    *b matches Value::Object(yy) && yy@ == y@,
                    sa == spec_fields_of(x@),
                    sb == spec_fields_of(y@),
                    forall|j: int|
                        0 <= j < i ==> match spec_obj_lookup(sb, (#[trigger] sa[j]).0) {
                            Some(bv) => spec_val_eq(sa[j].1, bv),
                            None => false,
                        },
                decreases x.len() - i,
            {
                proof {
                    assert(sa[i as int] == (x@[i as int].0@, x@[i as int].1@));
                }
                match obj_get(y, x[i].0.as_str()) {
                    None => {
                        return false;
                    },
                    Some(bv) => {
                        proof {
                            assert(*a == Value::Object(*x));
                            assert(decreases_to!(*a => (*a)->Object_0));
                            assert(decreases_to!(*x => x@));
                            assert(decreases_to!(x@ => x@[i as int]));
                            assert(decreases_to!(x@[i as int] => x@[i as int].1));
                        }
                        if !val_eq(&x[i].1, bv) {
                            return false;
                        }
                    },
                }
                i = i + 1;
            }
            true
        },
        _ => {
            proof {
                assert(!spec_val_eq(a@, b@));
            }
            false
        },
    }
}

/// How a value coerces to a boolean: null, false, zero numbers of
/// either kind and the empty string are false; every other value is
/// true.
pub open spec fn spec_truthy(v: SpecVal) -> bool {
    match v {
        SpecVal::Null => false,
        SpecVal::Bool(b) => b,
        SpecVal::Int(i) => i != 0,
        SpecVal::Float(n) => !crate::num::float_is_zero(n),
        SpecVal::Str(s) => s.len() != 0,
        SpecVal::Array(_) => true,
        SpecVal::Object(_) => true,
    }
}

/// The boolean a value coerces to.
pub fn truthy(v: &Value) -> (r: bool)
    ensures
        r == spec_truthy(v@),
{
    match v {
        Value::Null => false,
        Value::Bool(b) => *b,
        Value::Int(i) => *i != 0,
        Value::Float(n) => !crate::num::number_is_zero(n),
        Value::Str(s) => !s.as_str().is_empty(),
        Value::Array(_) => true,
        Value::Object(_) => true,
    }
}


pub proof fn lemma_obj_lookup_found(
    fields: Seq<(Seq<char>, SpecVal)>,
    key: Seq<char>,
    pos: int,
)
    requires
        0 <= pos < fields.len(),
        fields[pos].0 == key,
        forall|j: int| 0 <= j < pos ==> (#[trigger] fields[j]).0 != key,
    ensures
        spec_obj_lookup(fields, key) == Some(fields[pos].1),
    decreases pos,
{
    if pos > 0 {
        assert(fields.drop_first()[pos - 1].0 == key);
        assert(forall|j: int| 0 <= j < pos - 1 ==> (#[trigger] fields.drop_first()[j]).0 != key);
        lemma_obj_lookup_found(fields.drop_first(), key, pos - 1);
    }
}

pub proof fn lemma_obj_lookup_missing(fields: Seq<(Seq<char>, SpecVal)>, key: Seq<char>)
    requires
        forall|j: int| 0 <= j < fields.len() ==> (#[trigger] fields[j]).0 != key,
    ensures
        spec_obj_lookup(fields, key) is None,
    decreases fields.len(),
{
    if fields.len() > 0 {
        lemma_obj_lookup_missing(fields.drop_first(), key);
    }
}

} // verus!
