//! The tree-shaped value data model: null, boolean, number, string,
//! ordered array, and string-keyed object.

use vstd::prelude::*;

verus! {

/// A JSON number. Integers carry their exact value; any other number is
/// carried by the bit pattern of its 64-bit binary floating-point encoding,
/// which the comparison logic only ever tests for equality.
#[derive(Clone, Copy, PartialEq, Eq, Structural, Debug)]
pub enum Num {
    /// A non-negative integer.
    Uint(u64),
    /// A negative integer.
    Int(i64),
    /// Any other number, by the bit pattern of its 64-bit encoding.
    Bits(u64),
}

/// A finite, acyclic tree in the JSON data model.
#[derive(Debug, PartialEq)]
pub enum Value {
    /// The null value.
    Null,
    /// A boolean.
    Bool(bool),
    /// A number.
    Num(Num),
    /// A string.
    Str(String),
    /// An ordered sequence of values.
    Arr(Vec<Value>),
    /// A mapping from string keys to values; keys are unique, and the
    /// order of the pairs is kept for display but ignored by comparison.
    Obj(Vec<(String, Value)>),
}

/// The mathematical model of a `Value`: the same tree over `Seq` and
/// `Seq<char>`, which contracts and proofs speak about.
pub enum SpecValue {
    /// The null value.
    Null,
    /// A boolean.
    Bool(bool),
    /// A number.
    Num(Num),
    /// A string.
    Str(Seq<char>),
    /// An ordered sequence of values.
    Arr(Seq<SpecValue>),
    /// A mapping from string keys to values.
    Obj(Seq<(Seq<char>, SpecValue)>),
}

/// The model of a value.
pub open spec fn value_view(v: Value) -> SpecValue
    decreases v,
{
    match v {
        Value::Null => SpecValue::Null,
        Value::Bool(b) => SpecValue::Bool(b),
        Value::Num(n) => SpecValue::Num(n),
        Value::Str(s) => SpecValue::Str(s@),
        Value::Arr(es) => SpecValue::Arr(elems_view(es@)),
        Value::Obj(fs) => SpecValue::Obj(fields_view(fs@)),
    }
}

/// The models of a sequence of values, elementwise.
pub open spec fn elems_view(s: Seq<Value>) -> Seq<SpecValue>
    decreases s,
{
    Seq::new(
        s.len(),
        |i: int|
            if 0 <= i < s.len() {
                value_view(s[i])
            } else {
                SpecValue::Null
            },
    )
}

/// The models of a sequence of key-value pairs, elementwise.
pub open spec fn fields_view(fs: Seq<(String, Value)>) -> Seq<(Seq<char>, SpecValue)>
    decreases fs,
{
    Seq::new(
        fs.len(),
        |i: int|
            if 0 <= i < fs.len() {
                (fs[i].0@, value_view(fs[i].1))
            } else {
                (Seq::<char>::empty(), SpecValue::Null)
            },
    )
}

impl View for Value {
    type V = SpecValue;

    open spec fn view(&self) -> SpecValue {
        value_view(*self)
    }
}

/// The model of an empty object.
pub open spec fn empty_object() -> SpecValue {
    SpecValue::Obj(Seq::empty())
}

/// The height of a value tree: scalars have height 0, a container is one
/// higher than its highest child.
pub open spec fn height(v: SpecValue) -> nat
    decreases v,
{
    match v {
        SpecValue::Arr(es) => 1 + height_elems(es),
        SpecValue::Obj(fs) => 1 + height_fields(fs),
        _ => 0,
    }
}

/// The height of the highest value in a sequence.
pub open spec fn height_elems(es: Seq<SpecValue>) -> nat
    decreases es,
{
    if es.len() == 0 {
        0
    } else {
        let h0 = height(es[0]);
        let hr = height_elems(es.drop_first());
        if h0 > hr {
            h0
        } else {
            hr
        }
    }
}

/// The height of the highest value among a sequence of key-value pairs.
pub open spec fn height_fields(fs: Seq<(Seq<char>, SpecValue)>) -> nat
    decreases fs,
{
    if fs.len() == 0 {
        0
    } else {
        let h0 = height(fs[0].1);
        let hr = height_fields(fs.drop_first());
        if h0 > hr {
            h0
        } else {
            hr
        }
    }
}

/// No element of a sequence is higher than the sequence's height.
pub broadcast proof fn lemma_height_elem(es: Seq<SpecValue>, i: int)
    requires
        0 <= i < es.len(),
    ensures
        #[trigger] height(es[i]) <= height_elems(es),
    decreases es.len(),
{
    if i > 0 {
        lemma_height_elem(es.drop_first(), i - 1);
        assert(es.drop_first()[i - 1] == es[i]);
    }
}

/// No value of a pair sequence is higher than the sequence's height.
pub broadcast proof fn lemma_height_field(fs: Seq<(Seq<char>, SpecValue)>, i: int)
    requires
        0 <= i < fs.len(),
    ensures
        #[trigger] height(fs[i].1) <= height_fields(fs),
    decreases fs.len(),
{
    if i > 0 {
        lemma_height_field(fs.drop_first(), i - 1);
        assert(fs.drop_first()[i - 1] == fs[i]);
    }
}

/// The index of the first pair carrying `key`, or `-1` when no pair does.
pub open spec fn key_index(fs: Seq<(Seq<char>, SpecValue)>, key: Seq<char>) -> int
    decreases fs.len(),
{
    if fs.len() == 0 {
        -1
    } else if fs[0].0 == key {
        0
    } else {
        let r = key_index(fs.drop_first(), key);
        if r < 0 {
            -1
        } else {
            r + 1
        }
    }
}

/// `key_index` returns the first index carrying the key, and `-1` exactly
/// when the key is absent.
pub proof fn lemma_key_index(fs: Seq<(Seq<char>, SpecValue)>, key: Seq<char>)
    ensures
        key_index(fs, key) < fs.len(),
        key_index(fs, key) >= 0 ==> {
            &&& fs[key_index(fs, key)].0 == key
            &&& forall|i: int| 0 <= i < key_index(fs, key) ==> fs[i].0 != key
        },
        key_index(fs, key) < 0 ==> forall|i: int| 0 <= i < fs.len() ==> fs[i].0 != key,
    decreases fs.len(),
{
    if fs.len() != 0 && fs[0].0 != key {
        lemma_key_index(fs.drop_first(), key);
        assert(forall|i: int| 0 < i < fs.len() ==> fs[i] == fs.drop_first()[i - 1]);
    }
}

/// No two pairs carry the same key.
pub open spec fn unique_keys(fs: Seq<(Seq<char>, SpecValue)>) -> bool {
    forall|i: int, j: int| 0 <= i < j < fs.len() ==> fs[i].0 != fs[j].0
}

/// Under unique keys, looking a pair's own key up finds that pair.
pub proof fn lemma_key_index_self(fs: Seq<(Seq<char>, SpecValue)>, i: int)
    requires
        unique_keys(fs),
        0 <= i < fs.len(),
    ensures
        key_index(fs, fs[i].0) == i,
{
    lemma_key_index(fs, fs[i].0);
    let r = key_index(fs, fs[i].0);
    if r < 0 {
        assert(fs[i].0 == fs[i].0);
    } else if r < i {
        assert(fs[r].0 == fs[i].0);
    } else if r > i {
        assert(fs[i].0 != fs[i].0);
    }
}

/// A value is well formed when every object in it has unique keys.
pub open spec fn wf(v: SpecValue) -> bool
    decreases v,
{
    match v {
        SpecValue::Arr(es) => forall|i: int| 0 <= i < es.len() ==> wf(#[trigger] es[i]),
        SpecValue::Obj(fs) => {
            &&& unique_keys(fs)
            &&& forall|i: int| 0 <= i < fs.len() ==> wf(#[trigger] fs[i].1)
        },
        _ => true,
    }
}

/// Deep equality of two values: arrays compare elementwise in order,
/// objects compare as key-value collections with the pair order ignored.
pub open spec fn deep_eq(a: SpecValue, b: SpecValue) -> bool
    decreases a, b,
{
    match (a, b) {
        (SpecValue::Null, SpecValue::Null) => true,
        (SpecValue::Bool(x), SpecValue::Bool(y)) => x == y,
        (SpecValue::Num(x), SpecValue::Num(y)) => x == y,
        (SpecValue::Str(x), SpecValue::Str(y)) => x == y,
        (SpecValue::Arr(x), SpecValue::Arr(y)) => {
            &&& x.len() == y.len()
            &&& forall|i: int| 0 <= i < x.len() ==> deep_eq(#[trigger] x[i], y[i])
        },
        (SpecValue::Obj(x), SpecValue::Obj(y)) => {
            &&& x.len() == y.len()
            &&& forall|i: int|
                0 <= i < x.len() ==> {
                    let j = key_index(y, #[trigger] x[i].0);
                    &&& j >= 0
                    &&& deep_eq(x[i].1, y[j].1)
                }
        },
        _ => false,
    }
}

/// Every well-formed value deep-equals itself.
pub proof fn lemma_deep_eq_refl(v: SpecValue)
    requires
        wf(v),
    ensures
        deep_eq(v, v),
    decreases v,
{
    match v {
        SpecValue::Arr(es) => {
            assert forall|i: int| 0 <= i < es.len() implies deep_eq(#[trigger] es[i], es[i]) by {
                lemma_deep_eq_refl(es[i]);
            }
        },
        SpecValue::Obj(fs) => {
            assert forall|i: int|
                0 <= i < fs.len() implies {
                let j = key_index(fs, #[trigger] fs[i].0);
                &&& j >= 0
                &&& deep_eq(fs[i].1, fs[j].1)
            } by {
                lemma_key_index_self(fs, i);
                lemma_deep_eq_refl(fs[i].1);
            }
        },
        _ => {},
    }
}

/// Appending to a pair sequence appends to its model.
pub proof fn lemma_fields_view_push(fs: Seq<(String, Value)>, k: String, v: Value)
    ensures
        fields_view(fs.push((k, v))) == fields_view(fs).push((k@, v@)),
{
    assert(fields_view(fs.push((k, v))) =~= fields_view(fs).push((k@, v@)));
}

/// The index of the first pair carrying `key`, or `None` when no pair does.
pub fn find_key(fs: &Vec<(String, Value)>, key: &String) -> (r: Option<usize>)
    ensures
        match r {
            Some(i) => 0 <= i < fs@.len() && key_index(fields_view(fs@), key@) == i as int,
            None => key_index(fields_view(fs@), key@) == -1,
        },
{
    proof {
        lemma_key_index(fields_view(fs@), key@);
    }
    let mut i: usize = 0;
    while i < fs.len()
        invariant
            0 <= i <= fs@.len(),
            forall|j: int| 0 <= j < i ==> fields_view(fs@)[j].0 != key@,
            key_index(fields_view(fs@), key@) < fs@.len(),
            key_index(fields_view(fs@), key@) >= 0 ==> {
                &&& fields_view(fs@)[key_index(fields_view(fs@), key@)].0 == key@
                &&& forall|j: int|
                    0 <= j < key_index(fields_view(fs@), key@) ==> fields_view(fs@)[j].0 != key@
            },
            key_index(fields_view(fs@), key@) < 0 ==> forall|j: int|
                0 <= j < fs@.len() ==> fields_view(fs@)[j].0 != key@,
        decreases fs@.len() - i,
    {
        proof {
            assert(fields_view(fs@)[i as int].0 == fs@[i as int].0@);
        }
        if fs[i].0 == *key {
            return Some(i);
        }
        i += 1;
    }
    None
}

/// Deep equality test, matching `deep_eq` on the models.
pub fn value_eq(a: &Value, b: &Value) -> (r: bool)
    ensures
        r == deep_eq(a@, b@),
    decreases height(a@) + height(b@),
{
    match (a, b) {
        (Value::Null, Value::Null) => true,
        (Value::Bool(x), Value::Bool(y)) => *x == *y,
        (Value::Num(x), Value::Num(y)) => *x == *y,
        (Value::Str(x), Value::Str(y)) => *x == *y,
        (Value::Arr(x), Value::Arr(y)) => {
            if x.len() != y.len() {
                return false;
            }
            let mut i: usize = 0;
            while i < x.len()
                invariant
                    0 <= i <= x@.len(),
                    x@.len() == y@.len(),
                    a@ == SpecValue::Arr(elems_view(x@)),
                    b@ == SpecValue::Arr(elems_view(y@)),
                    forall|j: int|
                        0 <= j < i ==> deep_eq(#[trigger] elems_view(x@)[j], elems_view(y@)[j]),
                decreases x@.len() - i,
            {
                proof {
                    assert(elems_view(x@)[i as int] == x@[i as int]@);
                    assert(elems_view(y@)[i as int] == y@[i as int]@);
                    lemma_height_elem(elems_view(x@), i as int);
                    lemma_height_elem(elems_view(y@), i as int);
                }
                if !value_eq(&x[i], &y[i]) {
                    return false;
                }
                i += 1;
            }
            true
        },
        (Value::Obj(x), Value::Obj(y)) => {
            if x.len() != y.len() {
                return false;
            }
            let mut i: usize = 0;
            while i < x.len()
                invariant
                    0 <= i <= x@.len(),
                    x@.len() == y@.len(),
                    a@ == SpecValue::Obj(fields_view(x@)),
                    b@ == SpecValue::Obj(fields_view(y@)),
                    forall|k: int|
                        0 <= k < i ==> {
                            let j = key_index(fields_view(y@), #[trigger] fields_view(x@)[k].0);
                            &&& j >= 0
                            &&& deep_eq(fields_view(x@)[k].1, fields_view(y@)[j].1)
                        },
                decreases x@.len() - i,
            {
                proof {
                    assert(fields_view(x@)[i as int].0 == x@[i as int].0@);
                    assert(fields_view(x@)[i as int].1 == x@[i as int].1@);
                }
                match find_key(y, &x[i].0) {
                    None => {
                        return false;
                    },
                    Some(j) => {
                        proof {
                            assert(fields_view(y@)[j as int].1 == y@[j as int].1@);
                            lemma_height_field(fields_view(x@), i as int);
                            lemma_height_field(fields_view(y@), j as int);
                        }
                        if !value_eq(&x[i].1, &y[j].1) {
                            return false;
                        }
                    },
                }
                i += 1;
            }
            true
        },
        _ => false,
    }
}

/// An exact copy of a value.
pub fn deep_clone(v: &Value) -> (r: Value)
    ensures
        r@ == v@,
    decreases height(v@),
{
    match v {
        Value::Null => Value::Null,
        Value::Bool(b) => Value::Bool(*b),
        Value::Num(n) => Value::Num(*n),
        Value::Str(s) => Value::Str(s.clone()),
        Value::Arr(es) => {
            let mut out: Vec<Value> = Vec::new();
            let mut i: usize = 0;
            while i < es.len()
                invariant
                    0 <= i <= es@.len(),
                    out@.len() == i,
                    v@ == SpecValue::Arr(elems_view(es@)),
                    forall|j: int| 0 <= j < i ==> (#[trigger] out@[j])@ == es@[j]@,
                decreases es@.len() - i,
            {
                proof {
                    assert(v@ == SpecValue::Arr(elems_view(es@)));
                    assert(elems_view(es@)[i as int] == es@[i as int]@);
                    lemma_height_elem(elems_view(es@), i as int);
                }
                out.push(deep_clone(&es[i]));
                i += 1;
            }
            proof {
                assert(elems_view(out@) =~= elems_view(es@));
            }
            Value::Arr(out)
        },
        Value::Obj(fs) => {
            let mut out: Vec<(String, Value)> = Vec::new();
            let mut i: usize = 0;
            while i < fs.len()
                invariant
                    0 <= i <= fs@.len(),
                    out@.len() == i,
                    v@ == SpecValue::Obj(fields_view(fs@)),
                    forall|j: int|
                        0 <= j < i ==> {
                            &&& (#[trigger] out@[j]).0@ == fs@[j].0@
                            &&& out@[j].1@ == fs@[j].1@
                        },
                decreases fs@.len() - i,
            {
                proof {
                    assert(v@ == SpecValue::Obj(fields_view(fs@)));
                    assert(fields_view(fs@)[i as int].1 == fs@[i as int].1@);
                    lemma_height_field(fields_view(fs@), i as int);
                }
                let key = fs[i].0.clone();
                let val = deep_clone(&fs[i].1);
                out.push((key, val));
                i += 1;
            }
            proof {
                assert(fields_view(out@) =~= fields_view(fs@));
            }
            Value::Obj(out)
        },
    }
}

} // verus!
