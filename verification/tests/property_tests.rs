use jsondiff::{diff, length, similarity, value_diff, Num, Rat, Sign, Value};

fn num(u: u64) -> Value {
    Value::Num(Num::Uint(u))
}

fn txt(s: &str) -> Value {
    Value::Str(s.to_string())
}

fn obj(fields: Vec<(&str, Value)>) -> Value {
    Value::Obj(fields.into_iter().map(|(k, v)| (k.to_string(), v)).collect())
}

fn arr(elems: Vec<Value>) -> Value {
    Value::Arr(elems)
}

fn score(r: Rat) -> f64 {
    r.num as f64 / r.den as f64
}

#[test]
fn self_diff_is_empty_at_any_depth() {
    let deep = obj(vec![
        ("a", arr(vec![num(1), obj(vec![("b", arr(vec![txt("x"), Value::Null]))])])),
        ("c", obj(vec![("d", obj(vec![("e", arr(vec![]))]))])),
    ]);
    let (d, s) = value_diff(&deep, &deep).unwrap();
    assert_eq!(Value::Obj(Vec::new()), d);
    assert_eq!(Rat { num: 1, den: 1 }, s);
}

#[test]
fn similarity_is_deterministic_and_in_unit_interval() {
    let a = obj(vec![("a", arr(vec![num(1), num(2)])), ("b", txt("x"))]);
    let b = obj(vec![("a", arr(vec![num(2), num(3)])), ("c", txt("y"))]);
    let s1 = similarity(&a, &b).unwrap();
    let s2 = similarity(&a, &b).unwrap();
    assert_eq!(s1, s2);
    assert!(s1.den >= 1);
    assert!(s1.num <= s1.den);
}

#[test]
fn scalar_mismatch_yields_second_value() {
    assert_eq!(num(2), diff(&num(1), &num(2)).unwrap());
    assert_eq!(Value::Bool(false), diff(&Value::Bool(true), &Value::Bool(false)).unwrap());
    assert_eq!(txt("def"), diff(&txt("abc"), &txt("def")).unwrap());
}

#[test]
fn mismatched_container_types_yield_second_value() {
    let a = arr(vec![num(1)]);
    let b = obj(vec![("a", num(1))]);
    assert_eq!(b, diff(&a, &b).unwrap());
    assert_eq!(0.0, score(similarity(&a, &b).unwrap()));
    assert_eq!(txt("abc"), diff(&Value::Null, &txt("abc")).unwrap());
}

#[test]
fn disjoint_arrays_collapse_to_replacement() {
    let a = arr(vec![num(1), num(2)]);
    let b = arr(vec![num(3), num(4)]);
    assert_eq!(b, diff(&a, &b).unwrap());
    assert_eq!(0.0, score(similarity(&a, &b).unwrap()));
}

#[test]
fn overlapping_arrays_partition_by_position() {
    let a = arr(vec![num(1), num(2), num(3), num(4)]);
    let b = arr(vec![num(3), num(4), num(5), num(6)]);
    // Two exact matches out of a union of len(a) + 2 inserted = 6 elements.
    let expected = obj(vec![
        (
            "inserted",
            arr(vec![arr(vec![num(2), num(5)]), arr(vec![num(3), num(6)])]),
        ),
        (
            "deleted",
            arr(vec![arr(vec![num(0), num(1)]), arr(vec![num(1), num(2)])]),
        ),
    ]);
    assert_eq!(expected, diff(&a, &b).unwrap());
    let s = similarity(&a, &b).unwrap();
    assert_eq!(Rat { num: 1, den: 3 }, s);
    assert_eq!(2.0 / 6.0, score(s));
}

#[test]
fn object_field_level_diff() {
    let a = obj(vec![("a", num(1)), ("b", num(2))]);
    let b = obj(vec![("a", num(3)), ("b", num(4))]);
    let expected = obj(vec![("changed", obj(vec![("a", num(3)), ("b", num(4))]))]);
    assert_eq!(expected, diff(&a, &b).unwrap());
}

#[test]
fn object_added_and_removed_partitions() {
    let a = obj(vec![("a", num(1)), ("b", num(2))]);
    let b = obj(vec![("b", num(2)), ("c", num(3))]);
    let expected = obj(vec![
        ("added", obj(vec![("c", num(3))])),
        ("removed", obj(vec![("a", num(1))])),
    ]);
    assert_eq!(expected, diff(&a, &b).unwrap());
}

#[test]
fn matched_key_earns_half_credit() {
    // One key present in both with fully different values: 1/2 + 0/2 over one key.
    let a = obj(vec![("a", num(1))]);
    let b = obj(vec![("a", num(2))]);
    assert_eq!(Rat { num: 1, den: 2 }, similarity(&a, &b).unwrap());
}

#[test]
fn tie_breaks_choose_insertion_over_deletion() {
    // With no common elements every cell ties, so the walk from the far
    // corner must take the insertion first and emit it last.
    let a = arr(vec![num(1)]);
    let b = arr(vec![num(2)]);
    let ops = length(&a, &b).unwrap();
    assert_eq!(2, ops.len());
    assert!(matches!(ops[0].sign, Sign::Negative));
    assert_eq!(0, ops[0].position);
    assert_eq!(num(1), ops[0].value);
    assert!(matches!(ops[1].sign, Sign::Positive));
    assert_eq!(0, ops[1].position);
    assert_eq!(num(2), ops[1].value);
}

#[test]
fn changed_positions_use_decimal_keys() {
    // Eleven aligned pairs; the one at position ten differs inside, so the
    // nested difference is filed under the decimal key "10".
    let mut xs: Vec<Value> = Vec::new();
    let mut ys: Vec<Value> = Vec::new();
    for k in 0..11u64 {
        xs.push(arr(vec![num(k), num(1)]));
        if k == 10 {
            ys.push(arr(vec![num(k), num(2)]));
        } else {
            ys.push(arr(vec![num(k), num(1)]));
        }
    }
    let d = diff(&arr(xs), &arr(ys)).unwrap();
    let inner = obj(vec![
        ("inserted", arr(vec![arr(vec![num(1), num(2)])])),
        ("deleted", arr(vec![arr(vec![num(1), num(1)])])),
    ]);
    let expected = obj(vec![("changed", obj(vec![("10", inner)]))]);
    assert_eq!(expected, d);
}

#[test]
fn unrepresentable_scores_are_reported() {
    // Nesting an object thirty-three levels deep drives the exact score's
    // denominator past 32 bits, which the library reports rather than rounds.
    let mut a = num(1);
    let mut b = num(2);
    for _ in 0..33 {
        a = obj(vec![("k", a)]);
        b = obj(vec![("k", b)]);
    }
    assert_eq!(None, similarity(&a, &b));
    // A few levels fewer still fits exactly.
    let mut c = num(1);
    let mut d = num(2);
    for _ in 0..5 {
        c = obj(vec![("k", c)]);
        d = obj(vec![("k", d)]);
    }
    assert_eq!(Rat { num: 31, den: 32 }, similarity(&c, &d).unwrap());
}

#[test]
fn object_comparison_ignores_pair_order() {
    let a = obj(vec![("a", num(1)), ("b", num(2))]);
    let b = obj(vec![("b", num(2)), ("a", num(1))]);
    assert_eq!(Value::Obj(Vec::new()), diff(&a, &b).unwrap());
    assert_eq!(1.0, score(similarity(&a, &b).unwrap()));
}

#[test]
fn nested_values_align_with_partial_credit() {
    // Aligned objects differing in one of two fields: similarity 3/4 for
    // the pair, carried through the array formula: 3/4 over 1 element.
    let a = arr(vec![obj(vec![("x", num(1)), ("y", num(2))])]);
    let b = arr(vec![obj(vec![("x", num(1)), ("y", num(3))])]);
    let s = similarity(&a, &b).unwrap();
    assert_eq!(Rat { num: 3, den: 4 }, s);
    let expected = obj(vec![(
        "changed",
        obj(vec![("0", obj(vec![("changed", obj(vec![("y", num(3))]))]))]),
    )]);
    assert_eq!(expected, diff(&a, &b).unwrap());
}
