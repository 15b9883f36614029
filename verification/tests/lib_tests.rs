use jsondiff::{diff, similarity, Num, Rat, Value};

fn num(u: u64) -> Value {
    Value::Num(Num::Uint(u))
}

fn txt(s: &str) -> Value {
    Value::Str(s.to_string())
}

fn obj(fields: Vec<(&str, Value)>) -> Value {
    Value::Obj(fields.into_iter().map(|(k, v)| (k.to_string(), v)).collect())
}

fn score(r: Rat) -> f64 {
    r.num as f64 / r.den as f64
}

#[test]
fn test_diff_equality() {
    let empty = Value::Obj(Vec::new());
    assert_eq!(empty, diff(&num(1), &num(1)).unwrap());
    assert_eq!(empty, diff(&Value::Bool(true), &Value::Bool(true)).unwrap());
    assert_eq!(empty, diff(&txt("abc"), &txt("abc")).unwrap());
    assert_eq!(
        empty,
        diff(&Value::Arr(vec![num(1), num(2)]), &Value::Arr(vec![num(1), num(2)])).unwrap()
    );
    assert_eq!(
        empty,
        diff(
            &obj(vec![("a", num(1)), ("b", num(2))]),
            &obj(vec![("a", num(1)), ("b", num(2))]),
        )
        .unwrap()
    );
    assert_eq!(empty, diff(&Value::Arr(vec![]), &Value::Arr(vec![])).unwrap());
    assert_eq!(empty, diff(&Value::Null, &Value::Null).unwrap());
    assert_eq!(empty, diff(&Value::Obj(Vec::new()), &Value::Obj(Vec::new())).unwrap());
}

#[test]
fn mod_test_simple_differences() {
    assert_eq!(num(2), diff(&num(1), &num(2)).unwrap());
    assert_eq!(Value::Bool(false), diff(&Value::Bool(true), &Value::Bool(false)).unwrap());
    assert_eq!(txt("def"), diff(&txt("abc"), &txt("def")).unwrap());
    assert_eq!(
        Value::Arr(vec![num(3), num(4)]),
        diff(&Value::Arr(vec![num(1), num(2)]), &Value::Arr(vec![num(3), num(4)])).unwrap()
    );
    assert_eq!(
        obj(vec![("changed", obj(vec![("a", num(3)), ("b", num(4))]))]),
        diff(
            &obj(vec![("a", num(1)), ("b", num(2))]),
            &obj(vec![("a", num(3)), ("b", num(4))]),
        )
        .unwrap()
    );
}

#[test]
fn test_similarity_for_equals() {
    assert_eq!(1.0, score(similarity(&num(1), &num(1)).unwrap()));
    assert_eq!(1.0, score(similarity(&Value::Bool(true), &Value::Bool(true)).unwrap()));
    assert_eq!(1.0, score(similarity(&txt("abc"), &txt("abc")).unwrap()));
    assert_eq!(
        1.0,
        score(
            similarity(&Value::Arr(vec![num(1), num(2)]), &Value::Arr(vec![num(1), num(2)]))
                .unwrap(),
        )
    );
    assert_eq!(
        1.0,
        score(
            similarity(
                &obj(vec![("a", num(1)), ("b", num(2))]),
                &obj(vec![("a", num(1)), ("b", num(2))]),
            )
            .unwrap(),
        )
    );
    assert_eq!(1.0, score(similarity(&Value::Arr(vec![]), &Value::Arr(vec![])).unwrap()));
    assert_eq!(1.0, score(similarity(&Value::Null, &Value::Null).unwrap()));
    assert_eq!(
        1.0,
        score(similarity(&Value::Obj(Vec::new()), &Value::Obj(Vec::new())).unwrap()),
    );
}

#[test]
fn test_similarity_for_different_objects() {
    assert_eq!(0.0, score(similarity(&num(1), &num(2)).unwrap()));
    assert_eq!(0.0, score(similarity(&Value::Bool(true), &Value::Bool(false)).unwrap()));
    assert_eq!(0.0, score(similarity(&txt("abc"), &txt("def")).unwrap()));
    assert_eq!(
        0.5,
        score(
            similarity(
                &Value::Arr(vec![num(1), num(2), num(3)]),
                &Value::Arr(vec![num(2), num(3), num(4)]),
            )
            .unwrap(),
        )
    );
    assert_eq!(
        0.5,
        score(
            similarity(
                &obj(vec![("a", num(1)), ("b", num(2))]),
                &obj(vec![("a", num(3)), ("b", num(4))]),
            )
            .unwrap(),
        )
    );
}
