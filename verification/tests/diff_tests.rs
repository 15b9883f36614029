use jsondiff::{compare, Num, Value};

fn num(u: u64) -> Value {
    Value::Num(Num::Uint(u))
}

fn txt(s: &str) -> Value {
    Value::Str(s.to_string())
}

fn obj(fields: Vec<(&str, Value)>) -> Value {
    Value::Obj(fields.into_iter().map(|(k, v)| (k.to_string(), v)).collect())
}

#[test]
fn test_equality() {
    let empty = Value::Obj(Vec::new());
    assert_eq!(empty, compare(&num(1), &num(1)).unwrap());
    assert_eq!(empty, compare(&Value::Bool(true), &Value::Bool(true)).unwrap());
    assert_eq!(empty, compare(&txt("abc"), &txt("abc")).unwrap());
    assert_eq!(
        empty,
        compare(&Value::Arr(vec![num(1), num(2)]), &Value::Arr(vec![num(1), num(2)])).unwrap()
    );
    assert_eq!(
        empty,
        compare(
            &obj(vec![("a", num(1)), ("b", num(2))]),
            &obj(vec![("a", num(1)), ("b", num(2))]),
        )
        .unwrap()
    );
    assert_eq!(empty, compare(&Value::Arr(vec![]), &Value::Arr(vec![])).unwrap());
    assert_eq!(empty, compare(&Value::Null, &Value::Null).unwrap());
    assert_eq!(empty, compare(&Value::Obj(Vec::new()), &Value::Obj(Vec::new())).unwrap());
}

#[test]
fn diff_test_simple_differences() {
    assert_eq!(num(2), compare(&num(1), &num(2)).unwrap());
    assert_eq!(Value::Bool(false), compare(&Value::Bool(true), &Value::Bool(false)).unwrap());
    assert_eq!(txt("def"), compare(&txt("abc"), &txt("def")).unwrap());
    assert_eq!(
        Value::Arr(vec![num(3), num(4)]),
        compare(&Value::Arr(vec![num(1), num(2)]), &Value::Arr(vec![num(3), num(4)])).unwrap()
    );
    assert_eq!(
        obj(vec![("changed", obj(vec![("a", num(3)), ("b", num(4))]))]),
        compare(
            &obj(vec![("a", num(1)), ("b", num(2))]),
            &obj(vec![("a", num(3)), ("b", num(4))]),
        )
        .unwrap()
    );
}
