use sexprs::cell::{Cell, Cells};
use sexprs::{append, car, cdr, cons, list, Value};

#[test]
fn test_cons() {
    let cell = cons(Value::symbol("head"), &Value::symbol("tail"));
    assert_eq!(cell.values(), vec![Value::symbol("head"), Value::symbol("tail")]);
}

#[test]
fn test_list() {
    let value = list(vec![
        Value::symbol("head"),
        Value::symbol("middle"),
        Value::from(33u8),
        Value::from("tail"),
    ]);
    assert_eq!(value.to_string(), r#"(head middle 0x21 "tail")"#);
}

#[test]
fn test_cons_test_car() {
    let value = list(vec![
        Value::from("head"),
        Value::from("middle"),
        Value::from(33u8),
        Value::from("tail"),
    ]);
    assert_eq!(value.head(), Some(Value::from("head")));
    assert_eq!(car(&value), Value::from("head"));
    let value = list(vec![Value::symbol("head"), Value::from("tail")]).quote();
    assert_eq!(value.head(), Some(Value::symbol("head")));
    assert_eq!(car(&value), Value::quoted_symbol("head"));
}

#[test]
fn test_cons_test_cdr() {
    let value = list(vec![Value::symbol("a"), Value::symbol("b"), Value::symbol("c")]);
    assert_eq!(cdr(&value), list(vec![Value::symbol("b"), Value::symbol("c")]));
}

#[test]
fn test_cons_test_append() {
    let cell = append(&vec![
        list(vec![Value::symbol("list1-head"), Value::symbol("list1-tail")]),
        Value::from("middle"),
        list(vec![Value::symbol("list2-head"), Value::symbol("list2-tail")]),
    ]);
    assert_eq!(
        cell.values(),
        vec![
            Value::symbol("list1-head"),
            Value::symbol("list1-tail"),
            Value::from("middle"),
            Value::symbol("list2-head"),
            Value::symbol("list2-tail"),
        ]
    );
}

#[test]
fn test_setcdr() {
    let mut cells = Cells::new();
    let tail = cells.insert(Cell::new(Value::from(2i64)));
    let cell = cells.cons(Value::from(1i64), tail);
    // create ring
    cells.set_tail(tail, Some(cell));

    assert_eq!(cells.car(cell), Value::from(1i64));
    assert_eq!(cells.car(cells.cdr(cell).unwrap()), Value::from(2i64));
    assert_eq!(cells.car(cells.cdr(cells.cdr(cell).unwrap()).unwrap()), Value::from(1i64));
}

#[test]
fn narrowest_values() {
    assert_eq!(Value::from(255u64), Value::Byte(255));
    assert_eq!(Value::from(256u64), Value::unsigned_integer(256));
    assert_eq!(Value::from(-1i64), Value::integer(-1));
    assert_eq!(Value::from(7i64), Value::Byte(7));
    assert_eq!(Value::from(1000i64), Value::unsigned_integer(1000));
    assert_eq!(Value::from("s").to_string(), "\"s\"");
}
