use sexprs::cell::{Cell, Cells};
use sexprs::Value;

#[test]
fn ring_walks_end() {
    let mut cells = Cells::new();
    let b = cells.insert(Cell::new(Value::symbol("b")));
    let a = cells.cons(Value::symbol("a"), b);
    cells.set_tail(b, Some(a));
    assert_eq!(cells.values(a), vec![Value::symbol("a"), Value::symbol("b")]);
    assert_eq!(cells.len(a), 2);
    assert!(cells.equal(a, a));
    assert!(!cells.push_value(a, Value::symbol("c")));
}

#[test]
fn push_add_and_pop() {
    let mut cells = Cells::new();
    let list = cells.nil();
    assert!(cells.is_empty(list));
    assert!(cells.push_value(list, Value::unsigned_integer(1)));
    assert!(cells.push_value(list, Value::unsigned_integer(2)));
    assert_eq!(cells.values(list), vec![Value::unsigned_integer(1), Value::unsigned_integer(2)]);

    let other = cells.nil();
    cells.push_value(other, Value::unsigned_integer(3));
    assert!(cells.add(list, other));
    assert_eq!(cells.len(list), 3);
    // the grafted tail is shared: a change through `other` shows through `list`
    cells.push_value(other, Value::unsigned_integer(4));
    assert_eq!(
        cells.to_vec(list),
        vec![
            Value::unsigned_integer(1),
            Value::unsigned_integer(2),
            Value::unsigned_integer(3),
            Value::unsigned_integer(4)
        ]
    );
    assert_eq!(cells.unwrap_value(other), sexprs::list(vec![Value::unsigned_integer(3), Value::unsigned_integer(4)]));

    let empty = cells.nil();
    assert!(cells.add(list, empty));
    assert_eq!(cells.len(list), 4);

    assert!(cells.pop(list));
    assert_eq!(cells.values(list), vec![Value::unsigned_integer(1)]);
    assert_eq!(cells.unwrap_value(list), Value::unsigned_integer(1));
    assert!(cells.pop(list));
    assert!(cells.is_empty(list));
    assert!(!cells.pop(list));
    assert_eq!(cells.unwrap_value(list), Value::Nil);
}

#[test]
fn nil_cells_are_equal_and_lists_compare_by_values() {
    let mut cells = Cells::new();
    let x = cells.nil();
    let y = cells.nil();
    assert!(cells.equal(x, y));
    cells.push_value(x, Value::symbol("a"));
    assert!(!cells.equal(x, y));
    cells.push_value(y, Value::symbol("a"));
    assert!(cells.equal(x, y));
    cells.push_value(y, Value::symbol("b"));
    assert!(!cells.equal(x, y));
    assert!(Cell::nil().is_nil());
    assert!(Cell::new(Value::symbol("a").quote()).is_quoted());
    assert_eq!(Cell::quoted(None, true).head(), None);
}
