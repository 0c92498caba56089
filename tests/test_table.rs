use sexprs::table::{Scope, Sym, SymbolTable};
use sexprs::Value;

#[test]
fn resolution_order_and_auto_declaration() {
    let mut table = SymbolTable::new();
    let name = "a".to_string();
    assert_eq!(table.get(&name).as_value(), Value::symbol("a"));
    assert!(table.locals.get(&name).is_some());
    table.set_local("a".to_string(), Sym::Value(Value::unsigned_integer(1)));
    assert_eq!(table.get(&name).as_value(), Value::unsigned_integer(1));
    table.set_function_local("a".to_string(), Sym::Value(Value::unsigned_integer(2)));
    assert_eq!(table.get(&name).as_value(), Value::unsigned_integer(2));
    table.set_global("g".to_string(), Sym::Value(Value::T));
    assert_eq!(table.get(&"g".to_string()).as_value(), Value::T);
    assert_eq!(table.get(&"car".to_string()).as_value(), Value::symbol("car"));
}

#[test]
fn extend_overrides_globals_and_locals() {
    let mut base = SymbolTable::new();
    base.set_local("x".to_string(), Sym::Value(Value::unsigned_integer(1)));
    base.set_local("y".to_string(), Sym::Value(Value::unsigned_integer(1)));
    let mut other = SymbolTable::with_locals(Scope::new());
    other.set_local("x".to_string(), Sym::Value(Value::unsigned_integer(9)));
    other.set_function_local("z".to_string(), Sym::Value(Value::T));
    base.extend(&other);
    assert_eq!(base.get(&"x".to_string()).as_value(), Value::unsigned_integer(9));
    assert_eq!(base.get(&"y".to_string()).as_value(), Value::unsigned_integer(1));
    assert!(base.function_locals.get(&"z".to_string()).is_none());
}
