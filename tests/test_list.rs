use sexprs::{list, Error, Value, VirtualMachine};

#[test]
fn test_list_test_car() -> Result<(), Error> {
    let mut vm = VirtualMachine::new();
    let ast = list(vec![
        Value::symbol("car"),
        list(vec![Value::symbol("a"), Value::symbol("b"), Value::symbol("c")]),
    ]);
    let val = vm.eval(ast)?;
    assert_eq!(val, Value::symbol("a"));
    Ok(())
}

#[test]
fn test_list_test_cdr() -> Result<(), Error> {
    let mut vm = VirtualMachine::new();
    let ast = list(vec![
        Value::symbol("cdr"),
        list(vec![Value::symbol("a"), Value::symbol("b"), Value::symbol("c")]),
    ]);
    let val = vm.eval(ast)?;
    assert_eq!(val, list(vec![Value::symbol("b"), Value::symbol("c")]));
    Ok(())
}

#[test]
fn test_list_test_append() -> Result<(), Error> {
    let mut vm = VirtualMachine::new();
    let ast = list(vec![
        Value::symbol("append"),
        list(vec![Value::symbol("a")]),
        list(vec![Value::symbol("b"), Value::symbol("c")]),
    ]);
    let val = vm.eval(ast)?;
    assert_eq!(
        val,
        list(vec![Value::symbol("a"), Value::symbol("b"), Value::symbol("c")])
    );
    Ok(())
}
