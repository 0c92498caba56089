use sexprs::{list, Error, Value, VirtualMachine};

#[test]
fn test_string_test_print() -> Result<(), Error> {
    let mut vm = VirtualMachine::new();
    let ast = list(vec![
        Value::symbol("print"),
        Value::unsigned_integer(2u64),
        Value::unsigned_integer(2u64),
    ]);
    let val = vm.eval(ast)?;
    assert_eq!(val, list(vec![Value::unsigned_integer(2u64), Value::unsigned_integer(2u64)]));
    assert_eq!(vm.take_output(), vec!["2 2".to_string()]);
    Ok(())
}
