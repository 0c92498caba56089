use sexprs::{list, Error, ErrorType, Value, VirtualMachine};

#[test]
fn test_multiply_numbers() -> Result<(), Error> {
    let mut vm = VirtualMachine::new();
    let ast = list(vec![Value::symbol("*"), Value::integer(3i64), Value::integer(7i64)]);
    let val = vm.eval(ast)?;
    assert_eq!(val, Value::integer(21));
    Ok(())
}

#[test]
fn test_add_numbers() -> Result<(), Error> {
    let mut vm = VirtualMachine::new();
    let ast = list(vec![
        Value::symbol("+"),
        Value::unsigned_integer(2u64),
        Value::unsigned_integer(2u64),
    ]);
    let val = vm.eval(ast)?;
    assert_eq!(val, Value::unsigned_integer(4u64));
    Ok(())
}

#[test]
fn test_subtract_numbers() -> Result<(), Error> {
    let mut vm = VirtualMachine::new();
    let ast = list(vec![
        Value::symbol("-"),
        Value::unsigned_integer(5u64),
        Value::unsigned_integer(2u64),
    ]);
    let val = vm.eval(ast)?;
    assert_eq!(val, Value::unsigned_integer(3u64));
    Ok(())
}

#[test]
fn test_compound_arithmetic() -> Result<(), Error> {
    let mut vm = VirtualMachine::new();
    let ast = list(vec![
        Value::symbol("+"),
        list(vec![Value::symbol("*"), Value::integer(3i64), Value::integer(7i64)]),
        list(vec![Value::symbol("*"), Value::integer(4i64), Value::integer(5i64)]),
        Value::integer(1i64),
    ]);
    let val = vm.eval(ast)?;
    assert_eq!(val, Value::integer(42));
    Ok(())
}

#[test]
fn test_eval_add_symbols() -> Result<(), Error> {
    let mut vm = VirtualMachine::new();
    vm.setq("a".into(), Value::unsigned_integer(1u64))?;
    vm.setq("b".into(), Value::unsigned_integer(1u64))?;
    let val = vm.eval_string(r#"(+ a b)"#)?;
    assert_eq!(val, Value::unsigned_integer(2u64));
    Ok(())
}

#[test]
fn arithmetic_with_one_argument_is_a_runtime_error() {
    let mut vm = VirtualMachine::new();
    for op in ["+", "-", "*", "/"] {
        let err = vm.eval(list(vec![Value::symbol(op), Value::unsigned_integer(2)])).unwrap_err();
        assert_eq!(err.kind, ErrorType::RuntimeError);
        assert!(err.message.contains(op));
        assert!(err.message.contains("got: 1"));
    }
    let err = vm.eval_string("(+)").unwrap_err();
    assert_eq!(err.kind, ErrorType::RuntimeError);
    assert!(err.message.contains("got: 0"));
}

#[test]
fn arithmetic_overflow_and_division_by_zero_are_errors() {
    let mut vm = VirtualMachine::new();
    let err = vm.eval_string("(/ 7 0)").unwrap_err();
    assert_eq!(err.kind, ErrorType::RuntimeError);
    let err = vm.eval_string("(- 2 5)").unwrap_err();
    assert_eq!(err.kind, ErrorType::RuntimeError);
    let err = vm.eval_string("(* 4294967296 4294967296)").unwrap_err();
    assert_eq!(err.kind, ErrorType::RuntimeError);
}

#[test]
fn arithmetic_folds_left_to_right() {
    let mut vm = VirtualMachine::new();
    assert_eq!(vm.eval_string("(- 20 5 3)").unwrap(), Value::unsigned_integer(12));
    assert_eq!(vm.eval_string("(/ 100 5 2)").unwrap(), Value::unsigned_integer(10));
    assert_eq!(vm.eval_string("(- -7 3)").unwrap(), Value::integer(-10));
    assert_eq!(vm.eval_string("(/ -7 2)").unwrap(), Value::integer(-3));
    assert_eq!(vm.eval_string("(+ -1 2 3)").unwrap(), Value::integer(4));
}

#[test]
fn arithmetic_rejects_non_numbers() {
    let mut vm = VirtualMachine::new();
    let err = vm.eval_string("(+ \"a\" 1)").unwrap_err();
    assert_eq!(err.kind, ErrorType::RuntimeError);
    let err = vm.eval_string("(+ 1 \"a\")").unwrap_err();
    assert_eq!(err.kind, ErrorType::RuntimeError);
}
