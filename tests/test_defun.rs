use sexprs::{list, Error, Value, VirtualMachine};

#[test]
fn test_eval_if_then() -> Result<(), Error> {
    let mut vm = VirtualMachine::new();
    let value = vm.eval_string(
        "
  (if t
      \"true\"
      \"false\")
",
    )?;
    assert_eq!(value.to_string(), "(\"true\")");
    Ok(())
}

#[test]
fn test_eval_setq() -> Result<(), Error> {
    let mut vm = VirtualMachine::new();
    vm.eval_string(r#"(setq a 1)"#)?;
    let val = vm.eval_string(r#"(list a 2)"#)?;
    assert_eq!(val, list(vec![Value::unsigned_integer(1u64), Value::unsigned_integer(2u64)]));
    Ok(())
}

#[test]
fn test_eval_defun() -> Result<(), Error> {
    let mut vm = VirtualMachine::new();
    vm.eval_string(r#"(defun sum(a b) (+ a b))"#)?;
    let val = vm.eval_string(r#"(sum 1 1)"#)?;
    assert_eq!(val, Value::unsigned_integer(2u64));
    Ok(())
}

#[test]
fn test_eval_defun_recursive() -> Result<(), Error> {
    let mut vm = VirtualMachine::new();
    vm.eval_string(r#"(defun sum(a b) (+ a b))"#)?;
    let val = vm.eval_string(r#"(sum 40 (sum 1 1))"#)?;
    assert_eq!(val, Value::unsigned_integer(42u64));
    Ok(())
}

#[test]
fn test_eval_if_else() -> Result<(), Error> {
    let mut vm = VirtualMachine::new();
    let value = vm.eval_string(
        "
  (if nil
      \"true\"
      \"false\")
",
    )?;
    assert_eq!(value.to_string(), "(\"false\")");
    Ok(())
}

#[test]
fn test_eval_listp() -> Result<(), Error> {
    let mut vm = VirtualMachine::new();
    let value = vm.eval_string(
        "
  (listp (list 'a 'b))
",
    )?;
    assert_eq!(value, Value::T);
    Ok(())
}

#[test]
fn test_eval_null() -> Result<(), Error> {
    let mut vm = VirtualMachine::new();
    let value = vm.eval_string(
        "
  (null nil)
",
    )?;
    assert_eq!(value, Value::T);
    Ok(())
}
