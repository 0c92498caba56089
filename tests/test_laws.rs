use sexprs::{list, ErrorType, Value, VirtualMachine};

#[test]
fn quoted_values_evaluate_to_themselves() {
    let mut vm = VirtualMachine::new();
    for v in [
        Value::symbol("x"),
        list(vec![Value::symbol("car"), Value::symbol("a")]),
        Value::quoted_symbol("y"),
    ] {
        let quoted = v.quote();
        let result = vm.eval(quoted.copy()).unwrap();
        assert_eq!(result, quoted);
        assert!(result.is_quoted());
    }
    assert_eq!(vm.eval_string("(quote x)").unwrap(), Value::quoted_symbol("x"));
    assert_eq!(vm.eval_string("(quote (a b))").unwrap().to_string(), "'(a b)");
    let err = vm.eval_string("(quote 1)").unwrap_err();
    assert_eq!(err.kind, ErrorType::RuntimeError);
}

#[test]
fn list_equality_is_structural() {
    assert!(Value::nil().equals(&Value::nil()));
    let a = list(vec![Value::symbol("a"), Value::unsigned_integer(1)]);
    let b = list(vec![Value::symbol("a"), Value::unsigned_integer(1)]);
    assert!(a.equals(&b));
    assert_eq!(a, b);
    let c = list(vec![Value::symbol("a")]);
    assert!(!a.equals(&c));
    assert!(!a.equals(&a.copy().quote()));
}

#[test]
fn parse_then_display_round_trips() {
    for code in ["(a \"b c\" -3 4 'd '(e (f)) nil t)", "'x", "sym", "(+ 1 2)"] {
        assert_eq!(sexprs::parse_source(code).unwrap().to_string(), code);
    }
    assert_eq!(sexprs::parse_source("  ( a   b )\n").unwrap().to_string(), "(a b)");
}

#[test]
fn arithmetic_scenarios() {
    let mut vm = VirtualMachine::new();
    assert_eq!(vm.eval_string("(+ 2 2)").unwrap(), Value::unsigned_integer(4));
    assert_eq!(vm.eval_string("(* -3 7)").unwrap(), Value::integer(-21));
    assert_eq!(vm.eval_string("(+ (* 3 7) (* 4 5) 1)").unwrap(), Value::unsigned_integer(42));
}

#[test]
fn function_parameters_shadow_locals_during_the_call() {
    let mut vm = VirtualMachine::new();
    vm.eval_string("(setq a 1)").unwrap();
    vm.eval_string("(defun f (a) (+ a 0))").unwrap();
    assert_eq!(vm.eval_string("(f 2)").unwrap(), Value::unsigned_integer(2));
    assert_eq!(vm.eval_string("(list a 2)").unwrap(), list(vec![Value::unsigned_integer(1), Value::unsigned_integer(2)]));
}

#[test]
fn function_locals_are_one_flat_scope() {
    // A nested call rebinds the caller's parameter of the same name before
    // the caller reads it again.
    let mut vm = VirtualMachine::new();
    vm.eval_string("(defun inner (x) x)").unwrap();
    vm.eval_string("(defun outer (x) (list (inner 5) x))").unwrap();
    assert_eq!(
        vm.eval_string("(outer 1)").unwrap(),
        list(vec![Value::unsigned_integer(5), Value::unsigned_integer(5)])
    );
}

#[test]
fn unbound_symbols_evaluate_to_themselves() {
    let mut vm = VirtualMachine::new();
    assert_eq!(vm.eval_string("x").unwrap(), Value::symbol("x"));
    assert_eq!(vm.eval(Value::symbol("never-bound")).unwrap(), Value::symbol("never-bound"));
    let locals = vm.symbols();
    assert!(locals.entries.iter().any(|b| b.name == "x"));
}

#[test]
fn recursive_defun() {
    let mut vm = VirtualMachine::new();
    vm.eval_string("(defun sum (a b) (+ a b))").unwrap();
    assert_eq!(vm.eval_string("(sum 40 (sum 1 1))").unwrap(), Value::unsigned_integer(42));
}

#[test]
fn defun_returns_its_value_form_and_checks_arity() {
    let mut vm = VirtualMachine::new();
    let form = vm.eval_string("(defun sum (a b) (+ a b))").unwrap();
    assert_eq!(form.to_string(), "(sum (a b) (+ a b))");
    let err = vm.eval_string("(sum 1)").unwrap_err();
    assert_eq!(err.kind, ErrorType::RuntimeError);
    assert!(err.message.contains("expected 2 args but received 1"));
    assert_eq!(err.callers[0].function_name(), "sum");
}

#[test]
fn setq_errors() {
    let mut vm = VirtualMachine::new();
    let err = vm.eval_string("(setq a)").unwrap_err();
    assert_eq!(err.kind, ErrorType::RuntimeError);
    assert!(err.message.contains("odd number of arguments (1)"));
    let err = vm.eval_string("(setq 1 2)").unwrap_err();
    assert_eq!(err.kind, ErrorType::RuntimeError);
    assert!(err.message.contains("non-symbol"));
    // a failed evaluation leaves the table as it was
    let before = vm.symbols();
    assert!(vm.eval_string("(setq b)").is_err());
    assert_eq!(vm.symbols(), before);
}

#[test]
fn parse_errors_are_parser_errors() {
    let mut vm = VirtualMachine::new();
    let err = vm.eval_string("(a b").unwrap_err();
    assert_eq!(err.kind, ErrorType::ParserError);
    assert!(err.message.contains("line 1, column 1"));
}

#[test]
fn if_and_predicates() {
    let mut vm = VirtualMachine::new();
    assert_eq!(vm.eval_string("(if (null nil) 'yes 'no)").unwrap().to_string(), "'yes");
    assert_eq!(vm.eval_string("(listp 'a)").unwrap(), Value::Nil);
    assert_eq!(vm.eval_string("(null '(a))").unwrap(), Value::Nil);
    assert_eq!(vm.eval_string("(cons 'a '(b c))").unwrap().to_string(), "'('a b c)");
    assert_eq!(vm.eval_string("(cons 1 (list 2 3))").unwrap().to_string(), "(1 2 3)");
    assert_eq!(vm.eval_string("(backquote a b)").unwrap().to_string(), "(a b)");
    assert_eq!(vm.eval(Value::symbol("t")).unwrap(), Value::T);
    assert_eq!(vm.eval_string("(t)").unwrap().to_string(), "(t)");
    assert_eq!(vm.eval_string("5").unwrap().to_string(), "(5)");
}

#[test]
fn deep_recursion_is_an_error_not_a_crash() {
    let mut vm = VirtualMachine::new();
    vm.eval_string("(defun loop (x) (loop x))").unwrap();
    let err = vm.eval_string("(loop 1)").unwrap_err();
    assert_eq!(err.kind, ErrorType::RuntimeError);
}

#[test]
fn parameters_that_are_not_symbols_bind_under_their_printed_name() {
    let mut vm = VirtualMachine::new();
    vm.eval_string("(defun one (1) 7)").unwrap();
    assert_eq!(vm.eval_string("(one 5)").unwrap(), list(vec![Value::unsigned_integer(7)]));
    let err = vm.eval_string("(one)").unwrap_err();
    assert_eq!(err.message, "one expected 1 args but received 0");
    assert_eq!(err.callers[0].file(), "<input>");
}

#[test]
fn symbol_operands_fold() {
    let mut vm = VirtualMachine::new();
    vm.eval_string("(setq a 40)").unwrap();
    vm.eval_string("(setq b 2)").unwrap();
    assert_eq!(vm.eval_string("(+ a b)").unwrap(), Value::unsigned_integer(42));
    assert_eq!(vm.eval_string("(* 2 a)").unwrap(), Value::unsigned_integer(80));
    assert_eq!(vm.eval_symbol_function("list", list(vec![Value::symbol("a"), Value::T])).unwrap().to_string(), "(40 t)");
}
