use sexprs::{list, parse_source, Error, Value, VirtualMachine};

fn eval_display(input: &str) -> String {
    let mut vm = VirtualMachine::new();
    vm.eval_string(input).unwrap().to_string()
}

fn eval_value(input: &str) -> Value {
    let mut vm = VirtualMachine::new();
    vm.eval_string(input).unwrap()
}

fn parsed_display(code: &str) -> String {
    parse_source(code).unwrap().to_string()
}

#[test]
fn test_list_quoted_sexprs() {
    for code in [
        "(list 'a 'b 'c)",
        "'(a b c)",
        "(list '(x y z) 3)",
        "'((x y z) 3)",
        "(list 'a 'b 'c)",
        "(a b c)",
        "'(x y z)",
        "'((x y z) 3)",
        "(list '(x y z) 3)",
        "'('(x y z) 3)",
    ] {
        assert_eq!(parsed_display(code), code);
    }
}

#[test]
fn test_sexprs_test_list_quoted_sexprs() -> Result<(), Error> {
    assert_eq!(eval_display("(cdr '('a 'b 'c))").trim(), "('b 'c)");
    assert_eq!(
        eval_value("(list 'a 'b 'c)"),
        list(vec![
            Value::quoted_symbol("a"),
            Value::quoted_symbol("b"),
            Value::quoted_symbol("c"),
        ])
    );
    assert_eq!(
        eval_value("(append '('a 'b) '('c))"),
        list(vec![
            Value::quoted_symbol("a"),
            Value::quoted_symbol("b"),
            Value::quoted_symbol("c"),
        ])
    );
    assert_eq!(eval_display("(list 'a 'b 'c)").trim(), "('a 'b 'c)");
    assert_eq!(eval_display("(list '(x y z) 3) ").trim(), "(x y z 3)");
    assert_eq!(eval_display("(car '('a 'b 'c))").trim(), "'a");
    assert_eq!(eval_display("(list 'a 'b 'c) ").trim(), "('a 'b 'c)");
    assert_eq!(eval_display("'(x y z)").trim(), "'(x y z)");
    assert_eq!(eval_display("(list '(x y z) 3) ").trim(), "(x y z 3)");
    Ok(())
}
