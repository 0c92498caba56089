use sexprs::{list, parse_source, ParseError, Value};

#[test]
fn test_cons_of_literal_strings() -> Result<(), ParseError> {
    let items = parse_source(r#"(cons "a" "b")"#)?;
    assert_eq!(items, list(vec![Value::symbol("cons"), Value::from("a"), Value::from("b")]));
    Ok(())
}

#[test]
fn test_list_of_literal_strings() -> Result<(), ParseError> {
    let items = parse_source(r#"(list "a" "b")"#)?;
    assert_eq!(items, list(vec![Value::symbol("list"), Value::from("a"), Value::from("b")]));
    Ok(())
}

#[test]
fn test_quoted_list_of_literal_strings() -> Result<(), ParseError> {
    let items = parse_source(r#"'("a" "b")"#)?;
    assert_eq!(items, list(vec![Value::from("a"), Value::from("b")]).quote());
    Ok(())
}

#[test]
fn test_call_to_function_add_two_numbers() -> Result<(), ParseError> {
    let items = parse_source(r#"(+ 1 2)"#)?;
    assert_eq!(
        items,
        list(vec![
            Value::symbol("+"),
            Value::unsigned_integer(1u32.into()),
            Value::unsigned_integer(2u32.into()),
        ])
    );
    Ok(())
}

#[test]
fn test_list_of_literal_strings_and_quoted_list_of_literal_strings() -> Result<(), ParseError> {
    let items = parse_source(r#"(list "a" "b" '("c" "d"))"#)?;
    assert_eq!(
        items,
        list(vec![
            Value::symbol("list"),
            Value::from("a"),
            Value::from("b"),
            list(vec![Value::from("c"), Value::from("d")]).quote(),
        ])
    );
    Ok(())
}

#[test]
fn test_cons_of_car_literal_string_and_cdr_quoted_list_of_literal_strings(
) -> Result<(), ParseError> {
    let items = parse_source(r#"(cons "a" '("b" "c"))"#)?;
    assert_eq!(
        items,
        list(vec![
            Value::symbol("cons"),
            Value::from("a"),
            list(vec![Value::from("b"), Value::from("c")]).quote(),
        ])
    );
    Ok(())
}

#[test]
fn test_parse_test_print() -> Result<(), ParseError> {
    let items = parse_source(r#"(print "t")"#)?;
    assert_eq!(items, list(vec![Value::symbol("print"), Value::from("t")]));
    Ok(())
}

#[test]
fn test_defun() -> Result<(), ParseError> {
    let items = parse_source(r#"(defun myfun() (cons "a" '("b" "c")))"#)?;
    assert_eq!(
        items,
        list(vec![
            Value::symbol("defun"),
            Value::symbol("myfun"),
            list(vec![]),
            list(vec![
                Value::symbol("cons"),
                Value::from("a"),
                list(vec![Value::from("b"), Value::from("c")]).quote(),
            ]),
        ])
    );
    Ok(())
}

#[test]
fn parse_errors_carry_a_position() {
    let err = parse_source("(a b").unwrap_err();
    let span = err.info.unwrap();
    assert_eq!(span.start_pos(), (1, 1));
    let err = parse_source("(a\n  b))").unwrap_err();
    let span = err.info.unwrap();
    assert_eq!(span.start_pos(), (2, 5));
    assert_eq!(span.input(), "  b))");
    assert!(parse_source("\"open").is_err());
    assert!(parse_source("1.5").is_err());
}

#[test]
fn parse_reads_atoms() {
    assert_eq!(parse_source("   ").unwrap(), Value::Nil);
    assert_eq!(parse_source("nil").unwrap(), Value::Nil);
    assert_eq!(parse_source("T").unwrap(), Value::T);
    assert_eq!(parse_source("-42").unwrap(), Value::integer(-42));
    assert_eq!(parse_source("18446744073709551615").unwrap(), Value::unsigned_integer(u64::MAX));
    assert!(parse_source("18446744073709551616").is_err());
    assert_eq!(parse_source("'x").unwrap(), Value::quoted_symbol("x"));
    assert_eq!(parse_source("()").unwrap(), Value::Nil);
}
