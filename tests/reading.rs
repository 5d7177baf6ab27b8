use std::cell::Cell;

use church::parser::read_expr;
use church::syntax::is_church_char;
use church::value::{ChurchParseError, ChurchValue};

fn echo(v: ChurchValue) -> Result<ChurchValue, ()> {
    Ok(v)
}

fn num(n: i16) -> ChurchValue {
    ChurchValue::Number(n)
}

fn list(items: Vec<ChurchValue>) -> ChurchValue {
    ChurchValue::List(Box::new(items))
}

fn func(name: &str, args: Vec<ChurchValue>) -> ChurchValue {
    ChurchValue::Func(name.to_string(), Box::new(args))
}

#[test]
fn numbers_in_range_read_back() {
    for n in [0i16, 1, 7, 10, 42, 255, 1000, 32767] {
        assert_eq!(read_expr(&n.to_string(), &echo), Ok(num(n)));
    }
}

#[test]
fn numbers_out_of_range_fail() {
    assert_eq!(read_expr("32768", &echo), Err(ChurchParseError::IntParseError));
    assert_eq!(read_expr("99999", &echo), Err(ChurchParseError::IntParseError));
    assert_eq!(read_expr("123456789012", &echo), Err(ChurchParseError::IntParseError));
}

#[test]
fn leading_zeros_are_read() {
    assert_eq!(read_expr("007", &echo), Ok(num(7)));
}

#[test]
fn booleans() {
    assert_eq!(read_expr("#t", &echo), Ok(ChurchValue::Bool(true)));
    assert_eq!(read_expr("#f", &echo), Ok(ChurchValue::Bool(false)));
    assert!(read_expr("#x", &echo).is_err());
}

#[test]
fn list_of_numbers_keeps_order() {
    assert_eq!(read_expr("(1,2,3)", &echo), Ok(list(vec![num(1), num(2), num(3)])));
    assert_eq!(read_expr("(3,1,2)", &echo), Ok(list(vec![num(3), num(1), num(2)])));
}

#[test]
fn list_of_mixed_literals() {
    assert_eq!(
        read_expr("(1,#t,3)", &echo),
        Ok(list(vec![num(1), ChurchValue::Bool(true), num(3)]))
    );
}

#[test]
fn list_with_non_literal_fails() {
    assert_eq!(read_expr("(1,foo,3)", &echo), Err(ChurchParseError::ListParseError));
}

#[test]
fn list_with_overflowing_number_fails() {
    assert_eq!(read_expr("(1,99999)", &echo), Err(ChurchParseError::ListParseError));
}

#[test]
fn list_with_unicode_letter_is_still_a_list() {
    assert_eq!(read_expr("(1,\u{e9})", &echo), Err(ChurchParseError::ListParseError));
}

#[test]
fn comma_list_is_not_an_application() {
    assert_eq!(read_expr("(1,2)", &echo), Ok(list(vec![num(1), num(2)])));
}

#[test]
fn application_with_echo_evaluator() {
    assert_eq!(read_expr("add 1 2", &echo), Ok(func("add", vec![num(1), num(2)])));
}

#[test]
fn space_separated_is_not_a_list() {
    assert_eq!(read_expr("add 1", &echo), Ok(func("add", vec![num(1)])));
    assert_eq!(read_expr("(add 1 2)", &echo), Ok(func("add", vec![num(1), num(2)])));
}

#[test]
fn arguments_are_evaluated() {
    let double = |v: ChurchValue| -> Result<ChurchValue, ()> {
        match v {
            ChurchValue::Number(n) => Ok(ChurchValue::Number(n * 2)),
            other => Ok(other),
        }
    };
    assert_eq!(read_expr("add 1 2", &double), Ok(func("add", vec![num(2), num(4)])));
}

#[test]
fn operator_names_and_name_arguments() {
    assert_eq!(read_expr("+ 1 x", &echo), Ok(func("+", vec![num(1), func("x", vec![])])));
    assert_eq!(read_expr("f", &echo), Ok(func("f", vec![])));
}

#[test]
fn failing_argument_fails_application() {
    let calls = Cell::new(0u32);
    let fail_on_two = |v: ChurchValue| -> Result<ChurchValue, ()> {
        calls.set(calls.get() + 1);
        if v == ChurchValue::Number(2) {
            Err(())
        } else {
            Ok(v)
        }
    };
    assert_eq!(read_expr("add 1 2", &fail_on_two), Err(ChurchParseError::ParseError));
    calls.set(0);
    assert_eq!(read_expr("add 2 3", &fail_on_two), Err(ChurchParseError::ParseError));
    assert_eq!(calls.get(), 1);
}

#[test]
fn overflowing_argument_fails_application() {
    assert_eq!(read_expr("add 1 99999", &echo), Err(ChurchParseError::ParseError));
}

#[test]
fn text_after_the_application_is_not_read() {
    assert_eq!(read_expr("add 1 2) rest", &echo), Ok(func("add", vec![num(1), num(2)])));
    assert_eq!(read_expr("add  1", &echo), Ok(func("add", vec![])));
}

#[test]
fn inputs_with_no_name_fail() {
    assert_eq!(read_expr("", &echo), Err(ChurchParseError::ParseError));
    assert_eq!(read_expr("()", &echo), Err(ChurchParseError::ParseError));
    assert_eq!(read_expr(" add", &echo), Err(ChurchParseError::ParseError));
}

#[test]
fn church_characters() {
    assert!(is_church_char('a'));
    assert!(is_church_char('Z'));
    assert!(is_church_char('5'));
    for c in ['+', '-', '*', '/', '^', '%'] {
        assert!(is_church_char(c));
    }
    assert!(!is_church_char('#'));
    assert!(!is_church_char(' '));
    assert!(!is_church_char(','));
    assert!(!is_church_char('('));
}
