use church::parser::read_expr;
use church::value::{ChurchParseError, ChurchValue};

fn echo(v: ChurchValue) -> Result<ChurchValue, ()> {
    Ok(v)
}

#[test]
fn render_numbers() {
    assert_eq!(ChurchValue::Number(0).to_string(), "0");
    assert_eq!(ChurchValue::Number(1234).to_string(), "1234");
    assert_eq!(ChurchValue::Number(-5).to_string(), "-5");
    assert_eq!(ChurchValue::Number(i16::MIN).to_string(), "-32768");
    assert_eq!(ChurchValue::Number(i16::MAX).to_string(), "32767");
}

#[test]
fn render_booleans() {
    assert_eq!(ChurchValue::Bool(true).to_string(), "#t");
    assert_eq!(ChurchValue::Bool(false).to_string(), "#f");
}

#[test]
fn render_list_and_application() {
    let l = ChurchValue::List(Box::new(vec![
        ChurchValue::Number(1),
        ChurchValue::Bool(false),
        ChurchValue::Number(3),
    ]));
    assert_eq!(l.to_string(), "1, #f, 3");
    let f = ChurchValue::Func(
        "add".to_string(),
        Box::new(vec![ChurchValue::Number(1), ChurchValue::Number(2)]),
    );
    assert_eq!(f.to_string(), "add1 2");
    let empty = ChurchValue::List(Box::new(vec![]));
    assert_eq!(empty.to_string(), "");
}

#[test]
fn number_round_trip() {
    for n in [0i16, 9, 10, 123, 32767] {
        let v = ChurchValue::Number(n);
        assert_eq!(read_expr(&v.to_string(), &echo), Ok(v));
    }
}

#[test]
fn boolean_round_trip() {
    for b in [true, false] {
        let v = ChurchValue::Bool(b);
        assert_eq!(read_expr(&v.to_string(), &echo), Ok(v));
    }
}

#[test]
fn negative_number_text_does_not_round_trip() {
    let m = ChurchValue::Number(-1).to_string();
    assert_eq!(
        read_expr(&m, &echo),
        Ok(ChurchValue::Func("-1".to_string(), Box::new(vec![])))
    );
}

#[test]
fn list_text_does_not_round_trip() {
    let l = ChurchValue::List(Box::new(vec![ChurchValue::Number(1), ChurchValue::Number(2)]));
    assert_ne!(read_expr(&l.to_string(), &echo), Ok(l));
}

#[test]
fn clone_is_deep_and_equal() {
    let v = ChurchValue::Func(
        "f".to_string(),
        Box::new(vec![
            ChurchValue::List(Box::new(vec![ChurchValue::Number(1)])),
            ChurchValue::Bool(true),
        ]),
    );
    let c = v.clone();
    assert_eq!(c, v);
    drop(v);
    assert_eq!(c.to_string(), "f1 #t");
}

#[test]
fn bool_parser() {
    assert_eq!(ChurchValue::parse_string_to_bool("#t"), Ok(ChurchValue::Bool(true)));
    assert_eq!(ChurchValue::parse_string_to_bool("#f"), Ok(ChurchValue::Bool(false)));
    assert_eq!(ChurchValue::parse_string_to_bool("#T"), Err(ChurchParseError::BoolParseError));
    assert_eq!(ChurchValue::parse_string_to_bool("#tt"), Err(ChurchParseError::BoolParseError));
    assert_eq!(ChurchValue::parse_string_to_bool(""), Err(ChurchParseError::BoolParseError));
}

#[test]
fn i16_parser() {
    assert_eq!(ChurchValue::parse_string_to_i16("123"), Ok(ChurchValue::Number(123)));
    assert_eq!(ChurchValue::parse_string_to_i16("-45"), Ok(ChurchValue::Number(-45)));
    assert_eq!(ChurchValue::parse_string_to_i16("+7"), Ok(ChurchValue::Number(7)));
    assert_eq!(ChurchValue::parse_string_to_i16("-32768"), Ok(ChurchValue::Number(i16::MIN)));
    assert_eq!(ChurchValue::parse_string_to_i16("32767"), Ok(ChurchValue::Number(i16::MAX)));
    for bad in ["32768", "-32769", "", "-", "+", "12a", " 1", "1 "] {
        assert_eq!(ChurchValue::parse_string_to_i16(bad), Err(ChurchParseError::IntParseError));
    }
}

#[test]
fn values_can_be_shared_between_threads() {
    fn shared<T: Sync + Send>(_: &T) {}
    let v = ChurchValue::List(Box::new(vec![ChurchValue::Number(1)]));
    shared(&v);
}
