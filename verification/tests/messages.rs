use everest::text::{chars_of, decimal_string, digit_str};
use everest::{EValue, Error, EvNum, EvVec, ParseError};

fn num(n: i32) -> EvNum {
    EvNum::new(n)
}

fn vec2(a: i32, b: i32) -> EvVec {
    EvVec::new(EvNum::new(a), EvNum::new(b))
}

#[test]
fn message_of_an_unknown_digit() {
    assert_eq!(
        Error::UnknownDigit('q').to_string(),
        "an unknown digit was encountered: 'q'"
    );
}

#[test]
fn message_of_an_unknown_digit_is_escaped() {
    assert_eq!(
        Error::UnknownDigit('\n').to_string(),
        "an unknown digit was encountered: '\\n'"
    );
    assert_eq!(
        Error::UnknownDigit('\'').to_string(),
        "an unknown digit was encountered: '\\''"
    );
}

#[test]
fn message_of_an_empty_number() {
    assert_eq!(
        Error::NumStringEmpty.to_string(),
        "tried to parse an empty string as a number"
    );
}

#[test]
fn message_of_a_long_number() {
    assert_eq!(
        Error::NumStringTooLong("12".to_string()).to_string(),
        "number longer than one digit: \"12\""
    );
    assert_eq!(
        Error::NumStringTooLong("a\"b".to_string()).to_string(),
        "number longer than one digit: \"a\\\"b\""
    );
}

#[test]
fn message_of_a_vector_without_separator() {
    assert_eq!(
        Error::VecStringNoPipe("12".to_string()).to_string(),
        "vec without a separator: \"12\""
    );
    assert_eq!(
        Error::VecStringNoPipe(String::new()).to_string(),
        "vec without a separator: \"\""
    );
}

#[test]
fn message_of_a_failed_division() {
    assert_eq!(
        Error::NumDivNoSolution(num(5), num(0)).to_string(),
        "cannot divide 5 by 0"
    );
    assert_eq!(
        Error::VecDivNoSolution(vec2(1, 10), vec2(0, 0)).to_string(),
        "cannot divide 1|X by 0|0"
    );
}

#[test]
fn message_of_operands_of_two_kinds() {
    let n = EValue::ENum(num(3));
    let v = EValue::EVec(vec2(1, 2));
    assert_eq!(
        Error::IncompatibleAdd(n.clone(), v.clone()).to_string(),
        "cannot add 3 and 1|2"
    );
    assert_eq!(
        Error::IncompatibleSub(n.clone(), v.clone()).to_string(),
        "cannot subtract 1|2 from 3"
    );
    assert_eq!(
        Error::IncompatibleMul(v.clone(), n.clone()).to_string(),
        "cannot multiply 1|2 and 3"
    );
    assert_eq!(
        Error::IncompatibleDiv(v.clone(), n.clone()).to_string(),
        "cannot divide 1|2 by 3"
    );
}

#[test]
fn message_takes_the_quoted_text_as_given() {
    assert_eq!(
        Error::UnknownDigit('q').describe("<q>"),
        "an unknown digit was encountered: <q>"
    );
    assert_eq!(
        Error::NumStringTooLong("12".to_string()).describe("<12>"),
        "number longer than one digit: <12>"
    );
    assert_eq!(
        Error::VecStringNoPipe("12".to_string()).describe("<12>"),
        "vec without a separator: <12>"
    );
    assert_eq!(
        Error::NumStringEmpty.describe("<>"),
        "tried to parse an empty string as a number"
    );
    assert_eq!(
        Error::NumDivNoSolution(num(5), num(0)).describe("<>"),
        "cannot divide 5 by 0"
    );
}

#[test]
fn error_clone_is_the_error() {
    let errors = [
        Error::UnknownDigit('q'),
        Error::NumStringEmpty,
        Error::NumStringTooLong("12".to_string()),
        Error::VecStringNoPipe("12".to_string()),
        Error::NumDivNoSolution(num(5), num(0)),
        Error::VecDivNoSolution(vec2(1, 2), vec2(0, 0)),
        Error::IncompatibleAdd(EValue::ENum(num(1)), EValue::EVec(vec2(1, 2))),
        Error::IncompatibleSub(EValue::ENum(num(1)), EValue::EVec(vec2(1, 2))),
        Error::IncompatibleMul(EValue::ENum(num(1)), EValue::EVec(vec2(1, 2))),
        Error::IncompatibleDiv(EValue::ENum(num(1)), EValue::EVec(vec2(1, 2))),
    ];
    for e in errors {
        assert_eq!(e.clone(), e);
    }
}

#[test]
fn message_of_a_text_without_expression() {
    assert_eq!(
        ParseError::NoExpression { at: 0 }.to_string(),
        "no expression at offset 0"
    );
    assert_eq!(
        ParseError::NoExpression { at: 12 }.to_string(),
        "no expression at offset 12"
    );
}

#[test]
fn message_of_an_applied_power_sign() {
    assert_eq!(
        ParseError::UnsupportedPower { at: 1 }.to_string(),
        "unsupported operator ^ at offset 1"
    );
    assert_eq!(
        ParseError::UnsupportedPower { at: 90210 }.to_string(),
        "unsupported operator ^ at offset 90210"
    );
}

#[test]
fn decimal_digits_of_a_number() {
    for n in [0, 1, 9, 10, 11, 99, 100, 101, 12345, 1_000_000, usize::MAX] {
        assert_eq!(decimal_string(n), format!("{n}"));
    }
    for n in 0..2000 {
        assert_eq!(decimal_string(n), format!("{n}"));
    }
}

#[test]
fn digit_of_a_value() {
    let digits: Vec<&str> = (0..11).map(digit_str).collect();
    assert_eq!(digits, ["0", "1", "2", "3", "4", "5", "6", "7", "8", "9", "X"]);
    assert_eq!(digit_str(11), "X");
    assert_eq!(digit_str(usize::MAX), "X");
}

#[test]
fn characters_of_a_text() {
    assert_eq!(chars_of(""), Vec::<char>::new());
    assert_eq!(chars_of("1|2"), vec!['1', '|', '2']);
    assert_eq!(chars_of("a\u{e9}\u{1f600}b"), vec!['a', '\u{e9}', '\u{1f600}', 'b']);
}
