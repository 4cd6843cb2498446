use everest::{evaluate, parse, EValue, Error, EvNum, EvVec, Expr, ParseError};

fn num(n: i32) -> EValue {
    EValue::ENum(EvNum::new(n))
}

fn vec2(a: i32, b: i32) -> EValue {
    EValue::EVec(EvVec::new(EvNum::new(a), EvNum::new(b)))
}

fn leaf(v: EValue) -> Box<Expr> {
    Box::new(Expr::EValue(v))
}

fn value_of(text: &str) -> Result<EValue, Error> {
    let (rest, expr) = parse(text).unwrap();
    assert_eq!(rest, "", "{text:?}");
    evaluate(expr)
}

#[test]
fn a_sum_of_two_digits() {
    let (rest, expr) = parse("3+4").unwrap();
    assert_eq!(rest, "");
    assert_eq!(expr, Expr::EAdd(leaf(num(3)), leaf(num(4))));
    assert_eq!(evaluate(expr), Ok(num(7)));
}

#[test]
fn a_sum_that_wraps_round() {
    assert_eq!(value_of("9+4"), Ok(num(2)));
}

#[test]
fn parentheses_come_first() {
    let (rest, expr) = parse("(1+2)*3").unwrap();
    assert_eq!(rest, "");
    let sum = Expr::EAdd(leaf(num(1)), leaf(num(2)));
    assert_eq!(expr, Expr::EMul(Box::new(sum), leaf(num(3))));
    assert_eq!(evaluate(expr), Ok(num(9)));
}

#[test]
fn a_sum_of_two_vectors() {
    assert_eq!(value_of("1|2+3|4"), Ok(vec2(4, 6)));
}

#[test]
fn a_division_by_zero() {
    assert_eq!(
        value_of("5/0"),
        Err(Error::NumDivNoSolution(EvNum::new(5), EvNum::new(0)))
    );
}

#[test]
fn a_product_of_two_vectors() {
    let value = value_of("1|2*3|4").unwrap();
    assert_eq!(value, vec2(6, 10));
    assert_eq!(value, vec2(1 * 3 - 2 * 4, 1 * 4 + 2 * 3));
    assert_eq!(value.to_string(), "6|X");
}

#[test]
fn what_does_not_belong_to_the_expression_is_left() {
    let (rest, expr) = parse("3+4 q").unwrap();
    assert_eq!(rest, "q");
    assert_eq!(evaluate(expr), Ok(num(7)));
}

#[test]
fn a_single_value() {
    assert_eq!(parse("7"), Ok(("", Expr::EValue(num(7)))));
    assert_eq!(parse("X"), Ok(("", Expr::EValue(num(10)))));
    assert_eq!(parse("1|2"), Ok(("", Expr::EValue(vec2(1, 2)))));
    assert_eq!(parse("X|0"), Ok(("", Expr::EValue(vec2(10, 0)))));
}

#[test]
fn only_one_digit_belongs_to_a_number() {
    assert_eq!(parse("12"), Ok(("2", Expr::EValue(num(1)))));
    assert_eq!(parse("1|23"), Ok(("3", Expr::EValue(vec2(1, 2)))));
}

#[test]
fn a_vector_needs_both_components() {
    assert_eq!(parse("1|"), Ok(("|", Expr::EValue(num(1)))));
    assert_eq!(parse("1|a"), Ok(("|a", Expr::EValue(num(1)))));
    assert_eq!(parse("1|2|3"), Ok(("|3", Expr::EValue(vec2(1, 2)))));
}

#[test]
fn no_spaces_inside_a_vector() {
    assert_eq!(parse("1 |2"), Ok(("|2", Expr::EValue(num(1)))));
    assert_eq!(parse("1| 2"), Ok(("| 2", Expr::EValue(num(1)))));
}

#[test]
fn spaces_round_a_value_are_skipped() {
    assert_eq!(parse("  7  "), Ok(("", Expr::EValue(num(7)))));
    assert_eq!(parse(" 1|2 "), Ok(("", Expr::EValue(vec2(1, 2)))));
    assert_eq!(value_of(" 3 + 4 "), Ok(num(7)));
    assert_eq!(value_of("3  *  4  -  1"), Ok(num(0)));
}

#[test]
fn spaces_round_a_group_are_skipped() {
    assert_eq!(value_of(" ( 1 + 2 ) * 3"), Ok(num(9)));
    assert_eq!(value_of("((7))"), Ok(num(7)));
    assert_eq!(value_of("  (  ( 7 )  )  "), Ok(num(7)));
}

#[test]
fn tabs_are_no_spaces() {
    assert_eq!(parse("\t7"), Err(ParseError::NoExpression { at: 0 }));
    assert_eq!(parse("7\t"), Ok(("\t", Expr::EValue(num(7)))));
    assert_eq!(parse("3+\t4"), Ok(("+\t4", Expr::EValue(num(3)))));
}

#[test]
fn operators_of_one_rank_group_to_the_left() {
    let (rest, expr) = parse("8-3-2").unwrap();
    assert_eq!(rest, "");
    let first = Expr::ESub(leaf(num(8)), leaf(num(3)));
    assert_eq!(expr, Expr::ESub(Box::new(first), leaf(num(2))));
    assert_eq!(evaluate(expr), Ok(num(3)));
    assert_eq!(value_of("8/2/2"), Ok(num(2)));
    assert_eq!(value_of("8/2*2"), Ok(num(8)));
    assert_eq!(value_of("1-2+3"), Ok(num(2)));
}

#[test]
fn products_come_before_sums() {
    let (rest, expr) = parse("1+2*3").unwrap();
    assert_eq!(rest, "");
    let product = Expr::EMul(leaf(num(2)), leaf(num(3)));
    assert_eq!(expr, Expr::EAdd(leaf(num(1)), Box::new(product)));
    assert_eq!(evaluate(expr), Ok(num(7)));
    assert_eq!(value_of("2*3+1"), Ok(num(7)));
    assert_eq!(value_of("9-6/3"), Ok(num(7)));
}

#[test]
fn each_operator_makes_its_node() {
    assert_eq!(parse("1+2"), Ok(("", Expr::EAdd(leaf(num(1)), leaf(num(2))))));
    assert_eq!(parse("1-2"), Ok(("", Expr::ESub(leaf(num(1)), leaf(num(2))))));
    assert_eq!(parse("1*2"), Ok(("", Expr::EMul(leaf(num(1)), leaf(num(2))))));
    assert_eq!(parse("1/2"), Ok(("", Expr::EDiv(leaf(num(1)), leaf(num(2))))));
}

#[test]
fn an_operator_without_right_operand_is_left() {
    assert_eq!(parse("3+"), Ok(("+", Expr::EValue(num(3)))));
    assert_eq!(parse("3*"), Ok(("*", Expr::EValue(num(3)))));
    assert_eq!(parse("3+4*"), Ok(("*", Expr::EAdd(leaf(num(3)), leaf(num(4))))));
    assert_eq!(parse("3*4+"), Ok(("+", Expr::EMul(leaf(num(3)), leaf(num(4))))));
    assert_eq!(parse("3+(4"), Ok(("+(4", Expr::EValue(num(3)))));
    assert_eq!(parse("3 + q"), Ok(("+ q", Expr::EValue(num(3)))));
}

#[test]
fn the_rest_may_hold_any_characters() {
    assert_eq!(parse("3\u{e9}+4"), Ok(("\u{e9}+4", Expr::EValue(num(3)))));
    assert_eq!(parse("3 \u{1f600}"), Ok(("\u{1f600}", Expr::EValue(num(3)))));
    assert_eq!(parse("(1)x"), Ok(("x", Expr::EValue(num(1)))));
}

#[test]
fn mixed_kinds_are_read_and_fail_when_evaluated() {
    assert_eq!(
        value_of("1+2|3"),
        Err(Error::IncompatibleAdd(num(1), vec2(2, 3)))
    );
    assert_eq!(
        value_of("1|2*3"),
        Err(Error::IncompatibleMul(vec2(1, 2), num(3)))
    );
}

#[test]
fn nothing_to_read() {
    assert_eq!(parse(""), Err(ParseError::NoExpression { at: 0 }));
    assert_eq!(parse("   "), Err(ParseError::NoExpression { at: 3 }));
    assert_eq!(parse("q"), Err(ParseError::NoExpression { at: 0 }));
    assert_eq!(parse("  +1"), Err(ParseError::NoExpression { at: 2 }));
    assert_eq!(parse("|1"), Err(ParseError::NoExpression { at: 0 }));
    assert_eq!(parse("x"), Err(ParseError::NoExpression { at: 0 }));
}

#[test]
fn an_open_group_is_no_expression() {
    assert_eq!(parse("(1+2"), Err(ParseError::NoExpression { at: 0 }));
    assert_eq!(parse(" (1+2"), Err(ParseError::NoExpression { at: 1 }));
    assert_eq!(parse("()"), Err(ParseError::NoExpression { at: 0 }));
    assert_eq!(parse("("), Err(ParseError::NoExpression { at: 0 }));
    assert_eq!(parse(")"), Err(ParseError::NoExpression { at: 0 }));
    assert_eq!(parse("(1+2]"), Err(ParseError::NoExpression { at: 0 }));
}

#[test]
fn the_power_operator_is_refused() {
    assert_eq!(parse("2^3"), Err(ParseError::UnsupportedPower { at: 1 }));
    assert_eq!(parse("1+2^3"), Err(ParseError::UnsupportedPower { at: 3 }));
    assert_eq!(parse("2 ^ 3"), Err(ParseError::UnsupportedPower { at: 2 }));
    assert_eq!(parse("2^3^4"), Err(ParseError::UnsupportedPower { at: 3 }));
    assert_eq!(parse("(2^3)"), Err(ParseError::UnsupportedPower { at: 2 }));
    assert_eq!(parse("(2^3"), Err(ParseError::UnsupportedPower { at: 2 }));
    assert_eq!(parse("1*(2^(3))"), Err(ParseError::UnsupportedPower { at: 4 }));
}

#[test]
fn a_power_sign_without_right_operand_is_left() {
    assert_eq!(parse("2^"), Ok(("^", Expr::EValue(num(2)))));
    assert_eq!(parse("2^+3"), Ok(("^+3", Expr::EValue(num(2)))));
    assert_eq!(parse("2^(3"), Ok(("^(3", Expr::EValue(num(2)))));
    assert_eq!(parse("1+2^"), Ok(("^", Expr::EAdd(leaf(num(1)), leaf(num(2))))));
}

#[test]
fn a_long_chain_is_read() {
    let text = "1+".repeat(500) + "1";
    assert_eq!(value_of(&text), Ok(num(501)));
}

#[test]
fn the_text_of_a_value_reads_back() {
    for a in 0..11 {
        let text = num(a).to_string();
        assert_eq!(parse(&text), Ok(("", Expr::EValue(num(a)))));
        for b in 0..11 {
            let text = vec2(a, b).to_string();
            assert_eq!(parse(&text), Ok(("", Expr::EValue(vec2(a, b)))));
        }
    }
}
