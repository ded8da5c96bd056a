use templet::number::{parse_literal, Number, NumberError};

fn num(scaled: i64) -> Number {
    Number { scaled }
}

fn text(n: Number) -> String {
    n.text().into_iter().collect()
}

#[test]
fn arithmetic_is_exact_in_millionths() {
    assert_eq!(num(2_000_000).plus(num(3_000_000)), Ok(num(5_000_000)));
    assert_eq!(num(2_000_000).minus(num(3_500_000)), Ok(num(-1_500_000)));
    assert_eq!(num(2_500_000).times(num(-2_000_000)), Ok(num(-5_000_000)));
    assert_eq!(num(1_000_000).divided_by(num(3_000_000)), Ok(num(333_333)));
    assert_eq!(num(-1_000_000).divided_by(num(3_000_000)), Ok(num(-333_333)));
    assert_eq!(num(7_500_000).remainder(num(2_000_000)), Ok(num(1_500_000)));
    assert_eq!(num(-7_000_000).remainder(num(3_000_000)), Ok(num(-1_000_000)));
    assert_eq!(num(4_000_000).negated(), Ok(num(-4_000_000)));
}

#[test]
fn number_arithmetic_errors() {
    assert_eq!(num(1).divided_by(num(0)), Err(NumberError::DivisionByZero));
    assert_eq!(num(1).remainder(num(0)), Err(NumberError::DivisionByZero));
    assert_eq!(num(i64::MAX).plus(num(1)), Err(NumberError::OutOfRange));
    assert_eq!(num(i64::MIN).negated(), Err(NumberError::OutOfRange));
}

#[test]
fn counts_and_whole_parts() {
    assert_eq!(Number::from_count(3), Ok(num(3_000_000)));
    assert_eq!(num(2_999_999).whole(), 2);
}

#[test]
fn decimal_text() {
    assert_eq!(text(num(5_000_000)), "5");
    assert_eq!(text(num(0)), "0");
    assert_eq!(text(num(-1_500_000)), "-1.5");
    assert_eq!(text(num(23_491_230_000)), "23491.23");
    assert_eq!(text(num(1)), "0.000001");
    assert_eq!(text(num(100_000_000)), "100");
}

#[test]
fn reads_literals() {
    let chars: Vec<char> = "x12.5y".chars().collect();
    assert_eq!(parse_literal(&chars, 1, 5), Ok(num(12_500_000)));
    let chars: Vec<char> = "7.".chars().collect();
    assert_eq!(parse_literal(&chars, 0, 2), Ok(num(7_000_000)));
    let chars: Vec<char> = "0.12345678".chars().collect();
    assert_eq!(parse_literal(&chars, 0, 10), Ok(num(123_456)));
    let chars: Vec<char> = "1.2.3".chars().collect();
    assert_eq!(parse_literal(&chars, 0, 5), Err(NumberError::Malformed));
    let chars: Vec<char> = ".".chars().collect();
    assert_eq!(parse_literal(&chars, 0, 1), Err(NumberError::Malformed));
    let chars: Vec<char> = "9223372036855".chars().collect();
    assert_eq!(parse_literal(&chars, 0, 13), Err(NumberError::OutOfRange));
}
