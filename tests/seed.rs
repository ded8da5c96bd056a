use templet::ast::Value;
use templet::seed::{parse_argument, parse_array, parse_value, SeedError};

fn show(v: &Value) -> String {
    format!("{:?}", v)
}

fn n(x: i64) -> String {
    format!("Number(Number {{ scaled: {} }})", x * 1_000_000)
}

#[test]
fn reads_scalars() {
    assert_eq!(show(&parse_value("\"abc\"").unwrap()), "String(\"abc\")");
    assert_eq!(show(&parse_value("").unwrap()), "Null");
    assert_eq!(show(&parse_value("12").unwrap()), n(12));
    assert_eq!(show(&parse_value("1.5").unwrap()), "Number(Number { scaled: 1500000 })");
    assert_eq!(show(&parse_value("true").unwrap()), "Boolean(true)");
    assert_eq!(show(&parse_value("false").unwrap()), "Boolean(false)");
    assert_eq!(show(&parse_value("hello world").unwrap()), "String(\"hello world\")");
}

#[test]
fn rejects_bad_numbers() {
    assert_eq!(parse_value("12abc").unwrap_err(), SeedError::MalformedNumber);
    assert_eq!(parse_value("1.2.3").unwrap_err(), SeedError::MalformedNumber);
    assert_eq!(parse_value("99999999999999999999").unwrap_err(), SeedError::NumberOutOfRange);
}

#[test]
fn reads_arrays() {
    assert_eq!(
        show(&parse_value("[1,2,3]").unwrap()),
        format!("Array([{}, {}, {}])", n(1), n(2), n(3))
    );
    assert_eq!(show(&parse_value("[]").unwrap()), "Array([])");
    assert_eq!(
        show(&parse_value("[ a , b ]").unwrap()),
        "Array([String(\"a\"), String(\"b\")])"
    );
    assert_eq!(
        show(&parse_value("[[1,2],[3]]").unwrap()),
        format!("Array([Array([{}, {}]), Array([{}])])", n(1), n(2), n(3))
    );
    assert_eq!(
        show(&parse_array("10, 20").unwrap()),
        format!("Array([{}, {}])", n(10), n(20))
    );
}

#[test]
fn reads_bindings() {
    let (name, value) = parse_argument("list=[1, 2]").unwrap();
    assert_eq!(name, "list");
    assert_eq!(show(&value), format!("Array([{}, {}])", n(1), n(2)));
    let (name, value) = parse_argument("x=  5 ").unwrap();
    assert_eq!(name, "x");
    assert_eq!(show(&value), n(5));
    let (name, value) = parse_argument("a=b=c").unwrap();
    assert_eq!(name, "a");
    assert_eq!(show(&value), "String(\"b=c\")");
    assert_eq!(parse_argument("novalue").unwrap_err(), SeedError::MissingEquals);
}
