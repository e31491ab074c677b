use math_parser::globals::SourceIndex;
use math_parser::tokenizer::cursor::{Cursor, NumberLiteral};

fn chars(text: &str) -> Vec<char> {
    text.chars().collect()
}

fn significand(n: &NumberLiteral) -> f64 {
    n.mantissa.iter().collect::<String>().parse::<f64>().unwrap()
}

#[test]
fn cursor_test_integer() {
    let text = chars("12345");
    let mut cur = Cursor::new(&text, SourceIndex(0));
    let i = cur.parse_integer();
    assert_eq!(i, 12345);

    let text = chars("-12345");
    let mut cur = Cursor::new(&text, SourceIndex(0));
    let i = cur.parse_integer();
    assert_eq!(i, -12345);

    let text = chars("12_345");
    let mut cur = Cursor::new(&text, SourceIndex(0));
    let i = cur.parse_integer();
    assert_eq!(i, 12345);
}

fn test_number(text: &str, sig: f64, exp: i32) {
    let text = chars(text);
    let mut cur = Cursor::new(&text, SourceIndex(0));
    let c = cur.next().unwrap();
    let n = cur.parse_decimal(c);
    assert_eq!(significand(&n), sig);
    assert_eq!(n.exponent, exp);
}

#[test]
fn cursor_test_decimal() {
    test_number("123.45", 123.45, 0);
    test_number("12_3.45", 123.45, 0);
    test_number("12_3.4_5", 123.45, 0);
    test_number("123E5", 123.0, 5);
    test_number("123E+5", 123.0, 5);
    test_number("123e-5", 123.0, -5);
    test_number("123e0_5", 123.0, 5);
}

#[test]
fn cursor_test_newline() {
    let text = chars("first word\nsecond word and\n  third line \n  \n  fifth?\n");
    let mut cur = Cursor::new(&text, SourceIndex(0));
    cur.next_token();
    assert!(cur.newline_found);
    cur.next_token();
    assert!(!cur.newline_found);

    cur.next_token();
    assert!(cur.newline_found);
    cur.next_token();
    assert!(!cur.newline_found);
    cur.next_token();
    assert!(!cur.newline_found);

    cur.next_token();
    assert!(cur.newline_found);
    cur.next_token();
    assert!(!cur.newline_found);

    cur.next_token();
    assert!(cur.newline_found);
}

#[test]
fn a_newline_in_skipped_whitespace_starts_a_line() {
    let text = chars("a \t b \r\n\t c");
    let mut cur = Cursor::new(&text, SourceIndex(0));
    cur.next_token();
    assert!(cur.newline_found);
    cur.next_token();
    assert!(!cur.newline_found);
    cur.next_token();
    assert!(cur.newline_found);
}
