use math_parser::date::{month_from_int, month_from_str, Day, Duration, Month, Timepoint};
use math_parser::errors::ErrorId;
use math_parser::globals::{Globals, SourceIndex};
use math_parser::naming::{is_ident, to_camel_case};
use math_parser::number::number::{find_decimal_char, scan_formatted_number, separators_can_be_told_apart};
use math_parser::resolver::operator::{operator_id_from, OperatorType};
use math_parser::resolver::scope::{apply_define, apply_undefine, DecimalChar};
use math_parser::date::DateFormat;
use math_parser::functions::FunctionView;
use math_parser::parser::nodes::DefineType;
use math_parser::resolver::unit::UnitsView;
use math_parser::resolver::value::OperandType;
use math_parser::tokenizer::cursor::Range;
use math_parser::tokenizer::token_type::TokenType;

fn range() -> Range {
    Range { source_index: SourceIndex(0), start: 2, end: 5 }
}

#[test]
fn snake_case_names() {
    assert_eq!(to_camel_case("InvDateStr"), "inv_date_str");
    assert_eq!(to_camel_case("WDivImplMult"), "w_div_impl_mult");
    assert_eq!(to_camel_case("abc"), "abc");
    assert_eq!(to_camel_case(""), "");
}

#[test]
fn identifiers() {
    assert!(is_ident("_a1"));
    assert!(is_ident("été"));
    assert!(!is_ident("1a"));
    assert!(!is_ident(""));
    assert!(!is_ident("a-b"));
}

#[test]
fn decimal_character_of_formatted_numbers() {
    assert_eq!(find_decimal_char("123", &range()).ok(), Some(DecimalChar::Dot));
    assert_eq!(find_decimal_char("123,456.78", &range()).ok(), Some(DecimalChar::Dot));
    assert_eq!(find_decimal_char("123.456,78", &range()).ok(), Some(DecimalChar::Comma));
    let e = find_decimal_char("12,3456789", &range()).err().unwrap();
    assert_eq!(e.id, ErrorId::InvNumberStr);
    assert_eq!(e.range, range());
    let e = find_decimal_char("12,34.56,789", &range()).err().unwrap();
    assert_eq!(e.id, ErrorId::InvNumberStr);
}

#[test]
fn formatted_number_digits() {
    let d = scan_formatted_number("123,456.789", &range(), DecimalChar::Dot).ok().unwrap();
    assert_eq!(d.int_digits, vec![1, 2, 3, 4, 5, 6]);
    assert_eq!(d.frac_digits, vec![7, 8, 9]);
    let d = scan_formatted_number("123.456,789", &range(), DecimalChar::Auto).ok().unwrap();
    assert_eq!(d.int_digits, vec![1, 2, 3, 4, 5, 6]);
    assert_eq!(d.frac_digits, vec![7, 8, 9]);
    assert!(scan_formatted_number("1.2.3", &range(), DecimalChar::Dot).is_err());
    assert!(scan_formatted_number("1.2,3", &range(), DecimalChar::Dot).is_err());
    assert!(scan_formatted_number("1x", &range(), DecimalChar::Dot).is_err());
}

#[test]
fn operator_keys() {
    assert_eq!(operator_id_from(OperandType::Number, OperatorType::Plus, OperandType::Number), 265);
    assert_eq!(operator_id_from(OperandType::Date, OperatorType::Min, OperandType::Date), 265 * 265 + 2 * 265 + 1);
    assert_eq!(OperatorType::from_token_type(&TokenType::Percent), OperatorType::Remain);
    assert_eq!(OperatorType::Modulo.symbol(), "%%");
}

#[test]
fn months() {
    assert_eq!(month_from_int(2), Month::FEB);
    assert_eq!(month_from_int(13), Month::NONE);
    assert_eq!(month_from_str("dec"), Month::DEC);
    assert_eq!(month_from_str("Dec"), Month::NONE);
}

#[test]
fn date_plus_duration() {
    let mut t = Timepoint::new();
    t.day = Day::Value(30);
    t.month = Month::JAN;
    t.year = Some(2023);
    let d = Duration::from_days(5);
    let r = t.add_duration(&d);
    assert_eq!((r.day, r.month, r.year), (Day::Value(4), Month::FEB, Some(2023)));
    let mut d = Duration::new();
    d.months = 13;
    let r = t.add_duration(&d);
    assert_eq!((r.day, r.month, r.year), (Day::Value(30), Month::FEB, Some(2024)));
}

#[test]
fn date_minus_date() {
    let mut a = Timepoint::new();
    a.day = Day::Last;
    a.month = Month::FEB;
    a.year = Some(2024);
    let mut b = Timepoint::new();
    b.day = Day::Value(1);
    b.month = Month::JAN;
    b.year = Some(2020);
    let d = a.sub(&b);
    assert_eq!((d.days, d.months, d.years), (28, 1, 4));
}

#[test]
fn separators_that_cannot_be_told_apart() {
    assert!(separators_can_be_told_apart("123"));
    assert!(separators_can_be_told_apart("1.5"));
    assert!(separators_can_be_told_apart("1,234.5"));
    assert!(!separators_can_be_told_apart("1.234.567"));
    assert!(!separators_can_be_told_apart("1,234,567"));
}

#[test]
fn months_wrap_around_the_year() {
    let mut t = Timepoint::new();
    t.day = Day::Value(1);
    t.month = Month::DEC;
    t.year = Some(2022);
    let mut d = Duration::new();
    d.months = 12;
    let r = t.add_duration(&d);
    assert_eq!((r.day, r.month, r.year), (Day::Value(1), Month::DEC, Some(2023)));
    d.months = 3;
    let r = t.add_duration(&d);
    assert_eq!((r.day, r.month, r.year), (Day::Value(1), Month::MAR, Some(2023)));
    t.month = Month::JAN;
    d.months = -1;
    let r = t.add_duration(&d);
    assert_eq!((r.day, r.month, r.year), (Day::Value(1), Month::DEC, Some(2021)));
}

#[test]
fn defines_switch_the_settings_of_a_scope() {
    let globals = Globals::new();
    let mut date_format = DateFormat::YMD;
    let mut strict = false;
    let mut decimal_char = DecimalChar::Auto;
    let mut units_view = UnitsView::new();
    let mut function_view = FunctionView::from_globals(&globals);
    let n_units = units_view.units.len();

    let apply = |d: DefineType, f: &mut DateFormat, s: &mut bool, c: &mut DecimalChar, u: &mut UnitsView, v: &mut FunctionView| {
        apply_define(&d, f, s, c, u, v, &globals)
    };
    assert!(!apply(DefineType::Dmy, &mut date_format, &mut strict, &mut decimal_char, &mut units_view, &mut function_view));
    assert_eq!(date_format, DateFormat::DMY);
    apply(DefineType::Strict, &mut date_format, &mut strict, &mut decimal_char, &mut units_view, &mut function_view);
    assert!(strict);
    apply(DefineType::DecimalComma, &mut date_format, &mut strict, &mut decimal_char, &mut units_view, &mut function_view);
    assert_eq!(decimal_char, DecimalChar::Comma);
    apply(DefineType::Electric, &mut date_format, &mut strict, &mut decimal_char, &mut units_view, &mut function_view);
    assert!(units_view.units.iter().any(|u| u == "V"));
    assert!(units_view.units.len() > n_units);

    assert!(apply_undefine(&DefineType::Electric, &mut strict, &mut units_view, &mut function_view, &globals));
    assert!(!units_view.units.iter().any(|u| u == "V"));
    assert!(apply_undefine(&DefineType::Trig, &mut strict, &mut units_view, &mut function_view, &globals));
    assert!(!function_view.ids.iter().any(|f| f == "sin"));
    assert!(apply_undefine(&DefineType::Strict, &mut strict, &mut units_view, &mut function_view, &globals));
    assert!(!strict);
    assert!(!apply_undefine(&DefineType::Dmy, &mut strict, &mut units_view, &mut function_view, &globals));
}
