use math_parser::date::formatted_date_parser::parse_date_string;
use math_parser::date::{DateFormat, Day, Month};
use math_parser::errors::{has_real_errors, ErrorId};
use math_parser::globals::SourceIndex;
use math_parser::tokenizer::cursor::Range;

fn range() -> Range {
    Range { source_index: SourceIndex(0), start: 0, end: 10 }
}

fn date_ok(text: &str, day: Day, month: Month, year: i32) {
    let t = parse_date_string(text, &range(), DateFormat::YMD);
    assert!(!has_real_errors(&t.errors), "{} gave errors", text);
    assert_eq!(t.day, day, "{}", text);
    assert_eq!(t.month, month, "{}", text);
    assert_eq!(t.year, Some(year), "{}", text);
}

#[test]
fn readme_dates_that_work() {
    date_ok("01/jan/2022", Day::Value(1), Month::JAN, 2022);
    date_ok("2022/22/11", Day::Value(22), Month::NOV, 2022);
    date_ok("2022/11/22", Day::Value(22), Month::NOV, 2022);
    date_ok("1/1/2022", Day::Value(1), Month::JAN, 2022);
    date_ok("11/2022/11", Day::Value(11), Month::NOV, 2022);
}

#[test]
fn readme_ambiguous_dates_are_read_in_the_format() {
    let t = parse_date_string("2022/12/11", &range(), DateFormat::DMY);
    assert!(t.errors.iter().any(|e| e.id == ErrorId::InvDateStrForFormat));
    let t = parse_date_string("2/1/2022", &range(), DateFormat::YMD);
    assert!(t.errors.iter().any(|e| e.id == ErrorId::InvDateStrForFormat));
    let t = parse_date_string("2022/12/11", &range(), DateFormat::YMD);
    assert_eq!((t.day, t.month, t.year), (Day::Value(11), Month::DEC, Some(2022)));
    assert!(!has_real_errors(&t.errors));
}

#[test]
fn three_parts_complete_or_error() {
    for text in ["11/11/11", "2022/12/11", "2/1/2022", "x/y/z", "last/feb/2024", "31-12-1999"] {
        let t = parse_date_string(text, &range(), DateFormat::DMY);
        assert!(t.is_valid() || has_real_errors(&t.errors), "{}", text);
    }
}

#[test]
fn format_decides_ambiguous_date() {
    let t = parse_date_string("1-2-2022", &range(), DateFormat::DMY);
    assert_eq!((t.day, t.month, t.year), (Day::Value(1), Month::FEB, Some(2022)));
    let t = parse_date_string("1-2-2022", &range(), DateFormat::YMD);
    assert!(t.errors.iter().any(|e| e.id == ErrorId::InvDateStrForFormat));
}

#[test]
fn last_day_of_month() {
    let t = parse_date_string("last feb 2024", &range(), DateFormat::DMY);
    assert_eq!(t.day, Day::Last);
    assert_eq!(t.get_normalized_day(), 29);
}

#[test]
fn runs_of_separators_do_not_change_the_date() {
    for text in ["1-2-2022", " 1 // 2 ,-, 2022 ", "1 2/2022-", "--1,2  2022"] {
        let t = parse_date_string(text, &range(), DateFormat::DMY);
        assert_eq!((t.day, t.month, t.year), (Day::Value(1), Month::FEB, Some(2022)), "{}", text);
        assert!(t.errors.is_empty(), "{}", text);
    }
}
