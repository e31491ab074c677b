use math_parser::date::timepoint::month_name;
use math_parser::date::{Day, Duration, Month, Timepoint};
use math_parser::text::{int_to_text, nat_to_text, parse_i32};

fn date(year: Option<i32>, month: Month, day: Day) -> Timepoint {
    Timepoint { month, day, year, errors: Vec::new() }
}

#[test]
fn integers_as_text() {
    assert_eq!(nat_to_text(0), "0");
    assert_eq!(nat_to_text(907), "907");
    assert_eq!(int_to_text(-123), "-123");
    assert_eq!(int_to_text(i64::MIN), "-9223372036854775808");
    assert_eq!(int_to_text(i64::MAX), "9223372036854775807");
}

#[test]
fn dates_as_text() {
    let d = date(Some(2024), Month::FEB, Day::Last);
    assert_eq!(d.formatted(), "2024-FEB-29");
    assert_eq!(d.day_text(), "last (29)");
    assert_eq!(d.year_text(), "2024");
    assert_eq!(month_name(d.month), "FEB");

    let d = date(None, Month::MAR, Day::NONE);
    assert_eq!(d.formatted(), "????-MAR-??");
    assert_eq!(d.day_text(), "--");
    assert_eq!(d.year_text(), "????");

    let d = date(Some(-44), Month::MAR, Day::Value(15));
    assert_eq!(d.formatted(), "-44-MAR-15");
    assert_eq!(d.day_text(), "15");
}

#[test]
fn durations_as_text() {
    let d = Duration { days: 5, months: 2, years: 1 };
    assert!(d.fits_normalize());
    assert_eq!(d.formatted(), "1 years,2 months,5 days");
    let d = Duration { days: 5, months: 2, years: 0 };
    assert_eq!(d.formatted(), "");
    let d = Duration { days: 0, months: 14, years: 1 };
    assert_eq!(d.formatted(), "2 years,2 months,0 days");
}

#[test]
fn normalizing_that_overflows_is_detected() {
    assert!(!Duration { days: 0, months: i32::MAX, years: i32::MAX }.fits_normalize());
    assert!(Duration { days: -3, months: 0, years: 0 }.fits_normalize());
}

#[test]
fn integer_text_reads_back() {
    for n in [0i64, 7, -7, 2022, -2147483648, 2147483647] {
        let text: Vec<char> = int_to_text(n).chars().collect();
        assert_eq!(parse_i32(&text), Some(n as i32));
    }
    let text: Vec<char> = int_to_text(2147483648).chars().collect();
    assert_eq!(parse_i32(&text), None);
}
