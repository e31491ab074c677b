use math_parser::date::Duration;

#[test]
fn test_duration() {
    let dur = Duration::from_days(-35);
    assert_eq!(dur.months, -1);
    let dur = Duration::from_days(-400);
    assert_eq!(dur.years, -1);
    assert_eq!(dur.months, -1);
    assert!(dur.days < 0);

    let mut dur = Duration::new();
    dur.days = -400;
    dur.normalize();
    assert_eq!(dur.years, -1);
    assert_eq!(dur.months, -1);
    assert!(dur.days < 0);
}

#[test]
fn duration_from_days_splits_years_months_days() {
    let dur = Duration::from_days(400);
    assert_eq!(dur.years, 1);
    assert_eq!(dur.months, 1);
    assert_eq!(dur.days, 3);
    let dur = Duration::from_days(0);
    assert_eq!((dur.days, dur.months, dur.years), (0, 0, 0));
}

#[test]
fn duration_from_months_splits_years() {
    let dur = Duration::from_months(27);
    assert_eq!((dur.days, dur.months, dur.years), (0, 3, 2));
    let dur = Duration::from_months(-13);
    assert_eq!((dur.days, dur.months, dur.years), (0, -1, -1));
}

#[test]
fn duration_normalize_keeps_normal_duration() {
    let mut dur = Duration::new();
    dur.days = 31;
    dur.months = 12;
    dur.years = 3;
    dur.normalize();
    assert_eq!((dur.days, dur.months, dur.years), (31, 12, 3));
}

#[test]
fn duration_normalize_borrows_a_year_for_negative_months() {
    let mut dur = Duration::new();
    dur.months = -1;
    dur.years = 2;
    dur.normalize();
    assert_eq!((dur.days, dur.months, dur.years), (0, 11, 1));
}

#[test]
fn duration_add_and_sub_are_part_by_part() {
    let a = Duration::from_days(400);
    let b = Duration::from_months(27);
    let s = a.add(&b);
    assert_eq!((s.days, s.months, s.years), (3, 4, 3));
    let d = a.sub(&b);
    assert_eq!((d.days, d.months, d.years), (3, -2, -1));
}

#[test]
fn normalizing_twice_changes_nothing_more() {
    for (days, months, years) in [(400, 15, 1), (-35, 3, 2), (-400, -5, 0), (10, 30, -2)] {
        let mut once = Duration { days, months, years };
        once.normalize();
        let mut twice = once;
        twice.normalize();
        assert_eq!(once, twice, "{} {} {}", days, months, years);
    }
}
