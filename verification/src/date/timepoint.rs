use vstd::prelude::*;
use crate::date::duration::{Duration, normalize_fits, spec_normalize};
use crate::errors::{Error, ErrorId, ErrorView};
use crate::tokenizer::cursor::Range;
use crate::text::{int_text, int_to_text, str_eq};

verus! {

/// A month of the year, or none.
#[derive(Clone, Copy, Debug, PartialEq, Eq, Structural)]
pub enum Month {
    JAN,
    FEB,
    MAR,
    APR,
    MAY,
    JUN,
    JUL,
    AUG,
    SEP,
    OCT,
    NOV,
    DEC,
    NONE,
}

/// The number of a month, 1 for January to 12 for December, and 0 for none.
pub open spec fn month_value(m: Month) -> int {
    match m {
        Month::JAN => 1,
        Month::FEB => 2,
        Month::MAR => 3,
        Month::APR => 4,
        Month::MAY => 5,
        Month::JUN => 6,
        Month::JUL => 7,
        Month::AUG => 8,
        Month::SEP => 9,
        Month::OCT => 10,
        Month::NOV => 11,
        Month::DEC => 12,
        Month::NONE => 0,
    }
}

/// The number of a month, 1 for January to 12 for December, and 0 for none.
pub fn month_number(m: Month) -> (r: i32)
    ensures
        r == month_value(m),
{
    match m {
        Month::JAN => 1,
        Month::FEB => 2,
        Month::MAR => 3,
        Month::APR => 4,
        Month::MAY => 5,
        Month::JUN => 6,
        Month::JUL => 7,
        Month::AUG => 8,
        Month::SEP => 9,
        Month::OCT => 10,
        Month::NOV => 11,
        Month::DEC => 12,
        Month::NONE => 0,
    }
}

/// The month with number `i`, or none outside `1..=12`.
pub open spec fn spec_month_from_int(i: int) -> Month {
    if i == 1 {
        Month::JAN
    } else if i == 2 {
        Month::FEB
    } else if i == 3 {
        Month::MAR
    } else if i == 4 {
        Month::APR
    } else if i == 5 {
        Month::MAY
    } else if i == 6 {
        Month::JUN
    } else if i == 7 {
        Month::JUL
    } else if i == 8 {
        Month::AUG
    } else if i == 9 {
        Month::SEP
    } else if i == 10 {
        Month::OCT
    } else if i == 11 {
        Month::NOV
    } else if i == 12 {
        Month::DEC
    } else {
        Month::NONE
    }
}

/// The month with number `i`, or `Month::NONE` outside `1..=12`.
pub fn month_from_int(i: i32) -> (m: Month)
    ensures
        m == spec_month_from_int(i as int),
{
    match i {
        1 => Month::JAN,
        2 => Month::FEB,
        3 => Month::MAR,
        4 => Month::APR,
        5 => Month::MAY,
        6 => Month::JUN,
        7 => Month::JUL,
        8 => Month::AUG,
        9 => Month::SEP,
        10 => Month::OCT,
        11 => Month::NOV,
        12 => Month::DEC,
        _ => Month::NONE,
    }
}

/// The month named by a lower case three letter abbreviation, `jan` to `dec`, or none.
pub open spec fn spec_month_from_str(text: Seq<char>) -> Month {
    if text == "jan"@ {
        Month::JAN
    } else if text == "feb"@ {
        Month::FEB
    } else if text == "mar"@ {
        Month::MAR
    } else if text == "apr"@ {
        Month::APR
    } else if text == "may"@ {
        Month::MAY
    } else if text == "jun"@ {
        Month::JUN
    } else if text == "jul"@ {
        Month::JUL
    } else if text == "aug"@ {
        Month::AUG
    } else if text == "sep"@ {
        Month::SEP
    } else if text == "oct"@ {
        Month::OCT
    } else if text == "nov"@ {
        Month::NOV
    } else if text == "dec"@ {
        Month::DEC
    } else {
        Month::NONE
    }
}

/// The month named by `text`, which is expected in lower case: `jan` to `dec`.
pub fn month_from_str(text: &str) -> (m: Month)
    ensures
        m == spec_month_from_str(text@),
{
    if str_eq(text, "jan") {
        Month::JAN
    } else if str_eq(text, "feb") {
        Month::FEB
    } else if str_eq(text, "mar") {
        Month::MAR
    } else if str_eq(text, "apr") {
        Month::APR
    } else if str_eq(text, "may") {
        Month::MAY
    } else if str_eq(text, "jun") {
        Month::JUN
    } else if str_eq(text, "jul") {
        Month::JUL
    } else if str_eq(text, "aug") {
        Month::AUG
    } else if str_eq(text, "sep") {
        Month::SEP
    } else if str_eq(text, "oct") {
        Month::OCT
    } else if str_eq(text, "nov") {
        Month::NOV
    } else if str_eq(text, "dec") {
        Month::DEC
    } else {
        Month::NONE
    }
}

/// Converting a month to its number and back gives the same month.
pub proof fn lemma_month_roundtrip(m: Month)
    ensures
        spec_month_from_int(month_value(m)) == m,
{
}

/// Every number in `1..=12` names a month whose number it is; all others name none.
pub proof fn lemma_month_from_int_value(i: int)
    ensures
        1 <= i <= 12 ==> month_value(spec_month_from_int(i)) == i,
        !(1 <= i <= 12) ==> spec_month_from_int(i) == Month::NONE,
{
}

/// The order in which day, month and year are written in a date.
#[derive(Clone, Copy, Debug, PartialEq, Eq, Structural)]
pub enum DateFormat {
    YMD,
    DMY,
    MDY,
}

/// The positions of day, month and year in a date of some format.
#[derive(Clone, Copy, Debug, PartialEq, Eq, Structural)]
pub struct DateFormatIndices {
    pub day: usize,
    pub month: usize,
    pub year: usize,
}

/// The name of a date format, as its `Display` shows it.
pub open spec fn spec_date_format_name(f: DateFormat) -> Seq<char> {
    match f {
        DateFormat::YMD => "YMD"@,
        DateFormat::DMY => "DMY"@,
        DateFormat::MDY => "MDY"@,
    }
}

impl DateFormat {
    /// The positions of day, month and year: DMY is (0, 1, 2), MDY is (1, 0, 2), YMD is (2, 1, 0).
    pub fn indices(&self) -> (r: DateFormatIndices)
        ensures
            *self == DateFormat::DMY ==> r == (DateFormatIndices { day: 0, month: 1, year: 2 }),
            *self == DateFormat::MDY ==> r == (DateFormatIndices { day: 1, month: 0, year: 2 }),
            *self == DateFormat::YMD ==> r == (DateFormatIndices { day: 2, month: 1, year: 0 }),
    {
        let (day, month, year) = match self {
            DateFormat::DMY => (0, 1, 2),
            DateFormat::MDY => (1, 0, 2),
            DateFormat::YMD => (2, 1, 0),
        };
        DateFormatIndices { day, month, year }
    }

    /// The name of the format: `YMD`, `DMY` or `MDY`.
    pub fn name(&self) -> (r: &'static str)
        ensures
            r@ == spec_date_format_name(*self),
    {
        match self {
            DateFormat::YMD => "YMD",
            DateFormat::DMY => "DMY",
            DateFormat::MDY => "MDY",
        }
    }
}

/// The day of a date: a number, the last day of its month, or not given.
#[derive(Clone, Copy, Debug, PartialEq, Eq, Structural)]
pub enum Day {
    Value(i8),
    Last,
    NONE,
}

impl Day {
    /// True when no day is given.
    pub fn is_none(&self) -> (r: bool)
        ensures
            r == (*self == Day::NONE),
    {
        matches!(*self, Day::NONE)
    }

    /// True for the last day of the month.
    pub fn is_last(&self) -> (r: bool)
        ensures
            r == (*self == Day::Last),
    {
        matches!(*self, Day::Last)
    }

    /// The day's number, or `default` when it is not a number.
    pub fn unwrap_or(&self, default: i8) -> (r: i8)
        ensures
            r == spec_day_or(*self, default),
    {
        if let Day::Value(day) = *self {
            day
        } else {
            default
        }
    }
}

/// The number of a day, or `default` when it is not a number.
pub open spec fn spec_day_or(d: Day, default: i8) -> i8 {
    match d {
        Day::Value(v) => v,
        _ => default,
    }
}

/// A leap year of the Gregorian calendar.
pub open spec fn is_leap_year(y: int) -> bool {
    (y % 4 == 0 && y % 100 != 0) || (y % 100 == 0 && y % 400 == 0)
}

/// Whether `year` is a leap year (see `is_leap_year`).
fn leap_year(year: i32) -> (r: bool)
    ensures
        r == is_leap_year(year as int),
{
    (year % 4 == 0 && year % 100 != 0) || (year % 100 == 0 && year % 400 == 0)
}

/// The number of days in a month; February has 29 in a known leap year and 28 otherwise,
/// and no month has 0 days.
pub open spec fn spec_days_in_month(month: Month, year: Option<i32>) -> i8 {
    match month {
        Month::FEB => match year {
            Some(y) => if is_leap_year(y as int) {
                29
            } else {
                28
            },
            None => 28,
        },
        Month::APR | Month::JUN | Month::SEP | Month::NOV => 30,
        Month::NONE => 0,
        _ => 31,
    }
}

/// A point in time given as day, month and year, each possibly missing, with the
/// diagnostics found while reading it.
pub struct Timepoint {
    pub month: Month,
    pub day: Day,
    pub year: Option<i32>,
    pub errors: Vec<Error>,
}

/// The number of the day of `t`: the number of a given day, the length of the month for
/// the last day (for February only when the year is known), and 0 when undetermined.
pub open spec fn spec_normalized_day(month: Month, day: Day, year: Option<i32>) -> i8 {
    match day {
        Day::Last => match month {
            Month::APR | Month::JUN | Month::SEP | Month::NOV => 30,
            Month::FEB => match year {
                Some(y) => if is_leap_year(y as int) {
                    29
                } else {
                    28
                },
                None => 0,
            },
            Month::NONE => 0,
            _ => 31,
        },
        _ => spec_day_or(day, 0),
    }
}

/// A date is complete when it has a year, a month and a day that is either the last
/// day or a number in `1..=31`.
pub open spec fn spec_is_valid(month: Month, day: Day, year: Option<i32>) -> bool {
    &&& year is Some
    &&& day != Day::NONE
    &&& (day matches Day::Value(d) ==> 1 <= d <= 31)
    &&& month != Month::NONE
}

/// The day, month and year after `normalize`: a day number beyond the length of its
/// month moves to the next month (from December to January of the next year, and from
/// no month to January); the last day of no month becomes no day.
pub open spec fn spec_normalize_date(month: Month, day: Day, year: Option<i32>) -> (Month, Day, Option<i32>) {
    match day {
        Day::Value(d) => {
            let dim = spec_days_in_month(month, year);
            if d > dim {
                let day = Day::Value((d - dim) as i8);
                if month_value(month) < 12 {
                    (spec_month_from_int(month_value(month) + 1), day, year)
                } else {
                    (Month::JAN, day, match year {
                        Some(y) => Some((y + 1) as i32),
                        None => None,
                    })
                }
            } else {
                (month, day, year)
            }
        },
        Day::Last => if month == Month::NONE {
            (month, Day::NONE, year)
        } else {
            (month, day, year)
        },
        Day::NONE => (month, day, year),
    }
}

/// `normalize` does not overflow the year: that happens only when a day beyond
/// the end of December of year `i32::MAX` would move to the next year.
pub open spec fn normalize_date_fits(month: Month, day: Day, year: Option<i32>) -> bool {
    match day {
        Day::Value(d) => d > spec_days_in_month(month, year) && month_value(month) >= 12
            ==> year != Some(i32::MAX),
        _ => true,
    }
}

impl Timepoint {
    /// A date with nothing known and no diagnostics.
    pub fn new() -> (t: Timepoint)
        ensures
            t.month == Month::NONE,
            t.day == Day::NONE,
            t.year is None,
            t.errors@.len() == 0,
    {
        Timepoint { month: Month::NONE, day: Day::NONE, year: None, errors: Vec::new() }
    }

    /// True when year, month and day are all given and a day number lies in `1..=31`.
    pub fn is_valid(&self) -> (r: bool)
        ensures
            r == spec_is_valid(self.month, self.day, self.year),
    {
        if self.year.is_none() {
            return false;
        }
        if self.day.is_none() {
            return false;
        }
        if let Day::Value(day) = self.day {
            if day <= 0 || day > 31 {
                return false;
            }
        }
        if self.month == Month::NONE {
            return false;
        }
        true
    }

    /// The number of the day, with the last day of a month resolved; 0 when undetermined.
    pub fn get_normalized_day(&self) -> (r: i8)
        ensures
            r == spec_normalized_day(self.month, self.day, self.year),
    {
        if self.day.is_last() {
            match self.month {
                Month::APR | Month::JUN | Month::SEP | Month::NOV => 30,
                Month::FEB => {
                    if let Some(year) = self.year {
                        if leap_year(year) {
                            29
                        } else {
                            28
                        }
                    } else {
                        self.day.unwrap_or(0)
                    }
                },
                Month::NONE => self.day.unwrap_or(0),
                _ => 31,
            }
        } else {
            self.day.unwrap_or(0)
        }
    }

    /// Moves a day beyond the end of its month into the next month, and drops the last
    /// day of no month (see `spec_normalize_date`).
    pub fn normalize(&mut self)
        requires
            normalize_date_fits(old(self).month, old(self).day, old(self).year),
        ensures
            (final(self).month, final(self).day, final(self).year) == spec_normalize_date(
                old(self).month,
                old(self).day,
                old(self).year,
            ),
            final(self).errors@ == old(self).errors@,
    {
        match self.day {
            Day::Value(day) => {
                let dayz_in_month = self.days_in_month();
                if day > dayz_in_month {
                    if month_number(self.month) < 12 {
                        self.month = month_from_int(month_number(self.month) + 1);
                    } else {
                        self.month = Month::JAN;
                        self.year = match self.year {
                            None => None,
                            Some(year) => Some(year + 1),
                        }
                    }
                    self.day = Day::Value(day - dayz_in_month);
                }
            },
            Day::Last => {
                if self.month == Month::NONE {
                    self.day = Day::NONE;
                }
            },
            Day::NONE => {},
        }
    }

    /// The number of days in the month (see `spec_days_in_month`).
    fn days_in_month(&self) -> (r: i8)
        ensures
            r == spec_days_in_month(self.month, self.year),
    {
        match self.month {
            Month::JAN => 31,
            Month::FEB => {
                if let Some(year) = self.year {
                    if leap_year(year) {
                        29
                    } else {
                        28
                    }
                } else {
                    28
                }
            },
            Month::MAR => 31,
            Month::APR => 30,
            Month::MAY => 31,
            Month::JUN => 30,
            Month::JUL => 31,
            Month::AUG => 31,
            Month::SEP => 30,
            Month::OCT => 31,
            Month::NOV => 30,
            Month::DEC => 31,
            Month::NONE => 0,
        }
    }

    /// The difference of two dates, part by part: the days are the normalized day numbers,
    /// the months the month numbers, and a missing year counts as 0.
    pub fn sub(&self, rhs: &Timepoint) -> (d: Duration)
        requires
            i32::MIN <= spec_year_or_zero(self.year) - spec_year_or_zero(rhs.year) <= i32::MAX,
        ensures
            d.days == spec_normalized_day(self.month, self.day, self.year) - spec_normalized_day(
                rhs.month,
                rhs.day,
                rhs.year,
            ),
            d.months == month_value(self.month) - month_value(rhs.month),
            d.years == spec_year_or_zero(self.year) - spec_year_or_zero(rhs.year),
    {
        Duration {
            days: self.get_normalized_day() as i32 - rhs.get_normalized_day() as i32,
            months: month_number(self.month) - month_number(rhs.month),
            years: self.year.unwrap_or(0) - rhs.year.unwrap_or(0),
        }
    }

    /// The date moved by `rhs`, normalized first (see `spec_add_duration`).
    pub fn add_duration(&self, rhs: &Duration) -> (t: Timepoint)
        requires
            normalize_fits(*rhs),
            add_duration_fits(self.month, self.day, self.year, spec_normalize(*rhs)),
        ensures
            (t.month, t.day, t.year) == spec_add_duration(self.month, self.day, self.year, spec_normalize(*rhs)),
            error_log(t.errors@) == error_log(self.errors@),
    {
        let mut timepoint = self.duplicate();
        let mut duration = *rhs;
        duration.normalize();
        proof {
            lemma_normalized_days(*rhs);
        }
        timepoint.day = match timepoint.day {
            Day::Value(dayz) => Day::Value(dayz + duration.days as i8),
            Day::Last => Day::Value(timepoint.get_normalized_day() + duration.days as i8),
            Day::NONE => Day::NONE,
        };
        timepoint.normalize();
        let mut month = duration.months;
        let mut carry: i32 = 0;
        let ghost m2 = timepoint.month;
        if timepoint.month != Month::NONE {
            assert(-11 <= duration.months <= 12);
            month = month_number(timepoint.month) + duration.months;
            assert(month == month_value(m2) + duration.months);
            if month > 12 {
                month = month - 12;
                carry = 1;
            } else if month < 1 {
                month = month + 12;
                carry = -1;
            }
        }
        proof {
            if m2 != Month::NONE {
                assert(month_value(m2) + duration.months == month + 12 * carry);
            }
            assert(carry == (if m2 == Month::NONE { 0 } else { wrap_month(month_value(m2) + duration.months).1 }));
        }
        timepoint.month = month_from_int(month);
        timepoint.year = match timepoint.year {
            Some(year) => Some((year as i64 + carry as i64 + duration.years as i64) as i32),
            None => None,
        };
        timepoint
    }

    /// The date of the given day, month number and year (as the `date()` function builds
    /// it), with an error where it is not complete.
    pub fn from_parts(day: Day, month: Option<i32>, year: Option<i32>, range: Range) -> (t: Timepoint)
        ensures
            t.day == day,
            t.month == (match month { Some(m) => spec_month_from_int(m as int), None => Month::NONE }),
            t.year == year,
            spec_is_valid(t.month, t.day, t.year) ==> t.errors@.len() == 0,
            !spec_is_valid(t.month, t.day, t.year) ==> t.errors@.len() == 1 && t.errors@[0].id == ErrorId::InvDate
                && t.errors@[0].range == range,
    {
        let mut date = Timepoint::new();
        date.day = day;
        if let Some(m) = month {
            date.month = month_from_int(m);
        }
        date.year = year;
        if !date.is_valid() {
            date.errors.push(crate::errors::inv_date(range));
        }
        date
    }

    /// A part of the date by name: `day` (the normalized day number), `month` (its
    /// number) or `year` (0 where not given); `None` for any other name.
    pub fn fragment(&self, id: &str) -> (r: Option<i32>)
        ensures
            r == (if id@ == "day"@ {
                Some(spec_normalized_day(self.month, self.day, self.year) as i32)
            } else if id@ == "year"@ {
                Some(spec_year_or_zero(self.year) as i32)
            } else if id@ == "month"@ {
                Some(month_value(self.month) as i32)
            } else {
                None::<i32>
            }),
    {
        if str_eq(id, "day") {
            Some(self.get_normalized_day() as i32)
        } else if str_eq(id, "year") {
            Some(self.year.unwrap_or(0))
        } else if str_eq(id, "month") {
            Some(month_number(self.month))
        } else {
            None
        }
    }

    /// A copy of this date with copies of its diagnostics.
    pub fn duplicate(&self) -> (t: Timepoint)
        ensures
            t.month == self.month,
            t.day == self.day,
            t.year == self.year,
            error_log(t.errors@) == error_log(self.errors@),
    {
        Timepoint {
            month: self.month,
            day: self.day,
            year: self.year,
            errors: duplicate_errors(&self.errors),
        }
    }
}

/// A year, or 0 when it is missing.
pub open spec fn spec_year_or_zero(y: Option<i32>) -> int {
    match y {
        Some(v) => v as int,
        None => 0,
    }
}

/// The kind, severity, message and range of each diagnostic of a list, in order.
pub open spec fn error_log(errors: Seq<Error>) -> Seq<ErrorView> {
    errors.map_values(|e: Error| e.view())
}

/// Copies of a list of diagnostics.
pub fn duplicate_errors(errors: &Vec<Error>) -> (r: Vec<Error>)
    ensures
        error_log(r@) == error_log(errors@),
        r@.len() == errors@.len(),
{
    let mut r: Vec<Error> = Vec::new();
    let mut i: usize = 0;
    while i < errors.len()
        invariant
            0 <= i <= errors@.len(),
            error_log(r@) == error_log(errors@.take(i as int)),
        decreases errors@.len() - i,
    {
        let e = errors[i].duplicate();
        let ghost before = r@;
        r.push(e);
        assert(r@ == before.push(e));
        assert(error_log(before.push(e)) =~= error_log(before).push(e.view()));
        assert(errors@.take(i + 1) =~= errors@.take(i as int).push(errors@[i as int]));
        assert(error_log(r@) =~= error_log(errors@.take(i + 1)));
        i = i + 1;
    }
    assert(errors@.take(errors@.len() as int) =~= errors@);
    r
}

/// The day moved by `days`: a day number moves by it, the last day of the month becomes
/// its number moved by it, and no day stays none.
pub open spec fn moved_day(month: Month, day: Day, year: Option<i32>, days: int) -> Day {
    match day {
        Day::Value(d) => Day::Value((d + days) as i8),
        Day::Last => Day::Value((spec_normalized_day(month, day, year) + days) as i8),
        Day::NONE => Day::NONE,
    }
}

/// A month number moved by at most a year (so in `-11..=24`), brought back into `1..=12`,
/// with the year that carries (back before January, or on after December).
pub open spec fn wrap_month(m: int) -> (int, int) {
    if m > 12 {
        (m - 12, 1)
    } else if m < 1 {
        (m + 12, -1)
    } else {
        (m, 0)
    }
}

/// A date moved by a normalized duration `dur`: the day moves and is normalized into the
/// next month where it runs past its end; the month moves by the months, wrapping within
/// January to December and carrying whole years into the year; the year moves by the
/// years. A date without a month gets the month numbered by the months, if any.
pub open spec fn spec_add_duration(month: Month, day: Day, year: Option<i32>, dur: Duration) -> (Month, Day, Option<i32>) {
    let (m2, d2, y2) = spec_normalize_date(month, moved_day(month, day, year, dur.days as int), year);
    let (m4, carry) = if m2 == Month::NONE {
        (dur.months as int, 0)
    } else {
        wrap_month(month_value(m2) + dur.months)
    };
    (spec_month_from_int(m4), d2, match y2 { Some(y) => Some((y + carry + dur.years) as i32), None => None })
}

/// Moving the date by `dur` stays within the integer types: the day number and the year
/// after the years carried and added.
pub open spec fn add_duration_fits(month: Month, day: Day, year: Option<i32>, dur: Duration) -> bool {
    let moved = moved_day(month, day, year, dur.days as int);
    let (m2, d2, y2) = spec_normalize_date(month, moved, year);
    let carry = if m2 == Month::NONE { 0 } else { wrap_month(month_value(m2) + dur.months).1 };
    &&& (day matches Day::Value(d) ==> i8::MIN <= d + dur.days <= i8::MAX)
    &&& normalize_date_fits(month, moved, year)
    &&& (y2 matches Some(y) ==> i32::MIN <= y + carry + dur.years <= i32::MAX)
}

/// A normalized duration has between -30 and 31 days and between -11 and 12 months.
pub proof fn lemma_normalized_days(d: Duration)
    requires
        normalize_fits(d),
    ensures
        -30 <= spec_normalize(d).days <= 31,
        -11 <= spec_normalize(d).months <= 12,
{
    if !crate::date::duration::is_normal(d) {
        crate::date::duration::lemma_from_days_bounds(d.days as int);
        crate::date::duration::lemma_normalize_months_bound(d);
    }
}


/// The name a month is shown by: its three capital letters, or `NONE`.
pub open spec fn spec_month_name(m: Month) -> Seq<char> {
    match m {
        Month::JAN => "JAN"@,
        Month::FEB => "FEB"@,
        Month::MAR => "MAR"@,
        Month::APR => "APR"@,
        Month::MAY => "MAY"@,
        Month::JUN => "JUN"@,
        Month::JUL => "JUL"@,
        Month::AUG => "AUG"@,
        Month::SEP => "SEP"@,
        Month::OCT => "OCT"@,
        Month::NOV => "NOV"@,
        Month::DEC => "DEC"@,
        Month::NONE => "NONE"@,
    }
}

/// The name a month is shown by (see `spec_month_name`).
pub fn month_name(m: Month) -> (r: &'static str)
    ensures
        r@ == spec_month_name(m),
{
    match m {
        Month::JAN => "JAN",
        Month::FEB => "FEB",
        Month::MAR => "MAR",
        Month::APR => "APR",
        Month::MAY => "MAY",
        Month::JUN => "JUN",
        Month::JUL => "JUL",
        Month::AUG => "AUG",
        Month::SEP => "SEP",
        Month::OCT => "OCT",
        Month::NOV => "NOV",
        Month::DEC => "DEC",
        Month::NONE => "NONE",
    }
}

/// The year as shown: its number, or `????` when it is not given.
pub open spec fn spec_year_text(year: Option<i32>) -> Seq<char> {
    match year {
        Some(y) => int_text(y as int),
        None => "????"@,
    }
}

/// The day as shown: `--` when it is not given, `last (n)` for the last day of the
/// month, with `n` its normalized number, and the number otherwise.
pub open spec fn spec_day_text(month: Month, day: Day, year: Option<i32>) -> Seq<char> {
    match day {
        Day::NONE => "--"@,
        Day::Last => "last ("@ + int_text(spec_normalized_day(month, day, year) as int) + ")"@,
        Day::Value(_) => int_text(spec_normalized_day(month, day, year) as int),
    }
}

/// The date as shown: `year-MONTH-day`, the day being its normalized number, or `??`
/// where that is 0.
pub open spec fn spec_date_text(month: Month, day: Day, year: Option<i32>) -> Seq<char> {
    let n = spec_normalized_day(month, day, year);
    spec_year_text(year) + "-"@ + spec_month_name(month) + "-"@ + if n == 0 {
        "??"@
    } else {
        int_text(n as int)
    }
}

impl Timepoint {
    /// The year as shown (see `spec_year_text`).
    pub fn year_text(&self) -> (r: String)
        ensures
            r@ == spec_year_text(self.year),
    {
        match self.year {
            Some(y) => int_to_text(y as i64),
            None => String::from_str("????"),
        }
    }

    /// The day as shown (see `spec_day_text`).
    pub fn day_text(&self) -> (r: String)
        ensures
            r@ == spec_day_text(self.month, self.day, self.year),
    {
        let n = self.get_normalized_day();
        match self.day {
            Day::NONE => String::from_str("--"),
            Day::Last => {
                let mut s = String::from_str("last (");
                let digits = int_to_text(n as i64);
                s.append(digits.as_str());
                s.append(")");
                s
            },
            Day::Value(_) => int_to_text(n as i64),
        }
    }

    /// The date as shown (see `spec_date_text`).
    pub fn formatted(&self) -> (r: String)
        ensures
            r@ == spec_date_text(self.month, self.day, self.year),
    {
        let n = self.get_normalized_day();
        let mut s = self.year_text();
        s.append("-");
        s.append(month_name(self.month));
        s.append("-");
        if n == 0 {
            s.append("??");
        } else {
            let digits = int_to_text(n as i64);
            s.append(digits.as_str());
        }
        s
    }
}


/// Adding whole months (at most a year, either way) to a complete date gives a complete
/// date: the day stays, and months count on across years as in a calendar.
pub proof fn lemma_add_months(month: Month, d: i8, y: i32, k: i32)
    requires
        spec_is_valid(month, Day::Value(d), Some(y)),
        d <= spec_days_in_month(month, Some(y)),
        -11 <= k <= 12,
        i32::MIN < y < i32::MAX,
    ensures
        ({
            let (m, day, year) = spec_add_duration(month, Day::Value(d), Some(y), Duration { days: 0, months: k, years: 0 });
            &&& m != Month::NONE
            &&& day == Day::Value(d)
            &&& year matches Some(y2) && 12 * y2 + month_value(m) == 12 * y + month_value(month) + k
        }),
{
    lemma_month_from_int_value(wrap_month(month_value(month) + k).0);
}

/// The months of the Gregorian calendar: April, June, September and November have 30
/// days; February has 29 in a leap year (a multiple of 4 that is not a multiple of 100,
/// or a multiple of 400) and 28 otherwise; every other month has 31; and so a year has
/// 366 days in a leap year and 365 otherwise.
pub proof fn lemma_gregorian_month_lengths(y: i32)
    ensures
        spec_days_in_month(Month::JAN, Some(y)) == 31,
        spec_days_in_month(Month::FEB, Some(y)) == if (y % 4 == 0 && y % 100 != 0) || y % 400 == 0 { 29i8 } else { 28i8 },
        spec_days_in_month(Month::MAR, Some(y)) == 31,
        spec_days_in_month(Month::APR, Some(y)) == 30,
        spec_days_in_month(Month::MAY, Some(y)) == 31,
        spec_days_in_month(Month::JUN, Some(y)) == 30,
        spec_days_in_month(Month::JUL, Some(y)) == 31,
        spec_days_in_month(Month::AUG, Some(y)) == 31,
        spec_days_in_month(Month::SEP, Some(y)) == 30,
        spec_days_in_month(Month::OCT, Some(y)) == 31,
        spec_days_in_month(Month::NOV, Some(y)) == 30,
        spec_days_in_month(Month::DEC, Some(y)) == 31,
        spec_days_in_month(Month::JAN, Some(y)) + spec_days_in_month(Month::FEB, Some(y))
            + spec_days_in_month(Month::MAR, Some(y)) + spec_days_in_month(Month::APR, Some(y))
            + spec_days_in_month(Month::MAY, Some(y)) + spec_days_in_month(Month::JUN, Some(y))
            + spec_days_in_month(Month::JUL, Some(y)) + spec_days_in_month(Month::AUG, Some(y))
            + spec_days_in_month(Month::SEP, Some(y)) + spec_days_in_month(Month::OCT, Some(y))
            + spec_days_in_month(Month::NOV, Some(y)) + spec_days_in_month(Month::DEC, Some(y))
            == if (y % 4 == 0 && y % 100 != 0) || y % 400 == 0 { 366int } else { 365int },
{
}

} // verus!
