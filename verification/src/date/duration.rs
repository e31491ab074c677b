use vstd::prelude::*;
use crate::text::{int_text, int_to_text, str_eq};
use crate::errors::Error;
use crate::tokenizer::cursor::Range;

verus! {

/// Division of integers rounded toward zero, as Rust's `/` and a float-to-int `as` do.
pub open spec fn tdiv(a: int, b: int) -> int
    recommends
        b > 0,
{
    if a >= 0 {
        a / b
    } else {
        -((-a) / b)
    }
}

/// The remainder that goes with `tdiv`: it has the sign of `a`.
pub open spec fn trem(a: int, b: int) -> int {
    a - tdiv(a, b) * b
}

/// The double nearest to 365.2425 (days in a Gregorian year) is exactly this
/// numerator over `2^44`.
pub open spec fn year_days_numerator() -> int {
    6425414011327611
}

/// The denominator `2^44` of the double nearest to 365.2425.
pub open spec fn year_days_denominator() -> int {
    17592186044416
}

/// A length of time in days, months and years; the parts may be negative and
/// are not required to be normalized.
#[derive(Clone, Copy, Debug, PartialEq, Eq, Structural)]
pub struct Duration {
    pub days: i32,
    pub months: i32,
    pub years: i32,
}

/// The days left of `days` once whole years of 365.2425 days are taken out, truncated:
/// the remainder is taken with respect to the double nearest to 365.2425, so that for a
/// positive multiple of 146097 days (400 years) it is 365, not 0.
pub open spec fn days_after_years(days: int) -> int {
    let scaled = days * year_days_denominator();
    tdiv(trem(scaled, year_days_numerator()), year_days_denominator())
}

/// Splits a number of days into years (of 365.2425 days), months (of 30.437 days) and
/// days, each part truncated toward zero and carrying the sign of `days`.
pub open spec fn spec_from_days(days: int) -> Duration {
    let rest = days_after_years(days);
    let months = tdiv(rest * 1000, 30437);
    Duration {
        years: tdiv(days * 10000, 3652425) as i32,
        months: months as i32,
        days: tdiv(rest * 1000 - months * 30437, 1000) as i32,
    }
}

/// Splits a number of months into years and months, both truncated toward zero.
pub open spec fn spec_from_months(months: int) -> Duration {
    Duration { days: 0, years: tdiv(months, 12) as i32, months: trem(months, 12) as i32 }
}

/// A duration is left unchanged by `normalize` when its days lie in `0..=31`, its
/// months in `0..=12` and its years are not negative.
pub open spec fn is_normal(d: Duration) -> bool {
    0 <= d.days <= 31 && 0 <= d.months <= 12 && d.years >= 0
}

/// The months of `d` once the months of its days are added.
pub open spec fn months_with_days(d: Duration) -> int {
    d.months + spec_from_days(d.days as int).months
}

/// The years of `d` once the years of its days are added.
pub open spec fn years_with_days(d: Duration) -> int {
    d.years + spec_from_days(d.days as int).years
}

/// The years of `d` once the years of its days and of its months are added.
pub open spec fn years_with_months(d: Duration) -> int {
    years_with_days(d) + tdiv(months_with_days(d), 12)
}

/// `normalize` stays within `i32` on `d`.
pub open spec fn normalize_fits(d: Duration) -> bool {
    is_normal(d) || (
        i32::MIN <= months_with_days(d) <= i32::MAX
        && i32::MIN <= years_with_days(d) <= i32::MAX
        && i32::MIN <= years_with_months(d) <= i32::MAX)
}

/// The normalized form of `d`: the days are split into years, months and days, the
/// months into years and months, then one year is borrowed for negative months and
/// one month of 30 days for negative days, where there is one to borrow.
pub open spec fn spec_normalize(d: Duration) -> Duration {
    if is_normal(d) {
        d
    } else {
        let days = spec_from_days(d.days as int).days as int;
        let months = trem(months_with_days(d), 12);
        let years = years_with_months(d);
        let (months, years) = if months < 0 && years > 0 {
            (months + 12, years - 1)
        } else {
            (months, years)
        };
        let (days, months) = if days < 0 && months > 0 {
            (days + 30, months - 1)
        } else {
            (days, months)
        };
        Duration { days: days as i32, months: months as i32, years: years as i32 }
    }
}

proof fn lemma_tdiv_bounds(a: int, b: int, m: int)
    requires
        b > 0,
        m >= 0,
        -((m + 1) * b) < a < (m + 1) * b,
    ensures
        -m <= tdiv(a, b) <= m,
        0 <= a ==> 0 <= tdiv(a, b),
        a <= 0 ==> tdiv(a, b) <= 0,
{
    if a >= 0 {
        assert(a / b <= m) by (nonlinear_arith)
            requires
                b > 0,
                0 <= a < (m + 1) * b,
        ;
        assert(a / b >= 0) by (nonlinear_arith)
            requires
                b > 0,
                0 <= a,
        ;
    } else {
        assert((-a) / b <= m) by (nonlinear_arith)
            requires
                b > 0,
                0 < -a < (m + 1) * b,
        ;
        assert((-a) / b >= 0) by (nonlinear_arith)
            requires
                b > 0,
                0 <= -a,
        ;
    }
}

proof fn lemma_trem_bounds(a: int, b: int)
    requires
        b > 0,
    ensures
        -b < trem(a, b) < b,
        a >= 0 ==> trem(a, b) >= 0,
        a <= 0 ==> trem(a, b) <= 0,
{
    if a >= 0 {
        assert(0 <= a - (a / b) * b < b) by (nonlinear_arith)
            requires
                b > 0,
                a >= 0,
        ;
    } else {
        let n = -a;
        assert(0 <= n - (n / b) * b < b) by (nonlinear_arith)
            requires
                b > 0,
                n >= 0,
        ;
        assert((-(n / b)) * b == -((n / b) * b)) by (nonlinear_arith);
        assert(trem(a, b) == -(n - (n / b) * b));
    }
}

/// The months of a duration normalized from a non-normal one lie in `-11..=11`.
pub proof fn lemma_normalize_months_bound(d: Duration)
    requires
        normalize_fits(d),
        !is_normal(d),
    ensures
        -11 <= spec_normalize(d).months <= 11,
{
    lemma_trem_bounds(months_with_days(d), 12);
}

/// A number of days shorter than a month splits into those days alone.
proof fn lemma_from_small_days(x: int)
    requires
        -30 <= x <= 30,
    ensures
        spec_from_days(x) == (Duration { days: x as i32, months: 0, years: 0 }),
{
    let den = year_days_denominator();
    let num = year_days_numerator();
    let scaled = x * den;
    assert(-num < scaled < num) by (nonlinear_arith)
        requires
            -30 <= x <= 30,
            scaled == x * den,
            den == 17592186044416,
            num == 6425414011327611;
    assert(tdiv(scaled, num) == 0);
    assert(trem(scaled, num) == scaled);
    if x >= 0 {
        assert(scaled / den == x) by (nonlinear_arith)
            requires
                scaled == x * den,
                den == 17592186044416,
                x >= 0;
    } else {
        assert((-scaled) / den == -x) by (nonlinear_arith)
            requires
                scaled == x * den,
                den == 17592186044416,
                x < 0;
    }
    assert(days_after_years(x) == x);
    assert(tdiv(x * 1000, 30437) == 0);
    assert(tdiv(x * 1000, 1000) == x);
    assert(tdiv(x * 10000, 3652425) == 0);
}

/// Normalizing a duration twice gives what normalizing it once gives: a normalized
/// duration is left as it is.
pub proof fn lemma_normalize_idempotent(d: Duration)
    requires
        normalize_fits(d),
    ensures
        normalize_fits(spec_normalize(d)),
        spec_normalize(spec_normalize(d)) == spec_normalize(d),
{
    if !is_normal(d) {
        lemma_from_days_bounds(d.days as int);
        lemma_normalize_months_bound(d);
        let r = spec_normalize(d);
        assert(-30 <= r.days <= 30);
        assert(r.months < 0 ==> r.years <= 0);
        assert(r.days < 0 ==> r.months <= 0);
        if !is_normal(r) {
            lemma_from_small_days(r.days as int);
            assert(months_with_days(r) == r.months);
            assert(tdiv(r.months as int, 12) == 0);
            assert(trem(r.months as int, 12) == r.months);
            assert(years_with_months(r) == r.years);
        }
    }
}

/// The parts of `spec_from_days` stay small.
pub proof fn lemma_from_days_bounds(days: int)
    requires
        i32::MIN <= days <= i32::MAX,
    ensures
        -365 <= days_after_years(days) <= 365,
        -11 <= tdiv(days_after_years(days) * 1000, 30437) <= 11,
        -30 <= spec_from_days(days).days <= 30,
        -5879634 <= tdiv(days * 10000, 3652425) <= 5879634,
        spec_from_days(days).months == tdiv(days_after_years(days) * 1000, 30437),
        spec_from_days(days).years == tdiv(days * 10000, 3652425),
{
    let scaled = days * year_days_denominator();
    lemma_trem_bounds(scaled, year_days_numerator());
    let r = trem(scaled, year_days_numerator());
    lemma_tdiv_bounds(r, year_days_denominator(), 365);
    let rest = days_after_years(days);
    lemma_tdiv_bounds(rest * 1000, 30437, 11);
    let months = tdiv(rest * 1000, 30437);
    lemma_trem_bounds(rest * 1000, 30437);
    lemma_tdiv_bounds(rest * 1000 - months * 30437, 1000, 30);
    lemma_tdiv_bounds(days * 10000, 3652425, 5879634);
}

impl Duration {
    /// A duration of nothing.
    pub fn new() -> (d: Duration)
        ensures
            d == (Duration { days: 0, months: 0, years: 0 }),
    {
        Duration { days: 0, months: 0, years: 0 }
    }

    /// Splits a number of days into years, months and days (see `spec_from_days`).
    pub fn from_days(days: i32) -> (d: Duration)
        ensures
            d == spec_from_days(days as int),
    {
        proof {
            lemma_from_days_bounds(days as int);
        }
        let scaled: i128 = days as i128 * 17592186044416;
        let whole: i128 = scaled / 6425414011327611;
        let rest: i128 = (scaled - whole * 6425414011327611) / 17592186044416;
        let months: i128 = rest * 1000 / 30437;
        let left: i128 = (rest * 1000 - months * 30437) / 1000;
        let years: i128 = days as i128 * 10000 / 3652425;
        Duration { years: years as i32, months: months as i32, days: left as i32 }
    }

    /// Splits a number of months into years and months.
    pub fn from_months(months: i32) -> (d: Duration)
        ensures
            d == spec_from_months(months as int),
    {
        Duration { days: 0, years: months / 12, months: months % 12 }
    }

    /// Brings the days, months and years into their usual ranges (see `spec_normalize`),
    /// taking a month as 30 days when days are borrowed.
    pub fn normalize(&mut self)
        requires
            normalize_fits(*old(self)),
        ensures
            *final(self) == spec_normalize(*old(self)),
    {
        if self.days >= 0 && self.days <= 31 && self.months >= 0 && self.months <= 12
            && self.years >= 0 {
            return;
        }
        proof {
            lemma_from_days_bounds(self.days as int);
        }
        let dur_from_days = Duration::from_days(self.days);
        self.days = dur_from_days.days;
        self.months = self.months + dur_from_days.months;
        self.years = self.years + dur_from_days.years;

        let dur_from_months = Duration::from_months(self.months);
        self.months = dur_from_months.months;
        self.years = self.years + dur_from_months.years;

        if self.months < 0 && self.years > 0 {
            self.years = self.years - 1;
            self.months = self.months + 12;
        }
        if self.days < 0 && self.months > 0 {
            self.months = self.months - 1;
            self.days = self.days + 30;
        }
    }

    /// The part-wise sum of two durations.
    pub fn add(&self, rhs: &Duration) -> (d: Duration)
        requires
            i32::MIN <= self.days + rhs.days <= i32::MAX,
            i32::MIN <= self.months + rhs.months <= i32::MAX,
            i32::MIN <= self.years + rhs.years <= i32::MAX,
        ensures
            d.days == self.days + rhs.days,
            d.months == self.months + rhs.months,
            d.years == self.years + rhs.years,
    {
        Duration {
            days: self.days + rhs.days,
            months: self.months + rhs.months,
            years: self.years + rhs.years,
        }
    }

    /// The part-wise difference of two durations.
    pub fn sub(&self, rhs: &Duration) -> (d: Duration)
        requires
            i32::MIN <= self.days - rhs.days <= i32::MAX,
            i32::MIN <= self.months - rhs.months <= i32::MAX,
            i32::MIN <= self.years - rhs.years <= i32::MAX,
        ensures
            d.days == self.days - rhs.days,
            d.months == self.months - rhs.months,
            d.years == self.years - rhs.years,
    {
        Duration {
            days: self.days - rhs.days,
            months: self.months - rhs.months,
            years: self.years - rhs.years,
        }
    }
}

/// The duration of a list of values in `days`, `months` and `years` (each unit at most
/// once): `Err` names the unit given twice.
pub open spec fn spec_duration_from_units(units: Seq<Seq<char>>, values: Seq<i32>, k: int) -> Result<Duration, Seq<char>>
    decreases k,
{
    if k <= 0 {
        Ok(Duration { days: 0, months: 0, years: 0 })
    } else {
        match spec_duration_from_units(units, values, k - 1) {
            Err(m) => Err(m),
            Ok(d) => {
                let u = units[k - 1];
                let seen = exists|j: int| 0 <= j < k - 1 && #[trigger] units[j] == u;
                if u == "days"@ {
                    if seen { Err("Unit 'days' used more than once."@) } else { Ok(Duration { days: values[k - 1], ..d }) }
                } else if u == "months"@ {
                    if seen { Err("Unit 'months' used more than once."@) } else { Ok(Duration { months: values[k - 1], ..d }) }
                } else {
                    if seen { Err("Unit 'years' used more than once."@) } else { Ok(Duration { years: values[k - 1], ..d }) }
                }
            },
        }
    }
}

/// Every unit is `days`, `months` or `years`.
pub open spec fn duration_units(units: Seq<Seq<char>>) -> bool {
    forall|j: int| 0 <= j < units.len() ==> #[trigger] units[j] == "days"@ || units[j] == "months"@ || units[j] == "years"@
}

/// The units of a list, as plain values.
pub open spec fn unit_names(units: Seq<String>) -> Seq<Seq<char>> {
    units.map_values(|s: String| s@)
}

/// Once a unit is given twice, the error stays as more values follow.
proof fn lemma_units_error_stays(units: Seq<Seq<char>>, values: Seq<i32>, k: int, k2: int)
    requires
        0 <= k <= k2,
        spec_duration_from_units(units, values, k) is Err,
    ensures
        spec_duration_from_units(units, values, k2) == spec_duration_from_units(units, values, k),
    decreases k2 - k,
{
    if k < k2 {
        lemma_units_error_stays(units, values, k, k2 - 1);
    }
}

impl Duration {
    /// The duration of a list of values with the units `days`, `months` and `years`, each
    /// at most once; a unit given twice is an error about the list at `range`.
    pub fn from_units(units: &Vec<String>, values: &Vec<i32>, range: Range) -> (r: Result<Duration, Error>)
        requires
            units@.len() == values@.len(),
            duration_units(unit_names(units@)),
        ensures
            match r {
                Ok(d) => spec_duration_from_units(unit_names(units@), values@, units@.len() as int) == Ok::<Duration, Seq<char>>(d),
                Err(e) => spec_duration_from_units(unit_names(units@), values@, units@.len() as int) matches Err(m)
                    && e.id == crate::errors::ErrorId::InvList && e.range == range
                    && e.message@ == crate::errors::spec_message(crate::errors::ErrorId::InvList, seq![m]),
            },
    {
        let ghost names = unit_names(units@);
        proof {
            reveal_strlit("days");
            reveal_strlit("months");
            reveal_strlit("years");
        }
        let mut has_days = false;
        let mut has_months = false;
        let mut has_years = false;
        let mut duration = Duration::new();
        let mut i: usize = 0;
        while i < units.len()
            invariant
                names == unit_names(units@),
                units@.len() == values@.len(),
                duration_units(names),
                0 <= i <= units@.len(),
                spec_duration_from_units(names, values@, i as int) == Ok::<Duration, Seq<char>>(duration),
                has_days == exists|j: int| 0 <= j < i && #[trigger] names[j] == "days"@,
                has_months == exists|j: int| 0 <= j < i && #[trigger] names[j] == "months"@,
                has_years == exists|j: int| 0 <= j < i && #[trigger] names[j] == "years"@,
            decreases units@.len() - i,
        {
            let u = units[i].as_str();
            assert(names[i as int] == u@);
            proof {
                reveal_strlit("days");
                reveal_strlit("months");
                reveal_strlit("years");
                assert("days"@.len() == 4 && "months"@.len() == 6 && "years"@.len() == 5);
            }
            if str_eq(u, "days") {
                if has_days {
                    proof {
                        lemma_units_error_stays(names, values@, i + 1, units@.len() as int);
                    }
                    return Err(crate::errors::inv_list("Unit 'days' used more than once.", range));
                }
                has_days = true;
                duration.days = values[i];
            } else if str_eq(u, "months") {
                if has_months {
                    proof {
                        lemma_units_error_stays(names, values@, i + 1, units@.len() as int);
                    }
                    return Err(crate::errors::inv_list("Unit 'months' used more than once.", range));
                }
                has_months = true;
                duration.months = values[i];
            } else {
                assert(u@ == "years"@);
                if has_years {
                    proof {
                        lemma_units_error_stays(names, values@, i + 1, units@.len() as int);
                    }
                    return Err(crate::errors::inv_list("Unit 'years' used more than once.", range));
                }
                has_years = true;
                duration.years = values[i];
            }
            i = i + 1;
        }
        Ok(duration)
    }
}


/// How a duration is shown: for one with years, `Y years,M months,D days` of its
/// normalized form; nothing for one without.
pub open spec fn spec_duration_text(d: Duration) -> Seq<char> {
    let n = spec_normalize(d);
    if d.years != 0 {
        int_text(n.years as int) + " years,"@ + int_text(n.months as int) + " months,"@
            + int_text(n.days as int) + " days"@
    } else {
        Seq::empty()
    }
}

impl Duration {
    /// Whether `normalize` stays within `i32` on this duration.
    pub fn fits_normalize(&self) -> (r: bool)
        ensures
            r == normalize_fits(*self),
    {
        if self.days >= 0 && self.days <= 31 && self.months >= 0 && self.months <= 12 && self.years >= 0 {
            return true;
        }
        let from_days = Duration::from_days(self.days);
        let months: i64 = self.months as i64 + from_days.months as i64;
        let years: i64 = self.years as i64 + from_days.years as i64;
        let years_with_months: i64 = years + months / 12;
        i32::MIN as i64 <= months && months <= i32::MAX as i64
            && i32::MIN as i64 <= years && years <= i32::MAX as i64
            && i32::MIN as i64 <= years_with_months && years_with_months <= i32::MAX as i64
    }

    /// The duration as shown (see `spec_duration_text`).
    pub fn formatted(&self) -> (r: String)
        requires
            normalize_fits(*self),
        ensures
            r@ == spec_duration_text(*self),
    {
        let mut n = *self;
        n.normalize();
        if self.years != 0 {
            let mut s = int_to_text(n.years as i64);
            s.append(" years,");
            let months = int_to_text(n.months as i64);
            s.append(months.as_str());
            s.append(" months,");
            let days = int_to_text(n.days as i64);
            s.append(days.as_str());
            s.append(" days");
            s
        } else {
            String::new()
        }
    }
}

} // verus!
