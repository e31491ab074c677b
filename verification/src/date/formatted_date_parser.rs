use vstd::prelude::*;
use crate::date::timepoint::{
    DateFormat, Day, Month, Timepoint, error_log, month_from_int, month_from_str,
    spec_date_format_name, spec_is_valid, spec_month_from_int, spec_month_from_str,
};
use crate::errors::{self, ErrorId, ErrorType, ErrorView, has_real_errors, spec_message};
use crate::text::{
    glue_parts, gluable, lemma_date_slices_of_glued,
    chars_of, parse_i32, parse_i8, spec_date_slices, spec_parse_i32, spec_parse_i8,
    split_date_slices, std_lowercase, str_eq, to_lowercase, views_of,
};
use crate::tokenizer::cursor::Range;

verus! {

/// The diagnostic pushed for an unreadable part of a formatted date.
pub open spec fn date_error(info: &str, range: Range) -> ErrorView {
    (ErrorId::InvDateStr, ErrorType::E, spec_message(ErrorId::InvDateStr, seq![info@]), range)
}

/// What the date parser knows after some parts: the date read so far, its diagnostics,
/// and whether the first part was a year (so that the parts are taken as year, month, day).
pub struct DateState {
    pub month: Month,
    pub day: Day,
    pub year: Option<i32>,
    pub log: Seq<ErrorView>,
    pub ymd: bool,
}

impl DateState {
    /// The state with one more diagnostic about an unreadable part.
    pub open spec fn err(self, info: &str, range: Range) -> DateState {
        DateState { log: self.log.push(date_error(info, range)), ..self }
    }
}

/// The number a part reads as, as `str::parse::<i32>` reads it.
pub open spec fn slice_number(s: Seq<char>) -> Option<i32> {
    spec_parse_i32(s)
}

/// The number a part reads as, or `default` when it is no `i32`.
pub open spec fn number_or(s: Seq<char>, default: int) -> int {
    match slice_number(s) {
        Some(n) => n as int,
        None => default,
    }
}

/// The month a part names, once put in lower case.
pub open spec fn slice_month(s: Seq<char>) -> Month {
    spec_month_from_str(std_lowercase(s))
}

/// Some part is a number above 31: a year.
pub open spec fn spec_has_year_slice(slices: Seq<Seq<char>>) -> bool {
    exists|i: int| 0 <= i < slices.len() && number_or(#[trigger] slices[i], 0) > 31
}

/// A part that can only be a day: `last` or a number in `13..=31`.
pub open spec fn is_day_slice(s: Seq<char>) -> bool {
    s == "last"@ || (12 < number_or(s, 0) <= 31)
}

/// Some part can only be a day.
pub open spec fn spec_has_day_slice(slices: Seq<Seq<char>>) -> bool {
    exists|i: int| 0 <= i < slices.len() && is_day_slice(#[trigger] slices[i])
}

/// Some part names a month.
pub open spec fn spec_has_month_slice(slices: Seq<Seq<char>>) -> bool {
    exists|i: int| 0 <= i < slices.len() && slice_month(#[trigger] slices[i]) != Month::NONE
}

/// The number of the first `k` parts that read as `n`, a part that is no number
/// counting as `-n`.
pub open spec fn count_same_upto(slices: Seq<Seq<char>>, n: int, k: int) -> nat
    decreases k,
{
    if k <= 0 {
        0
    } else {
        count_same_upto(slices, n, k - 1) + if number_or(slices[k - 1], -n) == n {
            1nat
        } else {
            0nat
        }
    }
}

/// The number of parts that read as `n`, a part that is no number counting as `-n`.
pub open spec fn spec_count_same(slices: Seq<Seq<char>>, n: int) -> nat {
    count_same_upto(slices, n, slices.len() as int)
}

/// Reading a number `n` of at most 12 as the part at `slice_no` of a date written as
/// year, month, day.
pub open spec fn spec_parse_ymd_slice_number(st: DateState, slice_no: int, n: int, range: Range) -> DateState {
    if slice_no == 0 {
        if st.year is None {
            DateState { year: Some(n as i32), ..st }
        } else {
            st.err("assuming ymd format, but day is already filled.", range)
        }
    } else if slice_no == 1 {
        if st.month == Month::NONE {
            DateState { month: spec_month_from_int(n), ..st }
        } else {
            st.err("assuming ymd but month is already filled.", range)
        }
    } else if slice_no == 2 {
        if st.day == Day::NONE {
            DateState { day: Day::Value(n as i8), ..st }
        } else {
            st.err("assuming ymd but day is already filled.", range)
        }
    } else {
        st
    }
}

/// Reading a number `n` in `0..=12`, which may be a day, a month or a year, from a date
/// of three parts.
pub open spec fn spec_small_number_of_three(
    st: DateState,
    slices: Seq<Seq<char>>,
    slice_no: int,
    n: int,
    range: Range,
) -> DateState {
    if spec_count_same(slices, n) == 3 {
        DateState { day: Day::Value(n as i8), month: spec_month_from_int(n), year: Some(n as i32), ..st }
    } else if spec_has_year_slice(slices) && spec_has_month_slice(slices) {
        if st.day == Day::NONE {
            DateState { day: Day::Value(n as i8), ..st }
        } else {
            st.err("not clear which value is day or month.", range)
        }
    } else if spec_has_year_slice(slices) && spec_has_day_slice(slices) {
        if st.month == Month::NONE {
            DateState { month: spec_month_from_int(n), ..st }
        } else {
            st.err("not clear which value is day or month.", range)
        }
    } else if spec_has_year_slice(slices) && spec_count_same(slices, n) >= 2 {
        DateState { day: Day::Value(n as i8), month: spec_month_from_int(n), ..st }
    } else {
        let st = if spec_has_year_slice(slices) {
            st.err("not clear which value is day or month.", range)
        } else {
            st
        };
        if st.ymd {
            spec_parse_ymd_slice_number(st, slice_no, n, range)
        } else {
            st
        }
    }
}

/// Reading a part that is a non-negative number `n`.
pub open spec fn spec_number_slice(
    st: DateState,
    slices: Seq<Seq<char>>,
    slice_no: int,
    n: int,
    range: Range,
) -> DateState {
    if n > 31 {
        if st.year is Some {
            st.err("multiple values for year.", range)
        } else {
            DateState { year: Some(n as i32), ymd: if slice_no == 0 { true } else { st.ymd }, ..st }
        }
    } else if n > 12 {
        if slices.len() >= 3 && !spec_has_year_slice(slices) {
            st.err("values could be month or year.", range)
        } else if st.day != Day::NONE {
            st.err("multiple values for day.", range)
        } else {
            DateState { day: Day::Value(n as i8), ..st }
        }
    } else if slices.len() == 3 {
        spec_small_number_of_three(st, slices, slice_no, n, range)
    } else if slices.len() == 2 {
        if spec_has_day_slice(slices) {
            DateState { month: spec_month_from_int(n), ..st }
        } else if spec_has_month_slice(slices) {
            DateState { day: Day::Value(n as i8), ..st }
        } else {
            st.err("not clear which value is day or month.", range)
        }
    } else {
        st
    }
}

/// Reading one part of a formatted date: `last` is the last day, a month name is the
/// month, a number above 31 a year, one in `13..=31` a day, and a smaller one is placed
/// by what the other parts are; each conflict or unreadable part adds a diagnostic.
pub open spec fn spec_parse_any_slice(
    st: DateState,
    slices: Seq<Seq<char>>,
    slice_no: int,
    slice: Seq<char>,
    range: Range,
) -> DateState {
    if slice == "last"@ {
        if st.day != Day::NONE {
            st.err("multiple values for day.", range)
        } else {
            DateState { day: Day::Last, ..st }
        }
    } else if slice_month(slice) != Month::NONE && st.month == Month::NONE {
        DateState { month: slice_month(slice), ..st }
    } else {
        let st = if slice_month(slice) != Month::NONE {
            st.err("multiple values for month.", range)
        } else {
            st
        };
        match slice_number(slice) {
            None => st.err("invalid numeric value.", range),
            Some(n) => if n < 0 {
                st.err("invalid numeric value.", range)
            } else {
                spec_number_slice(st, slices, slice_no, n as int, range)
            },
        }
    }
}

/// The day a part names: `last`, an `i8` number, or none.
pub open spec fn spec_day_slice(s: Seq<char>) -> Day {
    if s == "last"@ {
        Day::Last
    } else {
        match spec_parse_i8(s) {
            Some(d) => Day::Value(d),
            None => Day::NONE,
        }
    }
}

/// The month a part names: a month name, or a month number.
pub open spec fn spec_month_slice(s: Seq<char>) -> Month {
    if slice_month(s) != Month::NONE {
        slice_month(s)
    } else {
        match slice_number(s) {
            Some(n) => spec_month_from_int(n as int),
            None => Month::NONE,
        }
    }
}

/// The diagnostic pushed when three parts do not make a date in the given format.
pub open spec fn format_error(format: DateFormat, range: Range) -> ErrorView {
    (
        ErrorId::InvDateStrForFormat,
        ErrorType::E,
        spec_message(ErrorId::InvDateStrForFormat, seq![spec_date_format_name(format)]),
        range,
    )
}

/// The positions of day, month and year in a date of the given format.
pub open spec fn spec_indices(f: DateFormat) -> (int, int, int) {
    match f {
        DateFormat::DMY => (0, 1, 2),
        DateFormat::MDY => (1, 0, 2),
        DateFormat::YMD => (2, 1, 0),
    }
}

/// Reading three parts strictly in the given format: the date read replaces the state,
/// with only a diagnostic when it is not complete. With another number of parts the
/// state is kept.
pub open spec fn spec_parse_for_format(
    st: DateState,
    slices: Seq<Seq<char>>,
    format: DateFormat,
    range: Range,
) -> DateState {
    if slices.len() != 3 {
        st
    } else {
        let (d, m, y) = spec_indices(format);
        let year = slice_number(slices[y]);
        let month = spec_month_slice(slices[m]);
        let day = spec_day_slice(slices[d]);
        DateState {
            month,
            day,
            year,
            log: if spec_is_valid(month, day, year) {
                Seq::empty()
            } else {
                seq![format_error(format, range)]
            },
            ymd: st.ymd,
        }
    }
}

/// Some diagnostic of the list is a real error.
pub open spec fn log_has_real_error(log: Seq<ErrorView>) -> bool {
    exists|i: int| 0 <= i < log.len() && (#[trigger] log[i]).1 == ErrorType::E
}

/// Reading the parts from `i` on: after each part, a real error makes the parser fall
/// back to the strict format; after the last part, so does a date that is not complete.
pub open spec fn spec_parse_from(
    st: DateState,
    slices: Seq<Seq<char>>,
    i: int,
    format: DateFormat,
    range: Range,
) -> DateState
    decreases slices.len() - i,
{
    if i >= slices.len() || i < 0 {
        if !spec_is_valid(st.month, st.day, st.year) {
            spec_parse_for_format(st, slices, format, range)
        } else {
            st
        }
    } else {
        let next = spec_parse_any_slice(st, slices, i, slices[i], range);
        if log_has_real_error(next.log) {
            spec_parse_for_format(next, slices, format, range)
        } else {
            spec_parse_from(next, slices, i + 1, format, range)
        }
    }
}

/// The state a parser starts from: nothing known.
pub open spec fn initial_state() -> DateState {
    DateState { month: Month::NONE, day: Day::NONE, year: None, log: Seq::empty(), ymd: false }
}

/// The date read from the parts of a formatted date.
pub open spec fn spec_parse_slices(slices: Seq<Seq<char>>, format: DateFormat, range: Range) -> DateState {
    spec_parse_from(initial_state(), slices, 0, format, range)
}

/// The date read from a formatted date text: the text is cut at spaces, `/`, `,` and `-`
/// and the parts read as by `spec_parse_slices`.
pub open spec fn spec_parse_date_string(text: Seq<char>, format: DateFormat, range: Range) -> DateState {
    spec_parse_slices(spec_date_slices(text), format, range)
}

/// A formatted date reads the same whatever runs of separators stand around and between
/// its parts: it is read from the parts alone.
pub proof fn lemma_separator_runs_do_not_matter(
    parts: Seq<Seq<char>>,
    runs1: Seq<Seq<char>>,
    runs2: Seq<Seq<char>>,
    format: DateFormat,
    range: Range,
)
    requires
        gluable(parts, runs1),
        gluable(parts, runs2),
    ensures
        spec_parse_date_string(glue_parts(parts, runs1), format, range) == spec_parse_slices(parts, format, range),
        spec_parse_date_string(glue_parts(parts, runs1), format, range)
            == spec_parse_date_string(glue_parts(parts, runs2), format, range),
{
    lemma_date_slices_of_glued(parts, runs1);
    lemma_date_slices_of_glued(parts, runs2);
}

/// Reading three parts from any state ends in a complete date or with an error reported.
proof fn lemma_parse_from_three(st: DateState, slices: Seq<Seq<char>>, i: int, format: DateFormat, range: Range)
    requires
        slices.len() == 3,
    ensures
        ({
            let r = spec_parse_from(st, slices, i, format, range);
            spec_is_valid(r.month, r.day, r.year) || log_has_real_error(r.log)
        }),
    decreases slices.len() - i,
{
    let fe = format_error(format, range);
    assert(seq![fe][0] == fe);
    if !(i >= slices.len() || i < 0) {
        let next = spec_parse_any_slice(st, slices, i, slices[i], range);
        if !log_has_real_error(next.log) {
            lemma_parse_from_three(next, slices, i + 1, format, range);
        }
    }
}

/// A date text of three parts is read as a complete date (a year, a month and a day in
/// range), or an error is reported: what cannot be placed is not silently taken.
pub proof fn lemma_three_part_date_complete_or_error(text: Seq<char>, format: DateFormat, range: Range)
    requires
        spec_date_slices(text).len() == 3,
    ensures
        ({
            let r = spec_parse_date_string(text, format, range);
            spec_is_valid(r.month, r.day, r.year) || log_has_real_error(r.log)
        }),
{
    lemma_parse_from_three(initial_state(), spec_date_slices(text), 0, format, range);
}

/// Every diagnostic of the list is a real error.
pub open spec fn all_real_errors(log: Seq<ErrorView>) -> bool {
    forall|i: int| 0 <= i < log.len() ==> (#[trigger] log[i]).1 == ErrorType::E
}

proof fn lemma_err_keeps_real(st: DateState, info: &str, range: Range)
    requires
        all_real_errors(st.log),
    ensures
        all_real_errors(st.err(info, range).log),
{
    let l = st.err(info, range).log;
    assert forall|i: int| 0 <= i < l.len() implies (#[trigger] l[i]).1 == ErrorType::E by {
        if i < st.log.len() {
            assert(l[i] == st.log[i]);
        }
    }
}

proof fn lemma_any_slice_keeps_real(st: DateState, slices: Seq<Seq<char>>, slice_no: int, slice: Seq<char>, range: Range)
    requires
        all_real_errors(st.log),
    ensures
        all_real_errors(spec_parse_any_slice(st, slices, slice_no, slice, range).log),
{
    let infos: Seq<&str> = seq![
        "multiple values for day.", "multiple values for month.", "invalid numeric value.",
        "multiple values for year.", "values could be month or year.",
        "not clear which value is day or month.", "assuming ymd format, but day is already filled.",
        "assuming ymd but month is already filled.", "assuming ymd but day is already filled."
    ];
    lemma_err_keeps_real(st, "multiple values for day.", range);
    lemma_err_keeps_real(st, "multiple values for month.", range);
    lemma_err_keeps_real(st, "invalid numeric value.", range);
    let st2 = st.err("multiple values for month.", range);
    lemma_err_keeps_real(st2, "invalid numeric value.", range);
    let sts = seq![st, st2];
    assert forall|k: int| 0 <= k < 2 implies all_real_errors((#[trigger] sts[k]).log) by {}
    assert forall|k: int, j: int| 0 <= k < 2 && 0 <= j < 9 implies
        all_real_errors((#[trigger] sts[k]).err(#[trigger] infos[j], range).log) by {
        lemma_err_keeps_real(sts[k], infos[j], range);
    }
    assert forall|k: int, j: int| 0 <= k < 2 && 0 <= j < 9 implies
        all_real_errors((#[trigger] sts[k]).err("not clear which value is day or month.", range).err(#[trigger] infos[j], range).log) by {
        lemma_err_keeps_real(sts[k], "not clear which value is day or month.", range);
        lemma_err_keeps_real(sts[k].err("not clear which value is day or month.", range), infos[j], range);
    }
}

proof fn lemma_parse_from_three_exact(st: DateState, slices: Seq<Seq<char>>, i: int, format: DateFormat, range: Range)
    requires
        slices.len() == 3,
        st.log.len() == 0,
    ensures
        ({
            let r = spec_parse_from(st, slices, i, format, range);
            r.log.len() == 0 <==> spec_is_valid(r.month, r.day, r.year)
        }),
    decreases slices.len() - i,
{
    let fe = format_error(format, range);
    assert(seq![fe].len() == 1);
    if !(i >= slices.len() || i < 0) {
        let next = spec_parse_any_slice(st, slices, i, slices[i], range);
        lemma_any_slice_keeps_real(st, slices, i, slices[i], range);
        if !log_has_real_error(next.log) {
            if next.log.len() > 0 {
                assert(next.log[0].1 == ErrorType::E);
            }
            lemma_parse_from_three_exact(next, slices, i + 1, format, range);
        }
    }
}

/// A date text of three parts comes with diagnostics exactly when it is not read as a
/// complete date: a complete date has none.
pub proof fn lemma_three_part_date_errors_iff_incomplete(text: Seq<char>, format: DateFormat, range: Range)
    requires
        spec_date_slices(text).len() == 3,
    ensures
        ({
            let r = spec_parse_date_string(text, format, range);
            r.log.len() == 0 <==> spec_is_valid(r.month, r.day, r.year)
        }),
{
    lemma_parse_from_three_exact(initial_state(), spec_date_slices(text), 0, format, range);
}

/// A date holds what a parser state says: the same day, month, year and diagnostics.
pub open spec fn same_date(t: Timepoint, st: DateState) -> bool {
    &&& t.month == st.month
    &&& t.day == st.day
    &&& t.year == st.year
    &&& error_log(t.errors@) == st.log
}

/// Reads a date from formatted text such as `01/jan/2022` or `2022-11-22`: the parts are
/// placed by what they can be; where that is ambiguous, they are read in `date_format`.
pub fn parse_date_string(text: &str, range: &Range, date_format: DateFormat) -> (t: Timepoint)
    ensures
        same_date(t, spec_parse_date_string(text@, date_format, *range)),
{
    let slices = split_date_slices(text);
    let mut parser = FormattedDateParser::new(&slices, range);
    parser.parser_state.date_format = date_format;
    parser.parse()
}

struct DateParserState<'s> {
    date: Timepoint,
    range: Range,
    ymd_format: bool,
    date_format: DateFormat,
    slices: &'s Vec<&'s str>,
}

/// A parser of the parts of a formatted date.
pub struct FormattedDateParser<'s> {
    slices: &'s Vec<&'s str>,
    parser_state: DateParserState<'s>,
}

proof fn lemma_real_errors(errors: Seq<errors::Error>)
    ensures
        errors::spec_has_real_errors(errors) == log_has_real_error(error_log(errors)),
{
    if errors::spec_has_real_errors(errors) {
        let i = choose|i: int| 0 <= i < errors.len() && #[trigger] errors[i].error_type == ErrorType::E;
        assert(error_log(errors)[i].1 == ErrorType::E);
    }
    if log_has_real_error(error_log(errors)) {
        let i = choose|i: int| 0 <= i < error_log(errors).len() && (#[trigger] error_log(errors)[i]).1 == ErrorType::E;
        assert(errors[i].error_type == ErrorType::E);
    }
}

impl<'s> DateParserState<'s> {
    spec fn state(&self) -> DateState {
        DateState {
            month: self.date.month,
            day: self.date.day,
            year: self.date.year,
            log: error_log(self.date.errors@),
            ymd: self.ymd_format,
        }
    }

    spec fn parts(&self) -> Seq<Seq<char>> {
        views_of(self.slices@)
    }

    fn push_error(&mut self, info: &str)
        ensures
            final(self).state() == old(self).state().err(info, old(self).range),
            final(self).range == old(self).range,
            final(self).slices == old(self).slices,
            final(self).date_format == old(self).date_format,
    {
        let ghost before = self.date.errors@;
        let e = errors::inv_date_str(info, self.range);
        self.date.errors.push(e);
        assert(error_log(self.date.errors@) =~= error_log(before).push(date_error(info, self.range)));
    }

    fn number_of(&self, i: usize) -> (r: Option<i32>)
        requires
            i < self.slices@.len(),
        ensures
            r == slice_number(self.parts()[i as int]),
    {
        let chars = chars_of(self.slices[i]);
        parse_i32(&chars)
    }

    fn has_year_slice(&self) -> (r: bool)
        ensures
            r == spec_has_year_slice(self.parts()),
    {
        let mut i: usize = 0;
        while i < self.slices.len()
            invariant
                0 <= i <= self.slices@.len(),
                forall|j: int| 0 <= j < i ==> !(number_or(#[trigger] self.parts()[j], 0) > 31),
            decreases self.slices@.len() - i,
        {
            let n = match self.number_of(i) {
                Some(n) => n,
                None => 0,
            };
            if n > 31 {
                assert(number_or(self.parts()[i as int], 0) > 31);
                return true;
            }
            i = i + 1;
        }
        false
    }

    fn has_day_slice(&self) -> (r: bool)
        ensures
            r == spec_has_day_slice(self.parts()),
    {
        let mut i: usize = 0;
        while i < self.slices.len()
            invariant
                0 <= i <= self.slices@.len(),
                forall|j: int| 0 <= j < i ==> !is_day_slice(#[trigger] self.parts()[j]),
            decreases self.slices@.len() - i,
        {
            assert(self.parts()[i as int] == self.slices@[i as int]@);
            if str_eq(self.slices[i], "last") {
                assert(is_day_slice(self.parts()[i as int]));
                return true;
            }
            let n = match self.number_of(i) {
                Some(n) => n,
                None => 0,
            };
            if n > 12 && n <= 31 {
                assert(is_day_slice(self.parts()[i as int]));
                return true;
            }
            i = i + 1;
        }
        false
    }

    fn has_month_slice(&self) -> (r: bool)
        ensures
            r == spec_has_month_slice(self.parts()),
    {
        let mut i: usize = 0;
        while i < self.slices.len()
            invariant
                0 <= i <= self.slices@.len(),
                forall|j: int| 0 <= j < i ==> slice_month(#[trigger] self.parts()[j]) == Month::NONE,
            decreases self.slices@.len() - i,
        {
            assert(self.parts()[i as int] == self.slices@[i as int]@);
            let lower = to_lowercase(self.slices[i]);
            if month_from_str(lower.as_str()) != Month::NONE {
                assert(slice_month(self.parts()[i as int]) != Month::NONE);
                return true;
            }
            i = i + 1;
        }
        false
    }

    fn count_date_slices(&self) -> (r: usize)
        ensures
            r == self.parts().len(),
    {
        self.slices.len()
    }

    fn count_same_date_values(&self, n: i32) -> (r: usize)
        requires
            0 <= n <= 12,
        ensures
            r == spec_count_same(self.parts(), n as int),
    {
        let mut count: usize = 0;
        let mut i: usize = 0;
        while i < self.slices.len()
            invariant
                0 <= i <= self.slices@.len(),
                count == count_same_upto(self.parts(), n as int, i as int),
                count <= i,
                0 <= n <= 12,
            decreases self.slices@.len() - i,
        {
            let v = match self.number_of(i) {
                Some(v) => v,
                None => -n,
            };
            if v == n {
                count = count + 1;
            }
            i = i + 1;
        }
        count
    }

    fn parse_ymd_slice_number(&mut self, slice_no: usize, n: i32)
        requires
            0 <= n <= 12,
        ensures
            final(self).state() == spec_parse_ymd_slice_number(old(self).state(), slice_no as int, n as int, old(self).range),
            final(self).range == old(self).range,
            final(self).slices == old(self).slices,
            final(self).date_format == old(self).date_format,
    {
        match slice_no {
            0 => {
                if self.date.year.is_none() {
                    self.date.year = Some(n);
                } else {
                    self.push_error("assuming ymd format, but day is already filled.");
                }
            },
            1 => {
                if self.date.month == Month::NONE {
                    self.date.month = month_from_int(n);
                } else {
                    self.push_error("assuming ymd but month is already filled.");
                }
            },
            2 => {
                if self.date.day.is_none() {
                    self.date.day = Day::Value(n as i8);
                } else {
                    self.push_error("assuming ymd but day is already filled.");
                }
            },
            _ => {},
        }
    }

    fn parse_small_number_of_three(&mut self, slice_no: usize, n: i32)
        requires
            0 <= n <= 12,
            old(self).parts().len() == 3,
        ensures
            final(self).state() == spec_small_number_of_three(old(self).state(), old(self).parts(), slice_no as int, n as int, old(self).range),
            final(self).range == old(self).range,
            final(self).slices == old(self).slices,
            final(self).date_format == old(self).date_format,
    {
        if self.count_same_date_values(n) == 3 {
            self.date.day = Day::Value(n as i8);
            self.date.month = month_from_int(n);
            self.date.year = Some(n);
            return;
        }
        if self.has_year_slice() {
            if self.has_month_slice() {
                if self.date.day.is_none() {
                    self.date.day = Day::Value(n as i8);
                } else {
                    self.push_error("not clear which value is day or month.");
                }
                return;
            }
            if self.has_day_slice() {
                if self.date.month == Month::NONE {
                    self.date.month = month_from_int(n);
                } else {
                    self.push_error("not clear which value is day or month.");
                }
                return;
            }
            if self.count_same_date_values(n) >= 2 {
                self.date.day = Day::Value(n as i8);
                self.date.month = month_from_int(n);
                return;
            }
            self.push_error("not clear which value is day or month.");
        }
        if self.ymd_format {
            self.parse_ymd_slice_number(slice_no, n);
        }
    }

    fn parse_number_slice(&mut self, slice_no: usize, n: i32)
        requires
            n >= 0,
        ensures
            final(self).state() == spec_number_slice(old(self).state(), old(self).parts(), slice_no as int, n as int, old(self).range),
            final(self).range == old(self).range,
            final(self).slices == old(self).slices,
            final(self).date_format == old(self).date_format,
    {
        if n > 31 {
            if self.date.year.is_some() {
                self.push_error("multiple values for year.");
                return;
            } else {
                self.date.year = Some(n);
                if slice_no == 0 {
                    self.ymd_format = true;
                }
            }
        } else {
            if n > 12 {
                if self.count_date_slices() >= 3 && !self.has_year_slice() {
                    self.push_error("values could be month or year.");
                    return;
                }
                if !self.date.day.is_none() {
                    self.push_error("multiple values for day.");
                    return;
                }
                self.date.day = Day::Value(n as i8);
            } else {
                if self.count_date_slices() == 3 {
                    self.parse_small_number_of_three(slice_no, n);
                } else {
                    if self.count_date_slices() == 2 {
                        if self.has_day_slice() {
                            self.date.month = month_from_int(n);
                            return;
                        }
                        if self.has_month_slice() {
                            self.date.day = Day::Value(n as i8);
                            return;
                        }
                        self.push_error("not clear which value is day or month.");
                    }
                }
            }
        }
    }

    fn parse_any_slice(&mut self, slice_no: usize, slice: &str)
        ensures
            final(self).state() == spec_parse_any_slice(old(self).state(), old(self).parts(), slice_no as int, slice@, old(self).range),
            final(self).range == old(self).range,
            final(self).slices == old(self).slices,
            final(self).date_format == old(self).date_format,
    {
        if str_eq(slice, "last") {
            if !self.date.day.is_none() {
                self.push_error("multiple values for day.");
            } else {
                self.date.day = Day::Last;
            }
            return;
        }
        let low_slice = to_lowercase(slice);
        let month = month_from_str(low_slice.as_str());
        if month != Month::NONE {
            if self.date.month == Month::NONE {
                self.date.month = month;
                return;
            } else {
                self.push_error("multiple values for month.");
            }
        }
        let chars = chars_of(slice);
        let n = match parse_i32(&chars) {
            Some(n) => n,
            None => {
                self.push_error("invalid numeric value.");
                return;
            },
        };
        if n < 0 {
            self.push_error("invalid numeric value.");
            return;
        }
        self.parse_number_slice(slice_no, n);
    }

    fn parse_day(&self, date: &mut Timepoint, slice: &str)
        ensures
            final(date).day == spec_day_slice(slice@),
            final(date).month == old(date).month,
            final(date).year == old(date).year,
            final(date).errors@ == old(date).errors@,
    {
        if str_eq(slice, "last") {
            date.day = Day::Last;
            return;
        }
        let chars = chars_of(slice);
        date.day = match parse_i8(&chars) {
            Some(d) => Day::Value(d),
            None => Day::NONE,
        };
    }

    fn parse_year(&self, date: &mut Timepoint, slice: &str)
        ensures
            final(date).year == slice_number(slice@),
            final(date).month == old(date).month,
            final(date).day == old(date).day,
            final(date).errors@ == old(date).errors@,
    {
        let chars = chars_of(slice);
        date.year = parse_i32(&chars);
    }

    fn parse_month(&self, date: &mut Timepoint, slice: &str)
        ensures
            final(date).month == spec_month_slice(slice@),
            final(date).year == old(date).year,
            final(date).day == old(date).day,
            final(date).errors@ == old(date).errors@,
    {
        let lower = to_lowercase(slice);
        let month = month_from_str(lower.as_str());
        if month != Month::NONE {
            date.month = month;
            return;
        }
        let chars = chars_of(slice);
        let n = match parse_i32(&chars) {
            Some(n) => n,
            None => {
                date.month = Month::NONE;
                return;
            },
        };
        date.month = month_from_int(n);
    }

    fn parse_for_format(&mut self)
        ensures
            final(self).state() == spec_parse_for_format(old(self).state(), old(self).parts(), old(self).date_format, old(self).range),
            final(self).range == old(self).range,
            final(self).slices == old(self).slices,
            final(self).date_format == old(self).date_format,
    {
        if self.slices.len() != 3 {
            return;
        }
        let idx = self.date_format.indices();
        let mut tmp_date = Timepoint::new();
        self.parse_year(&mut tmp_date, self.slices[idx.year]);
        self.parse_month(&mut tmp_date, self.slices[idx.month]);
        self.parse_day(&mut tmp_date, self.slices[idx.day]);
        assert(self.parts()[idx.year as int] == self.slices@[idx.year as int]@);
        assert(self.parts()[idx.month as int] == self.slices@[idx.month as int]@);
        assert(self.parts()[idx.day as int] == self.slices@[idx.day as int]@);
        if !tmp_date.is_valid() {
            let e = errors::inv_date_str_for_format(self.date_format.name(), self.range);
            tmp_date.errors.push(e);
            assert(error_log(tmp_date.errors@) =~= seq![format_error(self.date_format, self.range)]);
        } else {
            assert(error_log(tmp_date.errors@) =~= Seq::<ErrorView>::empty());
        }
        self.date = tmp_date;
    }
}

impl<'s> FormattedDateParser<'s> {
    /// A parser of `slices`, reporting diagnostics at `range`; ambiguous dates are read
    /// day first.
    pub fn new(slices: &'s Vec<&'s str>, range: &Range) -> (p: Self)
        ensures
            p.parts() == views_of(slices@),
            p.state() == initial_state(),
            p.format() == DateFormat::DMY,
            p.range() == *range,
            p.wf(),
    {
        let p = FormattedDateParser {
            slices,
            parser_state: DateParserState {
                date: Timepoint::new(),
                range: *range,
                ymd_format: false,
                slices,
                date_format: DateFormat::DMY,
            },
        };
        assert(error_log(p.parser_state.date.errors@) =~= Seq::<ErrorView>::empty());
        p
    }

    /// The parts this parser reads.
    pub closed spec fn parts(&self) -> Seq<Seq<char>> {
        views_of(self.slices@)
    }

    /// What the parser has read so far.
    pub closed spec fn state(&self) -> DateState {
        self.parser_state.state()
    }

    /// The format in which ambiguous dates are read.
    pub closed spec fn format(&self) -> DateFormat {
        self.parser_state.date_format
    }

    /// The range at which diagnostics are reported.
    pub closed spec fn range(&self) -> Range {
        self.parser_state.range
    }

    /// The parser reads the parts it was made with.
    pub closed spec fn wf(&self) -> bool {
        self.parser_state.slices == self.slices
    }

    /// Reads the parts (see `spec_parse_from`) and returns the date found.
    pub fn parse(&mut self) -> (t: Timepoint)
        requires
            old(self).wf(),
        ensures
            same_date(t, spec_parse_from(old(self).state(), old(self).parts(), 0, old(self).format(), old(self).range())),
    {
        let ghost target = spec_parse_from(self.state(), self.parts(), 0, self.format(), self.range());
        let mut i: usize = 0;
        while i < self.slices.len()
            invariant
                self.wf(),
                0 <= i <= self.slices@.len(),
                self.parts() == old(self).parts(),
                self.format() == old(self).format(),
                self.range() == old(self).range(),
                spec_parse_from(self.state(), self.parts(), i as int, self.format(), self.range()) == target,
                target == spec_parse_from(old(self).state(), old(self).parts(), 0, old(self).format(), old(self).range()),
            decreases self.slices@.len() - i,
        {
            let slice = self.slices[i];
            assert(self.parts()[i as int] == slice@);
            let ghost prev = self.state();
            self.parser_state.parse_any_slice(i, slice);
            assert(self.state() == spec_parse_any_slice(prev, self.parts(), i as int, self.parts()[i as int], self.range()));
            proof {
                lemma_real_errors(self.parser_state.date.errors@);
            }
            if has_real_errors(self.parser_state.date.errors.as_slice()) {
                assert(log_has_real_error(self.state().log));
                assert(target == spec_parse_for_format(self.state(), self.parts(), self.format(), self.range()));
                self.parser_state.parse_for_format();
                return self.parser_state.date.duplicate();
            }
            i = i + 1;
        }
        if !self.parser_state.date.is_valid() {
            self.parser_state.parse_for_format();
        }
        self.parser_state.date.duplicate()
    }
}


/// Reading three parts strictly in a format takes each of day, month and year from the
/// part where the format writes it: day, month, year for `dmy`; month, day, year for
/// `mdy`; year, month, day for `ymd`.
pub proof fn lemma_format_positions(st: DateState, slices: Seq<Seq<char>>, range: Range)
    requires
        slices.len() == 3,
    ensures
        ({
            let r = spec_parse_for_format(st, slices, DateFormat::DMY, range);
            r.day == spec_day_slice(slices[0]) && r.month == spec_month_slice(slices[1]) && r.year == slice_number(slices[2])
        }),
        ({
            let r = spec_parse_for_format(st, slices, DateFormat::MDY, range);
            r.month == spec_month_slice(slices[0]) && r.day == spec_day_slice(slices[1]) && r.year == slice_number(slices[2])
        }),
        ({
            let r = spec_parse_for_format(st, slices, DateFormat::YMD, range);
            r.year == slice_number(slices[0]) && r.month == spec_month_slice(slices[1]) && r.day == spec_day_slice(slices[2])
        }),
{
}

} // verus!
