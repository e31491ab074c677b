use vstd::prelude::*;
use crate::errors;
use crate::errors::{Error, ErrorId, spec_message};
use crate::resolver::scope::DecimalChar;
use crate::tokenizer::cursor::Range;

verus! {

/// The indices of `c` among the first `k` characters of `s`, in order.
pub open spec fn positions(s: Seq<char>, c: char, k: int) -> Seq<int>
    decreases k,
{
    if k <= 0 {
        Seq::empty()
    } else if s[k - 1] == c {
        positions(s, c, k - 1).push(k - 1)
    } else {
        positions(s, c, k - 1)
    }
}

/// The indices of the dots of `s`.
pub open spec fn dots_of(s: Seq<char>) -> Seq<int> {
    positions(s, '.', s.len() as int)
}

/// The indices of the commas of `s`.
pub open spec fn commas_of(s: Seq<char>) -> Seq<int> {
    positions(s, ',', s.len() as int)
}

/// The decimal character of a formatted number, as its dots and commas show it: with
/// neither, the dot; with one of them alone, ambiguous; with dots and commas interleaved,
/// mixed; else the one that comes last. `Err` holds the message.
pub open spec fn spec_find_decimal_char(s: Seq<char>) -> Result<DecimalChar, Seq<char>> {
    let d = dots_of(s);
    let c = commas_of(s);
    if d.len() + c.len() == 0 {
        Ok(DecimalChar::Dot)
    } else if d.len() + c.len() < 2 {
        Err("ambiguous decimal point or thousands separator"@)
    } else if d.last() > c.first() && c.last() > d.first() {
        Err("mixed dots and commas"@)
    } else if d.first() > c.first() {
        Ok(DecimalChar::Dot)
    } else {
        Ok(DecimalChar::Comma)
    }
}

/// Where there are several separators, there are both dots and commas (with only one
/// kind of them, the separators cannot be told apart and the reader fails).
pub open spec fn separators_decidable(s: Seq<char>) -> bool {
    dots_of(s).len() + commas_of(s).len() >= 2 ==> dots_of(s).len() >= 1 && commas_of(s).len() >= 1
}

/// An error about the number string at `range`, with `message`.
pub open spec fn is_number_error(e: Error, range: Range, message: Seq<char>) -> bool {
    &&& e.id == ErrorId::InvNumberStr
    &&& e.range == range
    &&& e.message@ == spec_message(ErrorId::InvNumberStr, seq![message])
}

/// The indices of `c` in `s`, in order.
fn find_positions(s: &str, c: char) -> (v: Vec<usize>)
    ensures
        v@.map_values(|x: usize| x as int) == positions(s@, c, s@.len() as int),
{
    let n = s.unicode_len();
    let mut v: Vec<usize> = Vec::new();
    let mut i: usize = 0;
    while i < n
        invariant
            n == s@.len(),
            0 <= i <= n,
            v@.map_values(|x: usize| x as int) == positions(s@, c, i as int),
        decreases n - i,
    {
        if s.get_char(i) == c {
            let ghost before = v@;
            v.push(i);
            assert(v@.map_values(|x: usize| x as int) =~= before.map_values(|x: usize| x as int).push(i as int));
        }
        i = i + 1;
    }
    v
}

/// Whether the separators of `stream` can be told apart (see `separators_decidable`).
pub fn separators_can_be_told_apart(stream: &str) -> (r: bool)
    ensures
        r == separators_decidable(stream@),
{
    let dots = find_positions(stream, '.');
    let commas = find_positions(stream, ',');
    assert(dots@.len() == dots_of(stream@).len());
    assert(commas@.len() == commas_of(stream@).len());
    if dots.len() >= 2 || commas.len() >= 2 || (dots.len() >= 1 && commas.len() >= 1) {
        dots.len() >= 1 && commas.len() >= 1
    } else {
        true
    }
}

/// The decimal character of the formatted number `stream` (see `spec_find_decimal_char`).
pub fn find_decimal_char(stream: &str, range: &Range) -> (r: Result<DecimalChar, Error>)
    requires
        separators_decidable(stream@),
    ensures
        match r {
            Ok(d) => spec_find_decimal_char(stream@) == Ok::<DecimalChar, Seq<char>>(d),
            Err(e) => spec_find_decimal_char(stream@) matches Err(m) && is_number_error(e, *range, m),
        },
{
    let dots = find_positions(stream, '.');
    let commas = find_positions(stream, ',');
    let ghost dv = dots@.map_values(|x: usize| x as int);
    let ghost cv = commas@.map_values(|x: usize| x as int);
    if dots.len() == 0 && commas.len() == 0 {
        return Ok(DecimalChar::Dot);
    }
    if (dots.len() == 0 && commas.len() == 1) || (dots.len() == 1 && commas.len() == 0) {
        return Err(errors::inv_number_str("ambiguous decimal point or thousands separator", *range));
    }
    assert(dv.len() == dots@.len() && cv.len() == commas@.len());
    let d_first = dots[0];
    let d_last = dots[dots.len() - 1];
    let c_first = commas[0];
    let c_last = commas[commas.len() - 1];
    assert(dv.first() == d_first && dv.last() == d_last && cv.first() == c_first && cv.last() == c_last);
    if d_last > c_first && c_last > d_first {
        return Err(errors::inv_number_str("mixed dots and commas", *range));
    }
    if d_first > c_first {
        Ok(DecimalChar::Dot)
    } else {
        Ok(DecimalChar::Comma)
    }
}

/// The digits of a formatted number before and after its decimal character.
pub struct FormattedDigits {
    pub int_digits: Vec<u8>,
    pub frac_digits: Vec<u8>,
}

/// Reads a formatted number from index `i` on, the decimal character `dec` and the
/// thousands separator `thou` given, with the digits read so far: digits are kept, the
/// separator is skipped before the decimal character and refused after it, a second
/// decimal character and any other character are refused. `Err` holds the message.
pub open spec fn spec_scan(s: Seq<char>, i: int, dec: char, thou: char, in_frac: bool, ints: Seq<u8>, fracs: Seq<u8>)
    -> Result<(Seq<u8>, Seq<u8>), Seq<char>>
    decreases s.len() - i,
{
    if i < 0 || i >= s.len() {
        Ok((ints, fracs))
    } else if '0' <= s[i] <= '9' {
        let d = (s[i] as int - '0' as int) as u8;
        if in_frac {
            spec_scan(s, i + 1, dec, thou, in_frac, ints, fracs.push(d))
        } else {
            spec_scan(s, i + 1, dec, thou, in_frac, ints.push(d), fracs)
        }
    } else if s[i] == thou {
        if in_frac {
            Err("thousands divider char not allowed after decimal point"@)
        } else {
            spec_scan(s, i + 1, dec, thou, in_frac, ints, fracs)
        }
    } else if s[i] == dec {
        if in_frac {
            Err("decimal point encountered more than once"@)
        } else {
            spec_scan(s, i + 1, dec, thou, true, ints, fracs)
        }
    } else {
        Err("unexpected character"@)
    }
}

/// The digits of the formatted number `s` with decimal character `dc` (the dot or the
/// comma, the other being the thousands separator); where `dc` is `Auto`, the one that
/// `spec_find_decimal_char` finds, or its error.
pub open spec fn spec_scan_formatted(s: Seq<char>, dc: DecimalChar) -> Result<(Seq<u8>, Seq<u8>), Seq<char>> {
    match dc {
        DecimalChar::Comma => spec_scan(s, 0, ',', '.', false, Seq::empty(), Seq::empty()),
        DecimalChar::Dot => spec_scan(s, 0, '.', ',', false, Seq::empty(), Seq::empty()),
        DecimalChar::Auto => match spec_find_decimal_char(s) {
            Ok(DecimalChar::Comma) => spec_scan(s, 0, ',', '.', false, Seq::empty(), Seq::empty()),
            Ok(_) => spec_scan(s, 0, '.', ',', false, Seq::empty(), Seq::empty()),
            Err(m) => Err(m),
        },
    }
}

/// Reads the formatted number `stream` into its digits before and after the decimal
/// character (see `spec_scan_formatted`); the value is made from them by the caller.
pub fn scan_formatted_number(stream: &str, range: &Range, decimal_char: DecimalChar) -> (r: Result<FormattedDigits, Error>)
    requires
        decimal_char == DecimalChar::Auto ==> separators_decidable(stream@),
    ensures
        match r {
            Ok(fd) => spec_scan_formatted(stream@, decimal_char) == Ok::<(Seq<u8>, Seq<u8>), Seq<char>>((fd.int_digits@, fd.frac_digits@)),
            Err(e) => spec_scan_formatted(stream@, decimal_char) matches Err(m) && is_number_error(e, *range, m),
        },
    decreases (if decimal_char == DecimalChar::Auto { 1int } else { 0int }),
{
    let (dec, thou) = match decimal_char {
        DecimalChar::Comma => (',', '.'),
        DecimalChar::Dot => ('.', ','),
        DecimalChar::Auto => {
            let found = match find_decimal_char(stream, range) {
                Ok(d) => d,
                Err(e) => return Err(e),
            };
            return scan_formatted_number(stream, range, found);
        },
    };
    let ghost s = stream@;
    let n = stream.unicode_len();
    let mut in_frac = false;
    let mut int_digits: Vec<u8> = Vec::new();
    let mut frac_digits: Vec<u8> = Vec::new();
    let mut i: usize = 0;
    while i < n
        invariant
            n == s.len(),
            s == stream@,
            0 <= i <= n,
            spec_scan(s, 0, dec, thou, false, Seq::empty(), Seq::empty())
                == spec_scan(s, i as int, dec, thou, in_frac, int_digits@, frac_digits@),
            (dec, thou) == (if decimal_char == DecimalChar::Comma { (',', '.') } else { ('.', ',') }),
            decimal_char != DecimalChar::Auto,
        decreases n - i,
    {
        let c = stream.get_char(i);
        if '0' <= c && c <= '9' {
            let d = (c as u32 - '0' as u32) as u8;
            if in_frac {
                frac_digits.push(d);
            } else {
                int_digits.push(d);
            }
        } else if c == thou {
            if in_frac {
                assert(spec_scan(s, i as int, dec, thou, in_frac, int_digits@, frac_digits@)
                    == Err::<(Seq<u8>, Seq<u8>), Seq<char>>("thousands divider char not allowed after decimal point"@));
                return Err(errors::inv_number_str("thousands divider char not allowed after decimal point", *range));
            }
        } else if c == dec {
            if in_frac {
                return Err(errors::inv_number_str("decimal point encountered more than once", *range));
            }
            in_frac = true;
        } else {
            assert(spec_scan(s, i as int, dec, thou, in_frac, int_digits@, frac_digits@)
                == Err::<(Seq<u8>, Seq<u8>), Seq<char>>("unexpected character"@));
            return Err(errors::inv_number_str("unexpected character", *range));
        }
        i = i + 1;
    }
    Ok(FormattedDigits { int_digits, frac_digits })
}

} // verus!
