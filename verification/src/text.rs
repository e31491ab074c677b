use vstd::prelude::*;
use vstd::string::*;

verus! {

/// An ASCII decimal digit.
pub open spec fn is_digit(c: char) -> bool {
    '0' <= c <= '9'
}

/// The value of an ASCII decimal digit.
pub open spec fn digit_value(c: char) -> int {
    c as int - '0' as int
}

/// Every character is an ASCII decimal digit.
pub open spec fn all_digits(s: Seq<char>) -> bool {
    forall|i: int| 0 <= i < s.len() ==> is_digit(#[trigger] s[i])
}

/// The decimal value of a run of digits, most significant first.
pub open spec fn digits_value(s: Seq<char>) -> int
    decreases s.len(),
{
    if s.len() == 0 {
        0
    } else {
        10 * digits_value(s.drop_last()) + digit_value(s.last())
    }
}

/// The integer that Rust's `str::parse` reads from `s`: an optional `+` or `-`
/// followed by one or more decimal digits and nothing else.
pub open spec fn spec_parse_int(s: Seq<char>) -> Option<int> {
    if s.len() > 0 && (s[0] == '+' || s[0] == '-') {
        let rest = s.drop_first();
        if rest.len() > 0 && all_digits(rest) {
            if s[0] == '-' {
                Some(-digits_value(rest))
            } else {
                Some(digits_value(rest))
            }
        } else {
            None
        }
    } else if s.len() > 0 && all_digits(s) {
        Some(digits_value(s))
    } else {
        None
    }
}

/// What `str::parse::<i32>` gives: the integer when it fits in an `i32`.
pub open spec fn spec_parse_i32(s: Seq<char>) -> Option<i32> {
    match spec_parse_int(s) {
        Some(v) => if i32::MIN <= v <= i32::MAX {
            Some(v as i32)
        } else {
            None
        },
        None => None,
    }
}

/// What `str::parse::<i8>` gives: the integer when it fits in an `i8`.
pub open spec fn spec_parse_i8(s: Seq<char>) -> Option<i8> {
    match spec_parse_int(s) {
        Some(v) => if i8::MIN <= v <= i8::MAX {
            Some(v as i8)
        } else {
            None
        },
        None => None,
    }
}

/// The characters of a string slice, one by one.
pub fn chars_of(s: &str) -> (v: Vec<char>)
    ensures
        v@ == s@,
{
    let n = s.unicode_len();
    let mut v: Vec<char> = Vec::new();
    let mut i: usize = 0;
    while i < n
        invariant
            n == s@.len(),
            0 <= i <= n,
            v@ == s@.take(i as int),
        decreases n - i,
    {
        v.push(s.get_char(i));
        i = i + 1;
        assert(v@ =~= s@.take(i as int));
    }
    assert(v@ =~= s@);
    v
}

/// Whether two string slices hold the same characters.
pub fn str_eq(a: &str, b: &str) -> (r: bool)
    ensures
        r == (a@ == b@),
{
    let n = a.unicode_len();
    if n != b.unicode_len() {
        return false;
    }
    let mut i: usize = 0;
    while i < n
        invariant
            n == a@.len(),
            n == b@.len(),
            0 <= i <= n,
            a@.take(i as int) == b@.take(i as int),
        decreases n - i,
    {
        if a.get_char(i) != b.get_char(i) {
            assert(a@[i as int] != b@[i as int]);
            return false;
        }
        assert(a@.take(i + 1) =~= a@.take(i as int).push(a@[i as int]));
        assert(b@.take(i + 1) =~= b@.take(i as int).push(b@[i as int]));
        i = i + 1;
    }
    assert(a@ =~= a@.take(n as int));
    assert(b@ =~= b@.take(n as int));
    true
}

proof fn lemma_digits_value_nonneg(s: Seq<char>)
    requires
        all_digits(s),
    ensures
        digits_value(s) >= 0,
    decreases s.len(),
{
    if s.len() > 0 {
        lemma_digits_value_nonneg(s.drop_last());
    }
}

/// Scans the digits of `s` from index `start`: the value when every character
/// there is a digit (capped above `2^31`), and whether they all were.
fn scan_digits(s: &Vec<char>, start: usize) -> (r: (bool, u64))
    requires
        start <= s@.len(),
    ensures
        r.0 == all_digits(s@.skip(start as int)),
        r.0 ==> (digits_value(s@.skip(start as int)) <= 0x8000_0000 ==> r.1 == digits_value(s@.skip(start as int))),
        r.0 ==> (digits_value(s@.skip(start as int)) > 0x8000_0000 ==> r.1 > 0x8000_0000),
{
    let mut acc: u64 = 0;
    let mut i: usize = start;
    while i < s.len()
        invariant
            start <= i <= s@.len(),
            all_digits(s@.subrange(start as int, i as int)),
            digits_value(s@.subrange(start as int, i as int)) <= 0x8000_0000 ==> acc == digits_value(s@.subrange(start as int, i as int)),
            digits_value(s@.subrange(start as int, i as int)) > 0x8000_0000 ==> acc > 0x8000_0000,
            acc <= 10 * 0x8000_0000 + 9,
        decreases s@.len() - i,
    {
        let c = s[i];
        if !('0' <= c && c <= '9') {
            assert(s@.skip(start as int)[i - start] == c);
            return (false, 0);
        }
        let ghost prev = s@.subrange(start as int, i as int);
        let ghost next = s@.subrange(start as int, i + 1);
        assert(next.drop_last() =~= prev);
        assert(next.last() == c);
        proof {
            lemma_digits_value_nonneg(prev);
        }
        if acc <= 0x8000_0000 {
            acc = acc * 10 + (c as u64 - '0' as u64);
        }
        i = i + 1;
    }
    assert(s@.subrange(start as int, s@.len() as int) =~= s@.skip(start as int));
    (true, acc)
}

/// Reads a signed integer as Rust's `str::parse` does, into an `int` capped in magnitude
/// above `2^31`: `None` where the text is no integer.
fn parse_capped(s: &Vec<char>) -> (r: Option<(bool, u64)>)
    ensures
        r is None <==> spec_parse_int(s@) is None,
        r matches Some((neg, mag)) ==> {
            let v = spec_parse_int(s@)->0;
            &&& (neg ==> v <= 0) && (!neg ==> v >= 0)
            &&& (if neg { -v } else { v }) <= 0x8000_0000 ==> mag == (if neg { -v } else { v })
            &&& (if neg { -v } else { v }) > 0x8000_0000 ==> mag > 0x8000_0000
        },
{
    if s.len() == 0 {
        return None;
    }
    let first = s[0];
    if first == '+' || first == '-' {
        if s.len() == 1 {
            return None;
        }
        let (ok, mag) = scan_digits(s, 1);
        assert(s@.skip(1) =~= s@.drop_first());
        if !ok {
            return None;
        }
        proof {
            lemma_digits_value_nonneg(s@.drop_first());
        }
        Some((first == '-', mag))
    } else {
        let (ok, mag) = scan_digits(s, 0);
        assert(s@.skip(0) =~= s@);
        if !ok {
            return None;
        }
        proof {
            lemma_digits_value_nonneg(s@);
        }
        Some((false, mag))
    }
}

/// Reads an `i32` as `str::parse::<i32>` does.
pub fn parse_i32(s: &Vec<char>) -> (r: Option<i32>)
    ensures
        r == spec_parse_i32(s@),
{
    match parse_capped(s) {
        None => None,
        Some((neg, mag)) => {
            if neg {
                if mag <= 0x8000_0000 {
                    Some((0 - (mag as i64)) as i32)
                } else {
                    None
                }
            } else {
                if mag <= 0x7fff_ffff {
                    Some(mag as i32)
                } else {
                    None
                }
            }
        },
    }
}

/// Reads an `i8` as `str::parse::<i8>` does.
pub fn parse_i8(s: &Vec<char>) -> (r: Option<i8>)
    ensures
        r == spec_parse_i8(s@),
{
    match parse_capped(s) {
        None => None,
        Some((neg, mag)) => {
            if neg {
                if mag <= 128 {
                    Some((0 - (mag as i64)) as i8)
                } else {
                    None
                }
            } else {
                if mag <= 127 {
                    Some(mag as i8)
                } else {
                    None
                }
            }
        },
    }
}

/// Every character is ASCII.
pub open spec fn is_ascii_text(s: Seq<char>) -> bool {
    forall|i: int| 0 <= i < s.len() ==> (#[trigger] s[i]) as int <= 0x7f
}

/// The ASCII lower case of a character: `A`..`Z` become `a`..`z`, all else is kept.
pub open spec fn ascii_lower_char(c: char) -> char {
    if 'A' <= c <= 'Z' {
        ((c as int) + 32) as char
    } else {
        c
    }
}

/// The ASCII lower case of a text.
pub open spec fn ascii_lower(s: Seq<char>) -> Seq<char> {
    s.map_values(|c: char| ascii_lower_char(c))
}

/// The Unicode lower case mapping of `str::to_lowercase`.
pub uninterp spec fn std_lowercase(s: Seq<char>) -> Seq<char>;

/// Calls `str::to_lowercase`. Claimed: the result is the Unicode lower case of the
/// argument (named `std_lowercase`), and for text that is all ASCII it maps `A`..`Z`
/// to `a`..`z` and keeps every other character, as the std documentation describes.
#[verifier::external_body]
pub fn to_lowercase(s: &str) -> (r: String)
    ensures
        r@ == std_lowercase(s@),
        is_ascii_text(s@) ==> r@ == ascii_lower(s@),
{
    s.to_lowercase()
}

/// A character that separates the parts of a formatted date: space, `/`, `,` or `-`.
pub open spec fn is_date_separator(c: char) -> bool {
    c == ' ' || c == '/' || c == ',' || c == '-'
}

/// The parts found so far in a text cut at date separators, and the part still open.
pub open spec fn split_state(s: Seq<char>) -> (Seq<Seq<char>>, Seq<char>)
    decreases s.len(),
{
    if s.len() == 0 {
        (Seq::empty(), Seq::empty())
    } else {
        let (done, cur) = split_state(s.drop_last());
        let c = s.last();
        if is_date_separator(c) {
            if cur.len() > 0 {
                (done.push(cur), Seq::empty())
            } else {
                (done, Seq::empty())
            }
        } else {
            (done, cur.push(c))
        }
    }
}

/// The non-empty parts of a text between date separators, in order.
pub open spec fn spec_date_slices(s: Seq<char>) -> Seq<Seq<char>> {
    let (done, cur) = split_state(s);
    if cur.len() > 0 {
        done.push(cur)
    } else {
        done
    }
}

/// The views of a list of string slices.
pub open spec fn views_of(v: Seq<&str>) -> Seq<Seq<char>> {
    v.map_values(|s: &str| s@)
}

/// The text made of `parts` with the separator runs `runs` around and between them:
/// `runs[0] + parts[0] + runs[1] + ... + parts[n - 1] + runs[n]`.
pub open spec fn glue_parts(parts: Seq<Seq<char>>, runs: Seq<Seq<char>>) -> Seq<char>
    decreases parts.len(),
{
    if parts.len() == 0 || runs.len() == 0 {
        if runs.len() == 0 { Seq::empty() } else { runs[0] }
    } else {
        glue_parts(parts.drop_last(), runs.drop_last()) + parts.last() + runs.last()
    }
}

/// Parts fit to be glued by `runs`: each part is non-empty and holds no separator, each
/// run holds separators only, and the runs between two parts are not empty.
pub open spec fn gluable(parts: Seq<Seq<char>>, runs: Seq<Seq<char>>) -> bool {
    &&& runs.len() == parts.len() + 1
    &&& forall|i: int| 0 <= i < parts.len() ==> (#[trigger] parts[i]).len() > 0
    &&& forall|i: int, j: int| 0 <= i < parts.len() && 0 <= j < parts[i].len() ==> !is_date_separator(#[trigger] parts[i][j])
    &&& forall|i: int, j: int| 0 <= i < runs.len() && 0 <= j < runs[i].len() ==> is_date_separator(#[trigger] runs[i][j])
    &&& forall|i: int| 0 < i < parts.len() ==> (#[trigger] runs[i]).len() > 0
}

/// Adding characters that are not separators extends the open part.
proof fn lemma_split_add_part(s: Seq<char>, p: Seq<char>)
    requires
        forall|j: int| 0 <= j < p.len() ==> !is_date_separator(#[trigger] p[j]),
    ensures
        split_state(s + p) == (split_state(s).0, split_state(s).1 + p),
    decreases p.len(),
{
    if p.len() == 0 {
        assert(s + p =~= s);
        assert(split_state(s).1 + p =~= split_state(s).1);
    } else {
        lemma_split_add_part(s, p.drop_last());
        assert((s + p).drop_last() =~= s + p.drop_last());
        assert((s + p).last() == p.last());
        assert((split_state(s).1 + p.drop_last()).push(p.last()) =~= split_state(s).1 + p);
    }
}

/// Adding a non-empty run of separators closes the open part, if there is one.
proof fn lemma_split_add_run(s: Seq<char>, r: Seq<char>)
    requires
        r.len() > 0,
        forall|j: int| 0 <= j < r.len() ==> is_date_separator(#[trigger] r[j]),
    ensures
        split_state(s + r) == ({
            let (done, cur) = split_state(s);
            (if cur.len() > 0 { done.push(cur) } else { done }, Seq::<char>::empty())
        }),
    decreases r.len(),
{
    assert((s + r).drop_last() =~= s + r.drop_last());
    assert((s + r).last() == r.last());
    assert(is_date_separator(r[r.len() - 1]));
    if r.len() > 1 {
        lemma_split_add_run(s, r.drop_last());
    } else {
        assert(s + r.drop_last() =~= s);
    }
}

/// Cutting glued parts at their separator runs: all parts closed when the last run is not
/// empty (or there are no parts), else the last part still open.
proof fn lemma_split_glued(parts: Seq<Seq<char>>, runs: Seq<Seq<char>>)
    requires
        gluable(parts, runs),
    ensures
        split_state(glue_parts(parts, runs)) == if runs.last().len() > 0 || parts.len() == 0 {
            (parts, Seq::<char>::empty())
        } else {
            (parts.drop_last(), parts.last())
        },
    decreases parts.len(),
{
    if parts.len() == 0 {
        if runs[0].len() > 0 {
            lemma_split_add_run(Seq::empty(), runs[0]);
            assert(Seq::<char>::empty() + runs[0] =~= runs[0]);
        }
        assert(parts =~= Seq::<Seq<char>>::empty());
    } else {
        let p1 = parts.drop_last();
        let r1 = runs.drop_last();
        assert(gluable(p1, r1)) by {
            assert forall|i: int| 0 <= i < p1.len() implies (#[trigger] p1[i]).len() > 0 by {
                assert(p1[i] == parts[i]);
            }
            assert forall|i: int, j: int| 0 <= i < p1.len() && 0 <= j < p1[i].len() implies !is_date_separator(#[trigger] p1[i][j]) by {
                assert(p1[i] == parts[i]);
            }
            assert forall|i: int, j: int| 0 <= i < r1.len() && 0 <= j < r1[i].len() implies is_date_separator(#[trigger] r1[i][j]) by {
                assert(r1[i] == runs[i]);
            }
            assert forall|i: int| 0 < i < p1.len() implies (#[trigger] r1[i]).len() > 0 by {
                assert(r1[i] == runs[i]);
            }
        }
        lemma_split_glued(p1, r1);
        let g1 = glue_parts(p1, r1);
        assert(r1.last() == runs[parts.len() - 1]);
        if parts.len() > 1 {
            assert(runs[parts.len() - 1].len() > 0);
        }
        assert(split_state(g1) == (p1, Seq::<char>::empty()));
        let last = parts.last();
        assert(last == parts[parts.len() - 1]);
        assert forall|j: int| 0 <= j < last.len() implies !is_date_separator(#[trigger] last[j]) by {
            assert(last[j] == parts[parts.len() - 1][j]);
        }
        lemma_split_add_part(g1, last);
        assert(Seq::<char>::empty() + last =~= last);
        let rl = runs.last();
        assert(rl == runs[runs.len() - 1]);
        if rl.len() > 0 {
            assert forall|j: int| 0 <= j < rl.len() implies is_date_separator(#[trigger] rl[j]) by {
                assert(rl[j] == runs[runs.len() - 1][j]);
            }
            lemma_split_add_run(g1 + last, rl);
            assert(p1.push(last) =~= parts);
        } else {
            assert(g1 + last + rl =~= g1 + last);
        }
    }
}

/// Cutting a text made of parts joined by runs of separators gives back the parts: how
/// many separators stand between two parts, which ones, and how many stand at the ends
/// does not change them.
pub proof fn lemma_date_slices_of_glued(parts: Seq<Seq<char>>, runs: Seq<Seq<char>>)
    requires
        gluable(parts, runs),
    ensures
        spec_date_slices(glue_parts(parts, runs)) == parts,
{
    lemma_split_glued(parts, runs);
    if !(runs.last().len() > 0 || parts.len() == 0) {
        assert(parts.drop_last().push(parts.last()) =~= parts);
    }
}

/// Cuts a text at spaces, `/`, `,` and `-`, keeping the non-empty parts in order.
pub fn split_date_slices<'a>(text: &'a str) -> (v: Vec<&'a str>)
    ensures
        views_of(v@) == spec_date_slices(text@),
{
    let n = text.unicode_len();
    let chars = chars_of(text);
    let mut v: Vec<&'a str> = Vec::new();
    let mut start: usize = 0;
    let mut i: usize = 0;
    while i < n
        invariant
            n == text@.len(),
            chars@ == text@,
            0 <= start <= i <= n,
            views_of(v@) == split_state(text@.take(i as int)).0,
            text@.subrange(start as int, i as int) == split_state(text@.take(i as int)).1,
        decreases n - i,
    {
        let c = chars[i];
        let ghost prefix = text@.take(i + 1);
        assert(prefix.drop_last() =~= text@.take(i as int));
        assert(prefix.last() == c);
        if c == ' ' || c == '/' || c == ',' || c == '-' {
            if start < i {
                let part = text.substring_char(start, i);
                v.push(part);
                assert(views_of(v@) =~= split_state(text@.take(i as int)).0.push(part@));
            }
            start = i + 1;
        } else {
            assert(text@.subrange(start as int, i + 1) =~= text@.subrange(start as int, i as int).push(c));
        }
        i = i + 1;
        assert(text@.subrange(start as int, i as int) =~= split_state(text@.take(i as int)).1);
    }
    assert(text@.take(n as int) =~= text@);
    if start < n {
        let part = text.substring_char(start, n);
        v.push(part);
        assert(views_of(v@) =~= split_state(text@).0.push(part@));
    } else {
        assert(text@.subrange(start as int, n as int) =~= Seq::<char>::empty());
    }
    v
}


/// The decimal digit character for `d` in `0..10`.
pub open spec fn digit_char(d: int) -> char {
    if d == 0 { '0' } else if d == 1 { '1' } else if d == 2 { '2' } else if d == 3 { '3' }
    else if d == 4 { '4' } else if d == 5 { '5' } else if d == 6 { '6' } else if d == 7 { '7' }
    else if d == 8 { '8' } else { '9' }
}

/// The decimal digits of `n`, without leading zeros (`0` for zero).
pub open spec fn nat_text(n: nat) -> Seq<char>
    decreases n,
{
    if n < 10 {
        seq![digit_char(n as int)]
    } else {
        nat_text(n / 10).push(digit_char((n % 10) as int))
    }
}

/// The decimal text of `n`, with a leading `-` when it is negative.
pub open spec fn int_text(n: int) -> Seq<char> {
    if n < 0 {
        seq!['-'] + nat_text((-n) as nat)
    } else {
        nat_text(n as nat)
    }
}

proof fn lemma_digit_char(d: int)
    requires
        0 <= d < 10,
    ensures
        is_digit(digit_char(d)),
        digit_value(digit_char(d)) == d,
{
}

proof fn lemma_nat_text_digits(n: nat)
    ensures
        nat_text(n).len() > 0,
        all_digits(nat_text(n)),
        digits_value(nat_text(n)) == n,
    decreases n,
{
    let s = nat_text(n);
    if n < 10 {
        lemma_digit_char(n as int);
        assert(s.drop_last() =~= Seq::<char>::empty());
        assert(digits_value(s.drop_last()) == 0);
    } else {
        lemma_nat_text_digits(n / 10);
        lemma_digit_char((n % 10) as int);
        assert(s.drop_last() =~= nat_text(n / 10));
        assert(s.last() == digit_char((n % 10) as int));
        assert forall|i: int| 0 <= i < s.len() implies is_digit(#[trigger] s[i]) by {
            if i < s.len() - 1 {
                assert(s[i] == nat_text(n / 10)[i]);
            }
        }
    }
}

/// Reading the decimal text of an integer gives the integer back: `int_text` and
/// `spec_parse_int` (what `parse_i32` reads within `i32`) undo each other.
pub proof fn lemma_int_text_parses(n: int)
    ensures
        spec_parse_int(int_text(n)) == Some(n),
{
    if n < 0 {
        let m = (-n) as nat;
        lemma_nat_text_digits(m);
        let s = int_text(n);
        assert(s.drop_first() =~= nat_text(m));
    } else {
        lemma_nat_text_digits(n as nat);
        assert(nat_text(n as nat)[0] != '+' && nat_text(n as nat)[0] != '-');
    }
}

fn digit_str(d: u64) -> (r: &'static str)
    requires
        d < 10,
    ensures
        r@ == seq![digit_char(d as int)],
{
    match d {
        0 => { proof { reveal_strlit("0"); } "0" },
        1 => { proof { reveal_strlit("1"); } "1" },
        2 => { proof { reveal_strlit("2"); } "2" },
        3 => { proof { reveal_strlit("3"); } "3" },
        4 => { proof { reveal_strlit("4"); } "4" },
        5 => { proof { reveal_strlit("5"); } "5" },
        6 => { proof { reveal_strlit("6"); } "6" },
        7 => { proof { reveal_strlit("7"); } "7" },
        8 => { proof { reveal_strlit("8"); } "8" },
        _ => { proof { reveal_strlit("9"); } "9" },
    }
}

/// The decimal text of `n`.
pub fn nat_to_text(n: u64) -> (r: String)
    ensures
        r@ == nat_text(n as nat),
    decreases n,
{
    if n < 10 {
        String::from_str(digit_str(n))
    } else {
        let mut s = nat_to_text(n / 10);
        s.append(digit_str(n % 10));
        s
    }
}

/// The decimal text of `n`, with a leading `-` when it is negative.
pub fn int_to_text(n: i64) -> (r: String)
    ensures
        r@ == int_text(n as int),
{
    if n < 0 {
        let m: u64 = if n == i64::MIN { 9223372036854775808u64 } else { (-n) as u64 };
        let mut s = String::from_str("-");
        proof {
            reveal_strlit("-");
        }
        let digits = nat_to_text(m);
        s.append(digits.as_str());
        s
    } else {
        nat_to_text(n as u64)
    }
}

/// `id` is held by one of the strings `units`.
pub open spec fn lists_id(units: Seq<String>, id: Seq<char>) -> bool {
    exists|k: int| #![trigger units[k]] 0 <= k < units.len() && units[k]@ == id
}

/// No text occurs twice in the strings `units`.
pub open spec fn distinct_ids(units: Seq<String>) -> bool {
    forall|j: int, k: int| #![trigger units[j], units[k]] 0 <= j < k < units.len() ==> units[j]@ != units[k]@
}

/// Pushing a string whose text is not held keeps the texts held distinct.
pub proof fn lemma_distinct_push(units: Seq<String>, s: String)
    requires
        distinct_ids(units),
        !lists_id(units, s@),
    ensures
        distinct_ids(units.push(s)),
{
    let p = units.push(s);
    assert forall|j: int, k: int| 0 <= j < k < p.len() implies #[trigger] p[j]@ != #[trigger] p[k]@ by {
        assert(p[j] == units[j]);
        if k == units.len() {
            if p[j]@ == s@ {
                assert(lists_id(units, s@));
            }
        } else {
            assert(p[k] == units[k]);
        }
    }
}

/// Pushing `s` adds its text to the texts held, and nothing else.
pub proof fn lemma_lists_push(units: Seq<String>, s: String, id: Seq<char>)
    ensures
        lists_id(units.push(s), id) <==> (lists_id(units, id) || s@ == id),
{
    let p = units.push(s);
    if lists_id(p, id) {
        let k = choose|k: int| #![trigger p[k]] 0 <= k < p.len() && p[k]@ == id;
        if k < units.len() {
            assert(units[k] == p[k]);
        }
    }
    if lists_id(units, id) {
        let k = choose|k: int| #![trigger units[k]] 0 <= k < units.len() && units[k]@ == id;
        assert(p[k] == units[k]);
    }
    if s@ == id {
        assert(p[units.len() as int] == s);
    }
}

} // verus!
