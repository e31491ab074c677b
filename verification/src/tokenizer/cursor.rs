use vstd::prelude::*;
use crate::errors::Error;
use crate::globals::SourceIndex;
use crate::number_format::NumberFormat;
use crate::text::{digit_value, is_digit};

verus! {

/// A span of bytes `[start, end)` in one source text.
#[derive(Clone, Copy, Debug, PartialEq, Eq, Structural)]
pub struct Range {
    pub source_index: SourceIndex,
    pub start: usize,
    pub end: usize,
}

impl Range {
    /// The empty range at the start of the given source.
    pub open spec fn none_spec(source_index: SourceIndex) -> Range {
        Range { source_index, start: 0, end: 0 }
    }

    /// The empty range at the start of the given source.
    pub fn none(source_index: SourceIndex) -> (r: Range)
        ensures
            r == Range::none_spec(source_index),
    {
        Range { source_index, start: 0, end: 0 }
    }

    /// True for a range that covers nothing at the start of its source.
    pub fn is_none(&self) -> (r: bool)
        ensures
            r == (self.start == 0 && self.end == 0),
    {
        self.start == 0 && self.end == 0
    }

    /// The smallest range that covers both ranges; both must lie in the same source.
    pub fn add(&self, rhs: &Range) -> (r: Range)
        requires
            self.source_index == rhs.source_index,
        ensures
            r.source_index == self.source_index,
            r.start == if self.start <= rhs.start { self.start } else { rhs.start },
            r.end == if self.end >= rhs.end { self.end } else { rhs.end },
    {
        Range {
            source_index: self.source_index,
            start: if self.start <= rhs.start { self.start } else { rhs.start },
            end: if self.end >= rhs.end { self.end } else { rhs.end },
        }
    }
}

/// The number of bytes of a character in UTF-8.
pub open spec fn char_len_utf8(c: char) -> nat {
    if (c as u32) < 0x80 {
        1
    } else if (c as u32) < 0x800 {
        2
    } else if (c as u32) < 0x10000 {
        3
    } else {
        4
    }
}

/// The number of bytes of a text in UTF-8.
pub open spec fn utf8_len(s: Seq<char>) -> nat
    decreases s.len(),
{
    if s.len() == 0 {
        0
    } else {
        utf8_len(s.drop_last()) + char_len_utf8(s.last())
    }
}

/// The byte offset of the character at index `i` of `t`.
pub open spec fn byte_pos(t: Seq<char>, i: int) -> nat {
    utf8_len(t.take(i))
}

/// The number of bytes of a character in UTF-8, as `char::len_utf8` gives it.
pub fn len_utf8(c: char) -> (r: usize)
    ensures
        r == char_len_utf8(c),
{
    let v = c as u32;
    if v < 0x80 {
        1
    } else if v < 0x800 {
        2
    } else if v < 0x10000 {
        3
    } else {
        4
    }
}

/// Byte offsets grow with character indices.
pub proof fn lemma_byte_pos_mono(t: Seq<char>, i: int, j: int)
    requires
        0 <= i <= j <= t.len(),
    ensures
        byte_pos(t, i) <= byte_pos(t, j),
    decreases j - i,
{
    if i < j {
        lemma_byte_pos_mono(t, i, j - 1);
        assert(t.take(j).drop_last() =~= t.take(j - 1));
    }
}

/// The byte offset after a character is the offset before it plus its length.
pub proof fn lemma_byte_pos_step(t: Seq<char>, i: int)
    requires
        0 <= i < t.len(),
    ensures
        byte_pos(t, i + 1) == byte_pos(t, i) + char_len_utf8(t[i]),
{
    assert(t.take(i + 1).drop_last() =~= t.take(i));
}

/// The character at index `p`, or `'\0'` past the end (what `peek` sees).
pub open spec fn char_at(t: Seq<char>, p: int) -> char {
    if 0 <= p < t.len() {
        t[p]
    } else {
        '\0'
    }
}

/// Whitespace: the usual ASCII spaces, next line, the bidi marks, the Unicode line and
/// paragraph separators, and the newline.
pub open spec fn spec_is_whitespace(c: char) -> bool {
    c == '\t' || c == '\u{0B}' || c == '\u{0C}' || c == '\r' || c == ' ' || c == '\u{85}'
        || c == '\u{200E}' || c == '\u{200F}' || c == '\u{2028}' || c == '\u{2029}' || c == '\n'
}

/// The Unicode `XID_Start` table of the `unicode-xid` crate, for characters above ASCII.
pub uninterp spec fn xid_start_table(c: char) -> bool;

/// The Unicode `XID_Continue` table of the `unicode-xid` crate, for characters above ASCII.
pub uninterp spec fn xid_continue_table(c: char) -> bool;

/// `XID_Start`: an ASCII letter, or a character above ASCII in the table.
pub open spec fn spec_is_xid_start(c: char) -> bool {
    ('a' <= c <= 'z') || ('A' <= c <= 'Z') || ((c as u32) > 0x7f && xid_start_table(c))
}

/// `XID_Continue`: an ASCII letter, digit or `_`, or a character above ASCII in the table.
pub open spec fn spec_is_xid_continue(c: char) -> bool {
    ('a' <= c <= 'z') || ('A' <= c <= 'Z') || ('0' <= c <= '9') || c == '_' || ((c as u32)
        > 0x7f && xid_continue_table(c))
}

/// Calls `unicode_xid::UnicodeXID::is_xid_start`. Claimed, as its source shows: true for
/// ASCII letters, false for other ASCII characters, and the crate's table above ASCII.
#[verifier::external_body]
fn xid_start(c: char) -> (r: bool)
    ensures
        r == (('a' <= c <= 'z') || ('A' <= c <= 'Z') || ((c as u32) > 0x7f && xid_start_table(c))),
{
    unicode_xid::UnicodeXID::is_xid_start(c)
}

/// Calls `unicode_xid::UnicodeXID::is_xid_continue`. Claimed, as its source shows: true
/// for ASCII letters, digits and `_`, false for other ASCII characters, and the crate's
/// table above ASCII.
#[verifier::external_body]
fn xid_continue(c: char) -> (r: bool)
    ensures
        r == (('a' <= c <= 'z') || ('A' <= c <= 'Z') || ('0' <= c <= '9') || c == '_' || ((c
            as u32) > 0x7f && xid_continue_table(c))),
{
    unicode_xid::UnicodeXID::is_xid_continue(c)
}

/// A character that can start an identifier: `XID_Start` or `_`.
pub open spec fn spec_is_id_start(c: char) -> bool {
    c == '_' || spec_is_xid_start(c)
}

/// True when the character can start an identifier: `XID_Start` or `_`.
pub fn is_id_start(c: char) -> (r: bool)
    ensures
        r == spec_is_id_start(c),
{
    c == '_' || xid_start(c)
}

/// True when the character can continue an identifier: `XID_Continue`.
pub fn is_id_continue(c: char) -> (r: bool)
    ensures
        r == spec_is_xid_continue(c),
{
    xid_continue(c)
}

/// The index where whitespace starting at `p` ends; a newline ends it when newlines are
/// tokens.
pub open spec fn ws_end(t: Seq<char>, p: int, nl_is_token: bool) -> int
    decreases t.len() - p,
{
    if 0 <= p < t.len() && spec_is_whitespace(t[p]) && !(nl_is_token && t[p] == '\n') {
        ws_end(t, p + 1, nl_is_token)
    } else {
        p
    }
}

/// The index of the first `\n` or `\r` from `p` on, or the end of the text.
pub open spec fn eol_end(t: Seq<char>, p: int) -> int
    decreases t.len() - p,
{
    if 0 <= p < t.len() && t[p] != '\n' && t[p] != '\r' {
        eol_end(t, p + 1)
    } else {
        p
    }
}

/// The index of the first `'` from `p` on, or the end of the text.
pub open spec fn quote_end(t: Seq<char>, p: int) -> int
    decreases t.len() - p,
{
    if 0 <= p < t.len() && t[p] != '\'' {
        quote_end(t, p + 1)
    } else {
        p
    }
}

/// The index of the first character from `p` on that cannot continue an identifier.
pub open spec fn id_end(t: Seq<char>, p: int) -> int
    decreases t.len() - p,
{
    if 0 <= p < t.len() && spec_is_xid_continue(t[p]) {
        id_end(t, p + 1)
    } else {
        p
    }
}

/// The index just after the first `*/` from `p` on, or the end of the text.
pub open spec fn comment_end(t: Seq<char>, p: int) -> int
    decreases t.len() - p,
{
    if char_at(t, p) == '*' && char_at(t, p + 1) == '/' {
        p + 2
    } else if p >= t.len() || p < 0 {
        p
    } else {
        comment_end(t, p + 1)
    }
}

/// Some character in `[a, b)` is a newline.
pub open spec fn has_newline(t: Seq<char>, a: int, b: int) -> bool {
    exists|i: int| a <= i < b && #[trigger] t[i] == '\n'
}

/// The scan ends never lie before their start.
pub proof fn lemma_scan_ends(t: Seq<char>, p: int, nl: bool)
    requires
        0 <= p <= t.len(),
    ensures
        p <= ws_end(t, p, nl) <= t.len(),
        p <= eol_end(t, p) <= t.len(),
        p <= quote_end(t, p) <= t.len(),
        p <= id_end(t, p) <= t.len(),
        p <= comment_end(t, p) <= t.len(),
    decreases t.len() - p,
{
    if p < t.len() {
        lemma_scan_ends(t, p + 1, nl);
    }
}

/// A number as the tokenizer reads it, before any arithmetic: for a decimal number the
/// characters read (its first character, then each digit and each decimal dot, with `_`
/// left out) and the exponent after `e` or `E`; for a binary, octal or hexadecimal
/// number its value modulo `2^64`.
pub struct NumberLiteral {
    pub fmt: NumberFormat,
    pub mantissa: Vec<char>,
    pub exponent: i32,
    pub value: u64,
}

/// What a number literal holds.
pub struct NumberView {
    pub fmt: NumberFormat,
    pub mantissa: Seq<char>,
    pub exponent: i32,
    pub value: u64,
}

impl NumberLiteral {
    /// What this literal holds.
    pub open spec fn view(&self) -> NumberView {
        NumberView { fmt: self.fmt, mantissa: self.mantissa@, exponent: self.exponent, value: self.value }
    }

    /// The number zero in decimal notation, with nothing read.
    pub fn zero() -> (n: NumberLiteral)
        ensures
            n.view() == zero_view(),
    {
        NumberLiteral { fmt: NumberFormat::Dec, mantissa: Vec::new(), exponent: 0, value: 0 }
    }

    /// A copy of this literal.
    pub fn duplicate(&self) -> (n: NumberLiteral)
        ensures
            n.view() == self.view(),
    {
        NumberLiteral {
            fmt: self.fmt,
            mantissa: self.mantissa.clone(),
            exponent: self.exponent,
            value: self.value,
        }
    }
}

/// The number zero in decimal notation, with nothing read.
/// Where a cursor stands at the start of a text: nothing read, at the start of a line,
/// newlines not read as tokens and only one decimal character.
pub open spec fn start_view() -> CursorView {
    CursorView {
        pos: 0,
        newline_found: true,
        is_beginning_of_text: true,
        number: zero_view(),
        nl_is_token: false,
        is_dot_and_comma_decimal: false,
    }
}

pub open spec fn zero_view() -> NumberView {
    NumberView { fmt: NumberFormat::Dec, mantissa: Seq::empty(), exponent: 0, value: 0 }
}

/// `x * m + d` modulo `2^64`.
pub open spec fn wrap_u64(x: u64, m: u64, d: u64) -> u64 {
    vstd::wrapping::u64_specs::wrapping_add(vstd::wrapping::u64_specs::wrapping_mul(x, m), d)
}

/// `x * 10 + d` wrapped into an `i32`.
pub open spec fn wrap_i32(x: i32, d: i32) -> i32 {
    vstd::wrapping::i32_specs::wrapping_add(vstd::wrapping::i32_specs::wrapping_mul(x, 10), d)
}

/// The characters a decimal number keeps from `p` on, and where it ends: digits, a dot
/// followed by a digit, and `_` (which is skipped).
pub open spec fn dec_scan(t: Seq<char>, p: int) -> (int, Seq<char>)
    decreases t.len() - p,
{
    if p < 0 || p >= t.len() {
        (p, Seq::empty())
    } else if is_digit(t[p]) {
        let (e, m) = dec_scan(t, p + 1);
        (e, seq![t[p]] + m)
    } else if t[p] == '.' && is_digit(char_at(t, p + 1)) {
        let (e, m) = dec_scan(t, p + 1);
        (e, seq!['.'] + m)
    } else if t[p] == '_' {
        dec_scan(t, p + 1)
    } else {
        (p, Seq::empty())
    }
}

/// The digits of an integer from `p` on (with `_` skipped), accumulated into `acc` with
/// `i32` wrap-around, and where they end.
pub open spec fn int_digits(t: Seq<char>, p: int, acc: i32) -> (int, i32)
    decreases t.len() - p,
{
    if p < 0 || p >= t.len() {
        (p, acc)
    } else if is_digit(t[p]) {
        int_digits(t, p + 1, wrap_i32(acc, digit_value(t[p]) as i32))
    } else if t[p] == '_' {
        int_digits(t, p + 1, acc)
    } else {
        (p, acc)
    }
}

/// A signed integer from `p` on: an optional `-` or `+`, then digits and `_`.
pub open spec fn int_scan(t: Seq<char>, p: int) -> (int, i32) {
    let (start, factor) = if char_at(t, p) == '-' {
        (p + 1, -1i32)
    } else if char_at(t, p) == '+' {
        (p + 1, 1i32)
    } else {
        (p, 1i32)
    };
    let (end, v) = int_digits(t, start, 0);
    (end, vstd::wrapping::i32_specs::wrapping_mul(v, factor))
}

/// The value of a digit in base `base` (2, 8 or 16), if the character is one.
pub open spec fn radix_digit(c: char, base: u64) -> Option<u64> {
    if '0' <= c <= '1' {
        Some((c as int - '0' as int) as u64)
    } else if base >= 8 && '0' <= c <= '7' {
        Some((c as int - '0' as int) as u64)
    } else if base == 16 && '0' <= c <= '9' {
        Some((c as int - '0' as int) as u64)
    } else if base == 16 && 'a' <= c <= 'f' {
        Some((c as int - 'a' as int + 10) as u64)
    } else if base == 16 && 'A' <= c <= 'F' {
        Some((c as int - 'A' as int + 10) as u64)
    } else {
        None
    }
}

/// The digits of a binary or octal number from `p` on, `_` skipped, accumulated modulo
/// `2^64`, and where they end.
pub open spec fn radix_scan(t: Seq<char>, p: int, base: u64, acc: u64) -> (int, u64)
    decreases t.len() - p,
{
    if p < 0 || p >= t.len() {
        (p, acc)
    } else if t[p] == '_' {
        radix_scan(t, p + 1, base, acc)
    } else {
        match radix_digit(t[p], base) {
            Some(d) => radix_scan(t, p + 1, base, wrap_u64(acc, base, d)),
            None => (p, acc),
        }
    }
}

/// The digits of a hexadecimal number from `p` on, accumulated modulo `2^64`, and where
/// they end; `None` where an `_` follows them, on which the reader never returns.
pub open spec fn hex_scan(t: Seq<char>, p: int, acc: u64) -> Option<(int, u64)>
    decreases t.len() - p,
{
    if p < 0 || p >= t.len() {
        Some((p, acc))
    } else if t[p] == '_' {
        None
    } else {
        match radix_digit(t[p], 16) {
            Some(d) => hex_scan(t, p + 1, wrap_u64(acc, 16, d)),
            None => Some((p, acc)),
        }
    }
}

/// A decimal number whose first character `c` was read, continuing at `p`.
pub open spec fn spec_parse_decimal(t: Seq<char>, c: char, p: int) -> (int, NumberView) {
    let (q, m) = dec_scan(t, p);
    let mantissa = seq![c] + m;
    if char_at(t, q) == 'e' || char_at(t, q) == 'E' {
        let (r, e) = int_scan(t, q + 1);
        (r, NumberView { fmt: NumberFormat::Dec, mantissa, exponent: e, value: 0 })
    } else {
        (q, NumberView { fmt: NumberFormat::Dec, mantissa, exponent: 0, value: 0 })
    }
}

/// A number whose first character `c` was read, continuing at `p`: `0b`, `0x` and `0o`
/// (in either case) start binary, hexadecimal and octal numbers; anything else is decimal.
/// `None` where a hexadecimal number is followed by `_`.
pub open spec fn spec_parse_number(t: Seq<char>, c: char, p: int) -> Option<(int, NumberView)> {
    let radix = |fmt: NumberFormat, q: int, v: u64|
        (q, NumberView { fmt, mantissa: Seq::<char>::empty(), exponent: 0, value: v });
    if c == '0' && (char_at(t, p) == 'b' || char_at(t, p) == 'B') {
        let (q, v) = radix_scan(t, p + 1, 2, 0);
        Some(radix(NumberFormat::Bin, q, v))
    } else if c == '0' && (char_at(t, p) == 'x' || char_at(t, p) == 'X') {
        match hex_scan(t, p + 1, 0) {
            Some((q, v)) => Some(radix(NumberFormat::Hex, q, v)),
            None => None,
        }
    } else if c == '0' && (char_at(t, p) == 'o' || char_at(t, p) == 'O') {
        let (q, v) = radix_scan(t, p + 1, 8, 0);
        Some(radix(NumberFormat::Oct, q, v))
    } else {
        Some(spec_parse_decimal(t, c, p))
    }
}

/// A decimal scan never ends before its start.
pub proof fn lemma_dec_scan(t: Seq<char>, p: int)
    requires
        0 <= p <= t.len(),
    ensures
        p <= dec_scan(t, p).0 <= t.len(),
    decreases t.len() - p,
{
    if p < t.len() {
        lemma_dec_scan(t, p + 1);
    }
}

/// An integer scan never ends before its start.
pub proof fn lemma_int_digits(t: Seq<char>, p: int, acc: i32)
    requires
        0 <= p <= t.len(),
    ensures
        p <= int_digits(t, p, acc).0 <= t.len(),
    decreases t.len() - p,
{
    if p < t.len() {
        if is_digit(t[p]) {
            lemma_int_digits(t, p + 1, wrap_i32(acc, digit_value(t[p]) as i32));
        } else {
            lemma_int_digits(t, p + 1, acc);
        }
    }
}

/// A binary or octal scan never ends before its start.
pub proof fn lemma_radix_scan(t: Seq<char>, p: int, base: u64, acc: u64)
    requires
        0 <= p <= t.len(),
    ensures
        p <= radix_scan(t, p, base, acc).0 <= t.len(),
    decreases t.len() - p,
{
    if p < t.len() {
        if t[p] == '_' {
            lemma_radix_scan(t, p + 1, base, acc);
        } else {
            match radix_digit(t[p], base) {
                Some(d) => lemma_radix_scan(t, p + 1, base, wrap_u64(acc, base, d)),
                None => {},
            }
        }
    }
}

/// A hexadecimal scan never ends before its start.
pub proof fn lemma_hex_scan(t: Seq<char>, p: int, acc: u64)
    requires
        0 <= p <= t.len(),
    ensures
        hex_scan(t, p, acc) matches Some((q, _)) ==> p <= q <= t.len(),
    decreases t.len() - p,
{
    if p < t.len() && t[p] != '_' {
        match radix_digit(t[p], 16) {
            Some(d) => lemma_hex_scan(t, p + 1, wrap_u64(acc, 16, d)),
            None => {},
        }
    }
}

/// A reader of the characters of one source text.
pub struct Cursor<'a> {
    pub text: &'a [char],
    pub source_index: SourceIndex,
    pub pos: usize,
    pub byte_pos: usize,
    pub newline_found: bool,
    pub number: NumberLiteral,
    pub is_beginning_of_text: bool,
    pub nl_is_token: bool,
    pub is_dot_and_comma_decimal: bool,
    pub errors: Vec<Error>,
}

/// Where a cursor stands and what it remembers.
pub struct CursorView {
    pub pos: int,
    pub newline_found: bool,
    pub is_beginning_of_text: bool,
    pub number: NumberView,
    pub nl_is_token: bool,
    pub is_dot_and_comma_decimal: bool,
}

/// The end of a text reads as `'\0'`.
pub fn eof_char() -> (c: char)
    ensures
        c == '\0',
{
    '\0'
}

impl<'a> Cursor<'a> {
    /// The index of the next character to read.
    pub open spec fn position(&self) -> int {
        self.pos as int
    }

    /// Where the cursor stands and what it remembers.
    pub open spec fn view(&self) -> CursorView {
        CursorView {
            pos: self.position(),
            newline_found: self.newline_found,
            is_beginning_of_text: self.is_beginning_of_text,
            number: self.number.view(),
            nl_is_token: self.nl_is_token,
            is_dot_and_comma_decimal: self.is_dot_and_comma_decimal,
        }
    }

    /// The text read.
    pub open spec fn chars(&self) -> Seq<char> {
        self.text@
    }

    /// The position lies in the text, the byte offset matches it, and every byte offset
    /// of the text fits in a `usize`.
    pub open spec fn wf(&self) -> bool {
        &&& self.pos <= self.text@.len()
        &&& self.byte_pos == byte_pos(self.text@, self.pos as int)
        &&& utf8_len(self.text@) <= usize::MAX
    }

    /// A cursor at the start of `text`, which has its first line ahead.
    pub fn new(text: &'a [char], source_index: SourceIndex) -> (c: Cursor<'a>)
        requires
            utf8_len(text@) <= usize::MAX,
        ensures
            c.wf(),
            c.text == text,
            c.source_index == source_index,
            c.view() == (CursorView {
                pos: 0,
                newline_found: true,
                is_beginning_of_text: true,
                number: zero_view(),
                nl_is_token: false,
                is_dot_and_comma_decimal: false,
            }),
            c.errors@.len() == 0,
    {
        Cursor {
            text,
            source_index,
            pos: 0,
            byte_pos: 0,
            newline_found: true,
            number: NumberLiteral::zero(),
            is_beginning_of_text: true,
            nl_is_token: false,
            is_dot_and_comma_decimal: false,
            errors: Vec::new(),
        }
    }

    /// A copy of this cursor, at the same place and remembering the same.
    pub fn duplicate(&self) -> (c: Cursor<'a>)
        requires
            self.wf(),
        ensures
            c.wf(),
            c.view() == self.view(),
            c.text == self.text,
            c.source_index == self.source_index,
            c.errors@.len() == self.errors@.len(),
    {
        Cursor {
            text: self.text,
            source_index: self.source_index,
            pos: self.pos,
            byte_pos: self.byte_pos,
            newline_found: self.newline_found,
            number: self.number.duplicate(),
            is_beginning_of_text: self.is_beginning_of_text,
            nl_is_token: self.nl_is_token,
            is_dot_and_comma_decimal: self.is_dot_and_comma_decimal,
            errors: crate::date::timepoint::duplicate_errors(&self.errors),
        }
    }

    /// The next character, or `'\0'` at the end.
    pub fn peek(&self) -> (c: char)
        requires
            self.wf(),
        ensures
            c == char_at(self.chars(), self.position()),
    {
        if self.pos < self.text.len() {
            self.text[self.pos]
        } else {
            eof_char()
        }
    }

    /// The character after the next one, or `'\0'` past the end.
    pub fn peek_second(&self) -> (c: char)
        requires
            self.wf(),
        ensures
            c == char_at(self.chars(), self.position() + 1),
    {
        if self.text.len() > 0 && self.pos < self.text.len() - 1 {
            self.text[self.pos + 1]
        } else {
            eof_char()
        }
    }

    /// Reads the next character; `None` at the end.
    pub fn next(&mut self) -> (c: Option<char>)
        requires
            old(self).wf(),
        ensures
            final(self).wf(),
            old(self).position() < old(self).chars().len() ==> c == Some(old(self).chars()[old(self).position()])
                && final(self).position() == old(self).position() + 1,
            old(self).position() >= old(self).chars().len() ==> c is None
                && final(self).position() == old(self).position(),
            final(self).text == old(self).text,
            final(self).source_index == old(self).source_index,
            final(self).newline_found == old(self).newline_found,
            final(self).number == old(self).number,
            final(self).is_beginning_of_text == old(self).is_beginning_of_text,
            final(self).nl_is_token == old(self).nl_is_token,
            final(self).is_dot_and_comma_decimal == old(self).is_dot_and_comma_decimal,
            final(self).errors == old(self).errors,
    {
        if self.pos < self.text.len() {
            let c = self.text[self.pos];
            proof {
                lemma_byte_pos_step(self.text@, self.pos as int);
                lemma_byte_pos_mono(self.text@, self.pos + 1, self.text@.len() as int);
                assert(self.text@.take(self.text@.len() as int) =~= self.text@);
            }
            self.byte_pos = self.byte_pos + len_utf8(c);
            self.pos = self.pos + 1;
            Some(c)
        } else {
            None
        }
    }

    /// The byte offset of the next character.
    pub fn get_pos(&self) -> (r: usize)
        requires
            self.wf(),
        ensures
            r == byte_pos(self.chars(), self.position()),
    {
        self.byte_pos
    }

    /// True at the end of the text.
    pub fn is_eof(&self) -> (r: bool)
        requires
            self.wf(),
        ensures
            r == (self.position() >= self.chars().len()),
    {
        self.pos >= self.text.len()
    }

    /// True for whitespace (see `spec_is_whitespace`).
    pub fn is_whitespace(&self, c: char) -> (r: bool)
        ensures
            r == spec_is_whitespace(c),
    {
        match c {
            '\u{0009}' | '\u{000B}' | '\u{000C}' | '\u{000D}' | '\u{0020}' | '\u{0085}'
            | '\u{200E}' | '\u{200F}' | '\u{2028}' | '\u{2029}' => true,
            '\n' => true,
            _ => false,
        }
    }
}

/// `b` is `a` moved along its text, with nothing else changed.
pub open spec fn only_moved(a: &Cursor, b: &Cursor) -> bool {
    &&& b.wf()
    &&& b.text == a.text
    &&& b.source_index == a.source_index
    &&& b.newline_found == a.newline_found
    &&& b.number == a.number
    &&& b.is_beginning_of_text == a.is_beginning_of_text
    &&& b.nl_is_token == a.nl_is_token
    &&& b.is_dot_and_comma_decimal == a.is_dot_and_comma_decimal
    &&& b.errors == a.errors
}

/// The word `w` stands at `p`, and the character after it exists and cannot continue
/// an identifier.
pub open spec fn spec_match_word(t: Seq<char>, p: int, w: Seq<char>) -> bool {
    &&& w.len() > 0
    &&& p + w.len() < t.len()
    &&& 0 <= p
    &&& t.subrange(p, p + w.len()) == w
    &&& !spec_is_xid_continue(t[p + w.len()])
}

impl<'a> Cursor<'a> {
    /// Skips whitespace (stopping at a newline when newlines are tokens); a newline
    /// found is remembered, and at the beginning of the text one always is.
    pub fn eat_whitespace(&mut self)
        requires
            old(self).wf(),
        ensures
            final(self).wf(),
            final(self).position() == ws_end(old(self).chars(), old(self).position(), old(self).nl_is_token),
            final(self).newline_found == (old(self).is_beginning_of_text || has_newline(
                old(self).chars(),
                old(self).position(),
                final(self).position(),
            )),
            final(self).text == old(self).text,
            final(self).source_index == old(self).source_index,
            final(self).number == old(self).number,
            final(self).is_beginning_of_text == old(self).is_beginning_of_text,
            final(self).nl_is_token == old(self).nl_is_token,
            final(self).is_dot_and_comma_decimal == old(self).is_dot_and_comma_decimal,
            final(self).errors == old(self).errors,
    {
        let ghost t = self.chars();
        let ghost start = self.position();
        let ghost nl = self.nl_is_token;
        self.newline_found = self.is_beginning_of_text;
        loop
            invariant
                self.wf(),
                self.text == old(self).text,
                self.source_index == old(self).source_index,
                self.number == old(self).number,
                self.is_beginning_of_text == old(self).is_beginning_of_text,
                self.nl_is_token == nl,
                self.is_dot_and_comma_decimal == old(self).is_dot_and_comma_decimal,
                self.errors == old(self).errors,
                t == self.chars(),
                t == old(self).chars(),
                start <= self.position() <= t.len(),
                ws_end(t, start, nl) == ws_end(t, self.position(), nl),
                start == old(self).position(),
                nl == old(self).nl_is_token,
                self.newline_found == (old(self).is_beginning_of_text || has_newline(t, start, self.position())),
            ensures
                ws_end(t, self.position(), nl) == self.position(),
            decreases t.len() - self.position(),
        {
            let c = self.peek();
            if !(self.is_whitespace(c) && !(self.nl_is_token && c == '\n')) || self.is_eof() {
                break;
            }
            let ghost p = self.position();
            let n = self.next();
            if n == Some('\n') {
                self.newline_found = true;
                assert(has_newline(t, start, self.position())) by {
                    assert(t[p] == '\n');
                }
            } else {
                assert(has_newline(t, start, self.position()) == has_newline(t, start, p)) by {
                    if has_newline(t, start, self.position()) {
                        let i = choose|i: int| start <= i < self.position() && #[trigger] t[i] == '\n';
                        assert(i != p);
                    }
                }
            }
        }
    }

    /// Skips to the end of the line: to the next `\n` or `\r`, or the end of the text.
    pub fn get_to_eol(&mut self)
        requires
            old(self).wf(),
        ensures
            only_moved(old(self), final(self)),
            final(self).position() == eol_end(old(self).chars(), old(self).position()),
    {
        let ghost t = self.chars();
        let ghost start = self.position();
        loop
            invariant
                only_moved(old(self), self),
                t == self.chars(),
                t == old(self).chars(),
                start <= self.position() <= t.len(),
                eol_end(t, start) == eol_end(t, self.position()),
                start == old(self).position(),
            ensures
                eol_end(t, start) == self.position(),
            decreases t.len() - self.position(),
        {
            let c = self.peek();
            if c == '\n' || c == '\r' || self.is_eof() {
                break;
            }
            self.next();
        }
    }

    /// Skips to the next `'`, or the end of the text.
    pub fn eat_until_quote(&mut self)
        requires
            old(self).wf(),
        ensures
            only_moved(old(self), final(self)),
            final(self).position() == quote_end(old(self).chars(), old(self).position()),
    {
        let ghost t = self.chars();
        let ghost start = self.position();
        loop
            invariant
                only_moved(old(self), self),
                t == self.chars(),
                t == old(self).chars(),
                start <= self.position() <= t.len(),
                quote_end(t, start) == quote_end(t, self.position()),
                start == old(self).position(),
            ensures
                quote_end(t, start) == self.position(),
            decreases t.len() - self.position(),
        {
            let c = self.peek();
            if c == '\'' || self.is_eof() {
                break;
            }
            self.next();
        }
    }

    /// Skips the characters that can continue an identifier.
    pub fn eat_id_continue(&mut self)
        requires
            old(self).wf(),
        ensures
            only_moved(old(self), final(self)),
            final(self).position() == id_end(old(self).chars(), old(self).position()),
    {
        let ghost t = self.chars();
        let ghost start = self.position();
        loop
            invariant
                only_moved(old(self), self),
                t == self.chars(),
                t == old(self).chars(),
                start <= self.position() <= t.len(),
                id_end(t, start) == id_end(t, self.position()),
                start == old(self).position(),
            ensures
                id_end(t, start) == self.position(),
            decreases t.len() - self.position(),
        {
            let c = self.peek();
            if !is_id_continue(c) || self.is_eof() {
                break;
            }
            self.next();
        }
    }

    /// Skips to just after the next `*/`, or to the end of the text.
    pub fn get_to_end_of_comment(&mut self)
        requires
            old(self).wf(),
        ensures
            only_moved(old(self), final(self)),
            final(self).position() == comment_end(old(self).chars(), old(self).position()),
    {
        let ghost t = self.chars();
        let ghost start = self.position();
        loop
            invariant_except_break
                comment_end(t, start) == comment_end(t, self.position()),
            invariant
                only_moved(old(self), self),
                t == self.chars(),
                t == old(self).chars(),
                start <= self.position() <= t.len(),
                start == old(self).position(),
            ensures
                comment_end(t, start) == self.position(),
            decreases t.len() - self.position(),
        {
            if self.peek() == '*' && self.peek_second() == '/' {
                self.next();
                self.next();
                break;
            } else {
                if self.is_eof() {
                    break;
                } else {
                    self.next();
                }
            }
        }
    }

    /// True, and the word read, when `word` stands next and the character after it exists
    /// and cannot continue an identifier; otherwise nothing is read.
    pub fn match_word(&mut self, word: &str) -> (r: bool)
        requires
            old(self).wf(),
        ensures
            only_moved(old(self), final(self)),
            r == spec_match_word(old(self).chars(), old(self).position(), word@),
            r ==> final(self).position() == old(self).position() + word@.len(),
            !r ==> final(self).position() == old(self).position(),
    {
        let ghost t = self.chars();
        let n = word.unicode_len();
        let len = self.text.len();
        let base = self.pos;
        if n == 0 || base >= len || n >= len - base {
            return false;
        }
        let mut i: usize = 0;
        while i < n
            invariant
                0 <= i <= n,
                n == word@.len(),
                base + n < len,
                len == t.len(),
                t == self.text@,
                base == self.pos,
                only_moved(old(self), self),
                self.position() == old(self).position(),
                t.subrange(base as int, base + i) == word@.take(i as int),
            decreases n - i,
        {
            if self.text[base + i] != word.get_char(i) {
                assert(t.subrange(base as int, base + n)[i as int] != word@[i as int]);
                return false;
            }
            assert(t.subrange(base as int, base + i + 1) =~= t.subrange(base as int, base + i).push(t[base + i]));
            assert(word@.take(i + 1) =~= word@.take(i as int).push(word@[i as int]));
            i = i + 1;
        }
        assert(word@.take(n as int) =~= word@);
        let after = self.text[base + n];
        if is_id_continue(after) {
            return false;
        }
        let mut k: usize = 0;
        while k < n
            invariant
                0 <= k <= n,
                only_moved(old(self), self),
                t == self.chars(),
                self.position() == old(self).position() + k,
                old(self).position() + n < t.len(),
            decreases n - k,
        {
            self.next();
            k = k + 1;
        }
        true
    }

    /// Reads a signed integer: an optional `-` or `+`, then digits and `_`, accumulated
    /// with `i32` wrap-around (see `int_scan`).
    pub fn parse_integer(&mut self) -> (r: i32)
        requires
            old(self).wf(),
        ensures
            only_moved(old(self), final(self)),
            (final(self).position(), r) == int_scan(old(self).chars(), old(self).position()),
    {
        let ghost t = self.chars();
        let mut i: i32 = 0;
        let factor: i32 = match self.peek() {
            '-' => {
                self.next();
                -1
            },
            '+' => {
                self.next();
                1
            },
            _ => 1,
        };
        let ghost start = self.position();
        assert(int_scan(t, old(self).position()) == (int_digits(t, start, 0).0,
            vstd::wrapping::i32_specs::wrapping_mul(int_digits(t, start, 0).1, factor)));
        loop
            invariant
                only_moved(old(self), self),
                t == self.chars(),
                t == old(self).chars(),
                start <= self.position() <= t.len(),
                int_digits(t, start, 0) == int_digits(t, self.position(), i),
                int_scan(t, old(self).position()) == (int_digits(t, start, 0).0,
                    vstd::wrapping::i32_specs::wrapping_mul(int_digits(t, start, 0).1, factor)),
            ensures
                int_digits(t, self.position(), i) == (self.position(), i),
            decreases t.len() - self.position(),
        {
            let c = self.peek();
            if '0' <= c && c <= '9' {
                self.next();
                let d = (c as u32 - '0' as u32) as i32;
                i = i.wrapping_mul(10).wrapping_add(d);
            } else if c == '_' && !self.is_eof() {
                self.next();
            } else {
                break;
            }
        }
        i.wrapping_mul(factor)
    }

    /// Reads the rest of a decimal number whose first character `c` was read
    /// (see `spec_parse_decimal`).
    pub fn parse_decimal(&mut self, c: char) -> (n: NumberLiteral)
        requires
            old(self).wf(),
        ensures
            only_moved(old(self), final(self)),
            (final(self).position(), n.view()) == spec_parse_decimal(old(self).chars(), c, old(self).position()),
    {
        let ghost t = self.chars();
        let ghost start = self.position();
        let mut mantissa: Vec<char> = Vec::new();
        mantissa.push(c);
        loop
            invariant
                only_moved(old(self), self),
                t == self.chars(),
                t == old(self).chars(),
                start <= self.position() <= t.len(),
                dec_scan(t, start).0 == dec_scan(t, self.position()).0,
                start == old(self).position(),
                seq![c] + dec_scan(t, start).1 == mantissa@ + dec_scan(t, self.position()).1,
            ensures
                dec_scan(t, self.position()) == (self.position(), Seq::<char>::empty()),
            decreases t.len() - self.position(),
        {
            let ch = self.peek();
            let ghost p = self.position();
            if '0' <= ch && ch <= '9' {
                self.next();
                let ghost before = mantissa@;
                mantissa.push(ch);
                assert(mantissa@ + dec_scan(t, self.position()).1 =~= before + (seq![ch] + dec_scan(t, self.position()).1));
            } else if ch == '.' && '0' <= self.peek_second() && self.peek_second() <= '9' {
                self.next();
                let ghost before = mantissa@;
                mantissa.push('.');
                assert(mantissa@ + dec_scan(t, self.position()).1 =~= before + (seq!['.'] + dec_scan(t, self.position()).1));
            } else if ch == '_' && !self.is_eof() {
                self.next();
            } else {
                assert(dec_scan(t, p).1 =~= Seq::<char>::empty());
                assert(mantissa@ + Seq::<char>::empty() =~= mantissa@);
                break;
            }
        }
        let ghost q = self.position();
        assert(dec_scan(t, self.position()).1 == Seq::<char>::empty());
        assert(seq![c] + dec_scan(t, start).1 == mantissa@ + dec_scan(t, self.position()).1);
        assert(mantissa@ + Seq::<char>::empty() =~= mantissa@);
        assert(mantissa@ =~= seq![c] + dec_scan(t, start).1);
        let p2 = self.peek();
        if p2 == 'e' || p2 == 'E' {
            self.next();
            let e = self.parse_integer();
            NumberLiteral { fmt: NumberFormat::Dec, mantissa, exponent: e, value: 0 }
        } else {
            NumberLiteral { fmt: NumberFormat::Dec, mantissa, exponent: 0, value: 0 }
        }
    }

    /// Reads the digits of a binary (`base` 2) or octal (`base` 8) number after its
    /// prefix letter, which is read first (see `radix_scan`).
    fn parse_radix(&mut self, base: u64, fmt: NumberFormat) -> (n: NumberLiteral)
        requires
            old(self).wf(),
            base == 2 || base == 8,
        ensures
            only_moved(old(self), final(self)),
            ({
                let t = old(self).chars();
                let p = if old(self).position() < t.len() { old(self).position() + 1 } else { old(self).position() };
                let (q, v) = radix_scan(t, p, base, 0);
                &&& final(self).position() == q
                &&& n.view() == (NumberView { fmt, mantissa: Seq::empty(), exponent: 0, value: v })
            }),
    {
        let ghost t = self.chars();
        self.next();
        let ghost start = self.position();
        let mut v: u64 = 0;
        loop
            invariant
                only_moved(old(self), self),
                t == self.chars(),
                t == old(self).chars(),
                start <= self.position() <= t.len(),
                base == 2 || base == 8,
                radix_scan(t, start, base, 0) == radix_scan(t, self.position(), base, v),
                start == (if old(self).position() < t.len() { old(self).position() + 1 } else { old(self).position() }),
            ensures
                radix_scan(t, self.position(), base, v) == (self.position(), v),
            decreases t.len() - self.position(),
        {
            let c = self.peek();
            if self.is_eof() {
                break;
            }
            if c == '_' {
                self.next();
            } else if c == '0' || c == '1' || (base == 8 && '0' <= c && c <= '7') {
                self.next();
                let d = (c as u32 - '0' as u32) as u64;
                v = v.wrapping_mul(base).wrapping_add(d);
            } else {
                break;
            }
        }
        NumberLiteral { fmt, mantissa: Vec::new(), exponent: 0, value: v }
    }

    /// Reads a binary number after `0`: the `b` and then its digits.
    pub fn parse_binary(&mut self) -> (n: NumberLiteral)
        requires
            old(self).wf(),
        ensures
            only_moved(old(self), final(self)),
            ({
                let t = old(self).chars();
                let p = if old(self).position() < t.len() { old(self).position() + 1 } else { old(self).position() };
                let (q, v) = radix_scan(t, p, 2, 0);
                &&& final(self).position() == q
                &&& n.view() == (NumberView { fmt: NumberFormat::Bin, mantissa: Seq::empty(), exponent: 0, value: v })
            }),
    {
        self.parse_radix(2, NumberFormat::Bin)
    }

    /// Reads an octal number after `0`: the `o` and then its digits.
    pub fn parse_oct(&mut self) -> (n: NumberLiteral)
        requires
            old(self).wf(),
        ensures
            only_moved(old(self), final(self)),
            ({
                let t = old(self).chars();
                let p = if old(self).position() < t.len() { old(self).position() + 1 } else { old(self).position() };
                let (q, v) = radix_scan(t, p, 8, 0);
                &&& final(self).position() == q
                &&& n.view() == (NumberView { fmt: NumberFormat::Oct, mantissa: Seq::empty(), exponent: 0, value: v })
            }),
    {
        self.parse_radix(8, NumberFormat::Oct)
    }

    /// Reads a hexadecimal number after `0`: the `x` and then its digits. Its digits must
    /// not be followed by `_`, on which this reader would never return.
    pub fn parse_hex(&mut self) -> (n: NumberLiteral)
        requires
            old(self).wf(),
            hex_scan(old(self).chars(), if old(self).position() < old(self).chars().len() { old(self).position() + 1 } else { old(self).position() }, 0) is Some,
        ensures
            only_moved(old(self), final(self)),
            ({
                let t = old(self).chars();
                let p = if old(self).position() < t.len() { old(self).position() + 1 } else { old(self).position() };
                let (q, v) = hex_scan(t, p, 0)->0;
                &&& final(self).position() == q
                &&& n.view() == (NumberView { fmt: NumberFormat::Hex, mantissa: Seq::empty(), exponent: 0, value: v })
            }),
    {
        let ghost t = self.chars();
        self.next();
        let ghost start = self.position();
        let mut v: u64 = 0;
        loop
            invariant
                only_moved(old(self), self),
                t == self.chars(),
                t == old(self).chars(),
                start <= self.position() <= t.len(),
                hex_scan(t, start, 0) == hex_scan(t, self.position(), v),
                start == (if old(self).position() < t.len() { old(self).position() + 1 } else { old(self).position() }),
                hex_scan(t, start, 0) is Some,
            ensures
                hex_scan(t, self.position(), v) == Some((self.position(), v)),
            decreases t.len() - self.position(),
        {
            if self.is_eof() {
                break;
            }
            let c = self.peek();
            let d: u64 = if '0' <= c && c <= '9' {
                (c as u32 - '0' as u32) as u64
            } else if 'a' <= c && c <= 'f' {
                (c as u32 - 'a' as u32 + 10) as u64
            } else if 'A' <= c && c <= 'F' {
                (c as u32 - 'A' as u32 + 10) as u64
            } else {
                break;
            };
            self.next();
            v = v.wrapping_mul(16).wrapping_add(d);
        }
        NumberLiteral { fmt: NumberFormat::Hex, mantissa: Vec::new(), exponent: 0, value: v }
    }

    /// Reads a number whose first character `c` was read (see `spec_parse_number`).
    pub fn parse_number(&mut self, c: char) -> (n: NumberLiteral)
        requires
            old(self).wf(),
            spec_parse_number(old(self).chars(), c, old(self).position()) is Some,
        ensures
            only_moved(old(self), final(self)),
            spec_parse_number(old(self).chars(), c, old(self).position()) == Some((final(self).position(), n.view())),
    {
        let ghost t = self.chars();
        if c == '0' {
            let p = self.peek();
            if p == 'b' || p == 'B' {
                self.parse_binary()
            } else if p == 'x' || p == 'X' {
                self.parse_hex()
            } else if p == 'o' || p == 'O' {
                self.parse_oct()
            } else {
                self.parse_decimal(c)
            }
        } else {
            self.parse_decimal(c)
        }
    }
}


/// The hexadecimal digits `0`..`9` and `a`..`f` have the values 0 to 15 in that order,
/// and an upper-case letter `A`..`F` has the value of its lower-case letter.
pub proof fn lemma_hex_digit_values()
    ensures
        forall|c: char| '0' <= c <= '9' ==> radix_digit(c, 16) == Some((c as int - 48) as u64),
        radix_digit('a', 16) == Some(10u64),
        radix_digit('b', 16) == Some(11u64),
        radix_digit('c', 16) == Some(12u64),
        radix_digit('d', 16) == Some(13u64),
        radix_digit('e', 16) == Some(14u64),
        radix_digit('f', 16) == Some(15u64),
        forall|c: char| 'a' <= c <= 'f' ==> #[trigger] radix_digit(c, 16) == radix_digit(((c as int) - 32) as char, 16),
{
}

} // verus!
