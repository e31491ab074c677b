use vstd::prelude::*;
use crate::globals::SourceIndex;
use crate::text::is_digit;
use crate::tokenizer::cursor::{
    Cursor, hex_scan, lemma_dec_scan, lemma_int_digits, lemma_radix_scan, lemma_hex_scan, dec_scan, CursorView, NumberView, Range, byte_pos, char_at, comment_end, eol_end, has_newline,
    id_end, is_id_start, lemma_byte_pos_mono, lemma_byte_pos_step, lemma_scan_ends, quote_end,
    spec_is_id_start, spec_match_word, spec_parse_number, ws_end,
};
use crate::tokenizer::token_type::TokenType;

pub mod cursor;
pub mod indexing;
pub mod peeking_tokenizer;
pub mod token_type;

verus! {

/// A token: its kind and the bytes of the source it covers.
#[derive(Clone, Copy, Debug, PartialEq, Eq, Structural)]
pub struct Token {
    pub kind: TokenType,
    pub range: Range,
}

/// What a token says: its kind and its byte range.
pub struct TokenView {
    pub kind: TokenType,
    pub start: int,
    pub end: int,
}

impl Token {
    /// A token of the given kind covering bytes `[start, end)` of a source.
    pub fn new(kind: TokenType, source_index: SourceIndex, start: usize, end: usize) -> (t: Token)
        ensures
            t.kind == kind,
            t.range == (Range { source_index, start, end }),
    {
        Token { kind, range: Range { source_index, start, end } }
    }

    /// The kind and byte range of this token.
    pub open spec fn view(&self) -> TokenView {
        TokenView { kind: self.kind, start: self.range.start as int, end: self.range.end as int }
    }
}

/// The cursor at `q` with its token of the given kind, from byte `start` to the byte
/// offset of `q`.
pub open spec fn token_to(t: Seq<char>, base: CursorView, kind: TokenType, start: int, q: int) -> Option<(CursorView, TokenView)> {
    Some((CursorView { pos: q, ..base }, TokenView { kind, start, end: byte_pos(t, q) as int }))
}

/// The token of a single character.
pub open spec fn single_char_token(c: char) -> Option<TokenType> {
    if c == '\n' {
        Some(TokenType::Newline)
    } else if c == '{' {
        Some(TokenType::CurlOpen)
    } else if c == '}' {
        Some(TokenType::CurlClose)
    } else if c == '(' {
        Some(TokenType::ParOpen)
    } else if c == ')' {
        Some(TokenType::ParClose)
    } else if c == '[' {
        Some(TokenType::BracOpen)
    } else if c == ']' {
        Some(TokenType::BracClose)
    } else if c == '^' {
        Some(TokenType::Power)
    } else if c == '=' {
        Some(TokenType::Eq)
    } else if c == ',' {
        Some(TokenType::Comma)
    } else if c == '|' {
        Some(TokenType::Pipe)
    } else if c == ';' {
        Some(TokenType::SemiColon)
    } else {
        None
    }
}

/// The token of an operator character `c`, read just before `st.pos`, and what it
/// reads after `c`: `%` or `%%`; `+=`, `++`, `+`; `-=`, `--`, `-`; `*=`, `*`; and the
/// single characters `\n { } ( ) [ ] ^ = , | ;`.
#[verifier::opaque]
pub open spec fn spec_operator_token(t: Seq<char>, st: CursorView, c: char) -> Option<(CursorView, TokenView)> {
    let p = st.pos;
    let start = byte_pos(t, p - 1) as int;
    let n1 = char_at(t, p);
    if single_char_token(c) is Some {
        token_to(t, st, single_char_token(c)->0, start, p)
    } else if c == '%' {
        if n1 == '%' {
            token_to(t, st, TokenType::Modulo, start, p + 1)
        } else {
            token_to(t, st, TokenType::Percent, start, p)
        }
    } else if c == '+' {
        if n1 == '=' {
            token_to(t, st, TokenType::EqPlus, start, p + 1)
        } else if n1 == '+' {
            token_to(t, st, TokenType::Inc, start, p + 1)
        } else {
            token_to(t, st, TokenType::Plus, start, p)
        }
    } else if c == '-' {
        if n1 == '=' {
            token_to(t, st, TokenType::EqMin, start, p + 1)
        } else if n1 == '-' {
            token_to(t, st, TokenType::Dec, start, p + 1)
        } else {
            token_to(t, st, TokenType::Min, start, p)
        }
    } else {
        if n1 == '=' {
            token_to(t, st, TokenType::EqMult, start, p + 1)
        } else {
            token_to(t, st, TokenType::Mult, start, p)
        }
    }
}

/// A character that `spec_operator_token` reads.
pub open spec fn is_operator_char(c: char) -> bool {
    single_char_token(c) is Some || c == '%' || c == '+' || c == '-' || c == '*'
}

/// The token that starts with `c`, read just before `st.pos`, for the characters that
/// are neither operators nor `/`: `!//` and the rest of its line as an echoed comment
/// (its range starts after `!//`), or `!`; `...`, `.=`, a number starting with a decimal
/// dot, or `.`; `#define`, `#undef` and `#pragma` as whole words, `#/`, or `#`; a quoted
/// text up to the next `'` (its range without the quotes); a number; an identifier
/// (`function` being a keyword); anything else is unknown. `None` where a hexadecimal
/// number is followed by `_`.
#[verifier::opaque]
pub open spec fn spec_other_token(t: Seq<char>, st: CursorView, c: char) -> Option<(CursorView, TokenView)> {
    let p = st.pos;
    let p0 = p - 1;
    let start = byte_pos(t, p0) as int;
    let n1 = char_at(t, p);
    let n2 = char_at(t, p + 1);
    if c == '!' {
        if n1 == '/' && n2 == '/' {
            token_to(t, st, TokenType::EchoCommentLine, start + 3, eol_end(t, p + 2))
        } else {
            token_to(t, st, TokenType::Exclam, start, p)
        }
    } else if c == '.' {
        if n1 == '.' && n2 == '.' {
            token_to(t, st, TokenType::Ellipsis, start, p + 2)
        } else if n1 == '=' {
            token_to(t, st, TokenType::EqUnit, start, p + 1)
        } else if is_digit(n1) {
            match spec_parse_number(t, '.', p) {
                Some((q, nv)) => token_to(t, CursorView { number: nv, ..st }, TokenType::Number, start, q),
                None => None,
            }
        } else {
            token_to(t, st, TokenType::Dot, start, p)
        }
    } else if c == '#' {
        if spec_match_word(t, p, "define"@) {
            token_to(t, st, TokenType::Define, start, p + 6)
        } else if spec_match_word(t, p, "undef"@) {
            token_to(t, st, TokenType::Undef, start, p + 5)
        } else if spec_match_word(t, p, "pragma"@) {
            token_to(t, st, TokenType::Pragma, start, p + 6)
        } else if n1 == '/' {
            token_to(t, st, TokenType::MuteEnd, start, p + 1)
        } else {
            token_to(t, st, TokenType::MuteLine, start, p)
        }
    } else if c == '\'' {
        let q = quote_end(t, p);
        let after = if q < t.len() { q + 1 } else { q };
        Some((
            CursorView { pos: after, ..st },
            TokenView { kind: TokenType::QuotedStr, start: start + 1, end: byte_pos(t, q) as int },
        ))
    } else if is_digit(c) {
        match spec_parse_number(t, c, p) {
            Some((q, nv)) => token_to(t, CursorView { number: nv, ..st }, TokenType::Number, start, q),
            None => None,
        }
    } else if spec_is_id_start(c) {
        let q = id_end(t, p);
        if t.subrange(p0, q) == "function"@ {
            token_to(t, st, TokenType::Function, start, q)
        } else {
            token_to(t, st, TokenType::Id, start, q)
        }
    } else {
        token_to(t, st, TokenType::Unknown, start, p)
    }
}

/// The next token from cursor state `cv` over text `t`, and the state after it; `None`
/// where the reader would never return (a hexadecimal number followed by `_`).
///
/// Whitespace is skipped first (a newline found is remembered). At the end of the text
/// the token is the end of text, with range `[0, 0)`. A `/` starts `/=`, `/#` or `/`,
/// or a line comment `//` or block comment `/* */`, which is skipped and the token after
/// it given. Every other character starts the token of `spec_operator_token` or
/// `spec_other_token`.
pub open spec fn spec_next_token(t: Seq<char>, cv: CursorView) -> Option<(CursorView, TokenView)>
    decreases t.len() - cv.pos,
{
    if cv.pos < 0 || cv.pos > t.len() {
        None
    } else {
        let p0 = ws_end(t, cv.pos, cv.nl_is_token);
        let base = CursorView {
            pos: p0,
            newline_found: cv.is_beginning_of_text || has_newline(t, cv.pos, p0),
            is_beginning_of_text: false,
            ..cv
        };
        if p0 >= t.len() {
            Some((base, TokenView { kind: TokenType::Eot, start: 0, end: 0 }))
        } else {
            let c = t[p0];
            let p = p0 + 1;
            let start = byte_pos(t, p0) as int;
            let n1 = char_at(t, p);
            let after_c = CursorView { pos: p, ..base };
            if c == '/' {
                if n1 == '=' {
                    token_to(t, base, TokenType::EqDiv, start, p + 1)
                } else if n1 == '/' {
                    proof {
                        lemma_scan_ends(t, p, cv.nl_is_token);
                        lemma_scan_ends(t, cv.pos, cv.nl_is_token);
                    }
                    spec_next_token(t, CursorView { pos: eol_end(t, p), ..base })
                } else if n1 == '*' {
                    proof {
                        lemma_scan_ends(t, p, cv.nl_is_token);
                        lemma_scan_ends(t, cv.pos, cv.nl_is_token);
                    }
                    spec_next_token(t, CursorView { pos: comment_end(t, p), ..base })
                } else if n1 == '#' {
                    token_to(t, base, TokenType::MuteStart, start, p + 1)
                } else {
                    token_to(t, base, TokenType::Div, start, p)
                }
            } else if is_operator_char(c) {
                spec_operator_token(t, after_c, c)
            } else {
                spec_other_token(t, after_c, c)
            }
        }
    }
}

/// A hexadecimal number may start at `i` (`0x` or `0X`) only where its digits are not
/// followed by `_`.
pub open spec fn hex_start_ok(t: Seq<char>, i: int) -> bool {
    (t[i] == '0' && (char_at(t, i + 1) == 'x' || char_at(t, i + 1) == 'X')) ==> hex_scan(t, i + 2, 0) is Some
}

/// The text can be read to its end: no hexadecimal number in it is followed by `_`.
pub open spec fn hex_ok(t: Seq<char>) -> bool {
    forall|i: int| 0 <= i < t.len() ==> #[trigger] hex_start_ok(t, i)
}

/// Byte `x` is the byte offset of some character of `t` (or of its end).
pub open spec fn at_char_start(t: Seq<char>, x: int) -> bool {
    exists|a: int| 0 <= a <= t.len() && x == #[trigger] byte_pos(t, a)
}

/// What holds of every token read from `cv`: the cursor moves forward within the text
/// (strictly, unless the token is the end of text), keeps its settings, and the token
/// covers whole characters, in order.
pub open spec fn token_read_ok(t: Seq<char>, cv: CursorView, cv2: CursorView, tok: TokenView) -> bool {
    &&& cv.pos <= cv2.pos <= t.len()
    &&& tok.kind != TokenType::Eot ==> cv.pos < cv2.pos
    &&& cv2.nl_is_token == cv.nl_is_token
    &&& cv2.is_dot_and_comma_decimal == cv.is_dot_and_comma_decimal
    &&& at_char_start(t, tok.start)
    &&& at_char_start(t, tok.end)
    &&& tok.start <= tok.end
}

/// A token read after the character at `p0` moves the cursor past `p0`, keeps its
/// settings and covers whole characters, in order.
pub open spec fn token_after_ok(t: Seq<char>, st: CursorView, p0: int, r: Option<(CursorView, TokenView)>) -> bool {
    &&& r is Some
    &&& p0 < r.unwrap().0.pos <= t.len()
    &&& r.unwrap().0.nl_is_token == st.nl_is_token
    &&& r.unwrap().0.is_dot_and_comma_decimal == st.is_dot_and_comma_decimal
    &&& r.unwrap().0.newline_found == st.newline_found
    &&& r.unwrap().0.is_beginning_of_text == st.is_beginning_of_text
    &&& at_char_start(t, r.unwrap().1.start)
    &&& at_char_start(t, r.unwrap().1.end)
    &&& r.unwrap().1.start <= r.unwrap().1.end
}

/// An operator token is read as `token_after_ok` says.
proof fn lemma_operator_token_ok(t: Seq<char>, st: CursorView, c: char)
    requires
        1 <= st.pos <= t.len(),
        c == t[st.pos - 1],
        is_operator_char(c),
    ensures
        token_after_ok(t, st, st.pos - 1, spec_operator_token(t, st, c)),
{
    reveal(spec_operator_token);
    let p = st.pos;
    lemma_byte_pos_step(t, p - 1);
    lemma_byte_pos_mono(t, p - 1, p);
    assert(byte_pos(t, p - 1) == byte_pos(t, p - 1));
    if p < t.len() {
        lemma_byte_pos_step(t, p);
    }
}

/// A number token whose first character was read at `p - 1` ends after it, within the
/// text, where no hexadecimal number is followed by `_`.
proof fn lemma_number_end(t: Seq<char>, c: char, p: int)
    requires
        1 <= p <= t.len(),
        c == '.' || hex_start_ok(t, p - 1) || spec_parse_number(t, c, p) is Some,
        c == '.' || c == t[p - 1],
    ensures
        spec_parse_number(t, c, p) is Some,
        p <= spec_parse_number(t, c, p).unwrap().0 <= t.len(),
{
    let n1 = char_at(t, p);
    if c == '0' && (n1 == 'b' || n1 == 'B') {
        lemma_radix_scan(t, p + 1, 2, 0);
    } else if c == '0' && (n1 == 'x' || n1 == 'X') {
        lemma_hex_scan(t, p + 1, 0);
    } else if c == '0' && (n1 == 'o' || n1 == 'O') {
        lemma_radix_scan(t, p + 1, 8, 0);
    } else {
        lemma_dec_scan(t, p);
        let q = dec_scan(t, p).0;
        if char_at(t, q) == 'e' || char_at(t, q) == 'E' {
            lemma_int_digits(t, q + 1, 0);
            if char_at(t, q + 1) == '-' || char_at(t, q + 1) == '+' {
                lemma_int_digits(t, q + 2, 0);
            }
        }
    }
}

/// Any other token is read as `token_after_ok` says.
proof fn lemma_other_token_ok(t: Seq<char>, st: CursorView, c: char)
    requires
        hex_start_ok(t, st.pos - 1) || spec_other_token(t, st, c) is Some,
        1 <= st.pos <= t.len(),
        c == t[st.pos - 1],
    ensures
        token_after_ok(t, st, st.pos - 1, spec_other_token(t, st, c)),
{
    reveal(spec_other_token);
    reveal_strlit("define");
    reveal_strlit("undef");
    reveal_strlit("pragma");
    let p = st.pos;
    let p0 = p - 1;
    let n1 = char_at(t, p);
    let n2 = char_at(t, p + 1);
    lemma_byte_pos_step(t, p0);
    assert(byte_pos(t, p0) == byte_pos(t, p0));
    lemma_scan_ends(t, p, st.nl_is_token);
    if p < t.len() {
        lemma_byte_pos_step(t, p);
        lemma_byte_pos_mono(t, p, t.len() as int);
    }
    if p + 1 < t.len() {
        lemma_byte_pos_step(t, p + 1);
    }
    if c == '!' {
        if n1 == '/' && n2 == '/' {
            lemma_scan_ends(t, p + 2, st.nl_is_token);
            lemma_byte_pos_mono(t, p + 2, eol_end(t, p + 2));
            assert(byte_pos(t, p0) + 3 == byte_pos(t, p + 2));
        }
    } else if c == '.' {
        if n1 == '.' && n2 == '.' {
            lemma_byte_pos_mono(t, p, p + 2);
        } else if n1 == '=' {
            lemma_byte_pos_mono(t, p, p + 1);
        } else if is_digit(n1) {
            lemma_number_end(t, '.', p);
            lemma_byte_pos_mono(t, p, spec_parse_number(t, '.', p).unwrap().0);
        }
    } else if c == '#' {
        if spec_match_word(t, p, "define"@) {
            lemma_byte_pos_mono(t, p, p + 6);
        } else if spec_match_word(t, p, "undef"@) {
            lemma_byte_pos_mono(t, p, p + 5);
        } else if spec_match_word(t, p, "pragma"@) {
            lemma_byte_pos_mono(t, p, p + 6);
        } else if n1 == '/' {
            lemma_byte_pos_mono(t, p, p + 1);
        }
    } else if c == '\'' {
        lemma_byte_pos_mono(t, p, quote_end(t, p));
    } else if is_digit(c) {
        lemma_number_end(t, c, p);
        lemma_byte_pos_mono(t, p, spec_parse_number(t, c, p).unwrap().0);
    } else if spec_is_id_start(c) {
        lemma_byte_pos_mono(t, p, id_end(t, p));
    }
}

/// On a text that can be read to its end, a token can be read from every place in it;
/// and a token that can be read is read as `token_read_ok` says.
pub proof fn lemma_next_token_ok(t: Seq<char>, cv: CursorView)
    requires
        hex_ok(t) || spec_next_token(t, cv) is Some,
        0 <= cv.pos <= t.len(),
    ensures
        spec_next_token(t, cv) is Some,
        token_read_ok(t, cv, spec_next_token(t, cv).unwrap().0, spec_next_token(t, cv).unwrap().1),
    decreases t.len() - cv.pos,
{
    lemma_scan_ends(t, cv.pos, cv.nl_is_token);
    let p0 = ws_end(t, cv.pos, cv.nl_is_token);
    let base = CursorView {
        pos: p0,
        newline_found: cv.is_beginning_of_text || has_newline(t, cv.pos, p0),
        is_beginning_of_text: false,
        ..cv
    };
    if p0 >= t.len() {
        assert(t.take(0) =~= Seq::<char>::empty());
        assert(byte_pos(t, 0) == 0);
    } else {
        let c = t[p0];
        let p = p0 + 1;
        let n1 = char_at(t, p);
        let after_c = CursorView { pos: p, ..base };
        lemma_scan_ends(t, p, cv.nl_is_token);
        lemma_byte_pos_step(t, p0);
        assert(byte_pos(t, p0) == byte_pos(t, p0));
        if p < t.len() {
            lemma_byte_pos_step(t, p);
        }
        lemma_byte_pos_mono(t, p0, p);
        if c == '/' {
            if n1 == '/' {
                lemma_next_token_ok(t, CursorView { pos: eol_end(t, p), ..base });
            } else if n1 == '*' {
                lemma_next_token_ok(t, CursorView { pos: comment_end(t, p), ..base });
            } else if n1 == '=' || n1 == '#' {
                lemma_byte_pos_mono(t, p, p + 1);
            }
        } else if is_operator_char(c) {
            lemma_operator_token_ok(t, after_c, c);
        } else {
            if hex_ok(t) {
                assert(hex_start_ok(t, p0));
            }
            lemma_other_token_ok(t, after_c, c);
        }
    }
}

/// A comment starts at `p`: `//` or `/*`.
pub open spec fn comment_at(t: Seq<char>, p: int) -> bool {
    0 <= p < t.len() && t[p] == '/' && (char_at(t, p + 1) == '/' || char_at(t, p + 1) == '*')
}

/// The newline flag after a token: where no comment stands between the whitespace and
/// the token, the token starts a new line exactly where the text starts at the reader,
/// or where the whitespace skipped before the token holds a newline (newlines read as
/// tokens end the whitespace before them); and the reader is no longer at the start.
/// Only the token itself must be readable: a hexadecimal number at its start is not
/// followed by `_`.
pub proof fn lemma_newline_flag(t: Seq<char>, cv: CursorView)
    requires
        0 <= cv.pos <= t.len(),
        !comment_at(t, ws_end(t, cv.pos, cv.nl_is_token)),
        hex_start_ok(t, ws_end(t, cv.pos, cv.nl_is_token)),
    ensures
        spec_next_token(t, cv) is Some,
        spec_next_token(t, cv).unwrap().0.newline_found
            == (cv.is_beginning_of_text || has_newline(t, cv.pos, ws_end(t, cv.pos, cv.nl_is_token))),
        !spec_next_token(t, cv).unwrap().0.is_beginning_of_text,
{
    lemma_scan_ends(t, cv.pos, cv.nl_is_token);
    let p0 = ws_end(t, cv.pos, cv.nl_is_token);
    let base = CursorView {
        pos: p0,
        newline_found: cv.is_beginning_of_text || has_newline(t, cv.pos, p0),
        is_beginning_of_text: false,
        ..cv
    };
    if p0 < t.len() {
        let c = t[p0];
        let p = p0 + 1;
        let after_c = CursorView { pos: p, ..base };
        if c == '/' {
        } else if is_operator_char(c) {
            lemma_operator_token_ok(t, after_c, c);
        } else {
            lemma_other_token_ok(t, after_c, c);
        }
    }
}

/// The characters `[a, b)` of `text` are the word `w`.
fn chars_match(text: &[char], a: usize, b: usize, w: &str) -> (r: bool)
    requires
        a <= b <= text@.len(),
    ensures
        r == (text@.subrange(a as int, b as int) == w@),
{
    let n = w.unicode_len();
    if b - a != n {
        return false;
    }
    let mut i: usize = 0;
    while i < n
        invariant
            a <= b <= text@.len(),
            b - a == n,
            n == w@.len(),
            0 <= i <= n,
            text@.subrange(a as int, a + i) == w@.take(i as int),
        decreases n - i,
    {
        if text[a + i] != w.get_char(i) {
            assert(text@.subrange(a as int, b as int)[i as int] != w@[i as int]);
            return false;
        }
        assert(text@.subrange(a as int, a + i + 1) =~= text@.subrange(a as int, a + i).push(text@[a + i]));
        assert(w@.take(i + 1) =~= w@.take(i as int).push(w@[i as int]));
        i = i + 1;
    }
    assert(w@.take(n as int) =~= w@);
    true
}

impl<'a> Cursor<'a> {
    /// The index of the source this cursor reads.
    pub fn source_index(&self) -> (r: SourceIndex)
        ensures
            r == self.source_index,
    {
        self.source_index
    }

    /// Reads the rest of an operator token whose character `c` was just read.
    fn operator_token(&mut self, c: char, start_pos: usize) -> (tok: Token)
        requires
            old(self).wf(),
            is_operator_char(c),
            old(self).position() >= 1,
            start_pos == byte_pos(old(self).chars(), old(self).position() - 1),
        ensures
            final(self).wf(),
            final(self).text == old(self).text,
            final(self).source_index == old(self).source_index,
            final(self).errors == old(self).errors,
            tok.range.source_index == old(self).source_index,
            spec_operator_token(old(self).chars(), old(self).view(), c) == Some((final(self).view(), tok.view())),
    {
        proof {
            reveal(spec_operator_token);
        }
        let n1 = self.peek();
        let token_type = if c == '\n' {
            TokenType::Newline
        } else if c == '{' {
            TokenType::CurlOpen
        } else if c == '}' {
            TokenType::CurlClose
        } else if c == '(' {
            TokenType::ParOpen
        } else if c == ')' {
            TokenType::ParClose
        } else if c == '[' {
            TokenType::BracOpen
        } else if c == ']' {
            TokenType::BracClose
        } else if c == '^' {
            TokenType::Power
        } else if c == '=' {
            TokenType::Eq
        } else if c == ',' {
            TokenType::Comma
        } else if c == '|' {
            TokenType::Pipe
        } else if c == ';' {
            TokenType::SemiColon
        } else if c == '%' {
            if n1 == '%' {
                self.next();
                TokenType::Modulo
            } else {
                TokenType::Percent
            }
        } else if c == '+' {
            if n1 == '=' {
                self.next();
                TokenType::EqPlus
            } else if n1 == '+' {
                self.next();
                TokenType::Inc
            } else {
                TokenType::Plus
            }
        } else if c == '-' {
            if n1 == '=' {
                self.next();
                TokenType::EqMin
            } else if n1 == '-' {
                self.next();
                TokenType::Dec
            } else {
                TokenType::Min
            }
        } else {
            if n1 == '=' {
                self.next();
                TokenType::EqMult
            } else {
                TokenType::Mult
            }
        };
        Token::new(token_type, self.source_index, start_pos, self.get_pos())
    }

    /// Reads the rest of a token that starts with `!`.
    fn bang_token(&mut self, c: char, start_pos: usize) -> (tok: Token)
        requires
            old(self).wf(),
            old(self).position() >= 1,
            old(self).chars()[old(self).position() - 1] == c,
            start_pos == byte_pos(old(self).chars(), old(self).position() - 1),
            spec_other_token(old(self).chars(), old(self).view(), c) is Some,
            c == '!',
        ensures
            final(self).wf(),
            final(self).text == old(self).text,
            final(self).source_index == old(self).source_index,
            final(self).errors == old(self).errors,
            tok.range.source_index == old(self).source_index,
            spec_other_token(old(self).chars(), old(self).view(), c) == Some((final(self).view(), tok.view())),
    {
        let ghost t = self.chars();
        let ghost p = self.position();
        let ghost p0 = p - 1;
        proof {
            reveal(spec_other_token);
            lemma_byte_pos_mono(t, p0, t.len() as int);
            assert(t.take(t.len() as int) =~= t);
            lemma_byte_pos_step(t, p0);
        }
        let n1 = self.peek();
        let n2 = self.peek_second();
        if n1 == '/' && n2 == '/' {
            self.next();
            self.next();
            self.get_to_eol();
            proof {
                lemma_byte_pos_step(t, p0 + 1);
                lemma_byte_pos_step(t, p0 + 2);
                lemma_byte_pos_mono(t, p0 + 3, t.len() as int);
            }
            let s = start_pos + 3;
            Token::new(TokenType::EchoCommentLine, self.source_index, s, self.get_pos())
        } else {
            Token::new(TokenType::Exclam, self.source_index, start_pos, self.get_pos())
        }
    }

    /// Reads the rest of a token that starts with `.`.
    fn dot_token(&mut self, c: char, start_pos: usize) -> (tok: Token)
        requires
            old(self).wf(),
            old(self).position() >= 1,
            old(self).chars()[old(self).position() - 1] == c,
            start_pos == byte_pos(old(self).chars(), old(self).position() - 1),
            spec_other_token(old(self).chars(), old(self).view(), c) is Some,
            c == '.',
        ensures
            final(self).wf(),
            final(self).text == old(self).text,
            final(self).source_index == old(self).source_index,
            final(self).errors == old(self).errors,
            tok.range.source_index == old(self).source_index,
            spec_other_token(old(self).chars(), old(self).view(), c) == Some((final(self).view(), tok.view())),
    {
        let ghost t = self.chars();
        let ghost p = self.position();
        let ghost p0 = p - 1;
        proof {
            reveal(spec_other_token);
            lemma_byte_pos_mono(t, p0, t.len() as int);
            assert(t.take(t.len() as int) =~= t);
            lemma_byte_pos_step(t, p0);
        }
        let n1 = self.peek();
        let n2 = self.peek_second();
        let token_type = if n1 == '.' && n2 == '.' {
            self.next();
            self.next();
            TokenType::Ellipsis
        } else if n1 == '=' {
            self.next();
            TokenType::EqUnit
        } else if '0' <= n1 && n1 <= '9' {
            self.number = self.parse_number('.');
            TokenType::Number
        } else {
            TokenType::Dot
        };
        Token::new(token_type, self.source_index, start_pos, self.get_pos())
    }

    /// Reads the rest of a token that starts with `#`.
    fn hash_token(&mut self, c: char, start_pos: usize) -> (tok: Token)
        requires
            old(self).wf(),
            old(self).position() >= 1,
            old(self).chars()[old(self).position() - 1] == c,
            start_pos == byte_pos(old(self).chars(), old(self).position() - 1),
            spec_other_token(old(self).chars(), old(self).view(), c) is Some,
            c == '#',
        ensures
            final(self).wf(),
            final(self).text == old(self).text,
            final(self).source_index == old(self).source_index,
            final(self).errors == old(self).errors,
            tok.range.source_index == old(self).source_index,
            spec_other_token(old(self).chars(), old(self).view(), c) == Some((final(self).view(), tok.view())),
    {
        let ghost t = self.chars();
        let ghost p = self.position();
        let ghost p0 = p - 1;
        proof {
            reveal(spec_other_token);
            lemma_byte_pos_mono(t, p0, t.len() as int);
            assert(t.take(t.len() as int) =~= t);
            lemma_byte_pos_step(t, p0);
        }
        proof {
            reveal_strlit("define");
            reveal_strlit("undef");
            reveal_strlit("pragma");
        }
        let token_type = if self.match_word("define") {
            TokenType::Define
        } else if self.match_word("undef") {
            TokenType::Undef
        } else if self.match_word("pragma") {
            TokenType::Pragma
        } else if self.peek() == '/' {
            self.next();
            TokenType::MuteEnd
        } else {
            TokenType::MuteLine
        };
        Token::new(token_type, self.source_index, start_pos, self.get_pos())
    }

    /// Reads the rest of a quoted text after its opening `'`.
    fn quote_token(&mut self, c: char, start_pos: usize) -> (tok: Token)
        requires
            old(self).wf(),
            old(self).position() >= 1,
            old(self).chars()[old(self).position() - 1] == c,
            start_pos == byte_pos(old(self).chars(), old(self).position() - 1),
            spec_other_token(old(self).chars(), old(self).view(), c) is Some,
            c == '\'',
        ensures
            final(self).wf(),
            final(self).text == old(self).text,
            final(self).source_index == old(self).source_index,
            final(self).errors == old(self).errors,
            tok.range.source_index == old(self).source_index,
            spec_other_token(old(self).chars(), old(self).view(), c) == Some((final(self).view(), tok.view())),
    {
        let ghost t = self.chars();
        let ghost p = self.position();
        let ghost p0 = p - 1;
        proof {
            reveal(spec_other_token);
            lemma_byte_pos_mono(t, p0, t.len() as int);
            assert(t.take(t.len() as int) =~= t);
            lemma_byte_pos_step(t, p0);
        }
        let s = start_pos + 1;
        self.eat_until_quote();
        let end_pos = self.get_pos();
        self.next();
        Token::new(TokenType::QuotedStr, self.source_index, s, end_pos)
    }

    /// Reads the rest of a number after its first digit.
    fn number_token(&mut self, c: char, start_pos: usize) -> (tok: Token)
        requires
            old(self).wf(),
            old(self).position() >= 1,
            old(self).chars()[old(self).position() - 1] == c,
            start_pos == byte_pos(old(self).chars(), old(self).position() - 1),
            spec_other_token(old(self).chars(), old(self).view(), c) is Some,
            '0' <= c <= '9',
        ensures
            final(self).wf(),
            final(self).text == old(self).text,
            final(self).source_index == old(self).source_index,
            final(self).errors == old(self).errors,
            tok.range.source_index == old(self).source_index,
            spec_other_token(old(self).chars(), old(self).view(), c) == Some((final(self).view(), tok.view())),
    {
        let ghost t = self.chars();
        let ghost p = self.position();
        let ghost p0 = p - 1;
        proof {
            reveal(spec_other_token);
            lemma_byte_pos_mono(t, p0, t.len() as int);
            assert(t.take(t.len() as int) =~= t);
            lemma_byte_pos_step(t, p0);
        }
        self.number = self.parse_number(c);
        Token::new(TokenType::Number, self.source_index, start_pos, self.get_pos())
    }

    /// Reads the rest of an identifier, or of anything else that is unknown.
    fn word_token(&mut self, c: char, start_pos: usize) -> (tok: Token)
        requires
            old(self).wf(),
            old(self).position() >= 1,
            old(self).chars()[old(self).position() - 1] == c,
            start_pos == byte_pos(old(self).chars(), old(self).position() - 1),
            spec_other_token(old(self).chars(), old(self).view(), c) is Some,
            c != '!' && c != '.' && c != '#' && c != '\'' && !('0' <= c <= '9'),
        ensures
            final(self).wf(),
            final(self).text == old(self).text,
            final(self).source_index == old(self).source_index,
            final(self).errors == old(self).errors,
            tok.range.source_index == old(self).source_index,
            spec_other_token(old(self).chars(), old(self).view(), c) == Some((final(self).view(), tok.view())),
    {
        let ghost t = self.chars();
        let ghost p = self.position();
        let ghost p0 = p - 1;
        proof {
            reveal(spec_other_token);
            lemma_byte_pos_mono(t, p0, t.len() as int);
            assert(t.take(t.len() as int) =~= t);
            lemma_byte_pos_step(t, p0);
        }
        let token_start = self.pos - 1;
        if is_id_start(c) {
            self.eat_id_continue();
            proof {
                lemma_scan_ends(t, p, false);
            }
            let kind = if chars_match(self.text, token_start, self.pos, "function") {
                TokenType::Function
            } else {
                TokenType::Id
            };
            Token::new(kind, self.source_index, start_pos, self.get_pos())
        } else {
            Token::new(TokenType::Unknown, self.source_index, start_pos, self.get_pos())
        }
    }

    /// Reads the next token (see `spec_next_token`). The text must not hold, where the
    /// token is read, a hexadecimal number followed by `_`, on which the reader would
    /// never return.
    pub fn next_token(&mut self) -> (tok: Token)
        requires
            old(self).wf(),
            spec_next_token(old(self).chars(), old(self).view()) is Some,
        ensures
            final(self).wf(),
            final(self).text == old(self).text,
            final(self).source_index == old(self).source_index,
            final(self).errors == old(self).errors,
            tok.range.source_index == old(self).source_index,
            spec_next_token(old(self).chars(), old(self).view()) == Some((final(self).view(), tok.view())),
        decreases old(self).chars().len() - old(self).position(),
    {
        let ghost t = self.chars();
        let ghost cv = self.view();
        proof {
            lemma_scan_ends(t, cv.pos, cv.nl_is_token);
        }
        self.eat_whitespace();
        let start_pos = self.get_pos();
        self.is_beginning_of_text = false;
        let ghost p0 = self.position();
        let first_char = match self.next() {
            None => {
                return Token::new(TokenType::Eot, self.source_index, 0, 0);
            },
            Some(c) => c,
        };
        let ghost p = p0 + 1;
        if first_char == '/' {
            let n1 = self.peek();
            if n1 == '=' {
                self.next();
                Token::new(TokenType::EqDiv, self.source_index, start_pos, self.get_pos())
            } else if n1 == '/' {
                self.get_to_eol();
                proof {
                    lemma_scan_ends(t, p, cv.nl_is_token);
                }
                self.next_token()
            } else if n1 == '*' {
                self.get_to_end_of_comment();
                proof {
                    lemma_scan_ends(t, p, cv.nl_is_token);
                }
                self.next_token()
            } else if n1 == '#' {
                self.next();
                Token::new(TokenType::MuteStart, self.source_index, start_pos, self.get_pos())
            } else {
                Token::new(TokenType::Div, self.source_index, start_pos, self.get_pos())
            }
        } else if first_char == '\n' || first_char == '{' || first_char == '}' || first_char == '('
            || first_char == ')' || first_char == '[' || first_char == ']' || first_char == '^'
            || first_char == '=' || first_char == ',' || first_char == '|' || first_char == ';'
            || first_char == '%' || first_char == '+' || first_char == '-' || first_char == '*' {
            self.operator_token(first_char, start_pos)
        } else if first_char == '!' {
            self.bang_token(first_char, start_pos)
        } else if first_char == '.' {
            self.dot_token(first_char, start_pos)
        } else if first_char == '#' {
            self.hash_token(first_char, start_pos)
        } else if first_char == '\'' {
            self.quote_token(first_char, start_pos)
        } else if '0' <= first_char && first_char <= '9' {
            self.number_token(first_char, start_pos)
        } else {
            self.word_token(first_char, start_pos)
        }
    }
}


proof fn lemma_hex_scan_acc(t: Seq<char>, p: int, a: u64, b: u64)
    ensures
        (hex_scan(t, p, a) is Some) == (hex_scan(t, p, b) is Some),
    decreases t.len() - p,
{
    if 0 <= p < t.len() && t[p] != '_' {
        if let Some(d) = crate::tokenizer::cursor::radix_digit(t[p], 16) {
            lemma_hex_scan_acc(t, p + 1, crate::tokenizer::cursor::wrap_u64(a, 16, d), crate::tokenizer::cursor::wrap_u64(b, 16, d));
        }
    }
}

fn is_hex_digit(c: char) -> (r: bool)
    ensures
        r == (crate::tokenizer::cursor::radix_digit(c, 16) is Some),
{
    ('0' <= c && c <= '9') || ('a' <= c && c <= 'f') || ('A' <= c && c <= 'F')
}

/// Whether `text` can be read to its end (see `hex_ok`): no hexadecimal number in it is
/// followed by `_`.
pub fn can_read_to_end(text: &str) -> (r: bool)
    ensures
        r == hex_ok(text@),
{
    let chars = crate::text::chars_of(text);
    let ghost t = text@;
    let n = chars.len();
    let mut i: usize = 0;
    while i < n
        invariant
            t == text@,
            chars@ == t,
            n == t.len(),
            0 <= i <= n,
            forall|k: int| 0 <= k < i ==> #[trigger] hex_start_ok(t, k),
        decreases n - i,
    {
        if chars[i] == '0' && i + 1 < n && (chars[i + 1] == 'x' || chars[i + 1] == 'X') {
            let mut j: usize = i + 2;
            while j < n && is_hex_digit(chars[j])
                invariant
                    chars@ == t,
                    n == t.len(),
                    i + 2 <= j <= n,
                    (hex_scan(t, i + 2, 0) is Some) == (hex_scan(t, j as int, 0) is Some),
                decreases n - j,
            {
                proof {
                    let d = crate::tokenizer::cursor::radix_digit(t[j as int], 16).unwrap();
                    lemma_hex_scan_acc(t, j + 1, crate::tokenizer::cursor::wrap_u64(0, 16, d), 0);
                }
                j = j + 1;
            }
            if j < n && chars[j] == '_' {
                proof {
                    assert(!hex_start_ok(t, i as int));
                }
                return false;
            }
            assert(hex_start_ok(t, i as int));
        }
        proof {
            assert(hex_start_ok(t, i as int));
        }
        i = i + 1;
    }
    true
}

} // verus!
