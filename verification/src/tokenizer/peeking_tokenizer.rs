use vstd::prelude::*;
use crate::errors::Error;
use crate::globals::SourceIndex;
use crate::globals::sources::Source;
use crate::tokenizer::{Token, TokenView, hex_ok, lemma_next_token_ok, spec_next_token, token_read_ok};
use crate::tokenizer::cursor::{Cursor, CursorView, NumberLiteral, NumberView};
use crate::tokenizer::token_type::TokenType;

verus! {

/// A reader of tokens that can look one token ahead, and two at a cost.
pub struct PeekingTokenizer<'a> {
    cur: Cursor<'a>,
    prev_cur: Cursor<'a>,
    peeked_token: Token,
    current_number: NumberLiteral,
}

impl<'a> PeekingTokenizer<'a> {
    /// The text read.
    pub closed spec fn text(&self) -> Seq<char> {
        self.cur.chars()
    }

    /// The index of the source read.
    pub closed spec fn source(&self) -> SourceIndex {
        self.cur.source_index
    }

    /// The errors found while reading.
    pub closed spec fn errors(&self) -> Vec<Error> {
        self.cur.errors
    }

    /// The token that `peek` gives.
    pub closed spec fn peeked(&self) -> Token {
        self.peeked_token
    }

    /// The number that `get_number` gives.
    pub closed spec fn number(&self) -> NumberView {
        self.current_number.view()
    }

    /// Where the reader stands after the peeked token: the state from which `next` reads
    /// the token after it.
    pub closed spec fn after_peeked(&self) -> CursorView {
        self.cur.view()
    }

    /// Where the reader stood before the peeked token.
    pub closed spec fn before_peeked(&self) -> CursorView {
        self.prev_cur.view()
    }

    /// The characters left to read from where the peeked token was read: each token
    /// taken by `next`, but the end of the text, makes this smaller.
    pub open spec fn rest(&self) -> int {
        if self.before_peeked().pos <= self.text().len() {
            self.text().len() - self.before_peeked().pos
        } else {
            0
        }
    }

    /// The reader's settings (newlines as tokens; dot and comma as decimal characters).
    pub open spec fn settings(&self) -> (bool, bool) {
        (self.after_peeked().nl_is_token, self.after_peeked().is_dot_and_comma_decimal)
    }

    /// The peeked token is the one read from where the reader stood before it, with the
    /// current settings, and no error was recorded while reading.
    pub closed spec fn wf(&self) -> bool {
        &&& self.cur.wf()
        &&& self.prev_cur.wf()
        &&& self.prev_cur.text == self.cur.text
        &&& self.prev_cur.source_index == self.cur.source_index
        &&& self.cur.errors@.len() == 0
        &&& self.prev_cur.errors@.len() == 0
        &&& self.peeked_token.range.source_index == self.cur.source_index
        &&& spec_next_token(self.cur.chars(), CursorView {
                nl_is_token: self.cur.nl_is_token,
                is_dot_and_comma_decimal: self.cur.is_dot_and_comma_decimal,
                ..self.prev_cur.view()
            }) == Some((self.cur.view(), self.peeked_token.view()))
        &&& token_read_ok(self.cur.chars(), CursorView {
                nl_is_token: self.cur.nl_is_token,
                is_dot_and_comma_decimal: self.cur.is_dot_and_comma_decimal,
                ..self.prev_cur.view()
            }, self.cur.view(), self.peeked_token.view())
    }

    /// A reader at the start of `source`, having peeked its first token, which must be
    /// one that can be read (not a hexadecimal number followed by `_`, on which reading
    /// never ends).
    pub fn new(source: &'a Source) -> (tok: PeekingTokenizer<'a>)
        requires
            source.wf(),
            spec_next_token(source.text@, crate::tokenizer::cursor::start_view()) is Some,
        ensures
            tok.wf(),
            tok.text() == source.text@,
            tok.source() == source.index,
            tok.settings() == (false, false),
            tok.before_peeked().pos == 0,
            tok.before_peeked() == crate::tokenizer::cursor::start_view(),
            spec_next_token(source.text@, tok.before_peeked()) == Some((tok.after_peeked(), tok.peeked().view())),
    {
        let mut cur = Cursor::new(source.chars.as_slice(), source.index);
        let prev_cur = cur.duplicate();
        let current_number = cur.number.duplicate();
        proof {
            lemma_next_token_ok(cur.chars(), cur.view());
        }
        let peeked_token = cur.next_token();
        PeekingTokenizer { cur, prev_cur, peeked_token, current_number }
    }

    /// The errors found while reading: reading tokens records none.
    pub fn get_errors(&self) -> (r: &Vec<Error>)
        requires
            self.wf(),
        ensures
            *r == self.errors(),
            r@.len() == 0,
    {
        &self.cur.errors
    }

    /// The index of the source read.
    pub fn source_index(&self) -> (r: SourceIndex)
        ensures
            r == self.source(),
    {
        self.cur.source_index()
    }

    /// The next token, without taking it.
    pub fn peek(&self) -> (t: &Token)
        ensures
            *t == self.peeked(),
    {
        &self.peeked_token
    }

    /// The token after the next one, without taking either. The reader is left exactly
    /// as it was, the place before the peeked token included, so that a later change of
    /// settings peeks again from where the peeked token was read.
    pub fn peek_second(&mut self) -> (t: Token)
        requires
            old(self).wf(),
            hex_ok(old(self).text()),
        ensures
            *final(self) == *old(self),
            spec_next_token(old(self).text(), old(self).after_peeked()) == Some((spec_next_token(old(self).text(), old(self).after_peeked()).unwrap().0, t.view())),
            t.range.source_index == old(self).source(),
    {
        let mut probe = self.cur.duplicate();
        proof {
            lemma_next_token_ok(probe.chars(), probe.view());
        }
        probe.next_token()
    }

    /// Takes the next token, and peeks the one after it; the number read with the taken
    /// token becomes the current number.
    pub fn next(&mut self) -> (t: Token)
        requires
            old(self).wf(),
            hex_ok(old(self).text()),
        ensures
            final(self).wf(),
            t == old(self).peeked(),
            final(self).text() == old(self).text(),
            final(self).source() == old(self).source(),
            final(self).settings() == old(self).settings(),
            final(self).before_peeked() == old(self).after_peeked(),
            final(self).number() == old(self).after_peeked().number,
            spec_next_token(old(self).text(), old(self).after_peeked()) == Some((final(self).after_peeked(), final(self).peeked().view())),
            final(self).rest() <= old(self).rest(),
            t.kind != TokenType::Eot ==> final(self).rest() < old(self).rest(),
    {
        self.prev_cur = self.cur.duplicate();
        let t = self.peeked_token;
        self.current_number = self.cur.number.duplicate();
        proof {
            lemma_next_token_ok(self.cur.chars(), self.cur.view());
        }
        self.peeked_token = self.cur.next_token();
        t
    }

    /// Sets whether a newline is a token, and peeks again from where the peeked token
    /// was read.
    pub fn set_nl_is_token(&mut self, is_token: bool)
        requires
            old(self).wf(),
            hex_ok(old(self).text()),
        ensures
            final(self).wf(),
            final(self).text() == old(self).text(),
            final(self).source() == old(self).source(),
            final(self).before_peeked() == old(self).before_peeked(),
            final(self).number() == old(self).number(),
            old(self).settings().0 == is_token ==> *final(self) == *old(self),
            old(self).settings().0 != is_token ==> {
                &&& final(self).settings() == (is_token, old(self).before_peeked().is_dot_and_comma_decimal)
                &&& spec_next_token(old(self).text(), CursorView { nl_is_token: is_token, ..old(self).before_peeked() })
                    == Some((final(self).after_peeked(), final(self).peeked().view()))
            },
    {
        if self.cur.nl_is_token == is_token {
            return;
        }
        self.cur = self.prev_cur.duplicate();
        self.cur.nl_is_token = is_token;
        proof {
            lemma_next_token_ok(self.cur.chars(), self.cur.view());
        }
        self.peeked_token = self.cur.next_token();
    }

    /// Sets whether dot and comma are both decimal characters, and peeks again from where
    /// the peeked token was read.
    pub fn set_dot_and_comma_decimal(&mut self, is_decimal: bool)
        requires
            old(self).wf(),
            hex_ok(old(self).text()),
        ensures
            final(self).wf(),
            final(self).text() == old(self).text(),
            final(self).source() == old(self).source(),
            final(self).before_peeked() == old(self).before_peeked(),
            final(self).number() == old(self).number(),
            old(self).settings().1 == is_decimal ==> *final(self) == *old(self),
            old(self).settings().1 != is_decimal ==> {
                &&& final(self).settings() == (old(self).before_peeked().nl_is_token, is_decimal)
                &&& spec_next_token(old(self).text(), CursorView { is_dot_and_comma_decimal: is_decimal, ..old(self).before_peeked() })
                    == Some((final(self).after_peeked(), final(self).peeked().view()))
            },
    {
        if self.cur.is_dot_and_comma_decimal == is_decimal {
            return;
        }
        self.cur = self.prev_cur.duplicate();
        self.cur.is_dot_and_comma_decimal = is_decimal;
        proof {
            lemma_next_token_ok(self.cur.chars(), self.cur.view());
        }
        self.peeked_token = self.cur.next_token();
    }

    /// The number read with the last token taken by `next` (a number token's value).
    pub fn get_number(&self) -> (n: NumberLiteral)
        ensures
            n.view() == self.number(),
    {
        self.current_number.duplicate()
    }
}

/// The peeked token lies in the source read and covers whole characters of its text, and
/// the reader stands within the text.
pub proof fn lemma_peeked_ok(tok: &PeekingTokenizer)
    requires
        tok.wf(),
    ensures
        tok.peeked().range.source_index == tok.source(),
        crate::globals::char_range_ok(tok.text(), tok.peeked().range.start as int, tok.peeked().range.end as int),
        0 <= tok.before_peeked().pos <= tok.after_peeked().pos <= tok.text().len(),
        tok.peeked().kind != TokenType::Eot ==> tok.before_peeked().pos < tok.after_peeked().pos,
{
}

} // verus!
