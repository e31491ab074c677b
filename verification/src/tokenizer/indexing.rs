use vstd::prelude::*;
use crate::text::chars_of;
use crate::tokenizer::cursor::{byte_pos, char_len_utf8, len_utf8, lemma_byte_pos_mono, lemma_byte_pos_step, utf8_len};

verus! {

/// A character of more than one byte: its byte offset and its number of bytes.
#[derive(Clone, Copy, Debug, PartialEq, Eq, Structural)]
pub struct MultiByteChar {
    pub pos: usize,
    pub bytes: u8,
}

/// Where the lines of a source text start and where its multi-byte characters are, by
/// byte offset, so that byte offsets can be turned into lines, columns and character
/// indices.
pub struct FileIndex {
    pub lines: Vec<usize>,
    pub multi_byte_chars: Vec<MultiByteChar>,
    pub text: Ghost<Seq<char>>,
}

/// The byte offsets just after each newline among the first `k` characters, in order.
pub open spec fn spec_lines(t: Seq<char>, k: int) -> Seq<int>
    decreases k,
{
    if k <= 0 {
        Seq::empty()
    } else if t[k - 1] == '\n' {
        spec_lines(t, k - 1).push(byte_pos(t, k) as int)
    } else {
        spec_lines(t, k - 1)
    }
}

/// The byte offset and length of each character of more than one byte among the first
/// `k` characters, in order.
pub open spec fn spec_mbcs(t: Seq<char>, k: int) -> Seq<(int, int)>
    decreases k,
{
    if k <= 0 {
        Seq::empty()
    } else if char_len_utf8(t[k - 1]) > 1 {
        spec_mbcs(t, k - 1).push((byte_pos(t, k - 1) as int, char_len_utf8(t[k - 1]) as int))
    } else {
        spec_mbcs(t, k - 1)
    }
}

/// The line starts as integers.
pub open spec fn lines_view(v: Seq<usize>) -> Seq<int> {
    v.map_values(|x: usize| x as int)
}

/// The multi-byte characters as pairs of integers.
pub open spec fn mbcs_view(v: Seq<MultiByteChar>) -> Seq<(int, int)> {
    v.map_values(|m: MultiByteChar| (m.pos as int, m.bytes as int))
}

/// The extra bytes (beyond one per character) of the multi-byte characters from entry
/// `i` on that lie before byte `bpos`, counted up to the first one that does not.
pub open spec fn extra_from(ms: Seq<(int, int)>, bpos: int, i: int) -> int
    decreases ms.len() - i,
{
    if i < 0 || i >= ms.len() {
        0
    } else if ms[i].0 < bpos {
        ms[i].1 - 1 + extra_from(ms, bpos, i + 1)
    } else {
        0
    }
}

/// The number of line starts at or before byte `pos`.
pub open spec fn lines_upto(ls: Seq<int>, pos: int, k: int) -> nat
    decreases k,
{
    if k <= 0 {
        0
    } else {
        lines_upto(ls, pos, k - 1) + if ls[k - 1] <= pos { 1nat } else { 0nat }
    }
}

impl FileIndex {
    /// The index describes its text.
    pub open spec fn wf(&self) -> bool {
        &&& lines_view(self.lines@) == spec_lines(self.text@, self.text@.len() as int)
        &&& mbcs_view(self.multi_byte_chars@) == spec_mbcs(self.text@, self.text@.len() as int)
        &&& utf8_len(self.text@) <= usize::MAX
    }

    /// Indexes the lines and multi-byte characters of `src`.
    pub fn new(src: &str) -> (f: FileIndex)
        requires
            utf8_len(src@) <= usize::MAX,
        ensures
            f.wf(),
            f.text@ == src@,
    {
        let chars = chars_of(src);
        let mut file_index = FileIndex { lines: Vec::new(), multi_byte_chars: Vec::new(), text: Ghost(src@) };
        file_index.index_lines_and_multibytechars(&chars);
        file_index
    }

    fn index_lines_and_multibytechars(&mut self, chars: &Vec<char>)
        requires
            old(self).lines@.len() == 0,
            old(self).multi_byte_chars@.len() == 0,
            chars@ == old(self).text@,
            utf8_len(chars@) <= usize::MAX,
        ensures
            final(self).wf(),
            final(self).text == old(self).text,
    {
        let ghost t = chars@;
        let mut i: usize = 0;
        let mut pos: usize = 0;
        proof {
            assert(lines_view(self.lines@) =~= Seq::<int>::empty());
            assert(mbcs_view(self.multi_byte_chars@) =~= Seq::<(int, int)>::empty());
        }
        while i < chars.len()
            invariant
                t == chars@,
                t == self.text@,
                self.text == old(self).text,
                utf8_len(t) <= usize::MAX,
                0 <= i <= t.len(),
                pos == byte_pos(t, i as int),
                lines_view(self.lines@) == spec_lines(t, i as int),
                mbcs_view(self.multi_byte_chars@) == spec_mbcs(t, i as int),
            decreases t.len() - i,
        {
            let c = chars[i];
            let char_len = len_utf8(c);
            proof {
                lemma_byte_pos_step(t, i as int);
                lemma_byte_pos_mono(t, i + 1, t.len() as int);
                assert(t.take(t.len() as int) =~= t);
            }
            if c == '\n' {
                let ghost before = self.lines@;
                self.lines.push(pos + 1);
                assert(lines_view(self.lines@) =~= lines_view(before).push(byte_pos(t, i + 1) as int));
            }
            if char_len > 1 {
                let ghost before = self.multi_byte_chars@;
                let m = MultiByteChar { pos, bytes: char_len as u8 };
                self.multi_byte_chars.push(m);
                assert(mbcs_view(self.multi_byte_chars@) =~= mbcs_view(before).push((pos as int, char_len as int)));
            }
            pos = pos + char_len;
            i = i + 1;
        }
        assert(t.len() == self.text@.len());
    }

    /// The character index of byte offset `bpos`: the offset less the extra bytes of the
    /// multi-byte characters before it (see `extra_from`). `bpos` must not lie so far
    /// inside a multi-byte character that the extra bytes exceed it.
    pub fn bytepos_to_charpos(&self, bpos: usize) -> (r: usize)
        requires
            self.wf(),
            extra_from(mbcs_view(self.multi_byte_chars@), bpos as int, 0) <= bpos,
        ensures
            r == bpos - extra_from(mbcs_view(self.multi_byte_chars@), bpos as int, 0),
    {
        let ghost ms = mbcs_view(self.multi_byte_chars@);
        let mut total_extra_bytes: usize = 0;
        let mut i: usize = 0;
        proof {
            lemma_mbcs_lengths(self.text@, self.text@.len() as int);
            lemma_extra_nonneg(ms, bpos as int, 0);
        }
        while i < self.multi_byte_chars.len()
            invariant_except_break
                total_extra_bytes + extra_from(ms, bpos as int, i as int) == extra_from(ms, bpos as int, 0),
            invariant
                ms == mbcs_view(self.multi_byte_chars@),
                forall|j: int| 0 <= j < ms.len() ==> 2 <= #[trigger] ms[j].1 <= 4,
                0 <= i <= ms.len(),
                extra_from(ms, bpos as int, 0) <= bpos,
                total_extra_bytes <= extra_from(ms, bpos as int, 0),
            ensures
                total_extra_bytes == extra_from(ms, bpos as int, 0),
            decreases ms.len() - i,
        {
            let mbc = self.multi_byte_chars[i];
            assert(ms[i as int] == (mbc.pos as int, mbc.bytes as int));
            proof {
                lemma_extra_nonneg(ms, bpos as int, i + 1);
            }
            if mbc.pos < bpos {
                total_extra_bytes = total_extra_bytes + (mbc.bytes as usize - 1);
            } else {
                break;
            }
            i = i + 1;
        }
        bpos - total_extra_bytes
    }

    /// The index into `lines` of the line holding byte `pos`: one less than the number
    /// of line starts at or before `pos`, or `None` where there is none (the first line).
    fn get_line_index(&self, pos: usize) -> (r: Option<usize>)
        ensures
            r == (if lines_upto(lines_view(self.lines@), pos as int, self.lines@.len() as int) == 0 {
                None::<usize>
            } else {
                Some((lines_upto(lines_view(self.lines@), pos as int, self.lines@.len() as int) - 1) as usize)
            }),
    {
        let ghost ls = lines_view(self.lines@);
        let mut count: usize = 0;
        let mut i: usize = 0;
        while i < self.lines.len()
            invariant
                ls == lines_view(self.lines@),
                0 <= i <= ls.len(),
                count == lines_upto(ls, pos as int, i as int),
                count <= i,
            decreases ls.len() - i,
        {
            if self.lines[i] <= pos {
                count = count + 1;
            }
            i = i + 1;
        }
        if count == 0 {
            None
        } else {
            Some(count - 1)
        }
    }

    /// The line (counted from 0, one more for each newline before it) and column (in
    /// characters from the start of that line) of byte `pos`.
    pub fn get_line_and_column(&self, pos: usize) -> (r: (usize, usize))
        requires
            self.wf(),
            line_and_column_defined(self, pos as int),
        ensures
            r == spec_line_and_column(self, pos as int),
    {
        let chpos = self.bytepos_to_charpos(pos);
        proof {
            lemma_lines_upto_bound(lines_view(self.lines@), pos as int, self.lines@.len() as int);
        }
        let n_lines = self.lines.len();
        let idx = self.get_line_index(pos);
        if let Some(a) = idx {
            assert(a + 1 == line_count_at(self, pos as int));
            assert(a < n_lines);
            let line = a + 1;
            let linebpos = self.lines[a];
            let linechpos = self.bytepos_to_charpos(linebpos);
            let col = chpos - linechpos;
            return (line, col);
        }
        (0, chpos)
    }
}

/// The character index that `bytepos_to_charpos` gives for byte `b`.
pub open spec fn spec_charpos(f: &FileIndex, b: int) -> int {
    b - extra_from(mbcs_view(f.multi_byte_chars@), b, 0)
}

/// The number of line starts at or before byte `pos`.
pub open spec fn line_count_at(f: &FileIndex, pos: int) -> nat {
    lines_upto(lines_view(f.lines@), pos, f.lines@.len() as int)
}

/// Byte `pos` lies at a place whose line and column can be given: the character index
/// of it, and of the start of its line, are defined and in order.
pub open spec fn line_and_column_defined(f: &FileIndex, pos: int) -> bool {
    &&& 0 <= pos
    &&& extra_from(mbcs_view(f.multi_byte_chars@), pos, 0) <= pos
    &&& line_count_at(f, pos) > 0 ==> {
        let lb = f.lines@[line_count_at(f, pos) - 1] as int;
        &&& extra_from(mbcs_view(f.multi_byte_chars@), lb, 0) <= lb
        &&& spec_charpos(f, lb) <= spec_charpos(f, pos)
    }
}

/// The line and column of byte `pos`: on the first line the column is the character
/// index; on a later line, the line is the number of line starts up to `pos` and the
/// column counts characters from the start of that line.
pub open spec fn spec_line_and_column(f: &FileIndex, pos: int) -> (usize, usize) {
    let n = line_count_at(f, pos);
    if n == 0 {
        (0, spec_charpos(f, pos) as usize)
    } else {
        (n as usize, (spec_charpos(f, pos) - spec_charpos(f, f.lines@[n - 1] as int)) as usize)
    }
}

/// No more line starts are counted than there are.
pub proof fn lemma_lines_upto_bound(ls: Seq<int>, pos: int, k: int)
    ensures
        lines_upto(ls, pos, k) <= if k < 0 { 0 } else { k },
    decreases k,
{
    if k > 0 {
        lemma_lines_upto_bound(ls, pos, k - 1);
    }
}

/// The extra bytes counted from any entry on are never negative.
pub proof fn lemma_extra_nonneg(ms: Seq<(int, int)>, bpos: int, i: int)
    requires
        forall|j: int| 0 <= j < ms.len() ==> 2 <= #[trigger] ms[j].1 <= 4,
    ensures
        extra_from(ms, bpos, i) >= 0,
    decreases ms.len() - i,
{
    if 0 <= i < ms.len() && ms[i].0 < bpos {
        lemma_extra_nonneg(ms, bpos, i + 1);
    }
}

/// Every multi-byte character takes two to four bytes.
pub proof fn lemma_mbcs_lengths(t: Seq<char>, k: int)
    ensures
        forall|j: int| 0 <= j < spec_mbcs(t, k).len() ==> 2 <= #[trigger] spec_mbcs(t, k)[j].1 <= 4,
    decreases k,
{
    if k > 0 {
        lemma_mbcs_lengths(t, k - 1);
        let prev = spec_mbcs(t, k - 1);
        if char_len_utf8(t[k - 1]) > 1 {
            let cur = prev.push((byte_pos(t, k - 1) as int, char_len_utf8(t[k - 1]) as int));
            assert(spec_mbcs(t, k) == cur);
            assert forall|j: int| 0 <= j < cur.len() implies 2 <= #[trigger] cur[j].1 <= 4 by {
                if j < prev.len() {
                    assert(cur[j] == prev[j]);
                }
            }
        }
    }
}

/// Each character takes at least one byte, so byte offsets grow at least as fast as
/// character indices.
pub proof fn lemma_byte_pos_grows(t: Seq<char>, i: int, j: int)
    requires
        0 <= i <= j <= t.len(),
    ensures
        byte_pos(t, i) + (j - i) <= byte_pos(t, j),
    decreases j - i,
{
    if i < j {
        lemma_byte_pos_grows(t, i, j - 1);
        lemma_byte_pos_step(t, j - 1);
    }
}

/// Every multi-byte character recorded among the first `k` lies before the byte offset
/// of character `k`.
pub proof fn lemma_mbcs_before(t: Seq<char>, k: int)
    requires
        0 <= k <= t.len(),
    ensures
        forall|j: int| 0 <= j < spec_mbcs(t, k).len() ==> #[trigger] spec_mbcs(t, k)[j].0 < byte_pos(t, k),
    decreases k,
{
    if k > 0 {
        lemma_mbcs_before(t, k - 1);
        lemma_byte_pos_step(t, k - 1);
        let prev = spec_mbcs(t, k - 1);
        if char_len_utf8(t[k - 1]) > 1 {
            let cur = prev.push((byte_pos(t, k - 1) as int, char_len_utf8(t[k - 1]) as int));
            assert(spec_mbcs(t, k) == cur);
            assert forall|j: int| 0 <= j < cur.len() implies #[trigger] cur[j].0 < byte_pos(t, k) by {
                if j < prev.len() {
                    assert(cur[j] == prev[j]);
                }
            }
        }
    }
}

/// An entry at or after `b`, added at the end, changes nothing before `b`.
pub proof fn lemma_extra_push_after(ms: Seq<(int, int)>, x: (int, int), b: int, j: int)
    requires
        0 <= j <= ms.len(),
        x.0 >= b,
    ensures
        extra_from(ms.push(x), b, j) == extra_from(ms, b, j),
    decreases ms.len() - j,
{
    let ps = ms.push(x);
    if j < ms.len() {
        assert(ps[j] == ms[j]);
        if ms[j].0 < b {
            lemma_extra_push_after(ms, x, b, j + 1);
        }
    } else {
        assert(ps[j] == x);
    }
}

/// An entry before `b`, added at the end of entries that all lie before `b`, adds its
/// extra bytes.
pub proof fn lemma_extra_push_before(ms: Seq<(int, int)>, x: (int, int), b: int, j: int)
    requires
        0 <= j <= ms.len(),
        x.0 < b,
        forall|k: int| 0 <= k < ms.len() ==> #[trigger] ms[k].0 < b,
    ensures
        extra_from(ms.push(x), b, j) == extra_from(ms, b, j) + x.1 - 1,
    decreases ms.len() - j,
{
    let ps = ms.push(x);
    if j < ms.len() {
        assert(ps[j] == ms[j]);
        lemma_extra_push_before(ms, x, b, j + 1);
    } else {
        assert(ps[j] == x);
        assert(extra_from(ps, b, j + 1) == 0);
    }
}

/// The extra bytes before the byte offset of character `i`, among the multi-byte
/// characters of the first `k`, are those of the first `min(i, k)` characters.
pub proof fn lemma_extra_upto(t: Seq<char>, i: int, k: int)
    requires
        0 <= i <= t.len(),
        0 <= k <= t.len(),
    ensures
        extra_from(spec_mbcs(t, k), byte_pos(t, i) as int, 0)
            == byte_pos(t, if k <= i { k } else { i }) - (if k <= i { k } else { i }),
    decreases k,
{
    let b = byte_pos(t, i) as int;
    if k == 0 {
        assert(t.take(0) =~= Seq::<char>::empty());
    } else {
        lemma_extra_upto(t, i, k - 1);
        lemma_byte_pos_step(t, k - 1);
        let prev = spec_mbcs(t, k - 1);
        if char_len_utf8(t[k - 1]) > 1 {
            let x = (byte_pos(t, k - 1) as int, char_len_utf8(t[k - 1]) as int);
            assert(spec_mbcs(t, k) == prev.push(x));
            if k <= i {
                lemma_mbcs_before(t, k - 1);
                lemma_byte_pos_grows(t, k, i);
                lemma_extra_push_before(prev, x, b, 0);
            } else {
                lemma_byte_pos_grows(t, i, k - 1);
                lemma_extra_push_after(prev, x, b, 0);
            }
        }
    }
}

/// For the byte offset of any character, `bytepos_to_charpos` is defined and gives back
/// the index of that character.
pub proof fn lemma_charpos_of_char_start(f: &FileIndex, i: int)
    requires
        f.wf(),
        0 <= i <= f.text@.len(),
    ensures
        extra_from(mbcs_view(f.multi_byte_chars@), byte_pos(f.text@, i) as int, 0) <= byte_pos(f.text@, i),
        spec_charpos(f, byte_pos(f.text@, i) as int) == i,
{
    let t = f.text@;
    lemma_extra_upto(t, i, t.len() as int);
    lemma_byte_pos_grows(t, 0, i);
    assert(t.take(0) =~= Seq::<char>::empty());
}

/// The number of newlines among the first `i` characters.
pub open spec fn newlines_before(t: Seq<char>, i: int) -> nat
    decreases i,
{
    if i <= 0 {
        0
    } else if t[i - 1] == '\n' {
        newlines_before(t, i - 1) + 1
    } else {
        newlines_before(t, i - 1)
    }
}

/// The index of the first character of the line that holds character `i`: just after
/// the last newline before it, or 0.
pub open spec fn last_line_start(t: Seq<char>, i: int) -> int
    decreases i,
{
    if i <= 0 {
        0
    } else if t[i - 1] == '\n' {
        i
    } else {
        last_line_start(t, i - 1)
    }
}

/// The line starts among the first `i` characters: one per newline, all at or before
/// the byte offset of `i`, the last at the start of the line holding `i`.
pub proof fn lemma_lines_upto_char(t: Seq<char>, i: int)
    requires
        0 <= i <= t.len(),
    ensures
        spec_lines(t, i).len() == newlines_before(t, i),
        0 <= last_line_start(t, i) <= i,
        newlines_before(t, i) == 0 ==> last_line_start(t, i) == 0,
        newlines_before(t, i) > 0 ==> spec_lines(t, i).last() == byte_pos(t, last_line_start(t, i)),
        forall|j: int| 0 <= j < spec_lines(t, i).len() ==> #[trigger] spec_lines(t, i)[j] <= byte_pos(t, i),
    decreases i,
{
    if i > 0 {
        lemma_lines_upto_char(t, i - 1);
        lemma_byte_pos_step(t, i - 1);
        let prev = spec_lines(t, i - 1);
        if t[i - 1] == '\n' {
            let cur = prev.push(byte_pos(t, i) as int);
            assert(spec_lines(t, i) == cur);
            assert forall|j: int| 0 <= j < cur.len() implies #[trigger] cur[j] <= byte_pos(t, i) by {
                if j < prev.len() {
                    assert(cur[j] == prev[j]);
                }
            }
        }
    }
}

/// The line starts of a longer prefix begin with those of a shorter one; the rest lie
/// after the byte offset where the shorter one ends.
pub proof fn lemma_lines_extend(t: Seq<char>, i: int, m: int)
    requires
        0 <= i <= m <= t.len(),
    ensures
        spec_lines(t, i).len() <= spec_lines(t, m).len(),
        forall|j: int| 0 <= j < spec_lines(t, i).len() ==> #[trigger] spec_lines(t, m)[j] == spec_lines(t, i)[j],
        forall|j: int| spec_lines(t, i).len() <= j < spec_lines(t, m).len() ==> #[trigger] spec_lines(t, m)[j] > byte_pos(t, i),
    decreases m - i,
{
    if i < m {
        lemma_lines_extend(t, i, m - 1);
        lemma_byte_pos_step(t, m - 1);
        lemma_byte_pos_grows(t, i, m - 1);
        let prev = spec_lines(t, m - 1);
        if t[m - 1] == '\n' {
            let cur = prev.push(byte_pos(t, m) as int);
            assert(spec_lines(t, m) == cur);
            assert forall|j: int| 0 <= j < spec_lines(t, i).len() implies #[trigger] cur[j] == spec_lines(t, i)[j] by {
                assert(cur[j] == prev[j]);
            }
            assert forall|j: int| spec_lines(t, i).len() <= j < cur.len() implies #[trigger] cur[j] > byte_pos(t, i) by {
                if j < prev.len() {
                    assert(cur[j] == prev[j]);
                }
            }
        }
    }
}

/// Where the first `p` line starts lie at or before `pos` and the others after it, `p`
/// of the first `k` lie at or before it (`k` at most `p`).
pub proof fn lemma_lines_upto_split(ls: Seq<int>, pos: int, p: int, k: int)
    requires
        0 <= p <= ls.len(),
        0 <= k <= ls.len(),
        forall|j: int| 0 <= j < p ==> #[trigger] ls[j] <= pos,
        forall|j: int| p <= j < ls.len() ==> #[trigger] ls[j] > pos,
    ensures
        lines_upto(ls, pos, k) == if k <= p { k } else { p },
    decreases k,
{
    if k > 0 {
        lemma_lines_upto_split(ls, pos, p, k - 1);
    }
}

/// At the byte offset of any character, `get_line_and_column` is defined and gives the
/// number of newlines before that character and its distance from the start of its line.
pub proof fn lemma_line_and_column_of_char_start(f: &FileIndex, i: int)
    requires
        f.wf(),
        0 <= i <= f.text@.len(),
    ensures
        line_and_column_defined(f, byte_pos(f.text@, i) as int),
        spec_line_and_column(f, byte_pos(f.text@, i) as int)
            == (newlines_before(f.text@, i) as usize, (i - last_line_start(f.text@, i)) as usize),
{
    let t = f.text@;
    let b = byte_pos(t, i) as int;
    let n = t.len() as int;
    let ls = lines_view(f.lines@);
    lemma_charpos_of_char_start(f, i);
    lemma_lines_upto_char(t, i);
    lemma_lines_extend(t, i, n);
    let p = spec_lines(t, i).len() as int;
    assert forall|j: int| 0 <= j < p implies #[trigger] ls[j] <= b by {
        assert(ls[j] == spec_lines(t, n)[j]);
        assert(spec_lines(t, n)[j] == spec_lines(t, i)[j]);
    }
    assert forall|j: int| p <= j < ls.len() implies #[trigger] ls[j] > b by {
        assert(ls[j] == spec_lines(t, n)[j]);
    }
    lemma_lines_upto_split(ls, b, p, ls.len() as int);
    assert(line_count_at(f, b) == p);
    if p > 0 {
        let lls = last_line_start(t, i);
        assert(ls[p - 1] == spec_lines(t, i)[p - 1]);
        assert(f.lines@[p - 1] as int == ls[p - 1]);
        lemma_charpos_of_char_start(f, lls);
    }
}

} // verus!
