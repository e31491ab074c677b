use vstd::prelude::*;
use crate::text::{std_lowercase, to_lowercase};
use crate::tokenizer::cursor::{is_id_continue, is_id_start, spec_is_id_start, spec_is_xid_continue};

verus! {

/// What `char::is_uppercase` gives for a character (its Unicode `Uppercase` property).
pub uninterp spec fn std_is_uppercase(c: char) -> bool;

/// Calls `char::is_uppercase`. Claimed: the result is a function of the character alone
/// (named `std_is_uppercase`), and for an ASCII character it holds exactly of `A`..`Z`.
#[verifier::external_body]
fn is_uppercase(c: char) -> (r: bool)
    ensures
        r == std_is_uppercase(c),
        (c as u32) < 0x80 ==> (r == ('A' <= c && c <= 'Z')),
{
    c.is_uppercase()
}

/// The parts of `s` from index `i` on, a part starting at each uppercase character
/// (empty parts left out); `last` is where the current part started.
pub open spec fn upper_parts(s: Seq<char>, i: int, last: int) -> Seq<Seq<char>>
    decreases s.len() - i,
{
    if i < 0 || i >= s.len() {
        if 0 <= last < s.len() { seq![s.subrange(last, s.len() as int)] } else { Seq::empty() }
    } else if std_is_uppercase(s[i]) {
        (if last != i { seq![s.subrange(last, i)] } else { Seq::empty() }) + upper_parts(s, i + 1, i)
    } else {
        upper_parts(s, i + 1, last)
    }
}

/// Each part lowercased and followed by `_`, all joined.
pub open spec fn join_lower(parts: Seq<Seq<char>>) -> Seq<char>
    decreases parts.len(),
{
    if parts.len() == 0 {
        Seq::empty()
    } else {
        join_lower(parts.drop_last()) + std_lowercase(parts.last()) + seq!['_']
    }
}

/// A name in `CamelCase` as `snake_case`: split before each uppercase character,
/// lowercased, joined by `_`.
pub open spec fn spec_to_camel_case(s: Seq<char>) -> Seq<char> {
    let j = join_lower(upper_parts(s, 0, 0));
    if j.len() > 0 { j.drop_last() } else { j }
}

/// `id_str` in `CamelCase` as `snake_case` (see `spec_to_camel_case`).
pub fn to_camel_case(id_str: &str) -> (r: String)
    ensures
        r@ == spec_to_camel_case(id_str@),
{
    let ghost s = id_str@;
    let n = id_str.unicode_len();
    let mut list: Vec<&str> = Vec::new();
    let mut last: usize = 0;
    let mut i: usize = 0;
    while i < n
        invariant
            n == s.len(),
            s == id_str@,
            0 <= last <= i <= n,
            last == 0 || last < i,
            list@.map_values(|p: &str| p@) + upper_parts(s, i as int, last as int) == upper_parts(s, 0, 0),
        decreases n - i,
    {
        if is_uppercase(id_str.get_char(i)) {
            if last != i {
                let ghost before = list@;
                let part = id_str.substring_char(last, i);
                list.push(part);
                assert(list@.map_values(|p: &str| p@) =~= before.map_values(|p: &str| p@) + seq![s.subrange(last as int, i as int)]);
            }
            last = i;
        }
        i = i + 1;
    }
    if last < n {
        let ghost before = list@;
        let part = id_str.substring_char(last, n);
        list.push(part);
        assert(list@.map_values(|p: &str| p@) =~= before.map_values(|p: &str| p@) + seq![s.subrange(last as int, n as int)]);
    } else {
        assert(list@.map_values(|p: &str| p@) =~= list@.map_values(|p: &str| p@) + Seq::<Seq<char>>::empty());
    }
    let ghost parts = list@.map_values(|p: &str| p@);
    let mut camel_case = String::new();
    let mut k: usize = 0;
    while k < list.len()
        invariant
            parts == list@.map_values(|p: &str| p@),
            0 <= k <= list@.len(),
            camel_case@ == join_lower(parts.take(k as int)),
        decreases list@.len() - k,
    {
        let lower = to_lowercase(list[k]);
        camel_case.append(lower.as_str());
        camel_case.append("_");
        proof {
            reveal_strlit("_");
            assert(parts.take(k + 1).drop_last() =~= parts.take(k as int));
        }
        k = k + 1;
    }
    assert(parts.take(k as int) =~= parts);
    let len = camel_case.as_str().unicode_len();
    if len > 0 {
        String::from_str(camel_case.as_str().substring_char(0, len - 1))
    } else {
        camel_case
    }
}

/// `s` is an identifier: a character that can start one (`XID_Start` or `_`), then
/// characters that can continue one.
pub open spec fn spec_is_ident(s: Seq<char>) -> bool {
    &&& s.len() > 0
    &&& spec_is_id_start(s[0])
    &&& forall|i: int| 1 <= i < s.len() ==> spec_is_xid_continue(#[trigger] s[i])
}

/// Whether `string` is an identifier (see `spec_is_ident`).
pub fn is_ident(string: &str) -> (r: bool)
    ensures
        r == spec_is_ident(string@),
{
    let n = string.unicode_len();
    if n == 0 {
        return false;
    }
    if !is_id_start(string.get_char(0)) {
        return false;
    }
    let mut i: usize = 1;
    while i < n
        invariant
            n == string@.len(),
            1 <= i <= n,
            forall|j: int| 1 <= j < i ==> spec_is_xid_continue(#[trigger] string@[j]),
        decreases n - i,
    {
        if !is_id_continue(string.get_char(i)) {
            return false;
        }
        i = i + 1;
    }
    true
}

} // verus!
