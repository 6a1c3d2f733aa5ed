//! Plain terms in which laws are stated: what the library promises, said without the terms in
//! which its functions are written.

use vstd::prelude::*;
use vstd::utf8::*;

use crate::entropy::ByteCounts;
use crate::finding::FindingView;

verus! {

/// The code point of `c`.
pub open spec fn code(c: char) -> int {
    c as int
}

/// `c` is white space: one of the 25 code points that Unicode calls so.
pub open spec fn is_white(c: char) -> bool {
    let n = code(c);
    ||| n == 0x09 || n == 0x0a || n == 0x0b || n == 0x0c || n == 0x0d
    ||| n == 0x20 || n == 0x85 || n == 0xa0 || n == 0x1680
    ||| n == 0x2000 || n == 0x2001 || n == 0x2002 || n == 0x2003 || n == 0x2004 || n == 0x2005
    ||| n == 0x2006 || n == 0x2007 || n == 0x2008 || n == 0x2009 || n == 0x200a
    ||| n == 0x2028 || n == 0x2029 || n == 0x202f || n == 0x205f || n == 0x3000
}

/// `s` is `t` without the white space around it: what is left out on both sides is white, and `s`
/// neither begins nor ends with white space.
pub open spec fn is_trimmed(s: Seq<char>, t: Seq<char>) -> bool {
    exists|i: int, j: int| #[trigger] trims_to(s, t, i, j)
}

/// `s` is what stands in `t` from `i` to `j`, with nothing but white space before and after it.
pub open spec fn trims_to(s: Seq<char>, t: Seq<char>, i: int, j: int) -> bool {
    &&& 0 <= i <= j <= t.len()
    &&& s == t.subrange(i, j)
    &&& forall|k: int| 0 <= k < i ==> is_white(#[trigger] t[k])
    &&& forall|k: int| j <= k < t.len() ==> is_white(#[trigger] t[k])
    &&& s.len() > 0 ==> !is_white(s[0]) && !is_white(s[s.len() - 1])
}

/// `p` stands somewhere in `t`.
pub open spec fn holds(t: Seq<char>, p: Seq<char>) -> bool {
    exists|a: Seq<char>, z: Seq<char>| t == #[trigger] (a + p + z)
}

/// `l` stands nowhere in `t`.
pub open spec fn lacks(t: Seq<char>, l: char) -> bool {
    forall|i: int| 0 <= i < t.len() ==> t[i] != l
}

/// `c` is the letter `l`, which is no capital, or its ASCII capital.
pub open spec fn is_letter(c: char, l: char) -> bool {
    code(c) == code(l) || (65 <= code(c) <= 90 && code(c) + 32 == code(l))
}

/// `t` holds the word `w`, which has no capitals, in ASCII letters of either case.
pub open spec fn spells(t: Seq<char>, w: Seq<char>) -> bool {
    exists|i: int| #[trigger] spells_at(t, w, i)
}

/// `w` is spelt in `t` at position `i`.
pub open spec fn spells_at(t: Seq<char>, w: Seq<char>, i: int) -> bool {
    &&& 0 <= i <= t.len() - w.len()
    &&& forall|k: int| 0 <= k < w.len() ==> is_letter(t[i + k], #[trigger] w[k])
}

/// An ASCII digit.
pub open spec fn is_decimal(c: char) -> bool {
    48 <= code(c) <= 57
}

/// One or more ASCII digits.
pub open spec fn is_digits(t: Seq<char>) -> bool {
    t.len() > 0 && forall|i: int| 0 <= i < t.len() ==> is_decimal(#[trigger] t[i])
}

/// The byte string `a` comes before `b` in a dictionary, or is `b`: it is the beginning of `b`, or
/// has the smaller byte where they first differ.
pub open spec fn dictionary(a: Seq<u8>, b: Seq<u8>) -> bool {
    ||| a.len() <= b.len() && a == b.take(a.len() as int)
    ||| exists|k: int|
        0 <= k < a.len() && k < b.len() && a.take(k) == b.take(k) && #[trigger] a[k] < b[k]
}

/// `part` lists what there is among `hits`, in order, and nothing else: some ascending positions
/// are those of the hits, and `part` holds the hits at these positions.
pub open spec fn lists(part: Seq<FindingView>, hits: Seq<Option<FindingView>>) -> bool {
    exists|at: Seq<int>| #[trigger] lists_at(part, hits, at)
}

/// `at` are the positions of the hits, and `part` holds them.
pub open spec fn lists_at(
    part: Seq<FindingView>,
    hits: Seq<Option<FindingView>>,
    at: Seq<int>,
) -> bool {
    &&& part.len() == at.len()
    &&& forall|a: int, b: int| 0 <= a < b < at.len() ==> #[trigger] at[a] < #[trigger] at[b]
    &&& forall|a: int|
        0 <= a < at.len() ==> 0 <= #[trigger] at[a] < hits.len() && hits[at[a]] == Some(part[a])
    &&& forall|i: int|
        0 <= i < hits.len() && (#[trigger] hits[i]) is Some ==> exists|a: int|
            0 <= a < at.len() && #[trigger] at[a] == i
}

/// The parts, one after the other.
pub open spec fn one_after_the_other(parts: Seq<Seq<FindingView>>) -> Seq<FindingView>
    decreases parts.len(),
{
    if parts.len() == 0 {
        seq![]
    } else {
        parts[0] + one_after_the_other(parts.drop_first())
    }
}

/// `judge` can give `answer` when it is shown how often each byte occurs in `token`.
pub open spec fn says<F: Fn(&ByteCounts) -> bool>(
    judge: &F,
    token: Seq<char>,
    answer: bool,
) -> bool {
    exists|c: ByteCounts| #[trigger]
        counts_of(c, encode_utf8(token)) && call_ensures(*judge, (&c,), answer)
}

/// `c` holds how often each byte occurs in `bytes`, and how many bytes there are.
pub open spec fn counts_of(c: ByteCounts, bytes: Seq<u8>) -> bool {
    &&& c.total == bytes.len()
    &&& c.counts@.len() == 256
    &&& forall|b: u8| c.counts@[b as int] == #[trigger] bytes.to_multiset().count(b)
}

} // verus!
