//! How often each byte occurs in a token: all that its Shannon entropy depends on. The entropy
//! itself is a floating-point number, so it is worked out by the caller, who is handed the
//! counts and answers whether the token looks random.

use vstd::prelude::*;
use vstd::utf8::*;

use crate::matching;

verus! {

/// How often each byte value occurs in a token, and how many bytes the token has.
#[derive(Debug, Clone)]
pub struct ByteCounts {
    pub counts: Vec<usize>,
    pub total: usize,
}

/// How often `b` occurs in `bytes`.
pub open spec fn occurrences(bytes: Seq<u8>, b: u8) -> nat
    decreases bytes.len(),
{
    if bytes.len() == 0 {
        0
    } else {
        occurrences(bytes.drop_last(), b) + if bytes.last() == b {
            1nat
        } else {
            0nat
        }
    }
}

proof fn lemma_occurrences_bound(bytes: Seq<u8>, b: u8)
    ensures
        occurrences(bytes, b) <= bytes.len(),
    decreases bytes.len(),
{
    if bytes.len() > 0 {
        lemma_occurrences_bound(bytes.drop_last(), b);
    }
}

impl ByteCounts {
    /// These are the counts of `bytes`.
    pub open spec fn tallies(self, bytes: Seq<u8>) -> bool {
        &&& self.total == bytes.len()
        &&& self.counts@.len() == 256
        &&& forall|b: u8| self.counts@[b as int] == #[trigger] occurrences(bytes, b)
    }
}

/// Counts the bytes of `token`.
pub fn byte_counts(token: &str) -> (c: ByteCounts)
    ensures
        c.tallies(encode_utf8(token@)),
{
    let bytes = token.as_bytes();
    let mut counts: Vec<usize> = vec![0usize; 256];
    let mut i: usize = 0;
    while i < bytes.len()
        invariant
            i <= bytes@.len(),
            counts@.len() == 256,
            forall|b: u8|
                counts@[b as int] == #[trigger] occurrences(bytes@.take(i as int), b),
        decreases bytes@.len() - i,
    {
        let b = bytes[i];
        let ghost before = counts@;
        proof {
            lemma_occurrences_bound(bytes@.take(i as int), b);
            assert(counts@[b as int] == occurrences(bytes@.take(i as int), b));
            assert(bytes@.take(i + 1).drop_last() =~= bytes@.take(i as int));
        }
        let n = counts[b as usize] + 1;
        counts.set(b as usize, n);
        i = i + 1;
        assert forall|x: u8| counts@[x as int] == #[trigger] occurrences(bytes@.take(i as int), x) by {
            assert(before[x as int] == occurrences(bytes@.take(i - 1), x));
        }
    }
    assert(bytes@.take(i as int) =~= bytes@);
    ByteCounts { counts, total: bytes.len() }
}

/// The sum of the first `n` counts of `bytes`.
pub open spec fn counted(bytes: Seq<u8>, n: nat) -> nat
    decreases n,
{
    if n == 0 {
        0
    } else {
        counted(bytes, (n - 1) as nat) + occurrences(bytes, (n - 1) as u8)
    }
}

proof fn lemma_counted_step(bytes: Seq<u8>, n: nat)
    requires
        bytes.len() > 0,
        n <= 256,
    ensures
        counted(bytes, n) == counted(bytes.drop_last(), n) + if bytes.last() < n {
            1nat
        } else {
            0nat
        },
    decreases n,
{
    if n > 0 {
        lemma_counted_step(bytes, (n - 1) as nat);
    }
}

/// The counts of all byte values add up to the number of bytes: the shares that the entropy is
/// made of add up to one.
pub proof fn law_counts_add_up(bytes: Seq<u8>)
    ensures
        counted(bytes, 256) == bytes.len(),
    decreases bytes.len(),
{
    if bytes.len() == 0 {
        lemma_counted_empty(bytes, 256);
    } else {
        law_counts_add_up(bytes.drop_last());
        lemma_counted_step(bytes, 256);
    }
}

proof fn lemma_counted_empty(bytes: Seq<u8>, n: nat)
    requires
        bytes.len() == 0,
    ensures
        counted(bytes, n) == 0,
    decreases n,
{
    if n > 0 {
        lemma_counted_empty(bytes, (n - 1) as nat);
    }
}

/// `judge` can be asked about the counts of any token.
pub open spec fn can_judge<F: Fn(&ByteCounts) -> bool>(judge: &F) -> bool {
    forall|c: &ByteCounts, bytes: Seq<u8>|
        #[trigger] c.tallies(bytes) ==> call_requires(*judge, (c,))
}

/// `random` is an answer that `judge` can give on `token`.
pub open spec fn answered<F: Fn(&ByteCounts) -> bool>(
    judge: &F,
    token: Seq<char>,
    random: bool,
) -> bool {
    exists|c: ByteCounts|
        #![trigger call_ensures(*judge, (&c,), random)]
        c.tallies(encode_utf8(token)) && call_ensures(*judge, (&c,), random)
}

/// `random` holds an answer of `judge` for each of `tokens`.
pub open spec fn all_answered<F: Fn(&ByteCounts) -> bool>(
    judge: &F,
    tokens: Seq<Seq<char>>,
    random: Seq<bool>,
) -> bool {
    &&& random.len() == tokens.len()
    &&& forall|k: int|
        0 <= k < tokens.len() ==> answered(judge, #[trigger] tokens[k], random[k])
}

/// `judge` never gives two answers on one token.
pub open spec fn consistent<F: Fn(&ByteCounts) -> bool>(judge: &F) -> bool {
    forall|token: Seq<char>, a: bool, b: bool|
        answered(judge, token, a) && answered(judge, token, b) ==> a == b
}

/// A judge that never contradicts itself gives the same answers on the same tokens.
pub proof fn lemma_answers_agree<F: Fn(&ByteCounts) -> bool>(
    judge: &F,
    tokens: Seq<Seq<char>>,
    a: Seq<bool>,
    b: Seq<bool>,
)
    requires
        consistent(judge),
        all_answered(judge, tokens, a),
        all_answered(judge, tokens, b),
    ensures
        a == b,
{
    assert forall|k: int| 0 <= k < tokens.len() implies a[k] == b[k] by {
        assert(answered(judge, tokens[k], a[k]));
        assert(answered(judge, tokens[k], b[k]));
    }
    assert(a =~= b);
}

/// Asks `judge` about `token`.
pub fn ask<F: Fn(&ByteCounts) -> bool>(judge: &F, token: &str) -> (random: bool)
    requires
        can_judge(judge),
    ensures
        answered(judge, token@, random),
{
    let c = byte_counts(token);
    judge(&c)
}

/// Asks `judge` about each of `tokens`.
pub fn ask_all<F: Fn(&ByteCounts) -> bool>(judge: &F, tokens: &Vec<&str>) -> (random: Vec<bool>)
    requires
        can_judge(judge),
    ensures
        all_answered(judge, matching::str_views(tokens@), random@),
{
    let mut random: Vec<bool> = Vec::new();
    let mut i: usize = 0;
    while i < tokens.len()
        invariant
            i <= tokens@.len(),
            can_judge(judge),
            random@.len() == i,
            forall|k: int|
                0 <= k < i ==> answered(
                    judge,
                    #[trigger] matching::str_views(tokens@)[k],
                    random@[k],
                ),
        decreases tokens@.len() - i,
    {
        let b = ask(judge, tokens[i]);
        random.push(b);
        i = i + 1;
    }
    random
}

} // verus!
