//! What a finding shows and is known by, said of the text that it is made from.

use vstd::prelude::*;
use vstd::arithmetic::div_mod::lemma_div_denominator;
use vstd::arithmetic::power::{lemma_pow0, lemma_pow_positive, pow};
use vstd::utf8::*;

use crate::finding;
use crate::finding::{Finding, FindingView};
use crate::plain;
use crate::text;

verus! {

/// A finding says what its fields hold.
pub proof fn law_finding_says_what_it_holds(f: Finding)
    ensures
        f@.rule == f.rule@,
        f@.file == f.file@,
        f@.line == f.line,
        f@.hint == f.hint@,
{
}

/// The hint of a text of more than eight characters is its first four, an ellipsis and its last
/// two; that of a shorter one is three stars.
pub proof fn law_mask(tok: &str, s: String)
    requires
        call_ensures(finding::mask, (tok,), s),
    ensures
        tok@.len() > 8 ==> s@ == seq![
            tok@[0],
            tok@[1],
            tok@[2],
            tok@[3],
            '\u{2026}',
            tok@[tok@.len() - 2],
            tok@[tok@.len() - 1],
        ],
        tok@.len() <= 8 ==> s@ == seq!['*', '*', '*'],
{
    law_masked(tok@);
}

/// What `masked` gives is the hint of a text.
pub proof fn law_masked(t: Seq<char>)
    ensures
        t.len() > 8 ==> finding::masked(t) == seq![
            t[0],
            t[1],
            t[2],
            t[3],
            '\u{2026}',
            t[t.len() - 2],
            t[t.len() - 1],
        ],
        t.len() <= 8 ==> finding::masked(t) == seq!['*', '*', '*'],
{
    if t.len() > 8 {
        assert(finding::masked(t) =~= seq![
            t[0],
            t[1],
            t[2],
            t[3],
            '\u{2026}',
            t[t.len() - 2],
            t[t.len() - 1],
        ]);
    }
}

/// `w` holds no capital letter.
spec fn is_small(w: Seq<char>) -> bool {
    forall|k: int| 0 <= k < w.len() ==> !(65 <= plain::code(#[trigger] w[k]) <= 90)
}

proof fn lemma_spells(t: Seq<char>, w: Seq<char>)
    requires
        is_small(w),
    ensures
        text::contains(text::lowercase(t), w) <==> plain::spells(t, w),
{
    let low = text::lowercase(t);
    if text::contains(low, w) {
        let i = choose|i: int| text::occurs_at(low, w, i);
        assert forall|k: int| 0 <= k < w.len() implies plain::is_letter(t[i + k], #[trigger] w[k]) by {
            assert(low.subrange(i, i + w.len())[k] == w[k]);
            assert(low[i + k] == w[k]);
        }
        assert(plain::spells_at(t, w, i));
    }
    if plain::spells(t, w) {
        let i = choose|i: int| #[trigger] plain::spells_at(t, w, i);
        assert forall|k: int| 0 <= k < w.len() implies low[i + k] == #[trigger] w[k] by {
            assert(plain::is_letter(t[i + k], w[k]));
            assert(!(65 <= plain::code(w[k]) <= 90));
        }
        assert(low.subrange(i, i + w.len()) =~= w);
        assert(text::occurs_at(low, w, i));
    }
}

/// A text is a placeholder exactly where it spells one of the nine words, in letters of either
/// case.
pub proof fn law_placeholder(t: Seq<char>)
    ensures
        finding::placeholder(t) <==> {
            ||| plain::spells(t, "example"@)
            ||| plain::spells(t, "changeme"@)
            ||| plain::spells(t, "your-"@)
            ||| plain::spells(t, "xxxx"@)
            ||| plain::spells(t, "placeholder"@)
            ||| plain::spells(t, "redacted"@)
            ||| plain::spells(t, "dummy"@)
            ||| plain::spells(t, "notreal"@)
            ||| plain::spells(t, "test-value"@)
        },
{
    reveal_strlit("example");
    reveal_strlit("changeme");
    reveal_strlit("your-");
    reveal_strlit("xxxx");
    reveal_strlit("placeholder");
    reveal_strlit("redacted");
    reveal_strlit("dummy");
    reveal_strlit("notreal");
    reveal_strlit("test-value");
    lemma_spells(t, "example"@);
    lemma_spells(t, "changeme"@);
    lemma_spells(t, "your-"@);
    lemma_spells(t, "xxxx"@);
    lemma_spells(t, "placeholder"@);
    lemma_spells(t, "redacted"@);
    lemma_spells(t, "dummy"@);
    lemma_spells(t, "notreal"@);
    lemma_spells(t, "test-value"@);
    let low = text::lowercase(t);
    let words = finding::placeholder_words();
    assert(words.len() == 9);
    assert(words[0] == "example"@);
    assert(words[1] == "changeme"@);
    assert(words[2] == "your-"@);
    assert(words[3] == "xxxx"@);
    assert(words[4] == "placeholder"@);
    assert(words[5] == "redacted"@);
    assert(words[6] == "dummy"@);
    assert(words[7] == "notreal"@);
    assert(words[8] == "test-value"@);
    if finding::placeholder(t) {
        let i = choose|i: int| 0 <= i < words.len() && text::contains(low, #[trigger] words[i]);
        assert(text::contains(low, words[i]));
    }
}

/// A token is taken for a placeholder exactly where it spells one of the nine words, in letters of
/// either case.
pub proof fn law_is_placeholder(token: &str, b: bool)
    requires
        call_ensures(finding::is_placeholder, (token,), b),
    ensures
        b <==> {
            ||| plain::spells(token@, "example"@)
            ||| plain::spells(token@, "changeme"@)
            ||| plain::spells(token@, "your-"@)
            ||| plain::spells(token@, "xxxx"@)
            ||| plain::spells(token@, "placeholder"@)
            ||| plain::spells(token@, "redacted"@)
            ||| plain::spells(token@, "dummy"@)
            ||| plain::spells(token@, "notreal"@)
            ||| plain::spells(token@, "test-value"@)
        },
{
    law_placeholder(token@);
}

/// `h` are the states of the 64-bit FNV-1a hash as it takes in `bytes`: it starts at the offset
/// basis, and each byte is mixed in before a multiplication by the FNV prime.
pub open spec fn hashes(h: Seq<u64>, bytes: Seq<u8>) -> bool {
    &&& h.len() == bytes.len() + 1
    &&& h[0] == 0xcbf2_9ce4_8422_2325u64
    &&& forall|i: int|
        0 <= i < bytes.len() ==> h[i + 1] == ((h[i] ^ ((#[trigger] bytes[i]) as u64))
            * 0x100_0000_01b3) % 0x1_0000_0000_0000_0000
}

proof fn lemma_hashes(bytes: Seq<u8>) -> (h: Seq<u64>)
    ensures
        hashes(h, bytes),
        h[bytes.len() as int] == finding::fnv1a(0xcbf2_9ce4_8422_2325u64, bytes),
    decreases bytes.len(),
{
    if bytes.len() == 0 {
        seq![0xcbf2_9ce4_8422_2325u64]
    } else {
        let init = bytes.drop_last();
        let h = lemma_hashes(init);
        let last = finding::fnv1a(0xcbf2_9ce4_8422_2325u64, bytes);
        let out = h.push(last);
        let n = bytes.len() - 1;
        assert(last == finding::fnv_step(h[n], bytes[n]));
        assert forall|i: int| 0 <= i < bytes.len() implies out[i + 1] == ((out[i] ^ ((
        #[trigger] bytes[i]) as u64)) * 0x100_0000_01b3) % 0x1_0000_0000_0000_0000 by {
            if i < n {
                assert(init[i] == bytes[i]);
            }
        }
        out
    }
}

/// The digit of `n` with `place` digits of base 16 behind it.
pub open spec fn hex_digit(n: nat, place: nat) -> int {
    (n as int / pow(16, place)) % 16
}

/// `c` writes the digit `d` of base 16, in lower case.
pub open spec fn writes_hex(c: char, d: int) -> bool {
    if d < 10 {
        plain::code(c) == 48 + d
    } else {
        plain::code(c) == 97 + (d - 10)
    }
}

proof fn lemma_hex(n: nat, width: nat)
    ensures
        finding::hex(n, width).len() == width,
        forall|i: int|
            0 <= i < width ==> writes_hex(
                #[trigger] finding::hex(n, width)[i],
                hex_digit(n, (width - 1 - i) as nat),
            ),
    decreases width,
{
    if width > 0 {
        let inner = finding::hex(n / 16, (width - 1) as nat);
        let all = finding::hex(n, width);
        lemma_hex(n / 16, (width - 1) as nat);
        assert forall|i: int| 0 <= i < width implies writes_hex(
            #[trigger] all[i],
            hex_digit(n, (width - 1 - i) as nat),
        ) by {
            if i < width - 1 {
                assert(all[i] == inner[i]);
                let e = (width - 2 - i) as nat;
                lemma_pow_positive(16, e);
                lemma_div_denominator(n as int, 16, pow(16, e));
                assert(pow(16, (e + 1) as nat) == 16 * pow(16, e)) by {
                    reveal(pow);
                }
                assert(hex_digit(n / 16, e) == hex_digit(n, (e + 1) as nat));
            } else {
                lemma_pow0(16);
                assert(n as int / 1 == n);
                assert(hex_digit(n, 0) == n % 16);
                assert(all[i] == finding::hex_char(n % 16));
            }
        }
    }
}

/// The fingerprint of a finding is the FNV-1a hash of its rule, a zero byte, its file, a zero byte
/// and its hint, in sixteen hexadecimal digits.
pub proof fn law_fingerprint_is_fnv_1a(f: FindingView) -> (h: Seq<u64>)
    ensures
        hashes(
            h,
            encode_utf8(f.rule) + seq![0u8] + encode_utf8(f.file) + seq![0u8] + encode_utf8(f.hint),
        ),
        finding::fingerprint(f).len() == 16,
        forall|i: int|
            0 <= i < 16 ==> writes_hex(
                #[trigger] finding::fingerprint(f)[i],
                hex_digit(h[h.len() - 1] as nat, (15 - i) as nat),
            ),
{
    let bytes = encode_utf8(f.rule) + seq![0u8] + encode_utf8(f.file) + seq![0u8] + encode_utf8(
        f.hint,
    );
    let h = lemma_hashes(bytes);
    lemma_hex(h[bytes.len() as int] as nat, 16);
    h
}

/// Asked for its fingerprint, a finding gives that hash of its own fields.
pub proof fn law_fingerprint(f: &Finding, s: String)
    requires
        call_ensures(Finding::fingerprint, (f,), s),
    ensures
        exists|h: Seq<u64>| #[trigger]
            hashes(
                h,
                encode_utf8(f.rule@) + seq![0u8] + encode_utf8(f.file@) + seq![0u8] + encode_utf8(
                    f.hint@,
                ),
            ) && s@.len() == 16 && forall|i: int|
                0 <= i < 16 ==> writes_hex(
                    #[trigger] s@[i],
                    hex_digit(h[h.len() - 1] as nat, (15 - i) as nat),
                ),
{
    let h = law_fingerprint_is_fnv_1a(f@);
}

} // verus!
