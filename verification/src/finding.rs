//! What a scan reports: a finding, the mask that hides the secret in it, the words that mark
//! a placeholder, and the fingerprint that names a finding in a baseline.

use vstd::prelude::*;
use vstd::utf8::*;

use crate::text;
use crate::text::{chars_of, has_substring, lowercase_chars, string_of};

verus! {

/// One suspected secret.
#[derive(Debug, Clone, PartialEq, Eq)]
pub struct Finding {
    pub rule: String,
    pub file: String,
    pub line: usize,
    /// A masked excerpt -- never the secret itself.
    pub hint: String,
}

/// A finding as plain text and numbers.
pub struct FindingView {
    pub rule: Seq<char>,
    pub file: Seq<char>,
    pub line: nat,
    pub hint: Seq<char>,
}

impl View for Finding {
    type V = FindingView;

    open spec fn view(&self) -> FindingView {
        FindingView {
            rule: self.rule@,
            file: self.file@,
            line: self.line as nat,
            hint: self.hint@,
        }
    }
}

/// What each finding of `v` says.
pub open spec fn finding_views(v: Seq<Finding>) -> Seq<FindingView> {
    v.map_values(|f: Finding| f@)
}

/// The start value of the 64-bit FNV hash.
pub const FNV_OFFSET: u64 = 0xcbf2_9ce4_8422_2325;

/// The multiplier of the 64-bit FNV hash.
pub const FNV_PRIME: u64 = 0x0000_0100_0000_01b3;

/// One step of FNV-1a: mix in a byte, then multiply modulo 2^64.
pub open spec fn fnv_step(h: u64, b: u8) -> u64 {
    (((h ^ (b as u64)) * FNV_PRIME) % 0x1_0000_0000_0000_0000) as u64
}

/// FNV-1a over `bytes`, continuing from `h`.
pub open spec fn fnv1a(h: u64, bytes: Seq<u8>) -> u64
    decreases bytes.len(),
{
    if bytes.len() == 0 {
        h
    } else {
        fnv_step(fnv1a(h, bytes.drop_last()), bytes.last())
    }
}

/// Hashing in two runs is hashing the joined bytes.
pub proof fn lemma_fnv1a_concat(h: u64, a: Seq<u8>, b: Seq<u8>)
    ensures
        fnv1a(fnv1a(h, a), b) == fnv1a(h, a + b),
    decreases b.len(),
{
    if b.len() == 0 {
        assert(a + b =~= a);
    } else {
        lemma_fnv1a_concat(h, a, b.drop_last());
        assert((a + b).drop_last() =~= a + b.drop_last());
    }
}

/// Continues the hash `h` over the encoded bytes of `s`.
fn fnv_update(h: u64, s: &str) -> (r: u64)
    ensures
        r == fnv1a(h, encode_utf8(s@)),
{
    let bytes = s.as_bytes();
    let mut r: u64 = h;
    let mut i: usize = 0;
    while i < bytes.len()
        invariant
            i <= bytes@.len(),
            r == fnv1a(h, bytes@.take(i as int)),
        decreases bytes@.len() - i,
    {
        let ghost before = r;
        r = (r ^ (bytes[i] as u64)).wrapping_mul(FNV_PRIME);
        i = i + 1;
        assert(bytes@.take(i as int).drop_last() =~= bytes@.take(i - 1));
        assert(r == fnv_step(before, bytes@[i - 1]));
    }
    assert(bytes@.take(i as int) =~= bytes@);
    r
}

/// The character of the hexadecimal digit `d`, in lower case.
pub open spec fn hex_char(d: nat) -> char {
    if d < 10 {
        (48 + d) as char
    } else {
        (87 + d) as char
    }
}

/// The lowest `width` hexadecimal digits of `n`.
pub open spec fn hex(n: nat, width: nat) -> Seq<char>
    decreases width,
{
    if width == 0 {
        seq![]
    } else {
        hex(n / 16, (width - 1) as nat).push(hex_char(n % 16))
    }
}

/// Writes the lowest `width` hexadecimal digits of `n`.
fn to_hex(n: u64, width: u8) -> (s: String)
    ensures
        s@ == hex(n as nat, width as nat),
    decreases width,
{
    if width == 0 {
        return String::new();
    }
    let mut s = to_hex(n / 16, width - 1);
    let d = (n % 16) as u8;
    let c = if d < 10 {
        (48 + d) as char
    } else {
        (87 + d) as char
    };
    s.push(c);
    s
}

/// The bytes that identify a finding: rule, file and hint, parted by zero bytes.
pub open spec fn fingerprint_bytes(f: FindingView) -> Seq<u8> {
    encode_utf8(f.rule) + seq![0u8] + encode_utf8(f.file) + seq![0u8] + encode_utf8(f.hint)
}

/// The fingerprint of a finding: sixteen hexadecimal digits of the FNV-1a hash of its bytes.
pub open spec fn fingerprint(f: FindingView) -> Seq<char> {
    hex(fnv1a(FNV_OFFSET, fingerprint_bytes(f)) as nat, 16)
}

impl Finding {
    /// A stable id for baselining: rule + file + masked hint, independent of line
    /// number so a finding survives unrelated edits above it. 16 hex chars (FNV-1a).
    pub fn fingerprint(&self) -> (s: String)
        ensures
            s@ == fingerprint(self@),
    {
        let mut h: u64 = fnv_update(FNV_OFFSET, self.rule.as_str());
        h = fnv_update(h, "\0");
        h = fnv_update(h, self.file.as_str());
        h = fnv_update(h, "\0");
        h = fnv_update(h, self.hint.as_str());
        proof {
            reveal_strlit("\0");
            let zero = encode_utf8("\0"@);
            is_ascii_chars_encode_utf8("\0"@);
            assert(zero =~= seq![0u8]);
            let r = encode_utf8(self.rule@);
            let f = encode_utf8(self.file@);
            let t = encode_utf8(self.hint@);
            lemma_fnv1a_concat(FNV_OFFSET, r, zero);
            lemma_fnv1a_concat(FNV_OFFSET, r + zero, f);
            lemma_fnv1a_concat(FNV_OFFSET, r + zero + f, zero);
            lemma_fnv1a_concat(FNV_OFFSET, r + zero + f + zero, t);
        }
        to_hex(h, 16)
    }
}

/// The excerpt of `t` that a finding shows.
pub open spec fn masked(t: Seq<char>) -> Seq<char> {
    if t.len() > 8 {
        t.take(4) + seq!['\u{2026}'] + t.skip(t.len() - 2)
    } else {
        seq!['*', '*', '*']
    }
}

/// Hides all of `tok` but its first four and last two characters, and hides a short one whole.
pub fn mask(tok: &str) -> (s: String)
    ensures
        s@ == masked(tok@),
{
    let cs = chars_of(tok);
    if cs.len() > 8 {
        let mut s = string_of(&cs, 0, 4);
        s.push('\u{2026}');
        s.push(cs[cs.len() - 2]);
        s.push(cs[cs.len() - 1]);
        assert(s@ =~= masked(tok@));
        s
    } else {
        let mut s = String::new();
        s.push('*');
        s.push('*');
        s.push('*');
        assert(s@ =~= masked(tok@));
        s
    }
}

/// Words whose presence in a token marks it as a placeholder.
pub open spec fn placeholder_words() -> Seq<Seq<char>> {
    seq![
        "example"@,
        "changeme"@,
        "your-"@,
        "xxxx"@,
        "placeholder"@,
        "redacted"@,
        "dummy"@,
        "notreal"@,
        "test-value"@,
    ]
}

/// `t` holds one of the placeholder words, in ASCII letters of either case.
pub open spec fn placeholder(t: Seq<char>) -> bool {
    exists|i: int|
        0 <= i < placeholder_words().len() && text::contains(text::lowercase(t), #[trigger] placeholder_words()[i])
}

/// Whether `token` is a placeholder rather than a secret.
pub fn is_placeholder(token: &str) -> (b: bool)
    ensures
        b == placeholder(token@),
{
    let words: Vec<&'static str> = vec![
        "example",
        "changeme",
        "your-",
        "xxxx",
        "placeholder",
        "redacted",
        "dummy",
        "notreal",
        "test-value",
    ];
    let t = lowercase_chars(token);
    let mut i: usize = 0;
    while i < words.len()
        invariant
            i <= words@.len(),
            words@.len() == placeholder_words().len(),
            forall|k: int| 0 <= k < words@.len() ==> #[trigger] placeholder_words()[k] == words@[k]@,
            t@ == text::lowercase(token@),
            forall|k: int| 0 <= k < i ==> !text::contains(t@, #[trigger] placeholder_words()[k]),
        decreases words@.len() - i,
    {
        let w = chars_of(words[i]);
        if has_substring(&t, &w) {
            assert(text::contains(t@, placeholder_words()[i as int]));
            return true;
        }
        i = i + 1;
    }
    false
}

/// A lower-case hexadecimal digit.
pub open spec fn is_hex_digit(c: char) -> bool {
    '0' <= c <= '9' || 'a' <= c <= 'f'
}

proof fn lemma_hex_digits(n: nat, width: nat)
    ensures
        hex(n, width).len() == width,
        forall|i: int| 0 <= i < width ==> is_hex_digit(#[trigger] hex(n, width)[i]),
    decreases width,
{
    if width > 0 {
        lemma_hex_digits(n / 16, (width - 1) as nat);
        let init = hex(n / 16, (width - 1) as nat);
        let d = n % 16;
        assert(is_hex_digit(hex_char(d)));
        assert forall|i: int| 0 <= i < width implies is_hex_digit(#[trigger] hex(n, width)[i]) by {
            if i < width - 1 {
                assert(hex(n, width)[i] == init[i]);
            }
        }
    }
}

/// A fingerprint is sixteen lower-case hexadecimal digits.
pub proof fn law_fingerprint_shape(f: FindingView)
    ensures
        fingerprint(f).len() == 16,
        forall|i: int| 0 <= i < 16 ==> is_hex_digit(#[trigger] fingerprint(f)[i]),
{
    lemma_hex_digits(fnv1a(FNV_OFFSET, fingerprint_bytes(f)) as nat, 16);
}

/// Two findings that differ in nothing but the line have the same fingerprint.
pub proof fn law_fingerprint_ignores_line(f: FindingView, g: FindingView)
    requires
        f.rule == g.rule,
        f.file == g.file,
        f.hint == g.hint,
    ensures
        fingerprint(f) == fingerprint(g),
{
}

/// A mask is short and never holds the text that it stands for. The exceptions are the texts
/// of at most three characters that are nothing but stars.
pub proof fn law_mask_hides(t: Seq<char>)
    requires
        t.len() > 3 || exists|i: int| 0 <= i < t.len() && t[i] != '*',
    ensures
        masked(t).len() <= 7,
        !text::contains(masked(t), t),
{
    if text::contains(masked(t), t) {
        let i = choose|i: int| text::occurs_at(masked(t), t, i);
        assert(text::occurs_at(masked(t), t, i));
        if t.len() <= 3 {
            let k = choose|k: int| 0 <= k < t.len() && t[k] != '*';
            assert(masked(t).subrange(i, i + t.len())[k] == '*');
        }
    }
}

/// A mask tells nothing of a long text but its first four and last two characters: texts that
/// agree there have one mask.
pub proof fn law_mask_shows_only_ends(s: Seq<char>, t: Seq<char>)
    requires
        s.len() > 8,
        t.len() > 8,
        s.take(4) == t.take(4),
        s.skip(s.len() - 2) == t.skip(t.len() - 2),
    ensures
        masked(s) == masked(t),
{
}

/// A mask tells nothing of a text of at most eight characters.
pub proof fn law_mask_hides_short_text(s: Seq<char>, t: Seq<char>)
    requires
        s.len() <= 8,
        t.len() <= 8,
    ensures
        masked(s) == masked(t),
{
}

} // verus!
