//! Text as a sequence of characters: splitting into lines, trimming, searching,
//! comparing and writing numbers. Every function is exact about its result.

use vstd::prelude::*;
use vstd::utf8::*;

verus! {

/// `String::push`: the character is appended to what the string held.
pub assume_specification[ String::push ](s: &mut String, c: char)
    ensures
        final(s)@ == old(s)@.push(c),
;

/// The characters of `s`, in order.
pub fn chars_of(s: &str) -> (v: Vec<char>)
    ensures
        v@ == s@,
{
    let mut v: Vec<char> = Vec::new();
    for c in it: s.chars()
        invariant
            v@ == it.seq().take(it.index() as int),
            it.seq() == s@,
    {
        v.push(c);
        assert(v@ =~= it.seq().take(it.index() + 1));
    }
    assert(s@.take(s@.len() as int) =~= s@);
    v
}

/// The characters `from..to` of `cs` as a string.
pub fn string_of(cs: &Vec<char>, from: usize, to: usize) -> (s: String)
    requires
        from <= to <= cs@.len(),
    ensures
        s@ == cs@.subrange(from as int, to as int),
{
    let mut s = String::new();
    let mut i: usize = from;
    while i < to
        invariant
            from <= i <= to <= cs@.len(),
            s@ == cs@.subrange(from as int, i as int),
        decreases to - i,
    {
        s.push(cs[i]);
        i = i + 1;
        assert(s@ =~= cs@.subrange(from as int, i as int));
    }
    s
}

/// What each string of `v` holds.
pub open spec fn views(v: Seq<String>) -> Seq<Seq<char>> {
    v.map_values(|s: String| s@)
}

/// The position of the first `c` in `t`, or the length of `t` where there is none.
pub open spec fn index_of(t: Seq<char>, c: char) -> nat
    decreases t.len(),
{
    if t.len() == 0 || t[0] == c {
        0
    } else {
        1 + index_of(t.drop_first(), c)
    }
}

/// A position is `index_of` as soon as nothing before it is `c` and it holds `c` or is the end.
pub proof fn lemma_index_of(t: Seq<char>, c: char, n: nat)
    requires
        n <= t.len(),
        forall|i: int| 0 <= i < n ==> t[i] != c,
        n == t.len() || t[n as int] == c,
    ensures
        index_of(t, c) == n,
    decreases t.len(),
{
    if n > 0 {
        lemma_index_of(t.drop_first(), c, (n - 1) as nat);
    }
}

/// `index_of` lies within the text and nothing before it is `c`.
pub proof fn lemma_index_of_bounds(t: Seq<char>, c: char)
    ensures
        index_of(t, c) <= t.len(),
        forall|i: int| 0 <= i < index_of(t, c) ==> t[i] != c,
        index_of(t, c) < t.len() ==> t[index_of(t, c) as int] == c,
    decreases t.len(),
{
    if t.len() > 0 && t[0] != c {
        lemma_index_of_bounds(t.drop_first(), c);
        assert forall|i: int| 0 <= i < index_of(t, c) implies t[i] != c by {
            if i > 0 {
                assert(t[i] == t.drop_first()[i - 1]);
            }
        }
    }
}

/// The first `c` in `cs` at or after `from`, or the end.
pub fn find_char(cs: &Vec<char>, from: usize, c: char) -> (n: usize)
    requires
        from <= cs@.len(),
    ensures
        from <= n <= cs@.len(),
        n - from == index_of(cs@.skip(from as int), c),
{
    let mut n: usize = from;
    while n < cs.len() && cs[n] != c
        invariant
            from <= n <= cs@.len(),
            forall|i: int| from <= i < n ==> cs@[i] != c,
        decreases cs@.len() - n,
    {
        n = n + 1;
    }
    proof {
        lemma_index_of(cs@.skip(from as int), c, (n - from) as nat);
    }
    n
}

/// `t` without the carriage return it may end in.
pub open spec fn strip_cr(t: Seq<char>) -> Seq<char> {
    if t.len() > 0 && t.last() == '\r' {
        t.drop_last()
    } else {
        t
    }
}

/// The lines of `t`. A line ends in a newline, or a carriage return and a newline, neither of
/// which belongs to it; the last line may lack its newline, and then keeps a carriage return.
pub open spec fn lines(t: Seq<char>) -> Seq<Seq<char>>
    decreases t.len(),
{
    if t.len() == 0 {
        seq![]
    } else if index_of(t, '\n') >= t.len() {
        seq![t]
    } else {
        seq![strip_cr(t.take(index_of(t, '\n') as int))] + lines(
            t.skip(index_of(t, '\n') as int + 1),
        )
    }
}

/// Splits `text` into its lines.
pub fn split_lines(text: &str) -> (out: Vec<String>)
    ensures
        views(out@) == lines(text@),
{
    let cs = chars_of(text);
    let mut out: Vec<String> = Vec::new();
    let mut start: usize = 0;
    assert(cs@.skip(0) =~= cs@);
    assert(views(out@) =~= Seq::<Seq<char>>::empty());
    assert(views(out@) + lines(cs@) =~= lines(cs@));
    while start < cs.len()
        invariant
            start <= cs@.len(),
            views(out@) + lines(cs@.skip(start as int)) == lines(cs@),
        decreases cs@.len() - start,
    {
        let ghost rest = cs@.skip(start as int);
        let ghost before = views(out@);
        let n = find_char(&cs, start, '\n');
        if n == cs.len() {
            let line = string_of(&cs, start, n);
            out.push(line);
            assert(line@ =~= rest);
            assert(views(out@) =~= before.push(rest));
            assert(lines(cs@) =~= views(out@));
            assert(cs@.skip(n as int) =~= Seq::<char>::empty());
            assert(lines(cs@.skip(n as int)) =~= Seq::<Seq<char>>::empty());
            start = n;
        } else {
            let end = if n > start && cs[n - 1] == '\r' {
                n - 1
            } else {
                n
            };
            let line = string_of(&cs, start, end);
            out.push(line);
            proof {
                let taken = rest.take(index_of(rest, '\n') as int);
                assert(taken =~= cs@.subrange(start as int, n as int));
                assert(line@ =~= strip_cr(taken));
                assert(views(out@) =~= before.push(line@));
                assert(rest.skip(index_of(rest, '\n') as int + 1) =~= cs@.skip(n + 1));
                let tail = lines(cs@.skip(n + 1));
                assert(before + (seq![line@] + tail) =~= views(out@) + tail);
            }
            start = n + 1;
        }
    }
    assert(cs@.skip(start as int) =~= Seq::<char>::empty());
    assert(lines(cs@.skip(start as int)) =~= Seq::<Seq<char>>::empty());
    assert(views(out@) =~= lines(cs@));
    out
}

/// A character with the Unicode property `White_Space`.
pub open spec fn is_space(c: char) -> bool {
    ||| '\u{9}' <= c <= '\u{d}'
    ||| c == '\u{20}'
    ||| c == '\u{85}'
    ||| c == '\u{a0}'
    ||| c == '\u{1680}'
    ||| '\u{2000}' <= c <= '\u{200a}'
    ||| c == '\u{2028}'
    ||| c == '\u{2029}'
    ||| c == '\u{202f}'
    ||| c == '\u{205f}'
    ||| c == '\u{3000}'
}

/// Whether `c` is white space.
pub fn whitespace(c: char) -> (b: bool)
    ensures
        b == is_space(c),
{
    ('\u{9}' <= c && c <= '\u{d}') || c == '\u{20}' || c == '\u{85}' || c == '\u{a0}' || c
        == '\u{1680}' || ('\u{2000}' <= c && c <= '\u{200a}') || c == '\u{2028}' || c
        == '\u{2029}' || c == '\u{202f}' || c == '\u{205f}' || c == '\u{3000}'
}

/// `t` without its leading white space.
pub open spec fn trim_start(t: Seq<char>) -> Seq<char>
    decreases t.len(),
{
    if t.len() > 0 && is_space(t[0]) {
        trim_start(t.drop_first())
    } else {
        t
    }
}

/// `t` without its trailing white space.
pub open spec fn trim_end(t: Seq<char>) -> Seq<char>
    decreases t.len(),
{
    if t.len() > 0 && is_space(t.last()) {
        trim_end(t.drop_last())
    } else {
        t
    }
}

/// `t` without the white space around it.
pub open spec fn trim(t: Seq<char>) -> Seq<char> {
    trim_end(trim_start(t))
}

/// The characters `from..to` of `cs` without the white space around them, as a string.
pub fn trimmed(cs: &Vec<char>, from: usize, to: usize) -> (s: String)
    requires
        from <= to <= cs@.len(),
    ensures
        s@ == trim(cs@.subrange(from as int, to as int)),
{
    let mut i: usize = from;
    while i < to && whitespace(cs[i])
        invariant
            from <= i <= to <= cs@.len(),
            trim_start(cs@.subrange(i as int, to as int)) == trim_start(
                cs@.subrange(from as int, to as int),
            ),
        decreases to - i,
    {
        assert(cs@.subrange(i as int, to as int).drop_first() =~= cs@.subrange(i + 1, to as int));
        i = i + 1;
    }
    let mut j: usize = to;
    while i < j && whitespace(cs[j - 1])
        invariant
            from <= i <= j <= to <= cs@.len(),
            trim_end(cs@.subrange(i as int, j as int)) == trim_end(
                cs@.subrange(i as int, to as int),
            ),
        decreases j,
    {
        assert(cs@.subrange(i as int, j as int).drop_last() =~= cs@.subrange(i as int, j - 1));
        j = j - 1;
    }
    string_of(cs, i, j)
}

/// `p` occurs in `t` at position `i`.
pub open spec fn occurs_at(t: Seq<char>, p: Seq<char>, i: int) -> bool {
    0 <= i && i + p.len() <= t.len() && t.subrange(i, i + p.len()) == p
}

/// `p` occurs somewhere in `t`.
pub open spec fn contains(t: Seq<char>, p: Seq<char>) -> bool {
    exists|i: int| occurs_at(t, p, i)
}

/// Whether `p` stands in `t` at position `i`.
pub fn matches_at(t: &Vec<char>, p: &Vec<char>, i: usize) -> (b: bool)
    requires
        i <= t@.len(),
    ensures
        b == occurs_at(t@, p@, i as int),
{
    if t.len() - i < p.len() {
        return false;
    }
    let mut j: usize = 0;
    while j < p.len()
        invariant
            j <= p@.len(),
            i + p@.len() <= t.len(),
            forall|k: int| 0 <= k < j ==> t@[i + k] == p@[k],
        decreases p@.len() - j,
    {
        if t[i + j] != p[j] {
            assert(t@.subrange(i as int, i + p@.len())[j as int] != p@[j as int]);
            return false;
        }
        j = j + 1;
    }
    assert(t@.subrange(i as int, i + p@.len()) =~= p@);
    true
}

/// Whether `p` occurs in `t`.
pub fn has_substring(t: &Vec<char>, p: &Vec<char>) -> (b: bool)
    ensures
        b == contains(t@, p@),
{
    let mut i: usize = 0;
    while i < t.len()
        invariant
            i <= t@.len(),
            forall|k: int| 0 <= k < i ==> !occurs_at(t@, p@, k),
        decreases t@.len() - i,
    {
        if matches_at(t, p, i) {
            return true;
        }
        i = i + 1;
    }
    matches_at(t, p, i)
}

/// Whether `s` begins with `prefix`.
pub fn starts_with(s: &Vec<char>, prefix: &str) -> (b: bool)
    ensures
        b == prefix@.is_prefix_of(s@),
{
    let p = chars_of(prefix);
    let b = matches_at(s, &p, 0);
    assert(b == prefix@.is_prefix_of(s@)) by {
        assert(0 + p@.len() == p@.len());
    }
    b
}

/// `c` in lower case where it is an ASCII letter.
pub open spec fn ascii_lower(c: char) -> char {
    if 'A' <= c <= 'Z' {
        (c as u8 + 32) as char
    } else {
        c
    }
}

/// `t` with its ASCII letters in lower case.
pub open spec fn lowercase(t: Seq<char>) -> Seq<char> {
    t.map_values(|c: char| ascii_lower(c))
}

/// The characters of `s`, ASCII letters in lower case.
pub fn lowercase_chars(s: &str) -> (v: Vec<char>)
    ensures
        v@ == lowercase(s@),
{
    let cs = chars_of(s);
    let mut v: Vec<char> = Vec::new();
    let mut i: usize = 0;
    while i < cs.len()
        invariant
            i <= cs@.len(),
            v@ == lowercase(cs@.take(i as int)),
        decreases cs@.len() - i,
    {
        let c = cs[i];
        let low = if 'A' <= c && c <= 'Z' {
            (c as u8 + 32) as char
        } else {
            c
        };
        v.push(low);
        i = i + 1;
        assert(v@ =~= lowercase(cs@.take(i as int)));
    }
    assert(cs@.take(i as int) =~= cs@);
    v
}

/// `c` as a search that ignores case takes it, where it stands for an ASCII letter: an ASCII
/// letter in lower case, the long s (U+017F) as `s`, the Kelvin sign (U+212A) as `k`.
pub open spec fn fold(c: char) -> char {
    if c == '\u{17f}' {
        's'
    } else if c == '\u{212a}' {
        'k'
    } else {
        ascii_lower(c)
    }
}

/// `t` with each of its characters folded.
pub open spec fn folded(t: Seq<char>) -> Seq<char> {
    t.map_values(|c: char| fold(c))
}

/// Folds each character of `s`.
pub fn fold_text(s: &str) -> (f: String)
    ensures
        f@ == folded(s@),
{
    let cs = lowercase_chars(s);
    let mut f = String::new();
    let mut i: usize = 0;
    while i < cs.len()
        invariant
            i <= cs@.len(),
            cs@ == lowercase(s@),
            f@ == folded(s@.take(i as int)),
        decreases cs@.len() - i,
    {
        let c = cs[i];
        f.push(
            if c == '\u{17f}' {
                's'
            } else if c == '\u{212a}' {
                'k'
            } else {
                c
            },
        );
        i = i + 1;
        assert(f@ =~= folded(s@.take(i as int)));
    }
    assert(s@.take(i as int) =~= s@);
    f
}

/// What occurs in `t` occurs folded in `t` folded.
pub proof fn lemma_contains_folded(t: Seq<char>, p: Seq<char>)
    requires
        contains(t, p),
    ensures
        contains(folded(t), folded(p)),
{
    let i = choose|i: int| occurs_at(t, p, i);
    assert forall|k: int| 0 <= k < p.len() implies #[trigger] t[i + k] == p[k] by {
        assert(t.subrange(i, i + p.len())[k] == t[i + k]);
    }
    assert(folded(t).subrange(i, i + p.len()) =~= folded(p));
    assert(occurs_at(folded(t), folded(p), i));
}

/// Texts that are encoded alike are alike.
pub proof fn lemma_utf8_injective(a: Seq<char>, b: Seq<char>)
    requires
        encode_utf8(a) == encode_utf8(b),
    ensures
        a == b,
{
    encode_utf8_decode_utf8(a);
    encode_utf8_decode_utf8(b);
}

/// Whether two strings hold the same text.
pub fn same(a: &str, b: &str) -> (r: bool)
    ensures
        r == (a@ == b@),
{
    let x = a.as_bytes();
    let y = b.as_bytes();
    if x.len() != y.len() {
        return false;
    }
    let mut i: usize = 0;
    while i < x.len()
        invariant
            i <= x@.len(),
            x@.len() == y@.len(),
            x@ == encode_utf8(a@),
            y@ == encode_utf8(b@),
            x@.take(i as int) == y@.take(i as int),
        decreases x@.len() - i,
    {
        if x[i] != y[i] {
            return false;
        }
        i = i + 1;
        assert(x@.take(i as int) =~= x@.take(i - 1).push(x@[i - 1]));
        assert(y@.take(i as int) =~= y@.take(i - 1).push(y@[i - 1]));
    }
    proof {
        assert(x@.take(i as int) =~= x@);
        assert(y@.take(i as int) =~= y@);
        lemma_utf8_injective(a@, b@);
    }
    true
}

/// Byte strings in dictionary order: `a` comes before `b`, or they are equal.
pub open spec fn bytes_le(a: Seq<u8>, b: Seq<u8>) -> bool
    decreases a.len(),
{
    a.len() == 0 || (b.len() > 0 && (a[0] < b[0] || (a[0] == b[0] && bytes_le(
        a.drop_first(),
        b.drop_first(),
    ))))
}

/// Texts in dictionary order of their encoded bytes.
pub open spec fn text_le(a: Seq<char>, b: Seq<char>) -> bool {
    bytes_le(encode_utf8(a), encode_utf8(b))
}

pub proof fn lemma_bytes_le_total(a: Seq<u8>, b: Seq<u8>)
    ensures
        bytes_le(a, b) || bytes_le(b, a),
        bytes_le(a, b) && bytes_le(b, a) ==> a == b,
    decreases a.len(),
{
    if a.len() > 0 && b.len() > 0 && a[0] == b[0] {
        lemma_bytes_le_total(a.drop_first(), b.drop_first());
        if bytes_le(a, b) && bytes_le(b, a) {
            assert(a =~= seq![a[0]] + a.drop_first());
            assert(b =~= seq![b[0]] + b.drop_first());
        }
    } else if a.len() == 0 && b.len() == 0 {
        assert(a =~= b);
    }
}

pub proof fn lemma_bytes_le_transitive(a: Seq<u8>, b: Seq<u8>, c: Seq<u8>)
    requires
        bytes_le(a, b),
        bytes_le(b, c),
    ensures
        bytes_le(a, c),
    decreases a.len(),
{
    if a.len() > 0 && b.len() > 0 && c.len() > 0 && a[0] == b[0] && b[0] == c[0] {
        lemma_bytes_le_transitive(a.drop_first(), b.drop_first(), c.drop_first());
    }
}

/// The order of texts is total and antisymmetric.
pub proof fn lemma_text_le_total(a: Seq<char>, b: Seq<char>)
    ensures
        text_le(a, b) || text_le(b, a),
        text_le(a, b) && text_le(b, a) ==> a == b,
{
    lemma_bytes_le_total(encode_utf8(a), encode_utf8(b));
    if text_le(a, b) && text_le(b, a) {
        lemma_utf8_injective(a, b);
    }
}

/// The order of texts is transitive.
pub proof fn lemma_text_le_transitive(a: Seq<char>, b: Seq<char>, c: Seq<char>)
    requires
        text_le(a, b),
        text_le(b, c),
    ensures
        text_le(a, c),
{
    lemma_bytes_le_transitive(encode_utf8(a), encode_utf8(b), encode_utf8(c));
}

/// Whether `a` comes before `b` in dictionary order, or holds the same text.
pub fn at_most(a: &str, b: &str) -> (r: bool)
    ensures
        r == text_le(a@, b@),
{
    let x = a.as_bytes();
    let y = b.as_bytes();
    let mut i: usize = 0;
    assert(x@.skip(0) =~= x@);
    assert(y@.skip(0) =~= y@);
    while i < x.len()
        invariant
            i <= x@.len(),
            i <= y@.len(),
            x@ == encode_utf8(a@),
            y@ == encode_utf8(b@),
            bytes_le(x@.skip(i as int), y@.skip(i as int)) == bytes_le(x@, y@),
        decreases x@.len() - i,
    {
        if i >= y.len() {
            return false;
        }
        if x[i] < y[i] {
            return true;
        }
        if x[i] > y[i] {
            return false;
        }
        assert(x@.skip(i as int).drop_first() =~= x@.skip(i + 1));
        assert(y@.skip(i as int).drop_first() =~= y@.skip(i + 1));
        i = i + 1;
    }
    true
}

/// The character that writes the digit `d`.
pub open spec fn digit_char(d: nat) -> char {
    (48 + d) as char
}

/// `n` in decimal.
pub open spec fn decimal(n: nat) -> Seq<char>
    decreases n,
{
    if n < 10 {
        seq![digit_char(n)]
    } else {
        decimal(n / 10).push(digit_char(n % 10))
    }
}

/// Writes `n` in decimal.
pub fn to_decimal(n: usize) -> (s: String)
    ensures
        s@ == decimal(n as nat),
    decreases n,
{
    let mut s = if n < 10 {
        String::new()
    } else {
        to_decimal(n / 10)
    };
    s.push((48 + (n % 10) as u8) as char);
    assert(s@ =~= decimal(n as nat));
    s
}

/// An ASCII digit.
pub open spec fn is_digit(c: char) -> bool {
    '0' <= c <= '9'
}

/// How many ASCII digits `t` begins with.
pub open spec fn digit_run(t: Seq<char>) -> nat
    decreases t.len(),
{
    if t.len() > 0 && is_digit(t[0]) {
        1 + digit_run(t.drop_first())
    } else {
        0
    }
}

/// A position is `digit_run` as soon as all before it is digits and it holds none or is the end.
pub proof fn lemma_digit_run(t: Seq<char>, n: nat)
    requires
        n <= t.len(),
        forall|i: int| 0 <= i < n ==> is_digit(#[trigger] t[i]),
        n == t.len() || !is_digit(t[n as int]),
    ensures
        digit_run(t) == n,
    decreases t.len(),
{
    if n > 0 {
        assert(is_digit(t[0]));
        assert forall|i: int| 0 <= i < n - 1 implies is_digit(#[trigger] t.drop_first()[i]) by {
            assert(t.drop_first()[i] == t[i + 1]);
        }
        lemma_digit_run(t.drop_first(), (n - 1) as nat);
    }
}

/// The end of the digits of `cs` that begin at `from`.
pub fn digits_end(cs: &Vec<char>, from: usize) -> (n: usize)
    requires
        from <= cs@.len(),
    ensures
        from <= n <= cs@.len(),
        n - from == digit_run(cs@.skip(from as int)),
{
    let mut n: usize = from;
    while n < cs.len() && '0' <= cs[n] && cs[n] <= '9'
        invariant
            from <= n <= cs@.len(),
            forall|i: int| from <= i < n ==> is_digit(#[trigger] cs@[i]),
        decreases cs@.len() - n,
    {
        n = n + 1;
    }
    proof {
        let rest = cs@.skip(from as int);
        assert forall|i: int| 0 <= i < n - from implies is_digit(#[trigger] rest[i]) by {
            assert(rest[i] == cs@[from + i]);
        }
        lemma_digit_run(rest, (n - from) as nat);
    }
    n
}

/// One or more ASCII digits.
pub open spec fn is_number(t: Seq<char>) -> bool {
    t.len() > 0 && forall|i: int| 0 <= i < t.len() ==> is_digit(#[trigger] t[i])
}

/// The number that the digits of `t` write.
pub open spec fn number(t: Seq<char>) -> nat
    decreases t.len(),
{
    if t.len() == 0 {
        0
    } else {
        10 * number(t.drop_last()) + (t.last() as nat - 48) as nat
    }
}

/// What `t` reads as: decimal digits after an optional plus sign, no greater than `max`.
pub open spec fn parsed(t: Seq<char>, max: nat) -> Option<nat> {
    let digits = if t.len() > 0 && t[0] == '+' {
        t.drop_first()
    } else {
        t
    };
    if is_number(digits) && number(digits) <= max {
        Some(number(digits))
    } else {
        None
    }
}

/// A number that is written in decimal is read back.
pub proof fn lemma_decimal_reads_back(n: nat)
    ensures
        is_number(decimal(n)),
        number(decimal(n)) == n,
    decreases n,
{
    let d = decimal(n);
    if n < 10 {
        assert(is_digit(digit_char(n)));
        assert(d.drop_last() =~= Seq::<char>::empty());
        assert(number(d.drop_last()) == 0);
    } else {
        let init = decimal(n / 10);
        lemma_decimal_reads_back(n / 10);
        assert(is_digit(digit_char(n % 10)));
        assert(d.drop_last() =~= init);
        assert forall|i: int| 0 <= i < d.len() implies is_digit(#[trigger] d[i]) by {
            if i < init.len() {
                assert(d[i] == init[i]);
            }
        }
    }
}

/// A number is no smaller than what a prefix of its digits writes.
proof fn lemma_number_grows(t: Seq<char>, k: int)
    requires
        0 <= k <= t.len(),
    ensures
        number(t.take(k)) <= number(t),
    decreases t.len() - k,
{
    if k < t.len() {
        lemma_number_grows(t, k + 1);
        assert(t.take(k + 1).drop_last() =~= t.take(k));
    } else {
        assert(t.take(k) =~= t);
    }
}

/// Reads a decimal number of 64 bits, with or without a plus sign.
pub fn parse_u64(s: &str) -> (r: Option<u64>)
    ensures
        (match r {
            Some(n) => Some(n as nat),
            None => None,
        }) == parsed(s@, u64::MAX as nat),
{
    let cs = chars_of(s);
    let from: usize = if cs.len() > 0 && cs[0] == '+' {
        1
    } else {
        0
    };
    let ghost digits = cs@.skip(from as int);
    assert(from == 0 ==> digits =~= cs@);
    assert(from == 1 ==> digits =~= cs@.drop_first());
    if from == cs.len() {
        return None;
    }
    let mut n: u64 = 0;
    let mut i: usize = from;
    assert(digits.take(0) =~= Seq::<char>::empty());
    while i < cs.len()
        invariant
            from <= i <= cs@.len(),
            from < cs@.len(),
            digits == cs@.skip(from as int),
            parsed(s@, u64::MAX as nat) == (if is_number(digits) && number(digits) <= u64::MAX {
                Some(number(digits))
            } else {
                None
            }),
            forall|k: int| 0 <= k < i - from ==> is_digit(#[trigger] digits[k]),
            n == number(digits.take(i - from)),
        decreases cs@.len() - i,
    {
        let c = cs[i];
        assert(c == digits[i - from]);
        if c < '0' || c > '9' {
            return None;
        }
        let d = (c as u8 - 48) as u64;
        proof {
            lemma_number_grows(digits, i - from + 1);
            assert(digits.take(i - from + 1).drop_last() =~= digits.take(i - from));
        }
        let next = match n.checked_mul(10) {
            Some(m) => m.checked_add(d),
            None => None,
        };
        match next {
            Some(m) => {
                n = m;
            },
            None => {
                return None;
            },
        }
        i = i + 1;
    }
    assert(digits.take(i - from) =~= digits);
    Some(n)
}

/// What occurs in a part of `t` occurs in `t`.
pub proof fn lemma_contains_part(t: Seq<char>, part: Seq<char>, p: Seq<char>)
    requires
        contains(t, part),
        contains(part, p),
    ensures
        contains(t, p),
{
    let i = choose|i: int| occurs_at(t, part, i);
    let k = choose|k: int| occurs_at(part, p, k);
    assert(t.subrange(i + k, i + k + p.len()) =~= part.subrange(k, k + p.len()));
    assert(occurs_at(t, p, i + k));
}

/// A line is a part of its text.
pub proof fn lemma_line_in_text(t: Seq<char>, n: int)
    requires
        0 <= n < lines(t).len(),
    ensures
        contains(t, lines(t)[n]),
    decreases t.len(),
{
    let at = index_of(t, '\n') as int;
    if at >= t.len() {
        assert(t.subrange(0, t.len() as int) =~= t);
        assert(occurs_at(t, t, 0));
    } else if n == 0 {
        let line = strip_cr(t.take(at));
        assert(t.subrange(0, line.len() as int) =~= line);
        assert(occurs_at(t, line, 0));
        assert(lines(t)[0] == line);
    } else {
        let rest = t.skip(at + 1);
        lemma_line_in_text(rest, n - 1);
        assert(lines(t)[n] == lines(rest)[n - 1]);
        assert(t.subrange(at + 1, at + 1 + rest.len()) =~= rest);
        assert(occurs_at(t, rest, at + 1));
        lemma_contains_part(t, rest, lines(rest)[n - 1]);
    }
}

/// A prefix agrees with the text in each of its characters.
pub proof fn lemma_prefix(p: Seq<char>, t: Seq<char>)
    ensures
        p.is_prefix_of(t) <==> p.len() <= t.len() && forall|k: int|
            0 <= k < p.len() ==> t[k] == #[trigger] p[k],
{
    if p.is_prefix_of(t) {
        assert forall|k: int| 0 <= k < p.len() implies t[k] == #[trigger] p[k] by {
            assert(t.subrange(0, p.len() as int)[k] == t[k]);
        }
    } else if p.len() <= t.len() {
        if forall|k: int| 0 <= k < p.len() ==> t[k] == #[trigger] p[k] {
            assert(p =~= t.subrange(0, p.len() as int));
        }
    }
}

/// A line holds no newline.
pub proof fn lemma_line_has_no_newline(t: Seq<char>, n: int)
    requires
        0 <= n < lines(t).len(),
    ensures
        forall|i: int| 0 <= i < lines(t)[n].len() ==> lines(t)[n][i] != '\n',
    decreases t.len(),
{
    lemma_index_of_bounds(t, '\n');
    let at = index_of(t, '\n') as int;
    if at < t.len() && n > 0 {
        lemma_line_has_no_newline(t.skip(at + 1), n - 1);
        assert(lines(t)[n] == lines(t.skip(at + 1))[n - 1]);
    } else if at < t.len() {
        assert(lines(t)[0] == strip_cr(t.take(at)));
    }
}

/// A text without a newline is one line, or none where it is empty.
pub proof fn lemma_single_line(t: Seq<char>)
    requires
        forall|i: int| 0 <= i < t.len() ==> t[i] != '\n',
    ensures
        lines(t) == if t.len() == 0 {
            seq![]
        } else {
            seq![t]
        },
{
    lemma_index_of_bounds(t, '\n');
}

/// Text that begins on a new line adds its lines to those before it.
pub proof fn lemma_lines_concat(t: Seq<char>, u: Seq<char>)
    requires
        t.len() == 0 || t.last() == '\n',
    ensures
        lines(t + u) == lines(t) + lines(u),
    decreases t.len(),
{
    if t.len() == 0 {
        assert(t + u =~= u);
        assert(lines(t) + lines(u) =~= lines(u));
    } else {
        lemma_index_of_bounds(t, '\n');
        let at = index_of(t, '\n');
        assert(at < t.len()) by {
            if at == t.len() {
                assert(t[t.len() - 1] != '\n');
            }
        }
        lemma_index_of(t + u, '\n', at);
        let rest = t.skip(at as int + 1);
        assert((t + u).take(at as int) =~= t.take(at as int));
        assert((t + u).skip(at as int + 1) =~= rest + u);
        assert(rest.len() == 0 || rest.last() == t.last());
        lemma_lines_concat(rest, u);
        let first = seq![strip_cr(t.take(at as int))];
        assert(first + (lines(rest) + lines(u)) =~= first + lines(rest) + lines(u));
    }
}

/// A carriage return stands at the end of `l`.
pub open spec fn ends_in_return(l: Seq<char>) -> bool {
    l.len() > 0 && l.last() == '\r'
}

/// `l` can stand as a line of its own: it holds no newline, and no carriage return at its end.
pub open spec fn is_line(l: Seq<char>) -> bool {
    &&& forall|i: int| 0 <= i < l.len() ==> l[i] != '\n'
    &&& !ends_in_return(l)
}

/// The text that `lines` are the lines of, each with a newline after it.
pub open spec fn unlines(lines: Seq<Seq<char>>) -> Seq<char>
    decreases lines.len(),
{
    if lines.len() == 0 {
        seq![]
    } else {
        unlines(lines.drop_last()) + lines.last().push('\n')
    }
}

/// Lines that are written out are read back.
pub proof fn law_lines_are_read_back(ls: Seq<Seq<char>>)
    requires
        forall|i: int| 0 <= i < ls.len() ==> is_line(#[trigger] ls[i]),
    ensures
        lines(unlines(ls)) == ls,
    decreases ls.len(),
{
    if ls.len() > 0 {
        let init = ls.drop_last();
        let last = ls.last();
        assert forall|i: int| 0 <= i < init.len() implies is_line(#[trigger] init[i]) by {
            assert(init[i] == ls[i]);
        }
        law_lines_are_read_back(init);
        assert(is_line(ls[ls.len() - 1]));
        let end = last.push('\n');
        lemma_lines_concat(unlines(init), end);
        lemma_index_of(end, '\n', last.len());
        assert(end.take(last.len() as int) =~= last);
        assert(end.skip(last.len() as int + 1) =~= Seq::<char>::empty());
        assert(lines(end.skip(last.len() as int + 1)) =~= Seq::<Seq<char>>::empty());
        assert(lines(end) =~= seq![last]);
        assert(ls =~= init + seq![last]);
    }
}

} // verus!
