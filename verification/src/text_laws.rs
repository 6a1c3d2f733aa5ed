//! What the functions on text do, each said of its own arguments and result.

use vstd::prelude::*;
use vstd::utf8::*;

use crate::plain;
use crate::text;

verus! {

/// A text without a newline is one line, as it stands; an empty text has none.
pub proof fn law_text_without_newline_is_one_line(t: &str, out: Vec<String>)
    requires
        call_ensures(text::split_lines, (t,), out),
        plain::lacks(t@, '\n'),
    ensures
        t@.len() == 0 ==> out@.len() == 0,
        t@.len() > 0 ==> out@.len() == 1 && out@[0]@ == t@,
{
    text::lemma_single_line(t@);
    let v = text::views(out@);
    assert(v.len() == out@.len());
    if t@.len() > 0 {
        assert(v[0] == out@[0]@);
    }
}

/// A newline ends a line, and takes one carriage return before it along; what follows is split as
/// if it stood alone.
pub proof fn law_newline_ends_a_line(
    first: Seq<char>,
    rest: &str,
    t: &str,
    out: Vec<String>,
    more: Vec<String>,
)
    requires
        plain::lacks(first, '\n'),
        t@ == first.push('\n') + rest@,
        call_ensures(text::split_lines, (t,), out),
        call_ensures(text::split_lines, (rest,), more),
    ensures
        out@.len() == more@.len() + 1,
        first.len() > 0 && first[first.len() - 1] == '\r' ==> out@[0]@ == first.take(
            first.len() - 1,
        ),
        first.len() == 0 || first[first.len() - 1] != '\r' ==> out@[0]@ == first,
        forall|i: int| 0 <= i < more@.len() ==> out@[i + 1]@ == (#[trigger] more@[i])@,
{
    text::lemma_index_of(t@, '\n', first.len());
    let n = first.len() as int;
    assert(t@.take(n) =~= first);
    assert(t@.skip(n + 1) =~= rest@);
    let v = text::views(out@);
    let w = text::views(more@);
    assert(v == seq![text::strip_cr(first)] + w);
    assert(v.len() == out@.len() && w.len() == more@.len());
    assert(v[0] == out@[0]@);
    assert forall|i: int| 0 <= i < more@.len() implies out@[i + 1]@ == (#[trigger] more@[i])@ by {
        assert(v[i + 1] == w[i]);
        assert(v[i + 1] == out@[i + 1]@);
        assert(w[i] == more@[i]@);
    }
    if first.len() > 0 {
        assert(first.drop_last() =~= first.take(first.len() - 1));
    }
}

/// White space is what Unicode calls so.
pub proof fn law_white_space(c: char, b: bool)
    requires
        call_ensures(text::whitespace, (c,), b),
    ensures
        b == plain::is_white(c),
{
}

proof fn lemma_trim_start(t: Seq<char>) -> (i: int)
    ensures
        0 <= i <= t.len(),
        text::trim_start(t) == t.subrange(i, t.len() as int),
        forall|k: int| 0 <= k < i ==> plain::is_white(#[trigger] t[k]),
        i < t.len() ==> !plain::is_white(t[i]),
    decreases t.len(),
{
    if t.len() > 0 && text::is_space(t[0]) {
        let i = lemma_trim_start(t.drop_first());
        assert(t.drop_first().subrange(i, t.len() - 1) =~= t.subrange(i + 1, t.len() as int));
        assert forall|k: int| 0 <= k < i + 1 implies plain::is_white(#[trigger] t[k]) by {
            if k > 0 {
                assert(t[k] == t.drop_first()[k - 1]);
            }
        }
        i + 1
    } else {
        assert(t.subrange(0, t.len() as int) =~= t);
        0
    }
}

proof fn lemma_trim_end(t: Seq<char>) -> (j: int)
    ensures
        0 <= j <= t.len(),
        text::trim_end(t) == t.subrange(0, j),
        forall|k: int| j <= k < t.len() ==> plain::is_white(#[trigger] t[k]),
        j > 0 ==> !plain::is_white(t[j - 1]),
    decreases t.len(),
{
    if t.len() > 0 && text::is_space(t.last()) {
        let j = lemma_trim_end(t.drop_last());
        assert(t.drop_last().subrange(0, j) =~= t.subrange(0, j));
        assert forall|k: int| j <= k < t.len() implies plain::is_white(#[trigger] t[k]) by {
            if k < t.len() - 1 {
                assert(t[k] == t.drop_last()[k]);
            }
        }
        j
    } else {
        assert(t.subrange(0, t.len() as int) =~= t);
        t.len() as int
    }
}

/// What is trimmed off a text is white space, and all of it at both ends.
pub proof fn law_trim(t: Seq<char>)
    ensures
        plain::is_trimmed(text::trim(t), t),
{
    let i = lemma_trim_start(t);
    let u = text::trim_start(t);
    let j = lemma_trim_end(u);
    assert(u.subrange(0, j) =~= t.subrange(i, i + j));
    assert forall|k: int| i + j <= k < t.len() implies plain::is_white(#[trigger] t[k]) by {
        assert(t[k] == u[k - i]);
    }
    if j > 0 {
        assert(t.subrange(i, i + j)[0] == t[i]);
        assert(t.subrange(i, i + j)[j - 1] == u[j - 1]);
    }
    assert(plain::trims_to(text::trim(t), t, i, i + j));
}

/// A text has one trimmed form.
pub proof fn law_trimmed_form_is_unique(a: Seq<char>, b: Seq<char>, t: Seq<char>)
    requires
        plain::is_trimmed(a, t),
        plain::is_trimmed(b, t),
    ensures
        a == b,
{
    let (i, j) = choose|i: int, j: int| #[trigger] plain::trims_to(a, t, i, j);
    let (k, l) = choose|k: int, l: int| #[trigger] plain::trims_to(b, t, k, l);
    if a.len() > 0 {
        assert(a[0] == t[i]);
        assert(a[a.len() - 1] == t[j - 1]);
        if b.len() == 0 {
            assert(k <= i < l || i < k || l <= i);
        }
    }
    if b.len() > 0 {
        assert(b[0] == t[k]);
        assert(b[b.len() - 1] == t[l - 1]);
    }
    if a.len() > 0 && b.len() > 0 {
        assert(i == k && j == l);
    }
    assert(a =~= b);
}

/// A piece of text is trimmed as it stands.
pub proof fn law_piece_is_trimmed(cs: &Vec<char>, from: usize, to: usize, s: String)
    requires
        from <= to <= cs@.len(),
        call_ensures(text::trimmed, (cs, from, to), s),
    ensures
        plain::is_trimmed(s@, cs@.subrange(from as int, to as int)),
{
    law_trim(cs@.subrange(from as int, to as int));
}

/// `contains` tells whether one text stands in the other.
pub proof fn law_contains(t: Seq<char>, p: Seq<char>)
    ensures
        text::contains(t, p) <==> plain::holds(t, p),
{
    if text::contains(t, p) {
        let i = choose|i: int| text::occurs_at(t, p, i);
        let a = t.take(i);
        let z = t.skip(i + p.len());
        assert(t =~= a + p + z) by {
            assert forall|k: int| 0 <= k < t.len() implies t[k] == (a + p + z)[k] by {
                if i <= k < i + p.len() {
                    assert(t.subrange(i, i + p.len())[k - i] == p[k - i]);
                }
            }
        }
    }
    if plain::holds(t, p) {
        let (a, z) = choose|a: Seq<char>, z: Seq<char>| t == #[trigger] (a + p + z);
        assert(t.subrange(a.len() as int, a.len() as int + p.len()) =~= p);
        assert(text::occurs_at(t, p, a.len() as int));
    }
}

/// A text has a substring exactly where the one stands in the other.
pub proof fn law_has_substring(t: &Vec<char>, p: &Vec<char>, b: bool)
    requires
        call_ensures(text::has_substring, (t, p), b),
    ensures
        b == plain::holds(t@, p@),
{
    law_contains(t@, p@);
}

/// A text begins with another exactly where something can be put behind that to make it.
pub proof fn law_starts_with(s: &Vec<char>, prefix: &str, b: bool)
    requires
        call_ensures(text::starts_with, (s, prefix), b),
    ensures
        b <==> exists|z: Seq<char>| s@ == #[trigger] (prefix@ + z),
{
    let p = prefix@;
    text::lemma_prefix(p, s@);
    if b {
        assert(s@ =~= p + s@.skip(p.len() as int));
    }
    if exists|z: Seq<char>| s@ == #[trigger] (p + z) {
        let z = choose|z: Seq<char>| s@ == #[trigger] (p + z);
        assert forall|k: int| 0 <= k < p.len() implies s@[k] == #[trigger] p[k] by {
            assert((p + z)[k] == p[k]);
        }
    }
}

/// The ASCII capitals become small letters, and nothing else changes.
pub proof fn law_lowercase(t: Seq<char>)
    ensures
        text::lowercase(t).len() == t.len(),
        forall|i: int|
            0 <= i < t.len() ==> plain::code(#[trigger] text::lowercase(t)[i]) == plain::code(t[i])
                + if 65 <= plain::code(t[i]) <= 90 {
                32int
            } else {
                0
            },
{
}

/// The characters in lower case are those of the text, the ASCII capitals as small letters.
pub proof fn law_lowercase_chars(s: &str, v: Vec<char>)
    requires
        call_ensures(text::lowercase_chars, (s,), v),
    ensures
        v@.len() == s@.len(),
        forall|i: int|
            0 <= i < s@.len() ==> plain::code(#[trigger] v@[i]) == plain::code(s@[i]) + if 65
                <= plain::code(s@[i]) <= 90 {
                32int
            } else {
                0
            },
{
}

/// One text stands in another at a position exactly where they agree character by character.
pub proof fn law_matches_at(t: &Vec<char>, p: &Vec<char>, i: usize, b: bool)
    requires
        i <= t@.len(),
        call_ensures(text::matches_at, (t, p, i), b),
    ensures
        b <==> i + p@.len() <= t@.len() && forall|k: int|
            0 <= k < p@.len() ==> t@[i + k] == #[trigger] p@[k],
{
    if b {
        assert forall|k: int| 0 <= k < p@.len() implies t@[i + k] == #[trigger] p@[k] by {
            assert(t@.subrange(i as int, i + p@.len())[k] == p@[k]);
        }
    }
    if i + p@.len() <= t@.len() && forall|k: int|
        0 <= k < p@.len() ==> t@[i + k] == #[trigger] p@[k] {
        assert(t@.subrange(i as int, i + p@.len()) =~= p@);
    }
}

/// Folding takes capitals for small letters, the long s for `s` and the Kelvin sign for `k`, and
/// changes nothing else.
pub proof fn law_fold_text(s: &str, f: String)
    requires
        call_ensures(text::fold_text, (s,), f),
    ensures
        f@.len() == s@.len(),
        forall|i: int|
            0 <= i < s@.len() ==> plain::code(#[trigger] f@[i]) == {
                let n = plain::code(s@[i]);
                if 65 <= n <= 90 {
                    n + 32
                } else if n == 0x17f {
                    115
                } else if n == 0x212a {
                    107
                } else {
                    n
                }
            },
{
}

/// Two strings are the same where they hold the same text.
pub proof fn law_same(a: &str, b: &str, r: bool)
    requires
        call_ensures(text::same, (a, b), r),
    ensures
        r <==> a@ == b@,
{
}

proof fn lemma_dictionary(a: Seq<u8>, b: Seq<u8>)
    ensures
        text::bytes_le(a, b) <==> plain::dictionary(a, b),
    decreases a.len(),
{
    if a.len() == 0 {
        assert(a =~= b.take(0));
    } else if b.len() > 0 {
        let x = a.drop_first();
        let y = b.drop_first();
        if a[0] == b[0] {
            lemma_dictionary(x, y);
            if plain::dictionary(x, y) {
                if x.len() <= y.len() && x == y.take(x.len() as int) {
                    assert(a =~= b.take(a.len() as int)) by {
                        assert forall|i: int| 0 <= i < a.len() implies a[i] == b.take(
                            a.len() as int,
                        )[i] by {
                            if i > 0 {
                                assert(x[i - 1] == y.take(x.len() as int)[i - 1]);
                            }
                        }
                    }
                } else {
                    let k = choose|k: int|
                        0 <= k < x.len() && k < y.len() && x.take(k) == y.take(k) && #[trigger] x[k]
                            < y[k];
                    assert(a.take(k + 1) =~= seq![a[0]] + x.take(k));
                    assert(b.take(k + 1) =~= seq![b[0]] + y.take(k));
                    assert(a[k + 1] < b[k + 1]);
                }
            }
            if plain::dictionary(a, b) {
                if a.len() <= b.len() && a == b.take(a.len() as int) {
                    assert(x =~= y.take(x.len() as int)) by {
                        assert forall|i: int| 0 <= i < x.len() implies x[i] == y.take(
                            x.len() as int,
                        )[i] by {
                            assert(a[i + 1] == b.take(a.len() as int)[i + 1]);
                        }
                    }
                } else {
                    let k = choose|k: int|
                        0 <= k < a.len() && k < b.len() && a.take(k) == b.take(k) && #[trigger] a[k]
                            < b[k];
                    assert(k > 0);
                    assert(x.take(k - 1) =~= a.take(k).drop_first());
                    assert(y.take(k - 1) =~= b.take(k).drop_first());
                    assert(x[k - 1] < y[k - 1]);
                }
            }
        } else {
            if a[0] < b[0] {
                assert(a.take(0) =~= b.take(0));
            }
            if plain::dictionary(a, b) {
                if a.len() <= b.len() && a == b.take(a.len() as int) {
                    assert(a[0] == b.take(a.len() as int)[0]);
                } else {
                    let k = choose|k: int|
                        0 <= k < a.len() && k < b.len() && a.take(k) == b.take(k) && #[trigger] a[k]
                            < b[k];
                    if k > 0 {
                        assert(a.take(k)[0] == b.take(k)[0]);
                    }
                }
            }
        }
    }
}

/// Texts are ordered as a dictionary orders their bytes.
pub proof fn law_texts_are_ordered_by_their_bytes(a: Seq<char>, b: Seq<char>)
    ensures
        text::text_le(a, b) <==> plain::dictionary(encode_utf8(a), encode_utf8(b)),
{
    lemma_dictionary(encode_utf8(a), encode_utf8(b));
}

/// One string is at most another where a dictionary of bytes has it first.
pub proof fn law_at_most(a: &str, b: &str, r: bool)
    requires
        call_ensures(text::at_most, (a, b), r),
    ensures
        r == plain::dictionary(encode_utf8(a@), encode_utf8(b@)),
{
    law_texts_are_ordered_by_their_bytes(a@, b@);
}

/// A number below ten is written as its digit, and a larger one as its tenth with the last digit
/// behind it.
pub proof fn law_numbers_are_written_in_decimal(n: nat)
    ensures
        n < 10 ==> text::decimal(n).len() == 1 && plain::code(text::decimal(n)[0]) == 48 + n,
        n >= 10 ==> text::decimal(n).len() == text::decimal(n / 10).len() + 1 && text::decimal(
            n,
        ).take(text::decimal(n / 10).len() as int) == text::decimal(n / 10) && plain::code(
            text::decimal(n)[text::decimal(n / 10).len() as int],
        ) == 48 + n % 10,
{
    if n >= 10 {
        assert(text::decimal(n).take(text::decimal(n / 10).len() as int) =~= text::decimal(n / 10));
    }
}

/// Writing a number gives its decimal form.
pub proof fn law_to_decimal(n: usize, s: String)
    requires
        call_ensures(text::to_decimal, (n,), s),
    ensures
        s@ == text::decimal(n as nat),
{
}

/// Only digits behind an optional plus sign are read as a number.
pub proof fn law_only_digits_are_read(s: &str, r: Option<u64>)
    requires
        call_ensures(text::parse_u64, (s,), r),
        r is Some,
    ensures
        plain::is_digits(s@) || (s@.len() > 0 && s@[0] == '+' && plain::is_digits(s@.skip(1))),
{
    assert(s@.len() > 0 ==> s@.drop_first() =~= s@.skip(1));
    let digits = if s@.len() > 0 && s@[0] == '+' {
        s@.drop_first()
    } else {
        s@
    };
    assert forall|i: int| 0 <= i < digits.len() implies plain::is_decimal(#[trigger] digits[i]) by {
        assert(text::is_digit(digits[i]));
    }
}

/// A plus sign in front of a number makes no difference.
pub proof fn law_plus_sign_makes_no_difference(
    s: &str,
    signed: &str,
    r: Option<u64>,
    q: Option<u64>,
)
    requires
        s@.len() == 0 || s@[0] != '+',
        signed@ == seq!['+'] + s@,
        call_ensures(text::parse_u64, (s,), r),
        call_ensures(text::parse_u64, (signed,), q),
    ensures
        r == q,
{
    assert(signed@.drop_first() =~= s@);
}

/// A digit is read as itself.
pub proof fn law_digit_is_read(s: &str, r: Option<u64>)
    requires
        s@.len() == 1,
        plain::is_decimal(s@[0]),
        call_ensures(text::parse_u64, (s,), r),
    ensures
        r is Some,
        r->0 == plain::code(s@[0]) - 48,
{
    assert(s@.drop_last() =~= Seq::<char>::empty());
    assert(text::number(s@.drop_last()) == 0);
    assert(text::is_number(s@));
    assert(text::parsed(s@, u64::MAX as nat) == Some(text::number(s@)));
}

/// A digit behind a number reads as ten times the number and the digit, as far as that goes into
/// 64 bits; behind a number that is too large for them it is still too large.
pub proof fn law_next_digit_is_read(s: &str, longer: &str, d: char, r: Option<u64>, q: Option<u64>)
    requires
        plain::is_digits(s@),
        plain::is_decimal(d),
        longer@ == s@.push(d),
        call_ensures(text::parse_u64, (s,), r),
        call_ensures(text::parse_u64, (longer,), q),
    ensures
        r is None ==> q is None,
        r is Some && 10 * r->0 + (plain::code(d) - 48) <= u64::MAX ==> q is Some && q->0 == 10 * r->0
            + (plain::code(d) - 48),
        r is Some && 10 * r->0 + (plain::code(d) - 48) > u64::MAX ==> q is None,
{
    assert(plain::is_decimal(s@[0]));
    assert(text::is_number(s@)) by {
        assert forall|i: int| 0 <= i < s@.len() implies text::is_digit(#[trigger] s@[i]) by {
            assert(plain::is_decimal(s@[i]));
        }
    }
    let l = longer@;
    assert(l[0] == s@[0]);
    assert(text::is_number(l)) by {
        assert forall|i: int| 0 <= i < l.len() implies text::is_digit(#[trigger] l[i]) by {
            if i < s@.len() {
                assert(text::is_digit(s@[i]));
            }
        }
    }
    assert(l.drop_last() =~= s@);
    assert(text::number(l) == 10 * text::number(s@) + (plain::code(d) - 48));
}

/// The first of a character is where it stands and does not stand before.
pub proof fn law_find_char(cs: &Vec<char>, from: usize, c: char, n: usize)
    requires
        from <= cs@.len(),
        call_ensures(text::find_char, (cs, from, c), n),
    ensures
        from <= n <= cs@.len(),
        forall|i: int| from <= i < n ==> cs@[i] != c,
        n < cs@.len() ==> cs@[n as int] == c,
{
    let rest = cs@.skip(from as int);
    text::lemma_index_of_bounds(rest, c);
    assert forall|i: int| from <= i < n implies cs@[i] != c by {
        assert(rest[i - from] == cs@[i]);
    }
    if n < cs@.len() {
        assert(rest[n - from] == cs@[n as int]);
    }
}

/// `index_of` is where a character first stands, or the end.
pub proof fn law_index_of(t: Seq<char>, c: char)
    ensures
        text::index_of(t, c) <= t.len(),
        plain::lacks(t.take(text::index_of(t, c) as int), c),
        text::index_of(t, c) < t.len() ==> t[text::index_of(t, c) as int] == c,
{
    text::lemma_index_of_bounds(t, c);
}

/// A run of digits is digits throughout and ends where there is none.
pub proof fn law_digit_run(t: Seq<char>)
    ensures
        text::digit_run(t) <= t.len(),
        forall|i: int| 0 <= i < text::digit_run(t) ==> plain::is_decimal(#[trigger] t[i]),
        text::digit_run(t) < t.len() ==> !plain::is_decimal(t[text::digit_run(t) as int]),
    decreases t.len(),
{
    if t.len() > 0 && text::is_digit(t[0]) {
        law_digit_run(t.drop_first());
        assert forall|i: int| 0 <= i < text::digit_run(t) implies plain::is_decimal(
            #[trigger] t[i],
        ) by {
            if i > 0 {
                assert(t[i] == t.drop_first()[i - 1]);
            }
        }
    }
}

/// The end of some digits is where no digit stands, with nothing but digits before it.
pub proof fn law_digits_end(cs: &Vec<char>, from: usize, n: usize)
    requires
        from <= cs@.len(),
        call_ensures(text::digits_end, (cs, from), n),
    ensures
        from <= n <= cs@.len(),
        forall|i: int| from <= i < n ==> plain::is_decimal(#[trigger] cs@[i]),
        n < cs@.len() ==> !plain::is_decimal(cs@[n as int]),
{
    let rest = cs@.skip(from as int);
    law_digit_run(rest);
    assert forall|i: int| from <= i < n implies plain::is_decimal(#[trigger] cs@[i]) by {
        assert(rest[i - from] == cs@[i]);
    }
}

/// The characters of a string are its text, and a string made of some of them holds just these.
pub proof fn law_characters_and_strings(
    s: &str,
    v: Vec<char>,
    cs: &Vec<char>,
    from: usize,
    to: usize,
    piece: String,
)
    requires
        call_ensures(text::chars_of, (s,), v),
        from <= to <= cs@.len(),
        call_ensures(text::string_of, (cs, from, to), piece),
    ensures
        v@ == s@,
        piece@.len() == to - from,
        forall|i: int| 0 <= i < to - from ==> #[trigger] piece@[i] == cs@[from + i],
{
}

} // verus!
