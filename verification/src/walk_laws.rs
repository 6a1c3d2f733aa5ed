//! How a scan walks through a diff, said of the first characters of its lines.

use vstd::prelude::*;

use crate::diff;
use crate::diff::Place;
use crate::entropy;
use crate::entropy::ByteCounts;
use crate::finding;
use crate::finding::{Finding, FindingView};
use crate::found_laws;
use crate::plain;
use crate::rules;
use crate::scan;
use crate::scan::Scanner;
use crate::scan_laws;
use crate::text;
use crate::text_laws;

verus! {

/// `raw` begins with the character `c`.
pub open spec fn begins(raw: Seq<char>, c: char) -> bool {
    raw.len() > 0 && raw[0] == c
}

/// `raw` begins with three plus signs and a space.
pub open spec fn reads_as_file_header(raw: Seq<char>) -> bool {
    raw.len() >= 4 && raw[0] == '+' && raw[1] == '+' && raw[2] == '+' && raw[3] == ' '
}

/// `raw` begins with two at signs.
pub open spec fn reads_as_hunk_header(raw: Seq<char>) -> bool {
    raw.len() >= 2 && raw[0] == '@' && raw[1] == '@'
}

/// `q` is `n` on by one; past the largest number the counting starts again.
pub open spec fn one_on(n: nat, q: nat) -> bool {
    if n < usize::MAX {
        q == n + 1
    } else {
        q == 0
    }
}

/// The line `raw` of a diff leads from `p` to `q`.
///
/// Where no announced line is left, three plus signs and a space name the file; two at signs begin
/// a hunk; a minus sign or a backslash leaves the place as it is; and any other line, a blank one
/// among them, is the next line of the new side.
pub open spec fn leads(p: Place, raw: Seq<char>, q: Place) -> bool {
    if p.left == 0 && reads_as_file_header(raw) {
        let name = text::trim(raw.skip(4));
        &&& q.line == 0
        &&& q.left == 0
        &&& if name.len() >= 2 && name[0] == 'b' && name[1] == '/' {
            q.file == name.skip(2)
        } else {
            q.file == name
        }
    } else if reads_as_hunk_header(raw) {
        &&& q.file == p.file
        &&& q.line == diff::before_hunk(rules::hunk_digits(raw))
        &&& q.left == diff::announced(raw)
    } else if begins(raw, '-') || begins(raw, '\\') {
        q == p
    } else {
        &&& q.file == p.file
        &&& one_on(p.line, q.line)
        &&& if p.left > 0 && (raw.len() == 0 || begins(raw, ' ') || begins(raw, '+')) {
            q.left + 1 == p.left
        } else {
            q.left == 0
        }
    }
}

/// `raw` is a line that the diff adds: it begins with a plus sign and names no file.
pub open spec fn is_plus_line(p: Place, raw: Seq<char>) -> bool {
    begins(raw, '+') && !(p.left == 0 && reads_as_file_header(raw))
}

/// Each line of a diff leads on as its first characters say.
pub proof fn law_lines_lead_on(p: Place, raw: Seq<char>)
    ensures
        leads(p, raw, diff::advance(p, raw)),
        diff::is_added(p, raw) == is_plus_line(p, raw),
{
    reveal_strlit("+++ ");
    reveal_strlit("+");
    reveal_strlit("@@");
    reveal_strlit("-");
    reveal_strlit("\\");
    reveal_strlit("b/");
    text::lemma_prefix("+++ "@, raw);
    text::lemma_prefix("+"@, raw);
    text::lemma_prefix("@@"@, raw);
    text::lemma_prefix("-"@, raw);
    text::lemma_prefix("\\"@, raw);
    text::lemma_prefix("b/"@, text::trim(raw.skip(4)));
    assert(diff::is_file_header(raw) <==> reads_as_file_header(raw)) by {
        let h = "+++ "@;
        if diff::is_file_header(raw) {
            assert(raw[0] == h[0] && raw[1] == h[1] && raw[2] == h[2] && raw[3] == h[3]);
        }
    }
    assert(diff::is_hunk_header(raw) <==> reads_as_hunk_header(raw)) by {
        let h = "@@"@;
        if diff::is_hunk_header(raw) {
            assert(raw[0] == h[0] && raw[1] == h[1]);
        }
    }
    assert("+"@.is_prefix_of(raw) <==> begins(raw, '+')) by {
        if "+"@.is_prefix_of(raw) {
            assert(raw[0] == "+"@[0]);
        }
    }
    assert(diff::is_removed(raw) <==> begins(raw, '-')) by {
        if diff::is_removed(raw) {
            assert(raw[0] == "-"@[0]);
        }
    }
    assert(diff::is_remark(raw) <==> begins(raw, '\\')) by {
        if diff::is_remark(raw) {
            assert(raw[0] == "\\"@[0]);
        }
    }
    let name = text::trim(raw.skip(4));
    assert("b/"@.is_prefix_of(name) <==> name.len() >= 2 && name[0] == 'b' && name[1] == '/') by {
        if "b/"@.is_prefix_of(name) {
            assert(name[0] == "b/"@[0] && name[1] == "b/"@[1]);
        }
    }
}

/// A line of context is the next line of the new side: one that begins with a space, be it blank
/// otherwise, and one that is empty.
pub proof fn law_context_lines_are_counted(p: Place, raw: Seq<char>)
    requires
        raw.len() == 0 || raw[0] == ' ',
        p.line < usize::MAX,
    ensures
        diff::advance(p, raw).line == p.line + 1,
        diff::advance(p, raw).file == p.file,
{
    law_lines_lead_on(p, raw);
}

/// `places` are where a diff of these lines stands before each of them and at its end: it starts
/// in no file, and each line leads on to the next place.
pub open spec fn walks(lines: Seq<Seq<char>>, places: Seq<Place>) -> bool {
    &&& places.len() == lines.len() + 1
    &&& places[0] == (Place { file: "<diff>"@, line: 0, left: 0 })
    &&& forall|i: int|
        0 <= i < lines.len() ==> leads(places[i], #[trigger] lines[i], places[i + 1])
}

/// `parts[i]` reports on line `i` of a diff: what there is to be found behind the plus sign of an
/// added line, under the file and line number that it leads to, and nothing for any other line.
pub open spec fn reports_added<F: Fn(&ByteCounts) -> bool>(
    lines: Seq<Seq<char>>,
    places: Seq<Place>,
    judge: &F,
    parts: Seq<Seq<FindingView>>,
    answers: Seq<Seq<bool>>,
) -> bool {
    &&& parts.len() == lines.len()
    &&& forall|i: int|
        0 <= i < lines.len() ==> if is_plus_line(places[i], #[trigger] lines[i]) {
            &&& found_laws::answers_for(judge, lines[i].skip(1), answers[i])
            &&& plain::lists(
                parts[i],
                found_laws::line_hits(
                    lines[i].skip(1),
                    places[i + 1].file,
                    places[i + 1].line,
                    false,
                    answers[i],
                ),
            )
        } else {
            parts[i].len() == 0
        }
}

/// `out` reports on a diff of these lines.
pub open spec fn reports_diff<F: Fn(&ByteCounts) -> bool>(
    lines: Seq<Seq<char>>,
    judge: &F,
    out: Seq<FindingView>,
) -> bool {
    exists|
        places: Seq<Place>,
        parts: Seq<Seq<FindingView>>,
        answers: Seq<Seq<bool>>,
    |
        walks(lines, places) && #[trigger] reports_added(lines, places, judge, parts, answers)
            && out == plain::one_after_the_other(parts)
}

proof fn lemma_places(lines: Seq<Seq<char>>) -> (places: Seq<Place>)
    ensures
        walks(lines, places),
        forall|i: int| 0 <= i <= lines.len() ==> #[trigger] places[i] == diff::place(lines.take(i)),
    decreases lines.len(),
{
    if lines.len() == 0 {
        assert(lines.take(0) =~= lines);
        seq![Place { file: "<diff>"@, line: 0, left: 0 }]
    } else {
        let init = lines.drop_last();
        let n = lines.len() - 1;
        let before = lemma_places(init);
        let places = before.push(diff::place(lines));
        assert(init =~= lines.take(n));
        assert(init.take(n) =~= init);
        assert(lines.take(n + 1) =~= lines);
        assert forall|i: int| 0 <= i <= lines.len() implies #[trigger] places[i] == diff::place(
            lines.take(i),
        ) by {
            if i <= n {
                assert(before[i] == diff::place(init.take(i)));
                assert(init.take(i) =~= lines.take(i));
            }
        }
        assert forall|i: int| 0 <= i < lines.len() implies leads(
            places[i],
            #[trigger] lines[i],
            places[i + 1],
        ) by {
            if i < n {
                assert(init[i] == lines[i]);
                assert(leads(before[i], init[i], before[i + 1]));
            } else {
                assert(before[n] == diff::place(init));
                law_lines_lead_on(diff::place(init), lines[n]);
            }
        }
        places
    }
}

#[verifier::rlimit(60)]
proof fn lemma_diff_reports<F: Fn(&ByteCounts) -> bool>(
    lines: Seq<Seq<char>>,
    places: Seq<Place>,
    judge: &F,
    random: Seq<Seq<bool>>,
) -> (parts: Seq<Seq<FindingView>>)
    requires
        places.len() >= lines.len() + 1,
        forall|i: int| 0 <= i <= lines.len() ==> #[trigger] places[i] == diff::place(lines.take(i)),
        forall|i: int|
            0 <= i < lines.len() && #[trigger] diff::adds(lines, i) ==> entropy::all_answered(
                judge,
                scan::candidates(lines[i].skip(1)),
                random[i],
            ),
    ensures
        reports_added(lines, places, judge, parts, random),
        diff::diff_findings(lines, random) == plain::one_after_the_other(parts),
    decreases lines.len(),
{
    if lines.len() == 0 {
        Seq::empty()
    } else {
        let init = lines.drop_last();
        let n = lines.len() - 1;
        let raw = lines[n];
        assert(init =~= lines.take(n));
        assert(lines.take(n + 1) =~= lines);
        assert forall|i: int| 0 <= i <= init.len() implies #[trigger] places[i] == diff::place(
            init.take(i),
        ) by {
            assert(init.take(i) =~= lines.take(i));
        }
        assert forall|i: int|
            0 <= i < init.len() && #[trigger] diff::adds(init, i) implies entropy::all_answered(
            judge,
            scan::candidates(init[i].skip(1)),
            random[i],
        ) by {
            diff::lemma_adds_prefix(lines, n, i);
            assert(diff::adds(lines, i));
        }
        let before = lemma_diff_reports(init, places, judge, random);
        law_lines_lead_on(places[n], raw);
        assert(places[n] == diff::place(init));
        assert(places[n + 1] == diff::place(lines));
        assert(diff::adds(lines, n) == diff::is_added(places[n], raw));
        let last = if diff::is_added(places[n], raw) {
            diff::added_findings(raw.skip(1), places[n + 1], random[n])
        } else {
            seq![]
        };
        if diff::is_added(places[n], raw) {
            found_laws::lemma_answers_for(judge, raw.skip(1), random[n]);
            found_laws::lemma_line_lists_its_hits(
                raw.skip(1),
                places[n + 1].file,
                places[n + 1].line,
                false,
                random[n],
            );
            if raw.skip(1).len() == 0 {
                assert(raw.skip(1) =~= seq![]);
                scan_laws::law_empty_line_has_no_findings(
                    random[n],
                    places[n + 1].file,
                    places[n + 1].line,
                );
            }
        }
        let parts = before.push(last);
        found_laws::lemma_one_more_part(before, last);
        assert forall|i: int| 0 <= i < lines.len() implies if is_plus_line(
            places[i],
            #[trigger] lines[i],
        ) {
            &&& found_laws::answers_for(judge, lines[i].skip(1), random[i])
            &&& plain::lists(
                parts[i],
                found_laws::line_hits(
                    lines[i].skip(1),
                    places[i + 1].file,
                    places[i + 1].line,
                    false,
                    random[i],
                ),
            )
        } else {
            parts[i].len() == 0
        } by {
            if i < n {
                assert(init[i] == lines[i]);
                assert(parts[i] == before[i]);
            }
        }
        parts
    }
}

/// Scanning a diff walks through its lines from place to place, and reports what there is to be
/// found in each added line at the place that it leads to.
pub proof fn law_scan_diff<F: Fn(&ByteCounts) -> bool>(
    scanner: &Scanner,
    t: &str,
    judge: &F,
    ls: Vec<String>,
    out: Vec<Finding>,
)
    requires
        call_ensures(text::split_lines, (t,), ls),
        call_ensures(diff::scan_diff::<F>, (t, judge), out) || call_ensures(
            Scanner::scan_diff::<F>,
            (scanner, t, judge),
            out,
        ),
    ensures
        reports_diff(
            Seq::new(ls@.len(), |n: int| ls@[n]@),
            judge,
            Seq::new(out@.len(), |k: int| out@[k]@),
        ),
{
    let lines = text::lines(t@);
    let found = finding::finding_views(out@);
    let random = choose|random: Seq<Seq<bool>>| #[trigger]
        diff::added_answered(judge, lines, random) && found == diff::diff_findings(lines, random);
    let places = lemma_places(lines);
    let parts = lemma_diff_reports(lines, places, judge, random);
    assert(Seq::new(ls@.len(), |n: int| ls@[n]@) =~= lines) by {
        assert(text::views(ls@) == lines);
        assert(Seq::new(ls@.len(), |n: int| ls@[n]@) =~= text::views(ls@));
    }
    assert(Seq::new(out@.len(), |k: int| out@[k]@) =~= found);
    assert(reports_added(lines, places, judge, parts, random));
}

/// The line before a hunk is one less than the number read from its header, and zero where none
/// can be read or the number is zero.
pub proof fn law_line_before_hunk(d: &str, n: usize, none: usize, r: Option<u64>)
    requires
        call_ensures(text::parse_u64, (d,), r),
        call_ensures(diff::line_before_hunk, (Some(d),), n),
        call_ensures(diff::line_before_hunk, (None::<&str>,), none),
    ensures
        r is Some && 0 < r->0 <= usize::MAX ==> n == r->0 - 1,
        r is None || r->0 == 0 || r->0 > usize::MAX ==> n == 0,
        none == 0,
{
}

/// A hunk header announces the number behind the comma that follows its first line number.
pub proof fn law_hunk_with_a_count(
    a: Seq<char>,
    d: Seq<char>,
    count: &str,
    b: Seq<char>,
    raw: &Vec<char>,
    n: u64,
    r: Option<u64>,
)
    requires
        a.len() >= 4,
        a[0] == '@' && a[1] == '@' && a[2] == ' ' && a[3] == '-',
        plain::lacks(a, '+'),
        plain::is_digits(d),
        plain::is_digits(count@),
        b.len() == 0 || !plain::is_decimal(b[0]),
        raw@ == a.push('+') + d.push(',') + count@ + b,
        call_ensures(diff::announced_lines, (raw,), n),
        call_ensures(text::parse_u64, (count,), r),
    ensures
        r is Some ==> n == r->0,
        r is None ==> n == 0,
{
    reveal_strlit("@@ -");
    let h = raw@;
    let p = "@@ -"@;
    text::lemma_prefix(p, h);
    text::lemma_index_of(h, '+', a.len());
    let rest = rules::after_plus(h);
    assert(rest =~= d.push(',') + count@ + b);
    assert forall|i: int| 0 <= i < d.len() implies text::is_digit(#[trigger] rest[i]) by {
        assert(plain::is_decimal(d[i]));
    }
    text::lemma_digit_run(rest, d.len());
    let tail = rest.skip(d.len() as int + 1);
    assert(tail =~= count@ + b);
    assert forall|i: int| 0 <= i < count@.len() implies text::is_digit(#[trigger] tail[i]) by {
        assert(plain::is_decimal(count@[i]));
    }
    text::lemma_digit_run(tail, count@.len());
    assert(tail.take(count@.len() as int) =~= count@);
}

/// A hunk header with a first line number and no comma behind it announces one line.
pub proof fn law_hunk_without_a_count(
    a: Seq<char>,
    d: Seq<char>,
    b: Seq<char>,
    raw: &Vec<char>,
    n: u64,
)
    requires
        a.len() >= 4,
        a[0] == '@' && a[1] == '@' && a[2] == ' ' && a[3] == '-',
        plain::lacks(a, '+'),
        plain::is_digits(d),
        b.len() == 0 || (plain::code(b[0]) < 128 && !plain::is_decimal(b[0]) && b[0] != ','),
        raw@ == a.push('+') + d + b,
        call_ensures(diff::announced_lines, (raw,), n),
    ensures
        n == 1,
{
    reveal_strlit("@@ -");
    let h = raw@;
    let p = "@@ -"@;
    text::lemma_prefix(p, h);
    text::lemma_index_of(h, '+', a.len());
    let rest = rules::after_plus(h);
    assert(rest =~= d + b);
    assert forall|i: int| 0 <= i < d.len() implies text::is_digit(#[trigger] rest[i]) by {
        assert(plain::is_decimal(d[i]));
    }
    text::lemma_digit_run(rest, d.len());
}

/// A hunk header announces nothing where no ASCII digit follows its first plus sign, or where a
/// character beyond ASCII goes on from the digits.
pub proof fn law_header_without_a_number_announces_nothing(
    a: Seq<char>,
    d: Seq<char>,
    b: Seq<char>,
    raw: &Vec<char>,
    n: u64,
)
    requires
        plain::lacks(a, '+'),
        d.len() == 0 || plain::is_digits(d),
        raw@ == a.push('+') + d + b,
        d.len() == 0 ==> b.len() == 0 || !plain::is_decimal(b[0]),
        d.len() > 0 ==> b.len() > 0 && plain::code(b[0]) >= 128,
        call_ensures(diff::announced_lines, (raw,), n),
    ensures
        n == 0,
{
    let h = raw@;
    text::lemma_index_of(h, '+', a.len());
    let rest = rules::after_plus(h);
    assert(rest =~= d + b);
    assert forall|i: int| 0 <= i < d.len() implies text::is_digit(#[trigger] rest[i]) by {
        assert(plain::is_decimal(d[i]));
    }
    text::lemma_digit_run(rest, d.len());
}

/// A line that does not begin as the hunk header of a unified diff, or that holds no plus sign,
/// announces nothing.
pub proof fn law_other_headers_announce_nothing(raw: &Vec<char>, n: u64)
    requires
        call_ensures(diff::announced_lines, (raw,), n),
        raw@.len() < 4 || raw@[0] != '@' || raw@[1] != '@' || raw@[2] != ' ' || raw@[3] != '-'
            || plain::lacks(raw@, '+'),
    ensures
        n == 0,
{
    reveal_strlit("@@ -");
    let p = "@@ -"@;
    text::lemma_prefix(p, raw@);
    if p.is_prefix_of(raw@) {
        assert(raw@[0] == p[0] && raw@[1] == p[1] && raw@[2] == p[2] && raw@[3] == p[3]);
        text::lemma_index_of(raw@, '+', raw@.len());
    }
}

/// A file header names what follows it, trimmed, without a `b/` at its beginning.
pub proof fn law_named_file(raw: &Vec<char>, file: String, name: String)
    requires
        reads_as_file_header(raw@),
        call_ensures(diff::named_file, (raw,), file),
        plain::is_trimmed(name@, raw@.skip(4)),
    ensures
        name@.len() >= 2 && name@[0] == 'b' && name@[1] == '/' ==> file@ == name@.skip(2),
        name@.len() < 2 || name@[0] != 'b' || name@[1] != '/' ==> file@ == name@,
{
    reveal_strlit("b/");
    let t = text::trim(raw@.skip(4));
    text_laws::law_trim(raw@.skip(4));
    text_laws::law_trimmed_form_is_unique(name@, t, raw@.skip(4));
    text::lemma_prefix("b/"@, t);
    if "b/"@.is_prefix_of(t) {
        assert(t[0] == "b/"@[0] && t[1] == "b/"@[1]);
    }
}

} // verus!
