//! What holds of every scan of a diff.

use vstd::prelude::*;

use crate::diff;
use crate::diff::Place;
use crate::entropy;
use crate::entropy::ByteCounts;
use crate::evidence;
use crate::finding::FindingView;
use crate::rules;
use crate::scan;
use crate::scan_laws;
use crate::text;

verus! {

/// An added line is scanned as a text of its own would be, under the file and the line number
/// that it has on the new side.
pub proof fn law_added_line_scans_like_text(
    diff: Seq<char>,
    i: int,
    p: Place,
    random: Seq<bool>,
)
    requires
        0 <= i < text::lines(diff).len(),
        diff::adds(text::lines(diff), i),
    ensures
        ({
            let added = text::lines(diff)[i].skip(1);
            diff::added_findings(added, p, random) == scan_laws::renumbered(
                scan::text_findings(text::lines(added), p.file, false, seq![random]),
                |l: nat| p.line,
            )
        }),
{
    let added = text::lines(diff)[i].skip(1);
    text::lemma_line_has_no_newline(diff, i);
    diff::lemma_line_kinds(text::lines(diff)[i]);
    assert forall|k: int| 0 <= k < added.len() implies added[k] != '\n' by {
        assert(added[k] == text::lines(diff)[i][k + 1]);
    }
    text::lemma_single_line(added);
    let found = scan::text_findings(text::lines(added), p.file, false, seq![random]);
    let here = |l: nat| p.line;
    if added.len() == 0 {
        assert(scan_laws::renumbered(found, here) =~= seq![]);
    } else {
        let e = scan::line_evidence(added, false, random);
        let one = text::lines(added);
        assert(one.drop_last() =~= Seq::<Seq<char>>::empty());
        assert(one.last() == added);
        let none = scan::text_findings(one.drop_last(), p.file, false, seq![random]);
        assert(none =~= Seq::<FindingView>::empty());
        assert(seq![random][one.len() - 1] == random);
        assert(found == none + evidence::line_findings(e, p.file, 1));
        assert(found =~= evidence::line_findings(e, p.file, 1));
        scan_laws::lemma_renumber_line(e, p.file, 1, here);
    }
}

/// A removed line has no effect, nor has a remark: with it or without it, the place and the
/// findings are the same.
pub proof fn law_removed_lines_are_ignored(
    a: Seq<Seq<char>>,
    removed: Seq<char>,
    b: Seq<Seq<char>>,
    ra: Seq<Seq<bool>>,
    rr: Seq<bool>,
    rb: Seq<Seq<bool>>,
)
    requires
        diff::is_removed(removed) || diff::is_remark(removed),
        ra.len() == a.len(),
        rb.len() == b.len(),
    ensures
        diff::place(a + seq![removed] + b) == diff::place(a + b),
        diff::diff_findings(a + seq![removed] + b, ra + seq![rr] + rb) == diff::diff_findings(
            a + b,
            ra + rb,
        ),
    decreases b.len(),
{
    diff::lemma_line_kinds(removed);
    let with = a + seq![removed] + b;
    let without = a + b;
    let rwith = ra + seq![rr] + rb;
    let rwithout = ra + rb;
    if b.len() == 0 {
        assert(with.drop_last() =~= a);
        assert(without =~= a);
        assert(with.last() == removed);
        assert(forall|k: int| 0 <= k < a.len() ==> rwith[k] == rwithout[k]);
        diff::lemma_diff_findings_prefix(a, rwith, rwithout);
        assert(diff::diff_findings(with, rwith) =~= diff::diff_findings(a, rwith));
    } else {
        let b0 = b.drop_last();
        let rb0 = rb.drop_last();
        law_removed_lines_are_ignored(a, removed, b0, ra, rr, rb0);
        assert(with.drop_last() =~= a + seq![removed] + b0);
        assert(without.drop_last() =~= a + b0);
        diff::lemma_diff_findings_prefix(
            a + seq![removed] + b0,
            rwith,
            ra + seq![rr] + rb0,
        );
        diff::lemma_diff_findings_prefix(a + b0, rwithout, ra + rb0);
        assert(with.last() == b.last());
        assert(without.last() == b.last());
        assert(rwith[with.len() - 1] == rb.last());
        assert(rwithout[without.len() - 1] == rb.last());
    }
}

/// A diff has exactly the findings that its added lines have, each under the file and the line
/// number that the added line has on the new side.
pub proof fn law_diff_reports_what_is_backed(
    lines: Seq<Seq<char>>,
    random: Seq<Seq<bool>>,
    f: FindingView,
)
    ensures
        diff::diff_findings(lines, random).contains(f) <==> exists|i: int|
            0 <= i < lines.len() && #[trigger] diff::adds(lines, i) && scan_laws::backed(
                f,
                scan::line_evidence(lines[i].skip(1), false, random[i]),
                diff::place(lines.take(i + 1)).file,
                diff::place(lines.take(i + 1)).line,
            ),
    decreases lines.len(),
{
    if lines.len() > 0 {
        let init = lines.drop_last();
        let n = lines.len() - 1;
        let last = lines.last();
        let p = diff::place(lines);
        law_diff_reports_what_is_backed(init, random, f);
        let a = diff::diff_findings(init, random);
        let b = if diff::is_added(diff::place(init), last) {
            diff::added_findings(last.skip(1), p, random[n])
        } else {
            seq![]
        };
        scan_laws::lemma_concat_contains(a, b, f);
        assert(init =~= lines.take(n));
        assert(lines.take(n + 1) =~= lines);
        assert(diff::adds(lines, n) == diff::is_added(diff::place(init), last));
        scan_laws::law_line_reports_what_is_backed(
            scan::line_evidence(last.skip(1), false, random[n]),
            p.file,
            p.line,
            f,
        );
        if last.skip(1).len() == 0 {
            assert(last.skip(1) =~= seq![]);
            scan_laws::law_empty_line_has_no_findings(random[n], p.file, p.line);
        }
        if a.contains(f) {
            let i = choose|i: int|
                0 <= i < init.len() && #[trigger] diff::adds(init, i) && scan_laws::backed(
                    f,
                    scan::line_evidence(init[i].skip(1), false, random[i]),
                    diff::place(init.take(i + 1)).file,
                    diff::place(init.take(i + 1)).line,
                );
            diff::lemma_adds_prefix(lines, n, i);
            assert(diff::adds(lines, i));
            assert(lines.take(i + 1) =~= init.take(i + 1));
        }
        if exists|i: int|
            0 <= i < lines.len() && #[trigger] diff::adds(lines, i) && scan_laws::backed(
                f,
                scan::line_evidence(lines[i].skip(1), false, random[i]),
                diff::place(lines.take(i + 1)).file,
                diff::place(lines.take(i + 1)).line,
            ) {
            let i = choose|i: int|
                0 <= i < lines.len() && #[trigger] diff::adds(lines, i) && scan_laws::backed(
                    f,
                    scan::line_evidence(lines[i].skip(1), false, random[i]),
                    diff::place(lines.take(i + 1)).file,
                    diff::place(lines.take(i + 1)).line,
                );
            if i < n {
                diff::lemma_adds_prefix(lines, n, i);
                assert(diff::adds(init, i));
                assert(lines.take(i + 1) =~= init.take(i + 1));
            }
        }
    }
}

/// How many of `lines` stand on the new side: all but the removed ones and the remarks.
pub open spec fn on_new_side(lines: Seq<Seq<char>>) -> nat
    decreases lines.len(),
{
    if lines.len() == 0 {
        0
    } else {
        on_new_side(lines.drop_last()) + if diff::is_removed(lines.last()) || diff::is_remark(
            lines.last(),
        ) {
            0nat
        } else {
            1nat
        }
    }
}

/// Line numbers follow the new side: through lines that are no headers, the file stays and the
/// line number grows by one for each line that is neither removed nor a remark.
pub proof fn law_line_numbers_follow_the_new_side(head: Seq<Seq<char>>, body: Seq<Seq<char>>)
    requires
        forall|i: int|
            0 <= i < body.len() ==> !diff::names_file(
                diff::place(head + body.take(i)),
                #[trigger] body[i],
            ) && !diff::is_hunk_header(body[i]),
        diff::place(head).line + on_new_side(body) <= usize::MAX,
    ensures
        diff::place(head + body).file == diff::place(head).file,
        diff::place(head + body).line == diff::place(head).line + on_new_side(body),
    decreases body.len(),
{
    if body.len() == 0 {
        assert(head + body =~= head);
    } else {
        let init = body.drop_last();
        let n = body.len() - 1;
        assert forall|i: int| 0 <= i < init.len() implies !diff::names_file(
            diff::place(head + init.take(i)),
            #[trigger] init[i],
        ) && !diff::is_hunk_header(init[i]) by {
            assert(init[i] == body[i]);
            assert(init.take(i) =~= body.take(i));
        }
        law_line_numbers_follow_the_new_side(head, init);
        assert((head + body).drop_last() =~= head + init);
        assert(body.take(n) =~= init);
        assert((head + body).last() == body[n]);
    }
}

/// The lines of a diff that adds a file of the given lines, with `hunk` as its hunk header.
pub open spec fn addition(name: Seq<char>, hunk: Seq<char>, lines: Seq<Seq<char>>) -> Seq<
    Seq<char>,
> {
    seq!["+++ b/"@ + name, hunk] + lines.map_values(|l: Seq<char>| "+"@ + l)
}

/// `name` is read back from a file header: it does not end in white space.
pub open spec fn is_header_name(name: Seq<char>) -> bool {
    name.len() == 0 || !text::is_space(name.last())
}

/// `hunk` is a hunk header in which the new side starts at line 1.
pub open spec fn starts_at_one(hunk: Seq<char>) -> bool {
    diff::is_hunk_header(hunk) && rules::hunk_digits(hunk) == Some("1"@)
}

/// What a hunk header that announces `n` lines still announces after `passed` of them.
pub open spec fn still_to_come(n: nat, passed: nat) -> nat {
    if passed < n {
        (n - passed) as nat
    } else {
        0
    }
}

proof fn lemma_header_names_file(name: Seq<char>)
    requires
        is_header_name(name),
    ensures
        diff::is_file_header("+++ b/"@ + name),
        diff::header_file("+++ b/"@ + name) == name,
{
    reveal_strlit("+++ b/");
    reveal_strlit("+++ ");
    reveal_strlit("b/");
    let raw = "+++ b/"@ + name;
    text::lemma_prefix("+++ "@, raw);
    let rest = raw.skip(4);
    assert(rest =~= "b/"@ + name);
    assert(rest[0] == 'b');
    assert(text::trim_start(rest) == rest);
    assert(!text::is_space(rest.last())) by {
        if name.len() == 0 {
            assert(rest.last() == '/');
        } else {
            assert(rest.last() == name.last());
        }
    }
    assert(text::trim(rest) == rest);
    text::lemma_prefix("b/"@, rest);
    assert(rest.skip(2) =~= name);
}

proof fn lemma_hunk_at_one(hunk: Seq<char>)
    requires
        starts_at_one(hunk),
    ensures
        diff::before_hunk(rules::hunk_digits(hunk)) == 0,
{
    reveal_strlit("1");
    let one = "1"@;
    assert(one.drop_last() =~= Seq::<char>::empty());
    assert(text::number(one.drop_last()) == 0);
    assert(text::number(one) == 1);
    assert(text::is_number(one));
    assert(text::parsed(one, usize::MAX as nat) == Some(1nat));
}

/// A line behind a plus sign is added, unless it reads as a file header where one can stand.
pub proof fn lemma_plus_adds(p: Place, l: Seq<char>)
    requires
        p.left > 0 || !"++ "@.is_prefix_of(l),
    ensures
        diff::is_added(p, "+"@ + l),
        ("+"@ + l)[0] == '+',
        ("+"@ + l).len() == l.len() + 1,
        ("+"@ + l).skip(1) == l,
{
    reveal_strlit("+");
    reveal_strlit("++ ");
    reveal_strlit("+++ ");
    let raw = "+"@ + l;
    text::lemma_prefix("+"@, raw);
    text::lemma_prefix("+++ "@, raw);
    text::lemma_prefix("++ "@, l);
    if diff::is_file_header(raw) {
        assert forall|k: int| 0 <= k < 3 implies l[k] == #[trigger] "++ "@[k] by {
            assert(raw[k + 1] == "+++ "@[k + 1]);
        }
    }
    assert(raw.skip(1) =~= l);
}

/// A diff that adds whole lines has the findings that a scan of those lines has, in the same
/// order, under the name in its header and the same line numbers. Lines that the hunk header
/// announces may hold anything. Left out are lines beyond those that begin with two plus signs and
/// a space, which a diff writes as it writes a file header.
pub proof fn law_added_lines_scan_like_text(
    name: Seq<char>,
    hunk: Seq<char>,
    lines: Seq<Seq<char>>,
    random: Seq<Seq<bool>>,
    headers: Seq<Seq<bool>>,
)
    requires
        is_header_name(name),
        starts_at_one(hunk),
        forall|i: int|
            diff::announced(hunk) <= i < lines.len() ==> !"++ "@.is_prefix_of(#[trigger] lines[i]),
        lines.len() <= usize::MAX,
        random.len() == lines.len(),
        headers.len() == 2,
    ensures
        diff::place(addition(name, hunk, lines)) == (Place {
            file: name,
            line: lines.len(),
            left: still_to_come(diff::announced(hunk), lines.len()),
        }),
        diff::diff_findings(addition(name, hunk, lines), headers + random) == scan::text_findings(
            lines,
            name,
            false,
            random,
        ),
    decreases lines.len(),
{
    let all = addition(name, hunk, lines);
    let answers = headers + random;
    if lines.len() == 0 {
        let first = all.drop_last();
        lemma_header_names_file(name);
        lemma_hunk_at_one(hunk);
        diff::lemma_line_kinds(first[0]);
        diff::lemma_line_kinds(hunk);
        assert(all =~= seq!["+++ b/"@ + name, hunk]);
        assert(first.last() == "+++ b/"@ + name);
        assert(all.last() == hunk);
        assert(diff::place(first.drop_last()).left == 0);
        assert(diff::place(first) == (Place { file: name, line: 0, left: 0 }));
        assert(!diff::is_added(diff::place(first), hunk));
        assert(!diff::names_file(diff::place(first), hunk));
        assert(diff::diff_findings(first.drop_last(), answers) =~= seq![]);
        assert(diff::diff_findings(first, answers) =~= seq![]);
        assert(diff::diff_findings(all, answers) =~= seq![]);
    } else {
        let init = lines.drop_last();
        let last = lines.last();
        let n = lines.len() - 1;
        assert forall|i: int| diff::announced(hunk) <= i < init.len() implies !"++ "@.is_prefix_of(
            #[trigger] init[i],
        ) by {
            assert(init[i] == lines[i]);
        }
        assert(last == lines[n]);
        law_added_lines_scan_like_text(name, hunk, init, random.drop_last(), headers);
        let before = addition(name, hunk, init);
        assert(all.drop_last() =~= before);
        assert(all.last() == "+"@ + last);
        lemma_plus_adds(diff::place(before), last);
        diff::lemma_line_kinds(all.last());
        diff::lemma_diff_findings_prefix(before, answers, headers + random.drop_last());
        scan::lemma_text_findings_prefix(init, name, false, random, random.drop_last());
        assert(answers[all.len() - 1] == random[n]);
        if last.len() == 0 {
            assert(last =~= seq![]);
            scan_laws::law_empty_line_has_no_findings(random[n], name, lines.len());
        }
    }
}

/// The hunk header of a diff that adds a file of `n` lines.
pub open spec fn new_file_hunk(n: nat) -> Seq<char> {
    "@@ -0,0 +1,"@ + text::decimal(n) + " @@"@
}

/// The header of a new file starts at its first line and announces all of its lines.
pub proof fn law_new_file_hunk_announces_its_lines(n: nat)
    requires
        n <= u64::MAX,
    ensures
        starts_at_one(new_file_hunk(n)),
        diff::announced(new_file_hunk(n)) == n,
        text::is_line(new_file_hunk(n)),
{
    reveal_strlit("@@ -0,0 +1,");
    reveal_strlit("@@");
    reveal_strlit("@@ -");
    reveal_strlit(" @@");
    reveal_strlit("1");
    let d = text::decimal(n);
    let h = new_file_hunk(n);
    let tail = " @@"@;
    text::lemma_decimal_reads_back(n);
    text::lemma_prefix("@@"@, h);
    text::lemma_prefix("@@ -"@, h);
    text::lemma_index_of(h, '+', 8);
    let rest = rules::after_plus(h);
    assert(rest =~= seq!['1', ','] + d + tail);
    text::lemma_digit_run(rest, 1);
    assert(rest.take(1) =~= "1"@);
    let count = rest.skip(2);
    assert(count =~= d + tail);
    assert forall|i: int| 0 <= i < d.len() implies text::is_digit(#[trigger] count[i]) by {
        assert(count[i] == d[i]);
    }
    assert(count[d.len() as int] == ' ');
    text::lemma_digit_run(count, d.len());
    assert(count.take(d.len() as int) =~= d);
    assert(text::is_digit(d[0]));
    assert forall|i: int| 0 <= i < h.len() implies h[i] != '\n' by {
        if 11 <= i < 11 + d.len() {
            assert(h[i] == d[i - 11]);
            assert(text::is_digit(d[i - 11]));
        }
    }
    assert(h.last() == '@');
}

/// The header without a count starts at the first line and announces one line.
pub proof fn law_hunk_without_a_count_announces_one_line()
    ensures
        starts_at_one("@@ -0,0 +1 @@"@),
        diff::announced("@@ -0,0 +1 @@"@) == 1,
        text::is_line("@@ -0,0 +1 @@"@),
{
    reveal_strlit("@@ -0,0 +1 @@");
    reveal_strlit("@@");
    reveal_strlit("@@ -");
    reveal_strlit("1");
    let h = "@@ -0,0 +1 @@"@;
    text::lemma_prefix("@@"@, h);
    text::lemma_prefix("@@ -"@, h);
    text::lemma_index_of(h, '+', 8);
    let rest = rules::after_plus(h);
    text::lemma_digit_run(rest, 1);
    assert(rest.take(1) =~= "1"@);
}

/// A judge that never contradicts itself leaves only one possible outcome of a diff scan.
pub proof fn law_diff_scan_is_determined<F: Fn(&ByteCounts) -> bool>(
    diff: Seq<char>,
    judge: &F,
    a: Seq<FindingView>,
    b: Seq<FindingView>,
)
    requires
        entropy::consistent(judge),
        diff::diff_scanned(diff, judge, a),
        diff::diff_scanned(diff, judge, b),
    ensures
        a == b,
{
    let lines = text::lines(diff);
    let r = choose|r: Seq<Seq<bool>>| #[trigger]
        diff::added_answered(judge, lines, r) && a == diff::diff_findings(lines, r);
    let s = choose|s: Seq<Seq<bool>>| #[trigger]
        diff::added_answered(judge, lines, s) && b == diff::diff_findings(lines, s);
    assert forall|i: int| 0 <= i < lines.len() && #[trigger] diff::adds(lines, i) implies r[i]
        == s[i] by {
        entropy::lemma_answers_agree(judge, scan::candidates(lines[i].skip(1)), r[i], s[i]);
    }
    diff::lemma_diff_findings_prefix(lines, r, s);
}

} // verus!
