//! What a baseline is for: the findings that it was written from pass, others do not.

use vstd::prelude::*;

use crate::baseline;
use crate::baseline::Baseline;
use crate::finding;
use crate::finding::{Finding, FindingView};
use crate::found_laws;
use crate::plain;
use crate::report;
use crate::scan;
use crate::scan_laws;
use crate::text;
use crate::text_laws;

verus! {

/// A line that has no newline but the one at its end.
spec fn is_one_line(t: Seq<char>) -> bool {
    t.len() > 0 && t.last() == '\n' && forall|i: int| 0 <= i < t.len() - 1 ==> t[i] != '\n'
}

proof fn lemma_entries_concat(a: Seq<Seq<char>>, b: Seq<Seq<char>>)
    ensures
        baseline::entries(a + b) == baseline::entries(a).union(baseline::entries(b)),
    decreases b.len(),
{
    if b.len() == 0 {
        assert(a + b =~= a);
        assert(baseline::entries(a).union(baseline::entries(b)) =~= baseline::entries(a));
    } else {
        lemma_entries_concat(a, b.drop_last());
        assert((a + b).drop_last() =~= a + b.drop_last());
        assert((a + b).last() == b.last());
        assert(baseline::entries(a + b) =~= baseline::entries(a).union(baseline::entries(b)));
    }
}

proof fn lemma_entries_one(l: Seq<char>)
    ensures
        baseline::entries(seq![l]) == if baseline::entry(l).len() == 0 {
            Set::<Seq<char>>::empty()
        } else {
            Set::<Seq<char>>::empty().insert(baseline::entry(l))
        },
{
    assert(seq![l].drop_last() =~= Seq::<Seq<char>>::empty());
    reveal_with_fuel(baseline::entries, 2);
}

/// Text that ends a line with what it ends in.
proof fn lemma_lines_of_one(t: Seq<char>)
    requires
        is_one_line(t),
    ensures
        text::lines(t) == seq![text::strip_cr(t.drop_last())],
{
    text::lemma_index_of_bounds(t, '\n');
    let at = text::index_of(t, '\n') as int;
    assert(at == t.len() - 1) by {
        if at < t.len() - 1 {
            assert(t[at] != '\n');
        }
        if at > t.len() - 1 {
            assert(t[t.len() - 1] != '\n');
        }
    }
    assert(t.take(at) =~= t.drop_last());
    assert(t.skip(at + 1) =~= Seq::<char>::empty());
    assert(text::lines(t.skip(at + 1)) =~= Seq::<Seq<char>>::empty());
    assert(text::lines(t) =~= seq![text::strip_cr(t.drop_last())]);
}

/// The text before the comment is a fingerprint and two spaces; trimmed, the fingerprint.
proof fn lemma_entry_of_fingerprint(f: FindingView, l: Seq<char>)
    requires
        l.len() >= 19,
        l.take(19) == finding::fingerprint(f) + seq![' ', ' ', '#'],
    ensures
        baseline::entry(l) == finding::fingerprint(f),
{
    let fp = finding::fingerprint(f);
    finding::law_fingerprint_shape(f);
    assert forall|i: int| 0 <= i < 18 implies l[i] != '#' by {
        assert(l[i] == l.take(19)[i]);
        if i < 16 {
            assert(l.take(19)[i] == fp[i]);
            assert(finding::is_hex_digit(fp[i]));
        }
    }
    assert(l[18] == l.take(19)[18]);
    text::lemma_index_of_bounds(l, '#');
    let at = text::index_of(l, '#') as int;
    assert(at == 18) by {
        if at > 18 {
            assert(l[18] != '#');
        }
        if at < 18 {
            assert(l[at] == '#');
        }
    }
    let head = l.take(18);
    assert(head =~= fp + seq![' ', ' ']) by {
        assert(head =~= l.take(19).take(18));
    }
    assert(finding::is_hex_digit(fp[0]));
    assert(finding::is_hex_digit(fp[15]));
    assert(head[0] == fp[0]);
    assert(text::trim_start(head) == head);
    assert(head.drop_last() =~= fp + seq![' ']);
    assert(head.drop_last().drop_last() =~= fp);
    assert(text::trim_end(fp) == fp);
    assert(text::trim_end(head.drop_last()) == fp);
}

proof fn lemma_decimal_is_digits(n: nat)
    ensures
        text::decimal(n).len() > 0,
        forall|i: int| 0 <= i < text::decimal(n).len() ==> text::is_digit(
            #[trigger] text::decimal(n)[i],
        ),
    decreases n,
{
    if n >= 10 {
        lemma_decimal_is_digits(n / 10);
        let init = text::decimal(n / 10);
        assert forall|i: int| 0 <= i < text::decimal(n).len() implies text::is_digit(
            #[trigger] text::decimal(n)[i],
        ) by {
            if i < init.len() {
                assert(text::decimal(n)[i] == init[i]);
            }
        }
    }
}

/// The header accepts nothing, and ends its line.
proof fn lemma_header(n: nat)
    ensures
        is_one_line(report::baseline_header(n)),
        baseline::entries(text::lines(report::baseline_header(n))) == Set::<Seq<char>>::empty(),
{
    reveal_strlit("# zecor-secretscan baseline -- ");
    reveal_strlit(" finding(s) accepted\n");
    lemma_decimal_is_digits(n);
    let a = "# zecor-secretscan baseline -- "@;
    let d = text::decimal(n);
    let b = " finding(s) accepted\n"@;
    let h = report::baseline_header(n);
    assert forall|i: int| 0 <= i < h.len() - 1 implies h[i] != '\n' by {
        if i < a.len() {
            assert(h[i] == a[i]);
        } else if i < a.len() + d.len() {
            assert(h[i] == d[i - a.len()]);
            assert(text::is_digit(d[i - a.len()]));
        } else {
            assert(h[i] == b[i - a.len() - d.len()]);
        }
    }
    assert(h.last() == b.last());
    lemma_lines_of_one(h);
    let l = text::strip_cr(h.drop_last());
    assert(h.drop_last().last() == b[b.len() - 2]);
    assert(l[0] == a[0]);
    assert(text::index_of(l, '#') == 0);
    assert(l.take(0) =~= Seq::<char>::empty());
    lemma_entries_one(l);
}

/// The first line of what accepts a finding accepts just that finding.
proof fn lemma_accepting_line(f: FindingView)
    ensures
        report::baseline_line(f).last() == '\n',
        baseline::entries(text::lines(report::baseline_line(f))).contains(finding::fingerprint(f)),
        is_one_line(report::baseline_line(f)) ==> baseline::entries(
            text::lines(report::baseline_line(f)),
        ) == Set::<Seq<char>>::empty().insert(finding::fingerprint(f)),
{
    reveal_strlit("  # ");
    reveal_strlit("\n");
    finding::law_fingerprint_shape(f);
    let fp = finding::fingerprint(f);
    let t = report::baseline_line(f);
    let c = report::baseline_comment(f);
    assert(c.last() == "\n"@[0]);
    assert(t =~= fp + "  # "@ + c);
    assert(t.last() == c.last());
    text::lemma_index_of_bounds(t, '\n');
    let at = text::index_of(t, '\n') as int;
    assert(at < t.len()) by {
        if at == t.len() {
            assert(t[t.len() - 1] != '\n');
        }
    }
    assert forall|i: int| 0 <= i < 20 implies t[i] != '\n' by {
        if i < 16 {
            assert(t[i] == fp[i]);
            assert(finding::is_hex_digit(fp[i]));
        } else {
            assert(t[i] == "  # "@[i - 16]);
        }
    }
    assert(at >= 20);
    let l = text::strip_cr(t.take(at));
    assert(t.take(at).take(19) =~= fp + seq![' ', ' ', '#']);
    assert(l.take(19) =~= t.take(at).take(19));
    lemma_entry_of_fingerprint(f, l);
    lemma_entries_one(l);
    let rest = text::lines(t.skip(at + 1));
    lemma_entries_concat(seq![l], rest);
    assert(text::lines(t) == seq![l] + rest);
    if is_one_line(t) {
        lemma_lines_of_one(t);
        assert(at == t.len() - 1) by {
            if at < t.len() - 1 {
                assert(t[at] != '\n');
            }
        }
        assert(t.take(at) =~= t.drop_last());
    }
}

/// A baseline file ends its last line.
proof fn lemma_file_ends(fs: Seq<FindingView>, n: nat)
    ensures
        (report::baseline_header(n) + report::baseline_body(fs)).len() > 0,
        (report::baseline_header(n) + report::baseline_body(fs)).last() == '\n',
    decreases fs.len(),
{
    lemma_header(n);
    let h = report::baseline_header(n);
    if fs.len() == 0 {
        assert(h + report::baseline_body(fs) =~= h);
    } else {
        let last = fs.last();
        lemma_file_ends(fs.drop_last(), n);
        if !report::fingerprints(fs.drop_last()).contains(finding::fingerprint(last)) {
            lemma_accepting_line(last);
            finding::law_fingerprint_shape(last);
            let b = report::baseline_body(fs.drop_last());
            let l = report::baseline_line(last);
            assert(h + (b + l) =~= h + b + l);
            assert((h + b + l).last() == l.last());
        }
    }
}

proof fn lemma_file_accepts(fs: Seq<FindingView>, n: nat)
    ensures
        report::fingerprints(fs).subset_of(
            baseline::entries(
                text::lines(report::baseline_header(n) + report::baseline_body(fs)),
            ),
        ),
        (forall|i: int| 0 <= i < fs.len() ==> is_one_line(report::baseline_line(#[trigger] fs[i])))
            ==> report::fingerprints(fs) == baseline::entries(
            text::lines(report::baseline_header(n) + report::baseline_body(fs)),
        ),
    decreases fs.len(),
{
    lemma_header(n);
    let h = report::baseline_header(n);
    if fs.len() == 0 {
        assert(h + report::baseline_body(fs) =~= h);
    } else {
        let init = fs.drop_last();
        let last = fs.last();
        let fp = finding::fingerprint(last);
        lemma_file_accepts(init, n);
        let b = report::baseline_body(init);
        let known = baseline::entries(text::lines(h + b));
        let neat = forall|i: int|
            0 <= i < fs.len() ==> is_one_line(report::baseline_line(#[trigger] fs[i]));
        if neat {
            assert forall|i: int| 0 <= i < init.len() implies is_one_line(
                report::baseline_line(#[trigger] init[i]),
            ) by {
                assert(init[i] == fs[i]);
            }
            assert(is_one_line(report::baseline_line(fs[fs.len() - 1])));
        }
        if report::fingerprints(init).contains(fp) {
            assert(report::fingerprints(fs) =~= report::fingerprints(init));
        } else {
            let l = report::baseline_line(last);
            lemma_accepting_line(last);
            lemma_file_ends(init, n);
            text::lemma_lines_concat(h + b, l);
            lemma_entries_concat(text::lines(h + b), text::lines(l));
            assert(h + (b + l) =~= h + b + l);
            let all = baseline::entries(text::lines(h + b + l));
            assert(all =~= known.union(baseline::entries(text::lines(l))));
            if neat {
                assert(report::fingerprints(fs) =~= all);
            }
        }
    }
}

/// Read back, the baseline file written from some findings accepts each of them.
pub proof fn law_baseline_file_accepts_its_findings(fs: Seq<FindingView>, i: int)
    requires
        0 <= i < fs.len(),
    ensures
        baseline::entries(text::lines(report::baseline_file(fs))).contains(
            finding::fingerprint(fs[i]),
        ),
{
    lemma_file_accepts(fs, fs.len());
    lemma_fingerprints_contain(fs, i);
}

proof fn lemma_fingerprints_contain(fs: Seq<FindingView>, i: int)
    requires
        0 <= i < fs.len(),
    ensures
        report::fingerprints(fs).contains(finding::fingerprint(fs[i])),
    decreases fs.len(),
{
    if i < fs.len() - 1 {
        lemma_fingerprints_contain(fs.drop_last(), i);
        assert(fs.drop_last()[i] == fs[i]);
    }
}

/// No newline stands in `t`.
pub open spec fn no_newline(t: Seq<char>) -> bool {
    forall|i: int| 0 <= i < t.len() ==> t[i] != '\n'
}

/// Read back, the baseline file written from some findings accepts their fingerprints and nothing
/// else, as long as no rule or file name holds a newline.
pub proof fn law_baseline_file_round_trip(fs: Seq<FindingView>)
    requires
        forall|i: int|
            0 <= i < fs.len() ==> no_newline((#[trigger] fs[i]).rule) && no_newline(fs[i].file),
    ensures
        baseline::entries(text::lines(report::baseline_file(fs))) == report::fingerprints(fs),
{
    assert forall|i: int| 0 <= i < fs.len() implies is_one_line(
        report::baseline_line(#[trigger] fs[i]),
    ) by {
        lemma_neat_line(fs[i]);
    }
    lemma_file_accepts(fs, fs.len());
}

proof fn lemma_neat_line(f: FindingView)
    requires
        no_newline(f.rule),
        no_newline(f.file),
    ensures
        is_one_line(report::baseline_line(f)),
{
    reveal_strlit("  # ");
    reveal_strlit(" ");
    reveal_strlit(":");
    reveal_strlit("\n");
    finding::law_fingerprint_shape(f);
    lemma_decimal_is_digits(f.line);
    let fp = finding::fingerprint(f);
    let d = text::decimal(f.line);
    let c = report::baseline_comment(f);
    let t = report::baseline_line(f);
    let p = f.rule.len() as int;
    let q = f.file.len() as int;
    assert(c.len() == p + 1 + q + 1 + d.len() + 1);
    assert forall|i: int| 0 <= i < c.len() - 1 implies c[i] != '\n' by {
        if i < p {
            assert(c[i] == f.rule[i]);
        } else if i == p {
            assert(c[i] == " "@[0]);
        } else if i < p + 1 + q {
            assert(c[i] == f.file[i - p - 1]);
        } else if i == p + 1 + q {
            assert(c[i] == ":"@[0]);
        } else {
            assert(c[i] == d[i - p - q - 2]);
            assert(text::is_digit(d[i - p - q - 2]));
        }
    }
    assert(c.last() == "\n"@[0]);
    assert(t.last() == c.last());
    assert forall|i: int| 0 <= i < t.len() - 1 implies t[i] != '\n' by {
        if i < 16 {
            assert(t[i] == fp[i]);
            assert(finding::is_hex_digit(fp[i]));
        } else if i < 20 {
            assert(t[i] == "  # "@[i - 16]);
        } else {
            assert(t[i] == c[i - 20]);
        }
    }
}

/// A known finding does not fail: applied to the findings that it was written from, a baseline
/// file leaves none.
pub proof fn law_baseline_suppresses_what_it_lists(fs: Seq<FindingView>)
    ensures
        fs.filter(
            baseline::not_accepted(baseline::entries(text::lines(report::baseline_file(fs)))),
        ).len() == 0,
{
    let accepted = baseline::entries(text::lines(report::baseline_file(fs)));
    assert forall|i: int| 0 <= i < fs.len() implies accepted.contains(
        finding::fingerprint(#[trigger] fs[i]),
    ) by {
        law_baseline_file_accepts_its_findings(fs, i);
    }
    lemma_filter_all_accepted(fs, accepted);
}

proof fn lemma_filter_all_accepted(fs: Seq<FindingView>, accepted: Set<Seq<char>>)
    requires
        forall|i: int|
            0 <= i < fs.len() ==> accepted.contains(finding::fingerprint(#[trigger] fs[i])),
    ensures
        fs.filter(baseline::not_accepted(accepted)).len() == 0,
    decreases fs.len(),
{
    reveal(Seq::filter);
    if fs.len() > 0 {
        let init = fs.drop_last();
        assert forall|i: int| 0 <= i < init.len() implies accepted.contains(
            finding::fingerprint(#[trigger] init[i]),
        ) by {
            assert(init[i] == fs[i]);
        }
        lemma_filter_all_accepted(init, accepted);
        assert(accepted.contains(finding::fingerprint(fs[fs.len() - 1])));
    }
}

/// A new finding fails: one whose fingerprint is not accepted remains, and one that remains is
/// not accepted.
pub proof fn law_new_findings_remain(fs: Seq<FindingView>, accepted: Set<Seq<char>>, f: FindingView)
    requires
        fs.contains(f),
    ensures
        fs.filter(baseline::not_accepted(accepted)).contains(f) <==> !accepted.contains(
            finding::fingerprint(f),
        ),
{
    let kept = fs.filter(baseline::not_accepted(accepted));
    let i = choose|i: int| 0 <= i < fs.len() && fs[i] == f;
    if !accepted.contains(finding::fingerprint(f)) {
        fs.lemma_filter_contains(baseline::not_accepted(accepted), i);
    }
    if kept.contains(f) {
        let k = choose|k: int| 0 <= k < kept.len() && kept[k] == f;
        fs.lemma_filter_pred(baseline::not_accepted(accepted), k);
    }
}

proof fn lemma_filter_renumbered(
    fs: Seq<FindingView>,
    number: spec_fn(nat) -> nat,
    accepted: Set<Seq<char>>,
)
    ensures
        scan_laws::renumbered(fs, number).filter(baseline::not_accepted(accepted))
            == scan_laws::renumbered(fs.filter(baseline::not_accepted(accepted)), number),
    decreases fs.len(),
{
    reveal(Seq::filter);
    let fresh = baseline::not_accepted(accepted);
    if fs.len() == 0 {
        assert(scan_laws::renumbered(fs, number).filter(fresh) =~= scan_laws::renumbered(
            fs.filter(fresh),
            number,
        ));
    } else {
        let init = fs.drop_last();
        let x = fs.last();
        let y = FindingView { line: number(x.line), ..x };
        lemma_filter_renumbered(init, number, accepted);
        finding::law_fingerprint_ignores_line(x, y);
        assert(scan_laws::renumbered(fs, number).drop_last() =~= scan_laws::renumbered(
            init,
            number,
        ));
        assert(scan_laws::renumbered(fs, number).last() == y);
        assert(scan_laws::renumbered(fs.filter(fresh), number) =~= if fresh(x) {
            scan_laws::renumbered(init.filter(fresh), number).push(y)
        } else {
            scan_laws::renumbered(init.filter(fresh), number)
        });
    }
}

/// Known findings survive edits above them: where a baseline accepts all that is found in a text,
/// then of the same text with more lines above it just the findings of those lines remain.
pub proof fn law_known_findings_survive_edits_above(
    above: Seq<char>,
    below: Seq<char>,
    file: Seq<char>,
    injection: bool,
    ra: Seq<Seq<bool>>,
    rb: Seq<Seq<bool>>,
    accepted: Set<Seq<char>>,
)
    requires
        above.len() == 0 || above.last() == '\n',
        ra.len() == text::lines(above).len(),
        rb.len() == text::lines(below).len(),
        scan::text_findings(text::lines(below), file, injection, rb).filter(
            baseline::not_accepted(accepted),
        ).len() == 0,
    ensures
        scan::text_findings(text::lines(above + below), file, injection, ra + rb).filter(
            baseline::not_accepted(accepted),
        ) == scan::text_findings(text::lines(above), file, injection, ra).filter(
            baseline::not_accepted(accepted),
        ),
{
    let a = text::lines(above);
    let b = text::lines(below);
    let fresh = baseline::not_accepted(accepted);
    let down = |l: nat| l + a.len();
    let fa = scan::text_findings(a, file, injection, ra);
    let fb = scan::text_findings(b, file, injection, rb);
    text::lemma_lines_concat(above, below);
    scan_laws::law_lines_are_scanned_independently(a, b, file, injection, ra, rb);
    Seq::filter_distributes_over_add(fa, scan_laws::renumbered(fb, down), fresh);
    lemma_filter_renumbered(fb, down, accepted);
    assert(fa.filter(fresh) + scan_laws::renumbered(fb.filter(fresh), down) =~= fa.filter(fresh));
}

/// `e` is what a line of a baseline file accepts: what stands before its first `#`, or all of it
/// where there is none, without the white space around it, unless that leaves nothing.
pub open spec fn accepts(line: Seq<char>, e: Seq<char>) -> bool {
    e.len() > 0 && exists|n: int| #[trigger] accepts_before(line, e, n)
}

/// `e` is what stands before position `n`, where the line ends or its first `#` stands.
pub open spec fn accepts_before(line: Seq<char>, e: Seq<char>, n: int) -> bool {
    &&& 0 <= n <= line.len()
    &&& plain::lacks(line.take(n), '#')
    &&& n == line.len() || line[n] == '#'
    &&& plain::is_trimmed(e, line.take(n))
}

proof fn lemma_accepts(line: Seq<char>, e: Seq<char>)
    ensures
        accepts(line, e) <==> e.len() > 0 && baseline::entry(line) == e,
{
    let at = text::index_of(line, '#') as int;
    text_laws::law_index_of(line, '#');
    text_laws::law_trim(line.take(at));
    if e.len() > 0 && baseline::entry(line) == e {
        assert(accepts_before(line, e, at));
    }
    if accepts(line, e) {
        let n = choose|n: int| #[trigger] accepts_before(line, e, n);
        assert(n == at) by {
            if n < at {
                assert(line.take(at)[n] == line[n]);
            }
            if at < n {
                assert(line.take(n)[at] == line[at]);
            }
        }
        text_laws::law_trimmed_form_is_unique(e, baseline::entry(line), line.take(at));
    }
}

proof fn lemma_entries(lines: Seq<Seq<char>>, e: Seq<char>)
    ensures
        baseline::entries(lines).contains(e) <==> exists|i: int|
            0 <= i < lines.len() && accepts(#[trigger] lines[i], e),
    decreases lines.len(),
{
    if lines.len() > 0 {
        let init = lines.drop_last();
        let n = lines.len() - 1;
        lemma_entries(init, e);
        lemma_accepts(lines[n], e);
        if baseline::entries(init).contains(e) {
            let i = choose|i: int| 0 <= i < init.len() && accepts(#[trigger] init[i], e);
            assert(accepts(lines[i], e));
        }
        if exists|i: int| 0 <= i < lines.len() && accepts(#[trigger] lines[i], e) {
            let i = choose|i: int| 0 <= i < lines.len() && accepts(#[trigger] lines[i], e);
            if i < n {
                assert(accepts(init[i], e));
            }
        }
    }
}

/// A baseline file accepts exactly what one of its lines accepts.
pub proof fn law_parse_baseline(t: &str, ls: Vec<String>, b: Baseline, e: Seq<char>)
    requires
        call_ensures(text::split_lines, (t,), ls),
        call_ensures(baseline::parse_baseline, (t,), b),
    ensures
        b@.contains(e) <==> exists|i: int| 0 <= i < ls@.len() && accepts((#[trigger] ls@[i])@, e),
{
    let lines = text::lines(t@);
    assert(text::views(ls@) == lines);
    lemma_entries(lines, e);
    if b@.contains(e) {
        let i = choose|i: int| 0 <= i < lines.len() && accepts(#[trigger] lines[i], e);
        assert(lines[i] == ls@[i]@);
    }
    if exists|i: int| 0 <= i < ls@.len() && accepts((#[trigger] ls@[i])@, e) {
        let i = choose|i: int| 0 <= i < ls@.len() && accepts((#[trigger] ls@[i])@, e);
        assert(text::views(ls@)[i] == ls@[i]@);
        assert(accepts(lines[i], e));
    }
}

/// Asked, a baseline that was read tells what one of its lines accepts.
pub proof fn law_baseline_tells_what_it_accepts(
    t: &str,
    ls: Vec<String>,
    b: Baseline,
    asked: &str,
    r: bool,
)
    requires
        call_ensures(text::split_lines, (t,), ls),
        call_ensures(baseline::parse_baseline, (t,), b),
        call_ensures(Baseline::contains, (&b, asked), r),
    ensures
        r <==> exists|i: int| 0 <= i < ls@.len() && accepts((#[trigger] ls@[i])@, asked@),
{
    law_parse_baseline(t, ls, b, asked@);
}

/// A line that is just a fingerprint accepts it, and nothing else.
pub proof fn law_bare_line_accepts_itself(l: Seq<char>, t: &str, b: Baseline)
    requires
        l.len() > 0,
        plain::lacks(l, '#'),
        plain::lacks(l, '\n'),
        !plain::is_white(l[0]),
        !plain::is_white(l[l.len() - 1]),
        t@ == l.push('\n'),
        call_ensures(baseline::parse_baseline, (t,), b),
    ensures
        forall|e: Seq<char>| b@.contains(e) <==> e == l,
{
    assert(text::is_line(l));
    let one = seq![l];
    assert(text::unlines(one) =~= t@) by {
        assert(one.drop_last() =~= Seq::<Seq<char>>::empty());
        assert(text::unlines(one.drop_last()) =~= seq![]);
    }
    text::law_lines_are_read_back(one);
    assert forall|e: Seq<char>| b@.contains(e) <==> e == l by {
        lemma_entries(one, e);
        assert(l.take(l.len() as int) =~= l);
        assert(l.subrange(0, l.len() as int) =~= l);
        assert(plain::trims_to(l, l, 0, l.len() as int));
        assert(accepts_before(l, l, l.len() as int));
        assert(accepts(one[0], l));
        if accepts(one[0], e) {
            lemma_accepts(l, e);
            lemma_accepts(l, l);
        }
    }
}

/// Comments change nothing: two files accept the same where their lines differ only in that some
/// have a `#` and more behind them.
pub proof fn law_comments_change_nothing(
    t: &str,
    u: &str,
    ls: Vec<String>,
    ms: Vec<String>,
    a: Baseline,
    b: Baseline,
)
    requires
        call_ensures(text::split_lines, (t,), ls),
        call_ensures(text::split_lines, (u,), ms),
        call_ensures(baseline::parse_baseline, (t,), a),
        call_ensures(baseline::parse_baseline, (u,), b),
        ls@.len() == ms@.len(),
        forall|i: int|
            0 <= i < ls@.len() ==> (#[trigger] ls@[i])@ == ms@[i]@ || (ls@[i]@.len()
                < ms@[i]@.len() && ms@[i]@.take(ls@[i]@.len() as int) == ls@[i]@
                && ms@[i]@[ls@[i]@.len() as int] == '#'),
    ensures
        a@ == b@,
{
    assert forall|e: Seq<char>| a@.contains(e) <==> b@.contains(e) by {
        lemma_same_accepted(ls, ms, e);
        law_parse_baseline(t, ls, a, e);
        law_parse_baseline(u, ms, b, e);
    }
    assert(a@ =~= b@);
}

proof fn lemma_same_accepted(ls: Vec<String>, ms: Vec<String>, e: Seq<char>)
    requires
        ls@.len() == ms@.len(),
        forall|i: int|
            0 <= i < ls@.len() ==> (#[trigger] ls@[i])@ == ms@[i]@ || (ls@[i]@.len()
                < ms@[i]@.len() && ms@[i]@.take(ls@[i]@.len() as int) == ls@[i]@
                && ms@[i]@[ls@[i]@.len() as int] == '#'),
    ensures
        (exists|i: int| 0 <= i < ls@.len() && accepts((#[trigger] ls@[i])@, e)) <==> (exists|i: int|
            0 <= i < ms@.len() && accepts((#[trigger] ms@[i])@, e)),
{
    if exists|i: int| 0 <= i < ls@.len() && accepts((#[trigger] ls@[i])@, e) {
        let i = choose|i: int| 0 <= i < ls@.len() && accepts((#[trigger] ls@[i])@, e);
        lemma_comment(ls@[i]@, ms@[i]@, e);
        assert(accepts(ms@[i]@, e));
    }
    if exists|i: int| 0 <= i < ms@.len() && accepts((#[trigger] ms@[i])@, e) {
        let i = choose|i: int| 0 <= i < ms@.len() && accepts((#[trigger] ms@[i])@, e);
        lemma_comment(ls@[i]@, ms@[i]@, e);
        assert(accepts(ls@[i]@, e));
    }
}

proof fn lemma_comment(l: Seq<char>, m: Seq<char>, e: Seq<char>)
    requires
        l == m || (l.len() < m.len() && m.take(l.len() as int) == l && m[l.len() as int] == '#'),
    ensures
        accepts(l, e) == accepts(m, e),
{
    lemma_accepts(l, e);
    lemma_accepts(m, e);
    text_laws::law_index_of(l, '#');
    let at = text::index_of(l, '#') as int;
    if l != m {
        assert forall|i: int| 0 <= i < l.len() implies m[i] == l[i] by {
            assert(m.take(l.len() as int)[i] == m[i]);
        }
        assert forall|i: int| 0 <= i < at implies m[i] != '#' by {
            assert(l.take(at)[i] == l[i]);
        }
        text::lemma_index_of(m, '#', at as nat);
        assert(m.take(at) =~= l.take(at));
    }
}

/// Applying a baseline leaves the findings whose fingerprint it does not hold, in their order, and
/// drops the others.
pub proof fn law_apply_baseline(findings: Vec<Finding>, b: &Baseline, out: Vec<Finding>)
    requires
        call_ensures(baseline::apply_baseline, (findings, b), out),
    ensures
        plain::lists(
            Seq::new(out@.len(), |k: int| out@[k]@),
            Seq::new(
                findings@.len(),
                |i: int|
                    if b@.contains(finding::fingerprint(findings@[i]@)) {
                        None
                    } else {
                        Some(findings@[i]@)
                    },
            ),
        ),
{
    let fs = finding::finding_views(findings@);
    let hits = Seq::new(
        findings@.len(),
        |i: int|
            if b@.contains(finding::fingerprint(findings@[i]@)) {
                None
            } else {
                Some(findings@[i]@)
            },
    );
    lemma_filter_reported(fs, b@, hits);
    found_laws::lemma_reported_is_listed(hits);
    assert(Seq::new(out@.len(), |k: int| out@[k]@) =~= finding::finding_views(out@));
}

proof fn lemma_filter_reported(
    fs: Seq<FindingView>,
    accepted: Set<Seq<char>>,
    hits: Seq<Option<FindingView>>,
)
    requires
        hits.len() == fs.len(),
        forall|i: int|
            0 <= i < fs.len() ==> #[trigger] hits[i] == if accepted.contains(
                finding::fingerprint(fs[i]),
            ) {
                None
            } else {
                Some(fs[i])
            },
    ensures
        fs.filter(baseline::not_accepted(accepted)) == scan_laws::reported(hits),
    decreases fs.len(),
{
    reveal(Seq::filter);
    if fs.len() > 0 {
        assert(hits[hits.len() - 1] is Some || hits[hits.len() - 1] is None);
        lemma_filter_reported(fs.drop_last(), accepted, hits.drop_last());
    }
}

/// A new baseline accepts nothing.
pub proof fn law_new_baseline_accepts_nothing(b: Baseline, asked: &str, r: bool)
    requires
        call_ensures(Baseline::new, (), b),
        call_ensures(Baseline::contains, (&b, asked), r),
    ensures
        !r,
{
}

} // verus!
