//! What holds between the outcomes of several scans with one judge that never contradicts itself.

use vstd::prelude::*;

use crate::diff;
use crate::diff_laws;
use crate::entropy;
use crate::entropy::ByteCounts;
use crate::finding::FindingView;
use crate::scan;
use crate::scan::ScanOpts;
use crate::scan_laws;
use crate::text;

verus! {

/// The answers on the long tokens of given lines are always the same.
proof fn lemma_line_answers_agree<F: Fn(&ByteCounts) -> bool>(
    judge: &F,
    lines: Seq<Seq<char>>,
    r: Seq<Seq<bool>>,
    s: Seq<Seq<bool>>,
)
    requires
        entropy::consistent(judge),
        scan::lines_answered(judge, lines, r),
        scan::lines_answered(judge, lines, s),
    ensures
        r == s,
{
    assert forall|i: int| 0 <= i < lines.len() implies r[i] == s[i] by {
        entropy::lemma_answers_agree(judge, scan::candidates(lines[i]), r[i], s[i]);
    }
    assert(r =~= s);
}

/// Scanning text without options is scanning it with any options that leave the injection pack
/// off: the other options have no influence on text. No finding is then one of the pack.
pub proof fn law_only_the_injection_option_matters<F: Fn(&ByteCounts) -> bool>(
    text: Seq<char>,
    file: Seq<char>,
    opts: ScanOpts,
    judge: &F,
    plain: Seq<FindingView>,
    found: Seq<FindingView>,
)
    requires
        entropy::consistent(judge),
        !opts.injection,
        scan::scanned(text, file, false, judge, plain),
        scan::scanned(text, file, opts.injection, judge, found),
    ensures
        plain == found,
        forall|k: int|
            0 <= k < found.len() ==> !scan_laws::is_injection_rule((#[trigger] found[k]).rule),
{
    scan_laws::law_scan_is_determined(text, file, false, judge, plain, found);
    let lines = text::lines(text);
    let r = choose|r: Seq<Seq<bool>>| #[trigger]
        scan::lines_answered(judge, lines, r) && found == scan::text_findings(lines, file, false, r);
    scan_laws::law_injection_pack_is_opt_in(lines, file, r);
    let pred = scan_laws::outside_injection_pack();
    assert forall|k: int| 0 <= k < found.len() implies !scan_laws::is_injection_rule(
        (#[trigger] found[k]).rule,
    ) by {
        assert(pred(found[k]));
    }
}

/// The injection pack only adds findings: what a scan with the pack reports, less the findings of
/// the pack, is what a scan without it reports, in the same order.
pub proof fn law_injection_pack_only_adds<F: Fn(&ByteCounts) -> bool>(
    text: Seq<char>,
    file: Seq<char>,
    judge: &F,
    on: Seq<FindingView>,
    off: Seq<FindingView>,
)
    requires
        entropy::consistent(judge),
        scan::scanned(text, file, true, judge, on),
        scan::scanned(text, file, false, judge, off),
    ensures
        off == on.filter(scan_laws::outside_injection_pack()),
{
    let lines = text::lines(text);
    let r = choose|r: Seq<Seq<bool>>| #[trigger]
        scan::lines_answered(judge, lines, r) && on == scan::text_findings(lines, file, true, r);
    let s = choose|s: Seq<Seq<bool>>| #[trigger]
        scan::lines_answered(judge, lines, s) && off == scan::text_findings(lines, file, false, s);
    lemma_line_answers_agree(judge, lines, r, s);
    scan_laws::law_injection_pack_is_opt_in(lines, file, r);
}

/// What a line yields does not depend on any other line: a text that begins on a new line adds
/// its findings to those of the text before it, with their line numbers moved down.
pub proof fn law_scans_of_parts_add_up<F: Fn(&ByteCounts) -> bool>(
    a: Seq<char>,
    b: Seq<char>,
    file: Seq<char>,
    injection: bool,
    judge: &F,
    found_a: Seq<FindingView>,
    found_b: Seq<FindingView>,
    found: Seq<FindingView>,
)
    requires
        entropy::consistent(judge),
        a.len() == 0 || a.last() == '\n',
        scan::scanned(a, file, injection, judge, found_a),
        scan::scanned(b, file, injection, judge, found_b),
        scan::scanned(a + b, file, injection, judge, found),
    ensures
        found == found_a + scan_laws::renumbered(
            found_b,
            |l: nat| l + text::lines(a).len(),
        ),
{
    let la = text::lines(a);
    let lb = text::lines(b);
    text::lemma_lines_concat(a, b);
    let ra = choose|r: Seq<Seq<bool>>| #[trigger]
        scan::lines_answered(judge, la, r) && found_a == scan::text_findings(la, file, injection, r);
    let rb = choose|r: Seq<Seq<bool>>| #[trigger]
        scan::lines_answered(judge, lb, r) && found_b == scan::text_findings(lb, file, injection, r);
    let r = choose|r: Seq<Seq<bool>>| #[trigger]
        scan::lines_answered(judge, la + lb, r) && found == scan::text_findings(
            la + lb,
            file,
            injection,
            r,
        );
    assert(scan::lines_answered(judge, la + lb, ra + rb)) by {
        assert forall|i: int| 0 <= i < (la + lb).len() implies entropy::all_answered(
            judge,
            scan::candidates(#[trigger] (la + lb)[i]),
            (ra + rb)[i],
        ) by {
            if i < la.len() {
                assert((la + lb)[i] == la[i]);
            } else {
                assert((la + lb)[i] == lb[i - la.len()]);
            }
        }
    }
    lemma_line_answers_agree(judge, la + lb, r, ra + rb);
    scan_laws::law_lines_are_scanned_independently(la, lb, file, injection, ra, rb);
}

/// The lines of a diff that are not removed.
pub open spec fn kept(lines: Seq<Seq<char>>) -> Seq<Seq<char>> {
    lines.filter(|l: Seq<char>| !diff::is_removed(l))
}

/// Removed lines may be left out of the lines of a diff.
proof fn lemma_removed_left_out<F: Fn(&ByteCounts) -> bool>(
    judge: &F,
    lines: Seq<Seq<char>>,
    r: Seq<Seq<bool>>,
    s: Seq<Seq<bool>>,
)
    requires
        entropy::consistent(judge),
        forall|i: int|
            0 <= i < lines.len() && #[trigger] diff::adds(lines, i) ==> entropy::all_answered(
                judge,
                scan::candidates(lines[i].skip(1)),
                r[i],
            ),
        forall|i: int|
            0 <= i < kept(lines).len() && #[trigger] diff::adds(kept(lines), i)
                ==> entropy::all_answered(judge, scan::candidates(kept(lines)[i].skip(1)), s[i]),
    ensures
        diff::place(lines) == diff::place(kept(lines)),
        diff::diff_findings(lines, r) == diff::diff_findings(kept(lines), s),
    decreases lines.len(),
{
    reveal(Seq::filter);
    if lines.len() > 0 {
        let init = lines.drop_last();
        let last = lines.last();
        let n = lines.len() - 1;
        let k = kept(lines);
        let k0 = kept(init);
        diff::lemma_line_kinds(last);
        assert(init =~= lines.take(n));
        assert(k == if diff::is_removed(last) {
            k0
        } else {
            k0.push(last)
        });
        assert(k0 =~= k.take(k0.len() as int));
        assert forall|i: int|
            0 <= i < init.len() && #[trigger] diff::adds(init, i) implies entropy::all_answered(
            judge,
            scan::candidates(init[i].skip(1)),
            r[i],
        ) by {
            diff::lemma_adds_prefix(lines, n, i);
            assert(diff::adds(lines, i));
        }
        assert forall|i: int|
            0 <= i < k0.len() && #[trigger] diff::adds(k0, i) implies entropy::all_answered(
            judge,
            scan::candidates(k0[i].skip(1)),
            s[i],
        ) by {
            diff::lemma_adds_prefix(k, k0.len() as int, i);
            assert(diff::adds(k, i));
        }
        lemma_removed_left_out(judge, init, r, s);
        if diff::is_removed(last) {
            assert(diff::diff_findings(lines, r) =~= diff::diff_findings(init, r));
        } else {
            assert(k.drop_last() =~= k0);
            if diff::is_added(diff::place(init), last) {
                assert(diff::adds(lines, n));
                assert(diff::adds(k, k.len() - 1));
                entropy::lemma_answers_agree(
                    judge,
                    scan::candidates(last.skip(1)),
                    r[n],
                    s[k.len() - 1],
                );
            }
        }
    }
}

/// Removed lines are neither scanned nor counted: a diff has the findings of the diff that is
/// left when they are taken out. Left out are diffs with a line, not removed, that keeps a
/// carriage return at its end: written out again, the line would lose it.
pub proof fn law_diff_without_removed_lines_scans_alike<F: Fn(&ByteCounts) -> bool>(
    diff: Seq<char>,
    judge: &F,
    found: Seq<FindingView>,
    left: Seq<FindingView>,
)
    requires
        entropy::consistent(judge),
        forall|i: int|
            0 <= i < text::lines(diff).len() && !diff::is_removed(#[trigger] text::lines(diff)[i])
                ==> !text::ends_in_return(text::lines(diff)[i]),
        diff::diff_scanned(diff, judge, found),
        diff::diff_scanned(text::unlines(kept(text::lines(diff))), judge, left),
    ensures
        found == left,
{
    let lines = text::lines(diff);
    assert forall|i: int| 0 <= i < kept(lines).len() implies text::is_line(
        #[trigger] kept(lines)[i],
    ) by {
        let stays = |l: Seq<char>| !diff::is_removed(l);
        let l = kept(lines)[i];
        lines.lemma_filter_pred(stays, i);
        lines.lemma_filter_contains_rev(stays, l);
        let n = choose|n: int| 0 <= n < lines.len() && lines[n] == l;
        text::lemma_line_has_no_newline(diff, n);
    }
    text::law_lines_are_read_back(kept(lines));
    let r = choose|r: Seq<Seq<bool>>| #[trigger]
        diff::added_answered(judge, lines, r) && found == diff::diff_findings(lines, r);
    let s = choose|s: Seq<Seq<bool>>| #[trigger]
        diff::added_answered(judge, kept(lines), s) && left == diff::diff_findings(kept(lines), s);
    lemma_removed_left_out(judge, lines, r, s);
}

/// A diff that adds a whole text has the findings that a scan of the text has, in the same order,
/// under the name in its header and the same line numbers. Lines that the hunk header announces
/// may begin with anything. Left out are texts with a line beyond those that begins with two plus
/// signs and a space, which a diff writes as it writes a file header, and texts with a line that
/// keeps a carriage return at its end, which is lost where the line is written out.
pub proof fn law_added_text_scans_like_text<F: Fn(&ByteCounts) -> bool>(
    text: Seq<char>,
    name: Seq<char>,
    hunk: Seq<char>,
    judge: &F,
    found: Seq<FindingView>,
    added: Seq<FindingView>,
)
    requires
        entropy::consistent(judge),
        text::is_line(name),
        diff_laws::is_header_name(name),
        text::is_line(hunk),
        diff_laws::starts_at_one(hunk),
        forall|i: int|
            diff::announced(hunk) <= i < text::lines(text).len() ==> !"++ "@.is_prefix_of(
                #[trigger] text::lines(text)[i],
            ),
        forall|i: int|
            0 <= i < text::lines(text).len() ==> !text::ends_in_return(
                #[trigger] text::lines(text)[i],
            ),
        text::lines(text).len() <= usize::MAX,
        scan::scanned(text, name, false, judge, found),
        diff::diff_scanned(
            text::unlines(diff_laws::addition(name, hunk, text::lines(text))),
            judge,
            added,
        ),
    ensures
        found == added,
{
    let lines = text::lines(text);
    let all = diff_laws::addition(name, hunk, lines);
    assert forall|i: int| 0 <= i < all.len() implies text::is_line(#[trigger] all[i]) by {
        reveal_strlit("+++ b/");
        reveal_strlit("+");
        if i == 0 {
            assert(all[0] == "+++ b/"@ + name);
            lemma_line_after("+++ b/"@, name);
        } else if i == 1 {
            assert(all[1] == hunk);
        } else {
            assert(all[i] == "+"@ + lines[i - 2]);
            text::lemma_line_has_no_newline(text, i - 2);
            lemma_line_after("+"@, lines[i - 2]);
        }
    }
    text::law_lines_are_read_back(all);
    let r = choose|r: Seq<Seq<bool>>| #[trigger]
        scan::lines_answered(judge, lines, r) && found == scan::text_findings(lines, name, false, r);
    let s = choose|s: Seq<Seq<bool>>| #[trigger]
        diff::added_answered(judge, all, s) && added == diff::diff_findings(all, s);
    let headers = s.take(2);
    diff_laws::law_added_lines_scan_like_text(name, hunk, lines, r, headers);
    assert forall|i: int| 0 <= i < all.len() && #[trigger] diff::adds(all, i) implies s[i] == (
    headers + r)[i] by {
        if i >= 2 {
            let l = lines[i - 2];
            assert(all[i] == "+"@ + l);
            reveal_strlit("+");
            assert(all[i].skip(1) =~= l);
            entropy::lemma_answers_agree(judge, scan::candidates(l), s[i], r[i - 2]);
        }
    }
    diff::lemma_diff_findings_prefix(all, s, headers + r);
}

/// A diff that adds a whole text, with a header that announces all of its lines, has the findings
/// that a scan of the text has, whatever its lines begin with.
pub proof fn law_new_file_scans_like_text<F: Fn(&ByteCounts) -> bool>(
    text: Seq<char>,
    name: Seq<char>,
    judge: &F,
    found: Seq<FindingView>,
    added: Seq<FindingView>,
)
    requires
        entropy::consistent(judge),
        text::is_line(name),
        diff_laws::is_header_name(name),
        forall|i: int|
            0 <= i < text::lines(text).len() ==> !text::ends_in_return(
                #[trigger] text::lines(text)[i],
            ),
        text::lines(text).len() <= usize::MAX,
        scan::scanned(text, name, false, judge, found),
        diff::diff_scanned(
            text::unlines(
                diff_laws::addition(
                    name,
                    diff_laws::new_file_hunk(text::lines(text).len()),
                    text::lines(text),
                ),
            ),
            judge,
            added,
        ),
    ensures
        found == added,
{
    let n = text::lines(text).len();
    diff_laws::law_new_file_hunk_announces_its_lines(n);
    law_added_text_scans_like_text(
        text,
        name,
        diff_laws::new_file_hunk(n),
        judge,
        found,
        added,
    );
}

/// A line with something of one line before it is a line.
proof fn lemma_line_after(p: Seq<char>, l: Seq<char>)
    requires
        text::is_line(p),
        text::is_line(l),
    ensures
        text::is_line(p + l),
{
    assert forall|i: int| 0 <= i < (p + l).len() implies (p + l)[i] != '\n' by {
        if i < p.len() {
            assert((p + l)[i] == p[i]);
        } else {
            assert((p + l)[i] == l[i - p.len()]);
        }
    }
    if l.len() > 0 {
        assert((p + l).last() == l.last());
    } else {
        assert(p + l =~= p);
    }
}

} // verus!
