//! What a tree scan decides of a file, and the order of its report, said of arguments and results.

use vstd::prelude::*;
use vstd::utf8::*;

use crate::finding;
use crate::finding::{Finding, FindingView};
use crate::found_laws;
use crate::order;
use crate::plain;
use crate::scan::ScanOpts;
use crate::text_laws;
use crate::tree;

verus! {

/// A file is binary exactly where one of its first 8192 bytes is zero; no other byte makes it so.
pub proof fn law_looks_binary(bytes: &[u8], b: bool)
    requires
        call_ensures(tree::looks_binary, (bytes,), b),
    ensures
        b <==> exists|i: int| 0 <= i < bytes@.len() && i < 8192 && bytes@[i] == 0,
        (forall|i: int| 0 <= i < bytes@.len() ==> bytes@[i] != 0) ==> !b,
{
}

/// A file is too large exactly where its size is known and above a limit that is not zero.
pub proof fn law_too_large(size: Option<u64>, opts: &ScanOpts, b: bool)
    requires
        call_ensures(tree::too_large, (size, opts), b),
    ensures
        b <==> size is Some && opts.max_bytes != 0 && size->0 > opts.max_bytes,
{
}

/// A file is reported by its path below the root, or by its whole path where that is empty.
pub proof fn law_file_label(below: &str, whole: &str, label: String)
    requires
        call_ensures(tree::file_label, (below, whole), label),
    ensures
        below@.len() > 0 ==> label@ == below@,
        below@.len() == 0 ==> label@ == whole@,
{
}

/// `a` may stand before `b` in a report: its file comes first in a dictionary; or the files are the
/// same and its line is smaller; or the lines are the same too and its rule comes first.
pub open spec fn stands_before(a: FindingView, b: FindingView) -> bool {
    if a.file != b.file {
        plain::dictionary(encode_utf8(a.file), encode_utf8(b.file))
    } else if a.line != b.line {
        a.line < b.line
    } else {
        plain::dictionary(encode_utf8(a.rule), encode_utf8(b.rule))
    }
}

proof fn lemma_key_le(a: FindingView, b: FindingView)
    ensures
        order::key_le(a, b) == stands_before(a, b),
{
    text_laws::law_texts_are_ordered_by_their_bytes(a.file, b.file);
    text_laws::law_texts_are_ordered_by_their_bytes(a.rule, b.rule);
}

/// One finding may precede another by file, then line, then rule.
pub proof fn law_may_precede(a: &Finding, b: &Finding, r: bool)
    requires
        call_ensures(order::may_precede, (a, b), r),
    ensures
        r == stands_before(a@, b@),
{
    lemma_key_le(a@, b@);
}

/// Sorting puts every finding before those that come after it, keeps each of them as often as it
/// was there, and leaves findings of one file, line and rule in their order.
pub proof fn law_sort_findings(
    findings: Vec<Finding>,
    out: Vec<Finding>,
    file: Seq<char>,
    line: nat,
    rule: Seq<char>,
)
    requires
        call_ensures(order::sort_findings, (findings,), out),
    ensures
        forall|i: int, j: int|
            0 <= i < j < out@.len() ==> stands_before((#[trigger] out@[i])@, (#[trigger] out@[j])@),
        finding::finding_views(out@).to_multiset() == finding::finding_views(
            findings@,
        ).to_multiset(),
        out@.len() == findings@.len(),
        finding::finding_views(out@).filter(
            |f: FindingView| f.file == file && f.line == line && f.rule == rule,
        ) == finding::finding_views(findings@).filter(
            |f: FindingView| f.file == file && f.line == line && f.rule == rule,
        ),
{
    let a = finding::finding_views(out@);
    let b = finding::finding_views(findings@);
    lemma_ordered(out);
    order::law_sorting_keeps_every_finding(a, b);
    lemma_kept_in_order(a, b, file, line, rule);
    a.to_multiset_ensures();
    b.to_multiset_ensures();
}

proof fn lemma_ordered(out: Vec<Finding>)
    requires
        order::sorted(finding::finding_views(out@)),
    ensures
        forall|i: int, j: int|
            0 <= i < j < out@.len() ==> stands_before((#[trigger] out@[i])@, (#[trigger] out@[j])@),
{
    let a = finding::finding_views(out@);
    assert forall|i: int, j: int| 0 <= i < j < out@.len() implies stands_before(
        (#[trigger] out@[i])@,
        (#[trigger] out@[j])@,
    ) by {
        assert(order::key_le(a[i], a[j]));
        lemma_key_le(a[i], a[j]);
    }
}

proof fn lemma_kept_in_order(
    a: Seq<FindingView>,
    b: Seq<FindingView>,
    file: Seq<char>,
    line: nat,
    rule: Seq<char>,
)
    requires
        order::same_per_key(a, b),
    ensures
        a.filter(|f: FindingView| f.file == file && f.line == line && f.rule == rule) == b.filter(
            |f: FindingView| f.file == file && f.line == line && f.rule == rule,
        ),
{
    let k = FindingView { rule, file, line, hint: seq![] };
    let p = |f: FindingView| f.file == file && f.line == line && f.rule == rule;
    assert(order::with_key(k) =~= p);
    assert(a.filter(order::with_key(k)) == b.filter(order::with_key(k)));
}

/// The report of a tree holds the findings of its files, one file after the other, sorted.
pub proof fn law_tree_report(
    per_file: Vec<Vec<Finding>>,
    out: Vec<Finding>,
    file: Seq<char>,
    line: nat,
    rule: Seq<char>,
)
    requires
        call_ensures(order::tree_report, (per_file,), out),
    ensures
        ({
            let all = plain::one_after_the_other(
                Seq::new(per_file@.len(), |i: int| finding::finding_views(per_file@[i]@)),
            );
            &&& forall|i: int, j: int|
                0 <= i < j < out@.len() ==> stands_before(
                    (#[trigger] out@[i])@,
                    (#[trigger] out@[j])@,
                )
            &&& finding::finding_views(out@).to_multiset() == all.to_multiset()
            &&& finding::finding_views(out@).filter(
                |f: FindingView| f.file == file && f.line == line && f.rule == rule,
            ) == all.filter(|f: FindingView| f.file == file && f.line == line && f.rule == rule)
        }),
{
    let parts = Seq::new(per_file@.len(), |i: int| finding::finding_views(per_file@[i]@));
    assert(order::file_views(per_file@) =~= parts);
    lemma_joined(parts);
    let a = finding::finding_views(out@);
    let all = plain::one_after_the_other(parts);
    lemma_ordered(out);
    order::law_sorting_keeps_every_finding(a, all);
    lemma_kept_in_order(a, all, file, line, rule);
}

proof fn lemma_joined(parts: Seq<Seq<FindingView>>)
    ensures
        order::joined(parts) == plain::one_after_the_other(parts),
    decreases parts.len(),
{
    if parts.len() > 0 {
        let init = parts.drop_last();
        lemma_joined(init);
        found_laws::lemma_one_more_part(init, parts.last());
        assert(parts =~= init.push(parts.last()));
    }
}

} // verus!
