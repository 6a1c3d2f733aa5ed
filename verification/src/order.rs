//! The order in which the findings of a tree are reported: by file, then line, then rule, and
//! otherwise as they were found.

use vstd::prelude::*;

use crate::finding;
use crate::finding::{Finding, FindingView};
use crate::text;
use crate::text::{at_most, same};

verus! {

/// `a` may stand before `b`: by file, then line, then rule.
pub open spec fn key_le(a: FindingView, b: FindingView) -> bool {
    if a.file != b.file {
        text::text_le(a.file, b.file)
    } else if a.line != b.line {
        a.line < b.line
    } else {
        text::text_le(a.rule, b.rule)
    }
}

/// `a` and `b` agree in file, line and rule.
pub open spec fn same_key(a: FindingView, b: FindingView) -> bool {
    a.file == b.file && a.line == b.line && a.rule == b.rule
}

/// Agreeing with `k` in file, line and rule.
pub open spec fn with_key(k: FindingView) -> spec_fn(FindingView) -> bool {
    |x: FindingView| same_key(x, k)
}

/// `s` is in order.
pub open spec fn sorted(s: Seq<FindingView>) -> bool {
    forall|i: int, j: int| 0 <= i <= j < s.len() ==> key_le(#[trigger] s[i], #[trigger] s[j])
}

/// `s` and `t` hold the same findings, and those that agree in file, line and rule come in the
/// same order.
pub open spec fn same_per_key(s: Seq<FindingView>, t: Seq<FindingView>) -> bool {
    forall|k: FindingView| s.filter(#[trigger] with_key(k)) == t.filter(with_key(k))
}

/// The order is total, and two findings stand before each other only where they agree.
pub proof fn lemma_key_le_total(a: FindingView, b: FindingView)
    ensures
        key_le(a, b) || key_le(b, a),
        key_le(a, b) && key_le(b, a) <==> same_key(a, b),
{
    text::lemma_text_le_total(a.file, b.file);
    text::lemma_text_le_total(a.rule, b.rule);
}

/// The order is transitive.
pub proof fn lemma_key_le_transitive(a: FindingView, b: FindingView, c: FindingView)
    requires
        key_le(a, b),
        key_le(b, c),
    ensures
        key_le(a, c),
{
    text::lemma_text_le_total(a.file, b.file);
    text::lemma_text_le_total(b.file, c.file);
    text::lemma_text_le_total(a.file, c.file);
    text::lemma_text_le_total(a.rule, b.rule);
    text::lemma_text_le_total(b.rule, c.rule);
    text::lemma_text_le_total(a.rule, c.rule);
    if text::text_le(a.file, b.file) && text::text_le(b.file, c.file) {
        text::lemma_text_le_transitive(a.file, b.file, c.file);
    }
    if text::text_le(a.rule, b.rule) && text::text_le(b.rule, c.rule) {
        text::lemma_text_le_transitive(a.rule, b.rule, c.rule);
    }
}

/// Whether `a` may stand before `b`.
pub fn may_precede(a: &Finding, b: &Finding) -> (r: bool)
    ensures
        r == key_le(a@, b@),
{
    if !same(a.file.as_str(), b.file.as_str()) {
        at_most(a.file.as_str(), b.file.as_str())
    } else if a.line != b.line {
        a.line < b.line
    } else {
        at_most(a.rule.as_str(), b.rule.as_str())
    }
}

proof fn lemma_filter_one(x: FindingView, k: FindingView)
    ensures
        seq![x].filter(with_key(k)) == if same_key(x, k) {
            seq![x]
        } else {
            Seq::<FindingView>::empty()
        },
{
    reveal_with_fuel(Seq::filter, 2);
    assert(seq![x].drop_last() =~= Seq::<FindingView>::empty());
    assert(Seq::<FindingView>::empty().push(x) =~= seq![x]);
}

proof fn lemma_filter_none(s: Seq<FindingView>, k: FindingView)
    requires
        forall|i: int| 0 <= i < s.len() ==> !same_key(#[trigger] s[i], k),
    ensures
        s.filter(with_key(k)) == Seq::<FindingView>::empty(),
    decreases s.len(),
{
    reveal(Seq::filter);
    if s.len() > 0 {
        let init = s.drop_last();
        assert forall|i: int| 0 <= i < init.len() implies !same_key(#[trigger] init[i], k) by {
            assert(init[i] == s[i]);
        }
        lemma_filter_none(init, k);
        assert(!same_key(s[s.len() - 1], k));
    }
}

/// Everything in `s` may stand before everything in `t`.
spec fn all_before(s: Seq<FindingView>, t: Seq<FindingView>) -> bool {
    forall|i: int, j: int|
        0 <= i < s.len() && 0 <= j < t.len() ==> key_le(#[trigger] s[i], #[trigger] t[j])
}

/// Taking the last of the right half keeps the findings per key.
proof fn lemma_take_right(a: Seq<FindingView>, b: Seq<FindingView>, m: Seq<FindingView>)
    requires
        b.len() > 0,
    ensures
        same_per_key(a + b + m, a + b.drop_last() + (seq![b.last()] + m)),
{
    assert(a + b + m =~= a + b.drop_last() + (seq![b.last()] + m));
}

/// Taking the last of the left half keeps the findings per key, where it comes after all of the
/// right half.
proof fn lemma_take_left(a: Seq<FindingView>, b: Seq<FindingView>, m: Seq<FindingView>)
    requires
        a.len() > 0,
        forall|j: int| 0 <= j < b.len() ==> !same_key(#[trigger] b[j], a.last()),
    ensures
        same_per_key(a + b + m, a.drop_last() + b + (seq![a.last()] + m)),
{
    let x = a.last();
    let a0 = a.drop_last();
    assert forall|k: FindingView| (a + b + m).filter(#[trigger] with_key(k)) == (a0 + b + (seq![x]
        + m)).filter(with_key(k)) by {
        let p = with_key(k);
        assert(a =~= a0 + seq![x]);
        Seq::filter_distributes_over_add(a + b, m, p);
        Seq::filter_distributes_over_add(a, b, p);
        Seq::filter_distributes_over_add(a0, seq![x], p);
        Seq::filter_distributes_over_add(a0 + b, seq![x] + m, p);
        Seq::filter_distributes_over_add(a0, b, p);
        Seq::filter_distributes_over_add(seq![x], m, p);
        lemma_filter_one(x, k);
        let fa = a0.filter(p);
        let fb = b.filter(p);
        let fm = m.filter(p);
        if same_key(x, k) {
            assert forall|j: int| 0 <= j < b.len() implies !same_key(#[trigger] b[j], k) by {
                assert(!same_key(b[j], x));
            }
            lemma_filter_none(b, k);
            assert(fa + seq![x] + fb + fm =~= fa + fb + (seq![x] + fm));
        } else {
            let none = Seq::<FindingView>::empty();
            assert(fa + none + fb + fm =~= fa + fb + (none + fm));
        }
    }
}

/// Merges two sorted lists; of findings that agree in their keys, those of `left` come first.
fn merge(left: Vec<Finding>, right: Vec<Finding>) -> (out: Vec<Finding>)
    requires
        sorted(finding::finding_views(left@)),
        sorted(finding::finding_views(right@)),
    ensures
        sorted(finding::finding_views(out@)),
        same_per_key(
            finding::finding_views(out@),
            finding::finding_views(left@) + finding::finding_views(right@),
        ),
{
    let ghost all = finding::finding_views(left@) + finding::finding_views(right@);
    let mut a = left;
    let mut b = right;
    // The largest findings, the largest first.
    let mut taken: Vec<Finding> = Vec::new();
    let ghost mut m: Seq<FindingView> = seq![];
    assert(finding::finding_views(a@) + finding::finding_views(b@) + m =~= all);
    while a.len() > 0 && b.len() > 0
        invariant
            m == finding::finding_views(taken@).reverse(),
            sorted(finding::finding_views(a@)),
            sorted(finding::finding_views(b@)),
            sorted(m),
            all_before(finding::finding_views(a@), m),
            all_before(finding::finding_views(b@), m),
            same_per_key(finding::finding_views(a@) + finding::finding_views(b@) + m, all),
        decreases a@.len() + b@.len(),
    {
        let ghost va = finding::finding_views(a@);
        let ghost vb = finding::finding_views(b@);
        let ghost vt = finding::finding_views(taken@);
        let ghost la = va.last();
        let ghost lb = vb.last();
        proof {
            lemma_key_le_total(la, lb);
        }
        if may_precede(&a[a.len() - 1], &b[b.len() - 1]) {
            let x = b.pop().unwrap();
            taken.push(x);
            proof {
                lemma_take_right(va, vb, m);
                let m2 = seq![lb] + m;
                assert(finding::finding_views(b@) =~= vb.drop_last());
                assert(finding::finding_views(taken@) =~= vt.push(lb));
                assert(finding::finding_views(taken@).reverse() =~= m2);
                assert forall|i: int| 0 <= i < va.len() implies key_le(#[trigger] va[i], lb) by {
                    assert(key_le(va[i], va[va.len() - 1]));
                    lemma_key_le_transitive(va[i], la, lb);
                }
                assert forall|i: int| 0 <= i < vb.len() implies key_le(#[trigger] vb[i], lb) by {
                    assert(key_le(vb[i], vb[vb.len() - 1]));
                }
                lemma_key_le_total(lb, lb);
                assert forall|j: int| 0 <= j < m.len() implies key_le(lb, #[trigger] m[j]) by {
                    assert(key_le(vb[vb.len() - 1], m[j]));
                }
                m = m2;
            }
        } else {
            let x = a.pop().unwrap();
            taken.push(x);
            proof {
                assert forall|j: int| 0 <= j < vb.len() implies !same_key(#[trigger] vb[j], la) by {
                    assert(key_le(vb[j], vb[vb.len() - 1]));
                    if same_key(vb[j], la) {
                        lemma_key_le_total(vb[j], la);
                        lemma_key_le_transitive(la, vb[j], lb);
                    }
                }
                lemma_take_left(va, vb, m);
                let m2 = seq![la] + m;
                assert(finding::finding_views(a@) =~= va.drop_last());
                assert(finding::finding_views(taken@) =~= vt.push(la));
                assert(finding::finding_views(taken@).reverse() =~= m2);
                assert forall|i: int| 0 <= i < vb.len() implies key_le(#[trigger] vb[i], la) by {
                    assert(key_le(vb[i], vb[vb.len() - 1]));
                    lemma_key_le_transitive(vb[i], lb, la);
                }
                assert forall|i: int| 0 <= i < va.len() implies key_le(#[trigger] va[i], la) by {
                    assert(key_le(va[i], va[va.len() - 1]));
                }
                lemma_key_le_total(la, la);
                assert forall|j: int| 0 <= j < m.len() implies key_le(la, #[trigger] m[j]) by {
                    assert(key_le(va[va.len() - 1], m[j]));
                }
                m = m2;
            }
        }
    }
    let ghost va = finding::finding_views(a@);
    let ghost vb = finding::finding_views(b@);
    let mut out = if a.len() > 0 {
        a
    } else {
        b
    };
    let ghost rest = finding::finding_views(out@);
    assert(va + vb + m =~= rest + m);
    assert(rest + m =~= rest + finding::finding_views(taken@).reverse());
    while taken.len() > 0
        invariant
            finding::finding_views(out@) + finding::finding_views(taken@).reverse() == rest + m,
        decreases taken@.len(),
    {
        let ghost vt = finding::finding_views(taken@);
        let ghost vo = finding::finding_views(out@);
        let x = taken.pop().unwrap();
        out.push(x);
        assert(finding::finding_views(taken@) =~= vt.drop_last());
        assert(finding::finding_views(out@) =~= vo.push(vt.last()));
        assert(finding::finding_views(out@) + finding::finding_views(taken@).reverse() =~= vo
            + vt.reverse());
    }
    assert(finding::finding_views(out@) =~= rest + m);
    out
}

/// Sorts findings by file, line and rule; those that agree in all three keep their order.
pub fn sort_findings(findings: Vec<Finding>) -> (out: Vec<Finding>)
    ensures
        sorted(finding::finding_views(out@)),
        same_per_key(finding::finding_views(out@), finding::finding_views(findings@)),
    decreases findings@.len(),
{
    let mut left = findings;
    if left.len() <= 1 {
        proof {
            if left@.len() == 1 {
                let x = finding::finding_views(left@)[0];
                lemma_key_le_total(x, x);
            }
        }
        return left;
    }
    let mid = left.len() / 2;
    let right = left.split_off(mid);
    let ghost l0 = finding::finding_views(left@);
    let ghost r0 = finding::finding_views(right@);
    assert(finding::finding_views(findings@) =~= l0 + r0);
    let l = sort_findings(left);
    let r = sort_findings(right);
    let out = merge(l, r);
    proof {
        let l1 = finding::finding_views(l@);
        let r1 = finding::finding_views(r@);
        assert forall|k: FindingView| finding::finding_views(out@).filter(#[trigger] with_key(k))
            == (l0 + r0).filter(with_key(k)) by {
            Seq::filter_distributes_over_add(l1, r1, with_key(k));
            Seq::filter_distributes_over_add(l0, r0, with_key(k));
        }
    }
    out
}

/// What the findings of each file say.
pub open spec fn file_views(v: Seq<Vec<Finding>>) -> Seq<Seq<FindingView>> {
    v.map_values(|fs: Vec<Finding>| finding::finding_views(fs@))
}

/// The findings of all files, one file after the other.
pub open spec fn joined(per_file: Seq<Seq<FindingView>>) -> Seq<FindingView>
    decreases per_file.len(),
{
    if per_file.len() == 0 {
        seq![]
    } else {
        joined(per_file.drop_last()) + per_file.last()
    }
}

/// `out` is what is reported of files with the findings `per_file`: all of them, in order.
pub open spec fn is_report(per_file: Seq<Seq<FindingView>>, out: Seq<FindingView>) -> bool {
    sorted(out) && same_per_key(out, joined(per_file))
}

/// Joins the findings of the files of a tree and sorts them by file, line and rule.
pub fn tree_report(per_file: Vec<Vec<Finding>>) -> (out: Vec<Finding>)
    ensures
        is_report(file_views(per_file@), finding::finding_views(out@)),
{
    let ghost views = file_views(per_file@);
    let mut all: Vec<Finding> = Vec::new();
    assert(finding::finding_views(all@) =~= joined(views.take(0)));
    for fs in it: per_file
        invariant
            it.seq() == per_file@,
            views == file_views(per_file@),
            finding::finding_views(all@) == joined(views.take(it.index() as int)),
    {
        let mut fs = fs;
        let ghost before = all@;
        let ghost new = fs@;
        proof {
            let i = it.index() as int;
            assert(views.take(i + 1).drop_last() =~= views.take(i));
            assert(views.take(i + 1).last() == finding::finding_views(new));
        }
        all.append(&mut fs);
        assert(finding::finding_views(all@) =~= finding::finding_views(before)
            + finding::finding_views(new));
    }
    assert(views.take(views.len() as int) =~= views);
    sort_findings(all)
}

/// A file without findings changes nothing in what is reported of the others, wherever it comes.
pub proof fn law_file_without_findings_changes_nothing(
    a: Seq<Seq<FindingView>>,
    b: Seq<Seq<FindingView>>,
    with: Seq<FindingView>,
    without: Seq<FindingView>,
)
    requires
        is_report(a + seq![Seq::<FindingView>::empty()] + b, with),
        is_report(a + b, without),
    ensures
        with == without,
{
    lemma_joined_without_empty(a, b);
    assert(same_per_key(with, without));
    law_sorting_has_one_outcome(with, without);
}

proof fn lemma_joined_without_empty(a: Seq<Seq<FindingView>>, b: Seq<Seq<FindingView>>)
    ensures
        joined(a + seq![Seq::<FindingView>::empty()] + b) == joined(a + b),
    decreases b.len(),
{
    let none = seq![Seq::<FindingView>::empty()];
    if b.len() == 0 {
        assert((a + none + b).drop_last() =~= a);
        assert(a + b =~= a);
        assert(joined(a + none + b) =~= joined(a));
    } else {
        lemma_joined_without_empty(a, b.drop_last());
        assert((a + none + b).drop_last() =~= a + none + b.drop_last());
        assert((a + b).drop_last() =~= a + b.drop_last());
    }
}

/// Two lists in order that hold the same findings per key are the same list, so sorting has one
/// possible outcome.
pub proof fn law_sorting_has_one_outcome(s: Seq<FindingView>, t: Seq<FindingView>)
    requires
        sorted(s),
        sorted(t),
        same_per_key(s, t),
    ensures
        s == t,
    decreases s.len(),
{
    if s.len() == 0 {
        if t.len() > 0 {
            lemma_first_of_key(t);
            lemma_filter_none(s, t[0]);
            assert(s.filter(with_key(t[0])) == t.filter(with_key(t[0])));
        }
        assert(s =~= t);
    } else {
        let x = s[0];
        lemma_first_of_key(s);
        assert(s.filter(with_key(x)) == t.filter(with_key(x)));
        if t.len() == 0 {
            lemma_filter_none(t, x);
        }
        let y = t[0];
        lemma_first_of_key(t);
        assert(s.filter(with_key(y)) == t.filter(with_key(y)));
        lemma_first_is_least(t, s, x);
        lemma_first_is_least(s, t, y);
        lemma_key_le_total(x, y);
        assert(with_key(x) =~= with_key(y));
        assert(x == y);
        let s0 = s.drop_first();
        let t0 = t.drop_first();
        assert forall|k: FindingView| s0.filter(#[trigger] with_key(k)) == t0.filter(
            with_key(k),
        ) by {
            assert(s =~= seq![x] + s0);
            assert(t =~= seq![x] + t0);
            assert(s.filter(with_key(k)) == t.filter(with_key(k)));
            Seq::filter_distributes_over_add(seq![x], s0, with_key(k));
            Seq::filter_distributes_over_add(seq![x], t0, with_key(k));
            let h = seq![x].filter(with_key(k));
            let fs = s0.filter(with_key(k));
            let ft = t0.filter(with_key(k));
            assert(h + fs == h + ft);
            assert(fs =~= (h + fs).skip(h.len() as int));
            assert(ft =~= (h + ft).skip(h.len() as int));
        }
        law_sorting_has_one_outcome(s0, t0);
        assert(s =~= seq![x] + s0);
        assert(t =~= seq![x] + t0);
    }
}

proof fn lemma_first_of_key(s: Seq<FindingView>)
    requires
        s.len() > 0,
    ensures
        s.filter(with_key(s[0])).len() > 0,
        s.filter(with_key(s[0]))[0] == s[0],
{
    let s0 = s.drop_first();
    assert(s =~= seq![s[0]] + s0);
    Seq::filter_distributes_over_add(seq![s[0]], s0, with_key(s[0]));
    lemma_filter_one(s[0], s[0]);
}

proof fn lemma_first_is_least(s: Seq<FindingView>, t: Seq<FindingView>, x: FindingView)
    requires
        s.len() > 0,
        sorted(s),
        t.len() > 0,
        t[0] == x,
        s.filter(with_key(x)) == t.filter(with_key(x)),
    ensures
        key_le(s[0], x),
{
    lemma_first_of_key(t);
    if forall|i: int| 0 <= i < s.len() ==> !same_key(#[trigger] s[i], x) {
        lemma_filter_none(s, x);
    }
    let i = choose|i: int| 0 <= i < s.len() && same_key(#[trigger] s[i], x);
    assert(key_le(s[0], s[i]));
}

/// Holding the same findings per key is holding the same findings, each as often.
pub proof fn law_sorting_keeps_every_finding(s: Seq<FindingView>, t: Seq<FindingView>)
    requires
        same_per_key(s, t),
    ensures
        s.to_multiset() == t.to_multiset(),
{
    assert forall|x: FindingView| s.to_multiset().count(x) == t.to_multiset().count(x) by {
        lemma_count_in_filter(s, x);
        lemma_count_in_filter(t, x);
        assert(s.filter(with_key(x)) == t.filter(with_key(x)));
    }
    assert(s.to_multiset() =~= t.to_multiset());
}

proof fn lemma_count_in_filter(s: Seq<FindingView>, x: FindingView)
    ensures
        s.filter(with_key(x)).to_multiset().count(x) == s.to_multiset().count(x),
    decreases s.len(),
{
    broadcast use vstd::seq_lib::group_to_multiset_ensures;

    reveal(Seq::filter);
    if s.len() > 0 {
        let init = s.drop_last();
        lemma_count_in_filter(init, x);
        assert(s =~= init.push(s.last()));
        assert(s.to_multiset() == init.to_multiset().insert(s.last()));
        if same_key(s.last(), x) {
            let f = init.filter(with_key(x));
            assert(f.push(s.last()).to_multiset() == f.to_multiset().insert(s.last()));
        }
    }
}

} // verus!
