//! Accepted findings: a baseline lists the fingerprints of findings that are known and pass.

use vstd::prelude::*;
use vstd::hash_set::StringHashSet;

use crate::finding;
use crate::finding::{Finding, FindingView};
use crate::text;
use crate::text::{chars_of, find_char, split_lines, trimmed};

verus! {

/// A set of accepted fingerprints.
pub struct Baseline {
    accepted: StringHashSet,
}

impl View for Baseline {
    type V = Set<Seq<char>>;

    closed spec fn view(&self) -> Set<Seq<char>> {
        self.accepted@
    }
}

impl Baseline {
    /// A baseline that accepts nothing.
    pub fn new() -> (b: Baseline)
        ensures
            b@ == Set::<Seq<char>>::empty(),
    {
        Baseline { accepted: StringHashSet::new() }
    }

    /// Accepts `fingerprint`, and tells whether it was not accepted before.
    pub fn insert(&mut self, fingerprint: String) -> (added: bool)
        ensures
            final(self)@ == old(self)@.insert(fingerprint@),
            added == !old(self)@.contains(fingerprint@),
    {
        self.accepted.insert(fingerprint)
    }

    /// Whether `fingerprint` is accepted.
    pub fn contains(&self, fingerprint: &str) -> (b: bool)
        ensures
            b == self@.contains(fingerprint@),
    {
        self.accepted.contains(fingerprint)
    }
}

/// What a line of a baseline file accepts: the text before a `#`, trimmed.
pub open spec fn entry(line: Seq<char>) -> Seq<char> {
    text::trim(line.take(text::index_of(line, '#') as int))
}

/// The entries of `lines` that are not empty.
pub open spec fn entries(lines: Seq<Seq<char>>) -> Set<Seq<char>>
    decreases lines.len(),
{
    if lines.len() == 0 {
        Set::empty()
    } else if entry(lines.last()).len() == 0 {
        entries(lines.drop_last())
    } else {
        entries(lines.drop_last()).insert(entry(lines.last()))
    }
}

/// Parses a baseline file (one fingerprint per line, `#` comments allowed) into a set.
pub fn parse_baseline(text: &str) -> (b: Baseline)
    ensures
        b@ == entries(text::lines(text@)),
{
    let lines = split_lines(text);
    let ghost all = text::lines(text@);
    let mut b = Baseline::new();
    let mut i: usize = 0;
    assert(all.take(0) =~= Seq::<Seq<char>>::empty());
    while i < lines.len()
        invariant
            i <= lines@.len(),
            text::views(lines@) == all,
            b@ == entries(all.take(i as int)),
        decreases lines@.len() - i,
    {
        let cs = chars_of(lines[i].as_str());
        proof {
            assert(text::views(lines@)[i as int] == lines@[i as int]@);
            text::lemma_index_of_bounds(cs@, '#');
            assert(cs@.skip(0) =~= cs@);
            assert(all.take(i + 1).drop_last() =~= all.take(i as int));
            assert(all.take(i + 1).last() == cs@);
        }
        let n = find_char(&cs, 0, '#');
        assert(cs@.subrange(0, n as int) =~= cs@.take(n as int));
        let e = trimmed(&cs, 0, n);
        if !e.as_str().is_empty() {
            b.insert(e);
        }
        i = i + 1;
    }
    assert(all.take(i as int) =~= all);
    b
}

/// Finding by finding: not accepted by `accepted`.
pub open spec fn not_accepted(accepted: Set<Seq<char>>) -> spec_fn(FindingView) -> bool {
    |f: FindingView| !accepted.contains(finding::fingerprint(f))
}

/// Drops findings whose fingerprint is in `baseline`.
pub fn apply_baseline(findings: Vec<Finding>, baseline: &Baseline) -> (out: Vec<Finding>)
    ensures
        finding::finding_views(out@) == finding::finding_views(findings@).filter(
            not_accepted(baseline@),
        ),
{
    let ghost all = findings@;
    let ghost fresh = not_accepted(baseline@);
    let mut out: Vec<Finding> = Vec::new();
    proof {
        reveal(Seq::filter);
        assert(finding::finding_views(all.take(0)) =~= Seq::<FindingView>::empty());
    }
    for f in it: findings
        invariant
            it.seq() == all,
            fresh == not_accepted(baseline@),
            finding::finding_views(out@) == finding::finding_views(
                all.take(it.index() as int),
            ).filter(fresh),
    {
        let ghost seen = finding::finding_views(all.take(it.index() as int));
        let ghost before = finding::finding_views(out@);
        let fp = f.fingerprint();
        proof {
            reveal(Seq::filter);
            let more = finding::finding_views(all.take(it.index() + 1));
            assert(more =~= seen.push(f@));
            assert(more.drop_last() =~= seen);
        }
        if !baseline.contains(fp.as_str()) {
            out.push(f);
            assert(finding::finding_views(out@) =~= before.push(f@));
        }
    }
    assert(all.take(all.len() as int) =~= all);
    out
}

} // verus!
