//! How findings are written out: as a baseline file, as plain text, and as an exit status.

use vstd::prelude::*;

use crate::baseline::Baseline;
use crate::finding;
use crate::finding::{Finding, FindingView};
use crate::text;
use crate::text::{chars_of, to_decimal};

verus! {

/// The first line of a baseline file of `n` findings.
pub open spec fn baseline_header(n: nat) -> Seq<char> {
    "# zecor-secretscan baseline -- "@ + text::decimal(n) + " finding(s) accepted\n"@
}

/// What follows the fingerprint on the line of a baseline file that accepts `f`.
pub open spec fn baseline_comment(f: FindingView) -> Seq<char> {
    f.rule + " "@ + f.file + ":"@ + text::decimal(f.line) + "\n"@
}

/// The line of a baseline file that accepts `f`.
pub open spec fn baseline_line(f: FindingView) -> Seq<char> {
    finding::fingerprint(f) + "  # "@ + baseline_comment(f)
}

/// The fingerprints of `fs`.
pub open spec fn fingerprints(fs: Seq<FindingView>) -> Set<Seq<char>>
    decreases fs.len(),
{
    if fs.len() == 0 {
        Set::empty()
    } else {
        fingerprints(fs.drop_last()).insert(finding::fingerprint(fs.last()))
    }
}

/// The lines of a baseline file below the header: one for each fingerprint, where it first
/// occurs.
pub open spec fn baseline_body(fs: Seq<FindingView>) -> Seq<char>
    decreases fs.len(),
{
    if fs.len() == 0 {
        seq![]
    } else if fingerprints(fs.drop_last()).contains(finding::fingerprint(fs.last())) {
        baseline_body(fs.drop_last())
    } else {
        baseline_body(fs.drop_last()) + baseline_line(fs.last())
    }
}

/// The baseline file that accepts `fs`.
pub open spec fn baseline_file(fs: Seq<FindingView>) -> Seq<char> {
    baseline_header(fs.len()) + baseline_body(fs)
}

/// Writes the line of a baseline file that accepts `f`, whose fingerprint is at hand.
fn accepting_line(f: &Finding, fp: String) -> (s: String)
    requires
        fp@ == finding::fingerprint(f@),
    ensures
        s@ == baseline_line(f@),
{
    let mut comment = f.rule.clone();
    comment.append(" ");
    comment.append(f.file.as_str());
    comment.append(":");
    let line = to_decimal(f.line);
    comment.append(line.as_str());
    comment.append("\n");
    let mut s = fp;
    s.append("  # ");
    s.append(comment.as_str());
    s
}

/// Writes the baseline file that accepts every finding of `findings`.
pub fn baseline_report(findings: &Vec<Finding>) -> (s: String)
    ensures
        s@ == baseline_file(finding::finding_views(findings@)),
{
    let ghost all = finding::finding_views(findings@);
    let mut s = "# zecor-secretscan baseline -- ".to_owned();
    let n = to_decimal(findings.len());
    s.append(n.as_str());
    s.append(" finding(s) accepted\n");
    let ghost header = s@;
    let mut seen = Baseline::new();
    let mut i: usize = 0;
    proof {
        assert(header =~= baseline_header(all.len()));
        assert(all.take(0) =~= Seq::<FindingView>::empty());
        assert(s@ =~= header + baseline_body(all.take(0)));
    }
    while i < findings.len()
        invariant
            i <= findings@.len(),
            all == finding::finding_views(findings@),
            seen@ == fingerprints(all.take(i as int)),
            s@ == header + baseline_body(all.take(i as int)),
        decreases findings@.len() - i,
    {
        let f = &findings[i];
        let fp = f.fingerprint();
        proof {
            assert(all[i as int] == f@);
            assert(all.take(i + 1).drop_last() =~= all.take(i as int));
            assert(all.take(i + 1).last() == f@);
        }
        if seen.insert(fp.clone()) {
            let line = accepting_line(f, fp);
            s.append(line.as_str());
            assert(s@ =~= header + (baseline_body(all.take(i as int)) + baseline_line(f@)));
        }
        i = i + 1;
    }
    assert(all.take(i as int) =~= all);
    s
}

/// `t` with spaces after it, up to a width of `width` characters.
pub open spec fn padded(t: Seq<char>, width: nat) -> Seq<char> {
    if t.len() < width {
        t + Seq::new((width - t.len()) as nat, |i: int| ' ')
    } else {
        t
    }
}

/// A finding as a line of plain text.
pub open spec fn text_line(f: FindingView) -> Seq<char> {
    padded(f.rule, 22) + " "@ + f.file + ":"@ + text::decimal(f.line) + "  "@ + f.hint
}

/// Writes a finding as a line of plain text.
pub fn finding_line(f: &Finding) -> (s: String)
    ensures
        s@ == text_line(f@),
{
    let mut s = f.rule.clone();
    let mut width: usize = chars_of(f.rule.as_str()).len();
    let ghost start = width as nat;
    while width < 22
        invariant
            start == f.rule@.len(),
            start <= width,
            width <= 22 || width == start,
            s@ == f.rule@ + Seq::new((width - start) as nat, |i: int| ' '),
        decreases 22 - width,
    {
        s.push(' ');
        width = width + 1;
        assert(s@ =~= f.rule@ + Seq::new((width - start) as nat, |i: int| ' '));
    }
    assert(s@ =~= padded(f.rule@, 22));
    s.append(" ");
    s.append(f.file.as_str());
    s.append(":");
    let line = to_decimal(f.line);
    s.append(line.as_str());
    s.append("  ");
    s.append(f.hint.as_str());
    s
}

/// The closing line of a plain-text report of `n` findings.
pub open spec fn summary(n: nat) -> Seq<char> {
    if n == 0 {
        "clean"@
    } else {
        text::decimal(n) + " finding(s)"@
    }
}

/// Writes the closing line of a plain-text report.
pub fn summary_line(findings: &Vec<Finding>) -> (s: String)
    ensures
        s@ == summary(findings@.len()),
{
    if findings.len() == 0 {
        "clean".to_owned()
    } else {
        let mut s = to_decimal(findings.len());
        s.append(" finding(s)");
        s
    }
}

/// The exit status of a scan that was carried out: 1 where a finding remains, 0 where it is clean.
pub fn exit_status(findings: &Vec<Finding>) -> (status: i32)
    ensures
        status == if findings@.len() == 0 {
            0i32
        } else {
            1i32
        },
{
    if findings.len() == 0 {
        0
    } else {
        1
    }
}

} // verus!
