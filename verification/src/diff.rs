//! Scanning only the added lines of a unified diff, with the file and line number that each has
//! on the new side.

use vstd::prelude::*;

use crate::entropy;
use crate::entropy::ByteCounts;
use crate::evidence;
use crate::finding;
use crate::finding::{Finding, FindingView};
use crate::matching;
use crate::rules;
use crate::scan;
use crate::scan::Scanner;
use crate::text;
use crate::text::{
    chars_of, digits_end, find_char, parse_u64, split_lines, starts_with, string_of, trimmed,
};

verus! {

/// Where in the new side a diff stands: the file, the line last passed, and how many lines the
/// hunk header announces that are still to come.
pub struct Place {
    pub file: Seq<char>,
    pub line: nat,
    pub left: nat,
}

/// The line number after `n`, which starts again at zero past the largest.
pub open spec fn after(n: nat) -> nat {
    if n >= usize::MAX {
        0
    } else {
        n + 1
    }
}

/// A line written as the header that names the file of the new side. An added line whose own text
/// begins with two plus signs and a space is written the same way.
pub open spec fn is_file_header(raw: Seq<char>) -> bool {
    "+++ "@.is_prefix_of(raw)
}

/// A line that names the file of the new side: no line of a hunk is still to come.
pub open spec fn names_file(p: Place, raw: Seq<char>) -> bool {
    p.left == 0 && is_file_header(raw)
}

/// A line that begins a hunk.
pub open spec fn is_hunk_header(raw: Seq<char>) -> bool {
    "@@"@.is_prefix_of(raw)
}

/// A line that the diff adds.
pub open spec fn is_added(p: Place, raw: Seq<char>) -> bool {
    "+"@.is_prefix_of(raw) && !names_file(p, raw)
}

/// A line that the diff removes.
pub open spec fn is_removed(raw: Seq<char>) -> bool {
    "-"@.is_prefix_of(raw)
}

/// A remark on the line before it, such as that no newline ends it: no line of either side.
pub open spec fn is_remark(raw: Seq<char>) -> bool {
    "\\"@.is_prefix_of(raw)
}

/// A line that a hunk can hold on the new side: an added one or one of context, which begins with
/// a space that may have been lost where nothing follows it.
pub open spec fn is_hunk_line(raw: Seq<char>) -> bool {
    raw.len() == 0 || raw[0] == ' ' || raw[0] == '+'
}

/// The file that a file header names, without the `b/` that it may begin with.
pub open spec fn header_file(raw: Seq<char>) -> Seq<char> {
    let name = text::trim(raw.skip(4));
    if "b/"@.is_prefix_of(name) {
        name.skip(2)
    } else {
        name
    }
}

/// The line before the one that a hunk starts at: one less than the number written in its
/// header, or zero where none can be read there.
pub open spec fn before_hunk(digits: Option<Seq<char>>) -> nat {
    match digits {
        Some(d) => match text::parsed(d, usize::MAX as nat) {
            Some(n) => if n > 0 {
                (n - 1) as nat
            } else {
                0
            },
            None => 0,
        },
        None => 0,
    }
}

/// How many lines of the new side a hunk header announces: the number behind the comma that
/// follows the first line number, or one where there is no comma. A header that does not begin as
/// that of a unified diff, or that holds no such number, announces none.
pub open spec fn announced(raw: Seq<char>) -> nat {
    let rest = rules::after_plus(raw);
    let from = text::digit_run(rest) as int;
    if !"@@ -"@.is_prefix_of(raw) || !rules::has_plus_number(raw) {
        0
    } else if from < rest.len() && rest[from] == ',' {
        let count = rest.skip(from + 1);
        match text::parsed(count.take(text::digit_run(count) as int), u64::MAX as nat) {
            Some(n) => n,
            None => 0,
        }
    } else {
        1
    }
}

/// Where a diff stands after the line `raw`.
pub open spec fn advance(p: Place, raw: Seq<char>) -> Place {
    if names_file(p, raw) {
        Place { file: header_file(raw), line: 0, left: 0 }
    } else if is_hunk_header(raw) {
        Place { file: p.file, line: before_hunk(rules::hunk_digits(raw)), left: announced(raw) }
    } else if is_removed(raw) || is_remark(raw) {
        p
    } else {
        Place {
            file: p.file,
            line: after(p.line),
            left: if p.left > 0 && is_hunk_line(raw) {
                (p.left - 1) as nat
            } else {
                0
            },
        }
    }
}

/// Where a diff stands after `lines`.
pub open spec fn place(lines: Seq<Seq<char>>) -> Place
    decreases lines.len(),
{
    if lines.len() == 0 {
        Place { file: "<diff>"@, line: 0, left: 0 }
    } else {
        advance(place(lines.drop_last()), lines.last())
    }
}

/// Line `i` is added.
pub open spec fn adds(lines: Seq<Seq<char>>, i: int) -> bool {
    is_added(place(lines.take(i)), lines[i])
}

/// The findings of an added line, at the place where it stands. Nothing is looked for in an
/// empty one.
pub open spec fn added_findings(
    added: Seq<char>,
    p: Place,
    random: Seq<bool>,
) -> Seq<FindingView> {
    if added.len() == 0 {
        seq![]
    } else {
        evidence::line_findings(scan::line_evidence(added, false, random), p.file, p.line)
    }
}

/// The findings of a diff, with answers for the long tokens of each line.
pub open spec fn diff_findings(lines: Seq<Seq<char>>, random: Seq<Seq<bool>>) -> Seq<FindingView>
    decreases lines.len(),
{
    if lines.len() == 0 {
        seq![]
    } else {
        diff_findings(lines.drop_last(), random) + if is_added(
            place(lines.drop_last()),
            lines.last(),
        ) {
            added_findings(lines.last().skip(1), place(lines), random[lines.len() - 1])
        } else {
            seq![]
        }
    }
}

/// `random` holds an answer of `judge` for each long token of each added line.
pub open spec fn added_answered<F: Fn(&ByteCounts) -> bool>(
    judge: &F,
    lines: Seq<Seq<char>>,
    random: Seq<Seq<bool>>,
) -> bool {
    &&& random.len() == lines.len()
    &&& forall|i: int|
        0 <= i < lines.len() && #[trigger] adds(lines, i) ==> entropy::all_answered(
            judge,
            scan::candidates(lines[i].skip(1)),
            random[i],
        )
}

/// `found` are the findings of `diff`, for some answers that `judge` can give on the long tokens
/// of its added lines.
pub open spec fn diff_scanned<F: Fn(&ByteCounts) -> bool>(
    diff: Seq<char>,
    judge: &F,
    found: Seq<FindingView>,
) -> bool {
    exists|random: Seq<Seq<bool>>| #[trigger]
        added_answered(judge, text::lines(diff), random) && found == diff_findings(
            text::lines(diff),
            random,
        )
}

/// The line before the one that a hunk starts at, from the number written in its header.
pub fn line_before_hunk(digits: Option<&str>) -> (n: usize)
    ensures
        n == before_hunk(matching::opt_view(digits)),
{
    match digits {
        Some(d) => match parse_u64(d) {
            Some(n) => if 0 < n && n <= usize::MAX as u64 {
                (n - 1) as usize
            } else {
                0
            },
            None => 0,
        },
        None => 0,
    }
}

/// Counts the lines of the new side that a hunk header announces.
pub fn announced_lines(raw: &Vec<char>) -> (n: u64)
    ensures
        n == announced(raw@),
{
    if !starts_with(raw, "@@ -") {
        return 0;
    }
    let plus = find_char(raw, 0, '+');
    assert(raw@.skip(0) =~= raw@);
    if plus == raw.len() {
        return 0;
    }
    let comma = digits_end(raw, plus + 1);
    let ghost rest = raw@.skip(plus + 1);
    assert(rest == rules::after_plus(raw@));
    if comma == plus + 1 || (comma < raw.len() && raw[comma] >= '\u{80}') {
        return 0;
    }
    assert(rules::has_plus_number(raw@));
    if comma < raw.len() && raw[comma] == ',' {
        let end = digits_end(raw, comma + 1);
        let digits = string_of(raw, comma + 1, end);
        proof {
            let count = rest.skip(comma - plus);
            assert(count =~= raw@.skip(comma + 1));
            assert(digits@ =~= count.take(text::digit_run(count) as int));
        }
        match parse_u64(digits.as_str()) {
            Some(n) => n,
            None => 0,
        }
    } else {
        1
    }
}

/// The file that a file header names.
pub fn named_file(raw: &Vec<char>) -> (file: String)
    requires
        is_file_header(raw@),
    ensures
        file@ == header_file(raw@),
{
    proof {
        reveal_strlit("+++ ");
        reveal_strlit("b/");
        assert(raw@.subrange(4, raw@.len() as int) =~= raw@.skip(4));
    }
    let name = trimmed(raw, 4, raw.len());
    let cs = chars_of(name.as_str());
    if starts_with(&cs, "b/") {
        assert(cs@.subrange(2, cs@.len() as int) =~= cs@.skip(2));
        string_of(&cs, 2, cs.len())
    } else {
        name
    }
}

/// A line is of one kind at most: a header, a line with a plus sign, a removed one or a remark.
pub proof fn lemma_line_kinds(raw: Seq<char>)
    ensures
        is_file_header(raw) ==> raw.len() >= 4 && "+"@.is_prefix_of(raw),
        is_hunk_header(raw) ==> raw.len() >= 2 && !"+"@.is_prefix_of(raw) && !is_removed(raw)
            && !is_remark(raw),
        "+"@.is_prefix_of(raw) <==> raw.len() >= 1 && raw[0] == '+',
        "+"@.is_prefix_of(raw) ==> !is_removed(raw) && !is_remark(raw),
        is_removed(raw) ==> raw.len() >= 1 && !is_remark(raw),
{
    reveal_strlit("+++ ");
    reveal_strlit("+");
    reveal_strlit("@@");
    reveal_strlit("-");
    reveal_strlit("\\");
    text::lemma_prefix("+++ "@, raw);
    text::lemma_prefix("+"@, raw);
    text::lemma_prefix("@@"@, raw);
    text::lemma_prefix("-"@, raw);
    text::lemma_prefix("\\"@, raw);
    if is_file_header(raw) {
        assert(raw[0] == "+++ "@[0]);
    }
    if "@@"@.is_prefix_of(raw) {
        assert(raw[0] == "@@"@[0]);
    }
    if "+"@.is_prefix_of(raw) {
        assert(raw[0] == "+"@[0]);
    }
    if "-"@.is_prefix_of(raw) {
        assert(raw[0] == "-"@[0]);
    }
    if "\\"@.is_prefix_of(raw) {
        assert(raw[0] == "\\"@[0]);
    }
}

/// Whether a line is added does not depend on the lines after it.
pub proof fn lemma_adds_prefix(lines: Seq<Seq<char>>, n: int, i: int)
    requires
        0 <= i < n <= lines.len(),
    ensures
        adds(lines.take(n), i) == adds(lines, i),
        lines.take(n)[i] == lines[i],
{
    assert(lines.take(n).take(i) =~= lines.take(i));
}

/// The findings of the first lines rest on the answers for the added ones alone.
pub proof fn lemma_diff_findings_prefix(
    lines: Seq<Seq<char>>,
    a: Seq<Seq<bool>>,
    b: Seq<Seq<bool>>,
)
    requires
        forall|i: int| 0 <= i < lines.len() && #[trigger] adds(lines, i) ==> a[i] == b[i],
    ensures
        diff_findings(lines, a) == diff_findings(lines, b),
    decreases lines.len(),
{
    if lines.len() > 0 {
        let init = lines.drop_last();
        let n = lines.len() - 1;
        assert(init =~= lines.take(n));
        assert forall|i: int| 0 <= i < init.len() && #[trigger] adds(init, i) implies a[i]
            == b[i] by {
            lemma_adds_prefix(lines, n, i);
        }
        lemma_diff_findings_prefix(init, a, b);
        assert(adds(lines, n) == is_added(place(init), lines.last()));
    }
}

impl Scanner {
    /// Scans only the added lines of a unified diff, tracking file and line number. `judge`
    /// answers whether a long token with the given byte counts looks random.
    ///
    /// The lines that a hunk header announces are lines of the hunk, so `+++ ` begins an added line
    /// there and a file header elsewhere. The announcement ends early at a line that no hunk holds.
    pub fn scan_diff<F: Fn(&ByteCounts) -> bool>(&self, diff: &str, judge: &F) -> (out: Vec<
        Finding,
    >)
        requires
            entropy::can_judge(judge),
        ensures
            diff_scanned(diff@, judge, finding::finding_views(out@)),
    {
        let mut out: Vec<Finding> = Vec::new();
        let mut file = "<diff>".to_owned();
        let mut number: usize = 0;
        let mut left: u64 = 0;
        let lines = split_lines(diff);
        let ghost all = text::lines(diff@);
        let ghost mut random: Seq<Seq<bool>> = seq![];
        let mut i: usize = 0;
        assert(finding::finding_views(out@) =~= diff_findings(all.take(0), random));
        while i < lines.len()
            invariant
                i <= lines@.len(),
                entropy::can_judge(judge),
                all == text::lines(diff@),
                text::views(lines@) == all,
                added_answered(judge, all.take(i as int), random),
                finding::finding_views(out@) == diff_findings(all.take(i as int), random),
                place(all.take(i as int)) == (Place {
                    file: file@,
                    line: number as nat,
                    left: left as nat,
                }),
            decreases lines@.len() - i,
        {
            let raw = lines[i].as_str();
            let cs = chars_of(raw);
            let ghost prefix = all.take(i as int);
            let ghost longer = all.take(i + 1);
            let ghost mut answers: Seq<bool> = seq![];
            proof {
                assert(text::views(lines@)[i as int] == lines@[i as int]@);
                assert(raw@ == all[i as int]);
                assert(longer.drop_last() =~= prefix);
                assert(longer.last() == raw@);
                lemma_line_kinds(raw@);
            }
            if left == 0 && starts_with(&cs, "+++ ") {
                file = named_file(&cs);
                number = 0;
            } else if starts_with(&cs, "@@") {
                number = line_before_hunk(self.hunk_number(raw));
                left = announced_lines(&cs);
            } else if starts_with(&cs, "+") {
                number = number.wrapping_add(1);
                left = if left > 0 {
                    left - 1
                } else {
                    0
                };
                if cs.len() > 1 {
                    let added = string_of(&cs, 1, cs.len());
                    assert(added@ =~= raw@.skip(1));
                    let anchor = self.anchor(added.as_str());
                    let mut fs = self.scan_line(
                        added.as_str(),
                        number,
                        file.as_str(),
                        &anchor,
                        false,
                        judge,
                    );
                    proof {
                        answers = choose|a: Seq<bool>| #[trigger]
                            entropy::all_answered(judge, scan::candidates(added@), a)
                                && finding::finding_views(fs@) == evidence::line_findings(
                                scan::line_evidence(added@, false, a),
                                file@,
                                number as nat,
                            );
                    }
                    let ghost old_out = out@;
                    let ghost new_fs = fs@;
                    out.append(&mut fs);
                    assert(finding::finding_views(out@) =~= finding::finding_views(old_out)
                        + finding::finding_views(new_fs));
                }
            } else if !starts_with(&cs, "-") && !starts_with(&cs, "\\") {
                number = number.wrapping_add(1);
                left = if left > 0 && (cs.len() == 0 || cs[0] == ' ') {
                    left - 1
                } else {
                    0
                };
            }
            proof {
                let more = random.push(answers);
                assert forall|k: int| 0 <= k < prefix.len() implies random[k] == more[k] by {
                }
                lemma_diff_findings_prefix(prefix, random, more);
                assert(place(longer) == (Place {
                    file: file@,
                    line: number as nat,
                    left: left as nat,
                }));
                assert(more[i as int] == answers);
                if is_added(place(prefix), raw@) {
                    assert(raw@.skip(1).len() == raw@.len() - 1);
                }
                assert(finding::finding_views(out@) =~= diff_findings(longer, more));
                assert forall|k: int|
                    0 <= k < longer.len() && #[trigger] adds(longer, k) implies entropy::all_answered(
                    judge,
                    scan::candidates(longer[k].skip(1)),
                    more[k],
                ) by {
                    assert(longer.take(i as int) =~= prefix);
                    if k < i {
                        lemma_adds_prefix(longer, i as int, k);
                        assert(adds(prefix, k));
                    }
                }
                random = more;
            }
            i = i + 1;
        }
        assert(all.take(i as int) =~= all);
        out
    }
}

/// Scans only the added lines of a unified diff, tracking file and line number.
pub fn scan_diff<F: Fn(&ByteCounts) -> bool>(diff: &str, judge: &F) -> (out: Vec<Finding>)
    requires
        entropy::can_judge(judge),
    ensures
        diff_scanned(diff@, judge, finding::finding_views(out@)),
{
    Scanner::new().scan_diff(diff, judge)
}

} // verus!
