//! What a scan finds, said line by line and rule by rule of its arguments and its result.

use vstd::prelude::*;
use vstd::utf8::*;

use crate::entropy;
use crate::entropy::ByteCounts;
use crate::evidence;
use crate::evidence::LineEvidence;
use crate::finding;
use crate::finding::{Finding, FindingView};
use crate::matching;
use crate::plain;
use crate::rules;
use crate::scan;
use crate::scan::{ScanOpts, Scanner};
use crate::scan_laws;
use crate::text;
use crate::text_laws;
use crate::tree;

verus! {

/// An anchor word stands in `t`.
pub open spec fn anchored(t: Seq<char>) -> bool {
    exists|w: int| 0 <= w < rules::anchors().len() && plain::holds(t, #[trigger] rules::anchors()[w])
}

/// What credential rule `i` finds in a line: what its pattern matches there, unless that is a
/// placeholder. All rules are tried on a line that holds an anchor word, and the two that ignore
/// case (the second and the last) also on one that holds it with the case of letters folded.
pub open spec fn credential_hit(
    line: Seq<char>,
    file: Seq<char>,
    number: nat,
    i: int,
) -> Option<FindingView> {
    let r = rules::credential_rules()[i];
    match matching::regex_find(r.pattern, line) {
        Some(m) => if (anchored(line) || ((i == 1 || i == 20) && anchored(text::folded(line))))
            && !finding::placeholder(m) {
            Some(FindingView { rule: r.name, file, line: number, hint: finding::masked(m) })
        } else {
            None
        },
        None => None,
    }
}

/// What is found in a long token: a finding where it looks random and is no placeholder.
pub open spec fn token_hit(
    token: Seq<char>,
    answer: bool,
    file: Seq<char>,
    number: nat,
) -> Option<FindingView> {
    if answer && !finding::placeholder(token) {
        Some(
            FindingView {
                rule: "high-entropy-token"@,
                file,
                line: number,
                hint: finding::masked(token),
            },
        )
    } else {
        None
    }
}

/// What injection rule `i` finds in a line: the line without the white space around it, where the
/// pattern matches anything there.
pub open spec fn injection_hit(
    line: Seq<char>,
    file: Seq<char>,
    number: nat,
    i: int,
) -> Option<FindingView> {
    let r = rules::injection_rules_text()[i];
    if matching::regex_find(r.pattern, line) is Some {
        Some(
            FindingView {
                rule: r.name,
                file,
                line: number,
                hint: finding::masked(text::trim(line)),
            },
        )
    } else {
        None
    }
}

/// All that can be found in a line, in order: by each of the 21 credential rules, in each long
/// token, and, where they are asked for, by each of the five injection rules.
pub open spec fn line_hits(
    line: Seq<char>,
    file: Seq<char>,
    number: nat,
    injection: bool,
    answers: Seq<bool>,
) -> Seq<Option<FindingView>> {
    Seq::new(21, |i: int| credential_hit(line, file, number, i)) + Seq::new(
        rules::long_tokens(line).len(),
        |k: int| token_hit(rules::long_tokens(line)[k], answers[k], file, number),
    ) + Seq::new(
        if injection {
            5
        } else {
            0
        },
        |i: int| injection_hit(line, file, number, i),
    )
}

/// `answers` are answers that `judge` can give on the long tokens of `line`.
pub open spec fn answers_for<F: Fn(&ByteCounts) -> bool>(
    judge: &F,
    line: Seq<char>,
    answers: Seq<bool>,
) -> bool {
    forall|k: int|
        0 <= k < rules::long_tokens(line).len() ==> plain::says(
            judge,
            #[trigger] rules::long_tokens(line)[k],
            answers[k],
        )
}

/// `out` reports on a text of these lines: for each line in turn, numbered from one, it lists what
/// there is to be found in it.
pub open spec fn reports_lines<F: Fn(&ByteCounts) -> bool>(
    lines: Seq<Seq<char>>,
    file: Seq<char>,
    injection: bool,
    judge: &F,
    out: Seq<FindingView>,
) -> bool {
    exists|parts: Seq<Seq<FindingView>>, answers: Seq<Seq<bool>>| #[trigger]
        reports_parts(lines, file, injection, judge, parts, answers) && out
            == plain::one_after_the_other(parts)
}

/// `parts[n]` reports on line `n`.
pub open spec fn reports_parts<F: Fn(&ByteCounts) -> bool>(
    lines: Seq<Seq<char>>,
    file: Seq<char>,
    injection: bool,
    judge: &F,
    parts: Seq<Seq<FindingView>>,
    answers: Seq<Seq<bool>>,
) -> bool {
    &&& parts.len() == lines.len()
    &&& forall|n: int|
        0 <= n < lines.len() ==> answers_for(judge, #[trigger] lines[n], answers[n])
            && plain::lists(
            parts[n],
            line_hits(lines[n], file, (n + 1) as nat, injection, answers[n]),
        )
}

pub proof fn lemma_reported_is_listed(v: Seq<Option<FindingView>>)
    ensures
        plain::lists(scan_laws::reported(v), v),
    decreases v.len(),
{
    if v.len() == 0 {
        assert(plain::lists_at(scan_laws::reported(v), v, Seq::<int>::empty()));
    } else {
        let init = v.drop_last();
        let n = v.len() - 1;
        lemma_reported_is_listed(init);
        let part = scan_laws::reported(init);
        let at = choose|at: Seq<int>| #[trigger] plain::lists_at(part, init, at);
        let more = match v.last() {
            Some(_) => at.push(n),
            None => at,
        };
        let all = scan_laws::reported(v);
        assert forall|a: int| 0 <= a < more.len() implies 0 <= #[trigger] more[a] < v.len()
            && v[more[a]] == Some(all[a]) by {
            if a < at.len() {
                assert(0 <= at[a] < init.len());
                assert(init[at[a]] == v[at[a]]);
            }
        }
        assert forall|i: int| 0 <= i < v.len() && (#[trigger] v[i]) is Some implies exists|a: int|
            0 <= a < more.len() && #[trigger] more[a] == i by {
            if i < n {
                assert(init[i] is Some);
                let a = choose|a: int| 0 <= a < at.len() && #[trigger] at[a] == i;
                assert(more[a] == i);
            } else {
                assert(more[at.len() as int] == i);
            }
        }
        assert forall|a: int, b: int| 0 <= a < b < more.len() implies #[trigger] more[a]
            < #[trigger] more[b] by {
            assert(0 <= at[a] < init.len());
            if b < at.len() {
                assert(at[a] < at[b]);
            }
        }
        assert(plain::lists_at(all, v, more));
    }
}

pub proof fn lemma_reported_concat(a: Seq<Option<FindingView>>, b: Seq<Option<FindingView>>)
    ensures
        scan_laws::reported(a + b) == scan_laws::reported(a) + scan_laws::reported(b),
    decreases b.len(),
{
    if b.len() == 0 {
        assert(a + b =~= a);
        assert(scan_laws::reported(a) + scan_laws::reported(b) =~= scan_laws::reported(a));
    } else {
        lemma_reported_concat(a, b.drop_last());
        assert((a + b).drop_last() =~= a + b.drop_last());
        assert((a + b).last() == b.last());
        assert(scan_laws::reported(a + b) =~= scan_laws::reported(a) + scan_laws::reported(b));
    }
}

proof fn lemma_nothing_reported(v: Seq<Option<FindingView>>)
    requires
        forall|i: int| 0 <= i < v.len() ==> (#[trigger] v[i]) is None,
    ensures
        scan_laws::reported(v) == Seq::<FindingView>::empty(),
    decreases v.len(),
{
    if v.len() > 0 {
        assert(v[v.len() - 1] is None);
        lemma_nothing_reported(v.drop_last());
    }
}

proof fn lemma_anchored(t: Seq<char>)
    ensures
        matching::contains_any(t, rules::anchors()) <==> anchored(t),
{
    let ws = rules::anchors();
    if matching::contains_any(t, ws) {
        let w = choose|w: int| 0 <= w < ws.len() && text::contains(t, #[trigger] ws[w]);
        text_laws::law_contains(t, ws[w]);
        assert(plain::holds(t, ws[w]));
    }
    if anchored(t) {
        let w = choose|w: int| 0 <= w < ws.len() && plain::holds(t, #[trigger] ws[w]);
        text_laws::law_contains(t, ws[w]);
        assert(text::contains(t, ws[w]));
    }
}

/// What is made of the evidence about a line is what there is to be found in it.
pub proof fn lemma_line_lists_its_hits(
    line: Seq<char>,
    file: Seq<char>,
    number: nat,
    injection: bool,
    answers: Seq<bool>,
)
    ensures
        plain::lists(
            evidence::line_findings(scan::line_evidence(line, injection, answers), file, number),
            line_hits(line, file, number, injection, answers),
        ),
{
    let e = scan::line_evidence(line, injection, answers);
    let hits = line_hits(line, file, number, injection, answers);
    let c = Seq::new(21, |i: int| credential_hit(line, file, number, i));
    let t = Seq::new(
        rules::long_tokens(line).len(),
        |k: int| token_hit(rules::long_tokens(line)[k], answers[k], file, number),
    );
    let j = Seq::new(
        if injection {
            5
        } else {
            0
        },
        |i: int| injection_hit(line, file, number, i),
    );
    lemma_anchored(line);
    lemma_anchored(text::folded(line));
    scan_laws::lemma_credentials_reported(e.credentials, file, number);
    scan_laws::lemma_tokens_reported(e.tokens, file, number);
    scan_laws::lemma_injections_reported(e.injections, line, file, number);
    if scan::anchor_of(line) is Missing {
        lemma_nothing_reported(c);
        assert(scan_laws::credential_verdicts(e.credentials, file, number) =~= seq![]);
        lemma_nothing_reported(scan_laws::credential_verdicts(e.credentials, file, number));
    } else {
        assert forall|i: int| 0 <= i < 21 implies c[i] == #[trigger] scan_laws::credential_verdicts(
            e.credentials,
            file,
            number,
        )[i] by {
            scan_laws::lemma_which_rules_ignore_case(i);
        }
        assert(scan_laws::credential_verdicts(e.credentials, file, number) =~= c);
    }
    assert(scan_laws::token_verdicts(e.tokens, file, number) =~= t);
    assert(scan_laws::injection_verdicts(e.injections, line, file, number) =~= j);
    lemma_reported_concat(c, t);
    lemma_reported_concat(c + t, j);
    lemma_reported_is_listed(hits);
}

/// Counting a byte is counting how often it occurs.
pub proof fn lemma_occurrences(bytes: Seq<u8>, b: u8)
    ensures
        entropy::occurrences(bytes, b) == bytes.to_multiset().count(b),
    decreases bytes.len(),
{
    broadcast use vstd::seq_lib::group_to_multiset_ensures;

    if bytes.len() > 0 {
        lemma_occurrences(bytes.drop_last(), b);
        assert(bytes =~= bytes.drop_last().push(bytes.last()));
    }
}

/// What counts as an answer of a judge is one that it can give on the counts of the token.
pub proof fn law_answers_are_what_the_judge_says<F: Fn(&ByteCounts) -> bool>(
    judge: &F,
    token: Seq<char>,
    answer: bool,
)
    ensures
        entropy::answered(judge, token, answer) <==> plain::says(judge, token, answer),
{
    let bytes = encode_utf8(token);
    assert forall|b: u8| entropy::occurrences(bytes, b) == bytes.to_multiset().count(b) by {
        lemma_occurrences(bytes, b);
    }
    if entropy::answered(judge, token, answer) {
        let c = choose|c: ByteCounts|
            #![trigger call_ensures(*judge, (&c,), answer)]
            c.tallies(bytes) && call_ensures(*judge, (&c,), answer);
        assert forall|b: u8| c.counts@[b as int] == #[trigger] bytes.to_multiset().count(b) by {
            assert(c.counts@[b as int] == entropy::occurrences(bytes, b));
        }
        assert(plain::counts_of(c, bytes));
    }
    if plain::says(judge, token, answer) {
        let c = choose|c: ByteCounts| #[trigger]
            plain::counts_of(c, bytes) && call_ensures(*judge, (&c,), answer);
        assert forall|b: u8| c.counts@[b as int] == #[trigger] entropy::occurrences(bytes, b) by {
            assert(c.counts@[b as int] == bytes.to_multiset().count(b));
        }
        assert(c.tallies(bytes));
    }
}

/// Counting the bytes of a token counts how often each occurs in its UTF-8 form.
pub proof fn law_byte_counts(token: &str, c: ByteCounts)
    requires
        call_ensures(entropy::byte_counts, (token,), c),
    ensures
        plain::counts_of(c, encode_utf8(token@)),
{
    let bytes = encode_utf8(token@);
    assert forall|b: u8| c.counts@[b as int] == #[trigger] bytes.to_multiset().count(b) by {
        lemma_occurrences(bytes, b);
        assert(c.counts@[b as int] == entropy::occurrences(bytes, b));
    }
}

/// Asked about a token, a judge answers on its counts.
pub proof fn law_judge_is_asked<F: Fn(&ByteCounts) -> bool>(judge: &F, token: &str, random: bool)
    requires
        call_ensures(entropy::ask::<F>, (judge, token), random),
    ensures
        plain::says(judge, token@, random),
{
    law_answers_are_what_the_judge_says(judge, token@, random);
}

/// A judge is asked about each token in turn.
pub proof fn law_judge_is_asked_about_each_token<F: Fn(&ByteCounts) -> bool>(
    judge: &F,
    tokens: &Vec<&str>,
    random: Vec<bool>,
)
    requires
        call_ensures(entropy::ask_all::<F>, (judge, tokens), random),
    ensures
        random@.len() == tokens@.len(),
        forall|k: int|
            0 <= k < tokens@.len() ==> plain::says(judge, (#[trigger] tokens@[k])@, random@[k]),
{
    let views = matching::str_views(tokens@);
    assert forall|k: int| 0 <= k < tokens@.len() implies plain::says(
        judge,
        (#[trigger] tokens@[k])@,
        random@[k],
    ) by {
        assert(views[k] == tokens@[k]@);
        law_answers_are_what_the_judge_says(judge, views[k], random@[k]);
    }
}

pub proof fn lemma_answers_for<F: Fn(&ByteCounts) -> bool>(
    judge: &F,
    line: Seq<char>,
    answers: Seq<bool>,
)
    requires
        entropy::all_answered(judge, scan::candidates(line), answers),
    ensures
        answers_for(judge, line, answers),
{
    assert forall|k: int| 0 <= k < rules::long_tokens(line).len() implies plain::says(
        judge,
        #[trigger] rules::long_tokens(line)[k],
        answers[k],
    ) by {
        law_answers_are_what_the_judge_says(judge, rules::long_tokens(line)[k], answers[k]);
        assert(entropy::answered(judge, scan::candidates(line)[k], answers[k]));
    }
}

pub proof fn lemma_one_more_part(parts: Seq<Seq<FindingView>>, last: Seq<FindingView>)
    ensures
        plain::one_after_the_other(parts.push(last)) == plain::one_after_the_other(parts) + last,
    decreases parts.len(),
{
    let all = parts.push(last);
    if parts.len() == 0 {
        assert(all.drop_first() =~= Seq::<Seq<FindingView>>::empty());
        assert(plain::one_after_the_other(all.drop_first()) =~= seq![]);
        assert(all[0] + plain::one_after_the_other(all.drop_first()) =~= last);
        assert(plain::one_after_the_other(parts) + last =~= last);
    } else {
        let rest = parts.drop_first();
        lemma_one_more_part(rest, last);
        assert(all.drop_first() =~= rest.push(last));
        assert(parts[0] + (plain::one_after_the_other(rest) + last) =~= parts[0]
            + plain::one_after_the_other(rest) + last);
    }
}

proof fn lemma_text_reports<F: Fn(&ByteCounts) -> bool>(
    lines: Seq<Seq<char>>,
    file: Seq<char>,
    injection: bool,
    judge: &F,
    random: Seq<Seq<bool>>,
) -> (parts: Seq<Seq<FindingView>>)
    requires
        forall|n: int|
            0 <= n < lines.len() ==> entropy::all_answered(
                judge,
                scan::candidates(#[trigger] lines[n]),
                random[n],
            ),
    ensures
        reports_parts(lines, file, injection, judge, parts, random),
        scan::text_findings(lines, file, injection, random) == plain::one_after_the_other(parts),
    decreases lines.len(),
{
    if lines.len() == 0 {
        Seq::empty()
    } else {
        let init = lines.drop_last();
        let n = lines.len() - 1;
        assert forall|k: int| 0 <= k < init.len() implies entropy::all_answered(
            judge,
            scan::candidates(#[trigger] init[k]),
            random[k],
        ) by {
            assert(init[k] == lines[k]);
        }
        let before = lemma_text_reports(init, file, injection, judge, random);
        let last = evidence::line_findings(
            scan::line_evidence(lines[n], injection, random[n]),
            file,
            (n + 1) as nat,
        );
        lemma_line_lists_its_hits(lines[n], file, (n + 1) as nat, injection, random[n]);
        lemma_answers_for(judge, lines[n], random[n]);
        let parts = before.push(last);
        lemma_one_more_part(before, last);
        assert forall|k: int| 0 <= k < lines.len() implies answers_for(
            judge,
            #[trigger] lines[k],
            random[k],
        ) && plain::lists(
            parts[k],
            line_hits(lines[k], file, (k + 1) as nat, injection, random[k]),
        ) by {
            if k < n {
                assert(init[k] == lines[k]);
                assert(answers_for(judge, init[k], random[k]));
            }
        }
        parts
    }
}

/// What counts as the outcome of a scan reports on each line of the text in turn.
pub proof fn law_outcome_reports_the_lines<F: Fn(&ByteCounts) -> bool>(
    t: Seq<char>,
    file: Seq<char>,
    injection: bool,
    judge: &F,
    found: Seq<FindingView>,
)
    requires
        scan::scanned(t, file, injection, judge, found),
    ensures
        reports_lines(text::lines(t), file, injection, judge, found),
{
    let lines = text::lines(t);
    let random = choose|random: Seq<Seq<bool>>| #[trigger]
        scan::lines_answered(judge, lines, random) && found == scan::text_findings(
            lines,
            file,
            injection,
            random,
        );
    let parts = lemma_text_reports(lines, file, injection, judge, random);
    assert(reports_parts(lines, file, injection, judge, parts, random));
}

/// Scanning text with options reports on each of its lines, and the injection rules are tried
/// exactly where the options ask for them.
pub proof fn law_scan_text_opts<F: Fn(&ByteCounts) -> bool>(
    scanner: &Scanner,
    t: &str,
    file: &str,
    opts: &ScanOpts,
    judge: &F,
    ls: Vec<String>,
    out: Vec<Finding>,
)
    requires
        call_ensures(text::split_lines, (t,), ls),
        call_ensures(scan::scan_text_opts::<F>, (t, file, opts, judge), out) || call_ensures(
            Scanner::scan_text_opts::<F>,
            (scanner, t, file, opts, judge),
            out,
        ),
    ensures
        reports_lines(
            Seq::new(ls@.len(), |n: int| ls@[n]@),
            file@,
            opts.injection,
            judge,
            Seq::new(out@.len(), |k: int| out@[k]@),
        ),
{
    law_outcome_reports_the_lines(
        t@,
        file@,
        opts.injection,
        judge,
        finding::finding_views(out@),
    );
    assert(Seq::new(ls@.len(), |n: int| ls@[n]@) =~= text::lines(t@)) by {
        assert(text::views(ls@) == text::lines(t@));
        assert(Seq::new(ls@.len(), |n: int| ls@[n]@) =~= text::views(ls@));
    }
    assert(Seq::new(out@.len(), |k: int| out@[k]@) =~= finding::finding_views(out@));
}

/// Scanning text reports on each of its lines, without the injection rules.
pub proof fn law_scan_text<F: Fn(&ByteCounts) -> bool>(
    t: &str,
    file: &str,
    judge: &F,
    ls: Vec<String>,
    out: Vec<Finding>,
)
    requires
        call_ensures(text::split_lines, (t,), ls),
        call_ensures(scan::scan_text::<F>, (t, file, judge), out),
    ensures
        reports_lines(
            Seq::new(ls@.len(), |n: int| ls@[n]@),
            file@,
            false,
            judge,
            Seq::new(out@.len(), |k: int| out@[k]@),
        ),
{
    law_outcome_reports_the_lines(t@, file@, false, judge, finding::finding_views(out@));
    assert(Seq::new(ls@.len(), |n: int| ls@[n]@) =~= text::lines(t@)) by {
        assert(text::views(ls@) == text::lines(t@));
        assert(Seq::new(ls@.len(), |n: int| ls@[n]@) =~= text::views(ls@));
    }
    assert(Seq::new(out@.len(), |k: int| out@[k]@) =~= finding::finding_views(out@));
}

/// The defaults: no injection rules, a limit of two mebibytes, ignore files followed.
pub proof fn law_default_options(opts: ScanOpts)
    requires
        call_ensures(ScanOpts::default, (), opts),
    ensures
        !opts.injection,
        opts.max_bytes == 2 * 1024 * 1024,
        opts.respect_gitignore,
{
}

/// A file with a zero byte among its first 8192 has no findings; any other file has those of its
/// text, whatever other bytes it holds.
pub proof fn law_scan_file<F: Fn(&ByteCounts) -> bool>(
    scanner: &Scanner,
    bytes: &[u8],
    label: &str,
    opts: &ScanOpts,
    judge: &F,
    out: Vec<Finding>,
)
    requires
        call_ensures(Scanner::scan_file::<F>, (scanner, bytes, label, opts, judge), out),
    ensures
        (exists|i: int| 0 <= i < bytes@.len() && i < 8192 && bytes@[i] == 0) ==> out@.len() == 0,
        (forall|i: int| 0 <= i < bytes@.len() && i < 8192 ==> bytes@[i] != 0) ==> reports_lines(
            text::lines(tree::utf8_lossy(bytes@)),
            label@,
            opts.injection,
            judge,
            Seq::new(out@.len(), |k: int| out@[k]@),
        ),
        (forall|i: int| 0 <= i < bytes@.len() && i < 8192 ==> bytes@[i] != 0) && valid_utf8(bytes@)
            ==> reports_lines(
            text::lines(decode_utf8(bytes@)),
            label@,
            opts.injection,
            judge,
            Seq::new(out@.len(), |k: int| out@[k]@),
        ),
{
    let found = finding::finding_views(out@);
    assert(Seq::new(out@.len(), |k: int| out@[k]@) =~= found);
    if forall|i: int| 0 <= i < bytes@.len() && i < 8192 ==> bytes@[i] != 0 {
        law_outcome_reports_the_lines(
            tree::utf8_lossy(bytes@),
            label@,
            opts.injection,
            judge,
            found,
        );
        if valid_utf8(bytes@) {
            law_outcome_reports_the_lines(
                decode_utf8(bytes@),
                label@,
                opts.injection,
                judge,
                found,
            );
        }
    }
}

/// A file that could not be read, or is above a limit that is not zero, has no findings; any other
/// has those of its bytes.
pub proof fn law_scan_entry<F: Fn(&ByteCounts) -> bool>(
    scanner: &Scanner,
    size: Option<u64>,
    bytes: Option<&[u8]>,
    label: &str,
    opts: &ScanOpts,
    judge: &F,
    out: Vec<Finding>,
)
    requires
        call_ensures(Scanner::scan_entry::<F>, (scanner, size, bytes, label, opts, judge), out),
    ensures
        bytes is None ==> out@.len() == 0,
        size is Some && opts.max_bytes != 0 && size->0 > opts.max_bytes ==> out@.len() == 0,
        bytes is Some && (exists|i: int|
            0 <= i < bytes->0@.len() && i < 8192 && bytes->0@[i] == 0) ==> out@.len() == 0,
        bytes is Some && (size is None || opts.max_bytes == 0 || size->0 <= opts.max_bytes) && (
        forall|i: int| 0 <= i < bytes->0@.len() && i < 8192 ==> bytes->0@[i] != 0)
            ==> reports_lines(
            text::lines(tree::utf8_lossy(bytes->0@)),
            label@,
            opts.injection,
            judge,
            Seq::new(out@.len(), |k: int| out@[k]@),
        ),
        bytes is Some && (size is None || opts.max_bytes == 0 || size->0 <= opts.max_bytes) && (
        forall|i: int| 0 <= i < bytes->0@.len() && i < 8192 ==> bytes->0@[i] != 0) && valid_utf8(
            bytes->0@,
        ) ==> reports_lines(
            text::lines(decode_utf8(bytes->0@)),
            label@,
            opts.injection,
            judge,
            Seq::new(out@.len(), |k: int| out@[k]@),
        ),
{
    let found = finding::finding_views(out@);
    assert(Seq::new(out@.len(), |k: int| out@[k]@) =~= found);
    if bytes is Some && (size is None || opts.max_bytes == 0 || size->0 <= opts.max_bytes) && (
    forall|i: int| 0 <= i < bytes->0@.len() && i < 8192 ==> bytes->0@[i] != 0) {
        law_outcome_reports_the_lines(
            tree::utf8_lossy(bytes->0@),
            label@,
            opts.injection,
            judge,
            found,
        );
        if valid_utf8(bytes->0@) {
            law_outcome_reports_the_lines(
                decode_utf8(bytes->0@),
                label@,
                opts.injection,
                judge,
                found,
            );
        }
    }
}

proof fn lemma_part_is_in_the_whole(parts: Seq<Seq<FindingView>>, n: int, f: FindingView)
    requires
        0 <= n < parts.len(),
        parts[n].contains(f),
    ensures
        plain::one_after_the_other(parts).contains(f),
    decreases parts.len(),
{
    let rest = parts.drop_first();
    let tail = plain::one_after_the_other(rest);
    scan_laws::lemma_concat_contains(parts[0], tail, f);
    if n > 0 {
        assert(rest[n - 1] == parts[n]);
        lemma_part_is_in_the_whole(rest, n - 1, f);
    }
}

/// A hit is in the list.
proof fn lemma_hit_is_listed(part: Seq<FindingView>, hits: Seq<Option<FindingView>>, i: int)
    requires
        plain::lists(part, hits),
        0 <= i < hits.len(),
        hits[i] is Some,
    ensures
        part.contains(hits[i]->0),
{
    let at = choose|at: Seq<int>| #[trigger] plain::lists_at(part, hits, at);
    let a = choose|a: int| 0 <= a < at.len() && #[trigger] at[a] == i;
    assert(part[a] == hits[i]->0);
}

/// Wherever a line holds an anchor word and a credential rule matches something there that is no
/// placeholder, the scan reports it under the line's number: in a comment, behind other matches or
/// anywhere else.
pub proof fn law_every_credential_is_reported<F: Fn(&ByteCounts) -> bool>(
    t: &str,
    file: &str,
    judge: &F,
    ls: Vec<String>,
    out: Vec<Finding>,
    n: int,
    i: int,
    m: Seq<char>,
)
    requires
        call_ensures(text::split_lines, (t,), ls),
        call_ensures(scan::scan_text::<F>, (t, file, judge), out),
        0 <= n < ls@.len(),
        anchored(ls@[n]@),
        0 <= i < rules::credential_rules().len(),
        matching::regex_find(rules::credential_rules()[i].pattern, ls@[n]@) == Some(m),
        !finding::placeholder(m),
    ensures
        exists|k: int|
            0 <= k < out@.len() && (#[trigger] out@[k]).rule@ == rules::credential_rules()[i].name
                && out@[k].file@ == file@ && out@[k].line == n + 1 && out@[k].hint@
                == finding::masked(m),
{
    law_scan_text(t, file, judge, ls, out);
    let lines = Seq::new(ls@.len(), |n: int| ls@[n]@);
    let found = Seq::new(out@.len(), |k: int| out@[k]@);
    let (parts, answers) = choose|parts: Seq<Seq<FindingView>>, answers: Seq<Seq<bool>>| #[trigger]
        reports_parts(lines, file@, false, judge, parts, answers) && found
            == plain::one_after_the_other(parts);
    let hits = line_hits(lines[n], file@, (n + 1) as nat, false, answers[n]);
    assert(hits[i] == credential_hit(lines[n], file@, (n + 1) as nat, i));
    lemma_hit_is_listed(parts[n], hits, i);
    lemma_part_is_in_the_whole(parts, n, hits[i]->0);
    let k = choose|k: int| 0 <= k < found.len() && found[k] == hits[i]->0;
    assert(out@[k]@ == found[k]);
}

/// Each rule is tried on a line in which an anchor word stands as it is written.
pub proof fn law_anchored_lines_are_swept(line: Seq<char>, i: int)
    requires
        anchored(line),
        0 <= i < rules::credential_rules().len(),
    ensures
        scan::credential_evidence(line).len() == rules::credential_rules().len(),
        scan::credential_evidence(line)[i] == (
            rules::credential_rules()[i].name,
            matching::regex_find(rules::credential_rules()[i].pattern, line),
        ),
{
    lemma_anchored(line);
}

/// A list has one form: the same hits are listed in one way.
pub proof fn law_listing_is_unique(
    a: Seq<FindingView>,
    b: Seq<FindingView>,
    hits: Seq<Option<FindingView>>,
)
    requires
        plain::lists(a, hits),
        plain::lists(b, hits),
    ensures
        a == b,
    decreases hits.len(),
{
    let p = choose|at: Seq<int>| #[trigger] plain::lists_at(a, hits, at);
    let q = choose|at: Seq<int>| #[trigger] plain::lists_at(b, hits, at);
    if hits.len() == 0 {
        if a.len() > 0 {
            assert(0 <= p[0] < hits.len());
        }
        if b.len() > 0 {
            assert(0 <= q[0] < hits.len());
        }
        assert(a =~= b);
    } else {
        let n = hits.len() - 1;
        let init = hits.drop_last();
        let a0 = lemma_list_without_last(a, hits, p);
        let b0 = lemma_list_without_last(b, hits, q);
        law_listing_is_unique(a0, b0, init);
    }
}

/// Without the last hit, the list lacks its last entry.
proof fn lemma_list_without_last(
    part: Seq<FindingView>,
    hits: Seq<Option<FindingView>>,
    at: Seq<int>,
) -> (shorter: Seq<FindingView>)
    requires
        hits.len() > 0,
        plain::lists_at(part, hits, at),
    ensures
        plain::lists(shorter, hits.drop_last()),
        hits.last() is Some ==> part == shorter.push(hits.last()->0),
        hits.last() is None ==> part == shorter,
{
    let n = hits.len() - 1;
    let init = hits.drop_last();
    if hits[n] is Some {
        let a = choose|a: int| 0 <= a < at.len() && #[trigger] at[a] == n;
        assert(a == at.len() - 1) by {
            if a < at.len() - 1 {
                assert(at[a] < at[a + 1]);
                assert(at[a + 1] < hits.len());
            }
        }
        let shorter = part.drop_last();
        let before = at.drop_last();
        assert forall|b: int| 0 <= b < before.len() implies 0 <= #[trigger] before[b] < init.len()
            && init[before[b]] == Some(shorter[b]) by {
            assert(at[b] < at[a]);
            assert(hits[at[b]] == Some(part[b]));
        }
        assert forall|i: int| 0 <= i < init.len() && (#[trigger] init[i]) is Some implies exists|b: int|
            0 <= b < before.len() && #[trigger] before[b] == i by {
            assert(hits[i] is Some);
            let b = choose|b: int| 0 <= b < at.len() && #[trigger] at[b] == i;
            assert(before[b] == i);
        }
        assert(plain::lists_at(shorter, init, before));
        assert(part =~= shorter.push(hits.last()->0));
        shorter
    } else {
        assert forall|b: int| 0 <= b < at.len() implies 0 <= #[trigger] at[b] < init.len()
            && init[at[b]] == Some(part[b]) by {
            assert(hits[at[b]] == Some(part[b]));
        }
        assert forall|i: int| 0 <= i < init.len() && (#[trigger] init[i]) is Some implies exists|b: int|
            0 <= b < at.len() && #[trigger] at[b] == i by {
            assert(hits[i] is Some);
        }
        assert(plain::lists_at(part, init, at));
        part
    }
}

/// What a credential rule matched is a finding that shows it masked, unless it is a placeholder.
pub proof fn law_judge_credential(
    rule: &str,
    m: &str,
    file: &str,
    line: usize,
    f: Option<Finding>,
    none: Option<Finding>,
)
    requires
        call_ensures(evidence::judge_credential, (rule, Some(m), file, line), f),
        call_ensures(evidence::judge_credential, (rule, None::<&str>, file, line), none),
    ensures
        none is None,
        f is None <==> finding::placeholder(m@),
        f is Some ==> f->0.rule@ == rule@ && f->0.file@ == file@ && f->0.line == line
            && f->0.hint@ == finding::masked(m@),
{
}

/// A long token is a finding that shows it masked, where it looks random and is no placeholder.
pub proof fn law_judge_token(
    token: &str,
    random: bool,
    file: &str,
    line: usize,
    f: Option<Finding>,
)
    requires
        call_ensures(evidence::judge_token, (token, random, file, line), f),
    ensures
        f is Some <==> random && !finding::placeholder(token@),
        f is Some ==> f->0.rule@ == "high-entropy-token"@ && f->0.file@ == file@ && f->0.line
            == line && f->0.hint@ == finding::masked(token@),
{
}

/// A line in which an injection rule matched is a finding that shows it trimmed and masked.
pub proof fn law_judge_injection(
    rule: &str,
    matched: bool,
    text_line: &str,
    file: &str,
    line: usize,
    f: Option<Finding>,
)
    requires
        call_ensures(evidence::judge_injection, (rule, matched, text_line, file, line), f),
    ensures
        f is Some <==> matched,
        f is Some ==> f->0.rule@ == rule@ && f->0.file@ == file@ && f->0.line == line
            && f->0.hint@ == finding::masked(text::trim(text_line@)),
{
}

/// The evidence about a line is weighed piece by piece: the credential matches, then the tokens,
/// then the phrases.
pub proof fn law_judge_line(e: &LineEvidence, file: &str, line: usize, out: Vec<Finding>)
    requires
        call_ensures(evidence::judge_line, (e, file, line), out),
    ensures
        plain::lists(
            Seq::new(out@.len(), |k: int| out@[k]@),
            Seq::new(
                e.credentials@.len(),
                |i: int|
                    match e.credentials@[i].matched {
                        Some(m) => if finding::placeholder(m@) {
                            None
                        } else {
                            Some(
                                FindingView {
                                    rule: e.credentials@[i].rule@,
                                    file: file@,
                                    line: line as nat,
                                    hint: finding::masked(m@),
                                },
                            )
                        },
                        None => None,
                    },
            ) + Seq::new(
                e.tokens@.len(),
                |i: int| token_hit(e.tokens@[i].text@, e.tokens@[i].random, file@, line as nat),
            ) + Seq::new(
                e.injections@.len(),
                |i: int|
                    if e.injections@[i].matched {
                        Some(
                            FindingView {
                                rule: e.injections@[i].rule@,
                                file: file@,
                                line: line as nat,
                                hint: finding::masked(text::trim(e.line@)),
                            },
                        )
                    } else {
                        None
                    },
            ),
        ),
{
    let n = line as nat;
    let c = Seq::new(
        e.credentials@.len(),
        |i: int|
            match e.credentials@[i].matched {
                Some(m) => if finding::placeholder(m@) {
                    None
                } else {
                    Some(
                        FindingView {
                            rule: e.credentials@[i].rule@,
                            file: file@,
                            line: line as nat,
                            hint: finding::masked(m@),
                        },
                    )
                },
                None => None,
            },
    );
    let t = Seq::new(
        e.tokens@.len(),
        |i: int| token_hit(e.tokens@[i].text@, e.tokens@[i].random, file@, line as nat),
    );
    let j = Seq::new(
        e.injections@.len(),
        |i: int|
            if e.injections@[i].matched {
                Some(
                    FindingView {
                        rule: e.injections@[i].rule@,
                        file: file@,
                        line: line as nat,
                        hint: finding::masked(text::trim(e.line@)),
                    },
                )
            } else {
                None
            },
    );
    scan_laws::lemma_credentials_reported(e@.credentials, file@, n);
    scan_laws::lemma_tokens_reported(e@.tokens, file@, n);
    scan_laws::lemma_injections_reported(e@.injections, e@.line, file@, n);
    assert(scan_laws::credential_verdicts(e@.credentials, file@, n) =~= c);
    assert(scan_laws::token_verdicts(e@.tokens, file@, n) =~= t);
    assert(scan_laws::injection_verdicts(e@.injections, e@.line, file@, n) =~= j);
    lemma_reported_concat(c, t);
    lemma_reported_concat(c + t, j);
    lemma_reported_is_listed(c + t + j);
    assert(Seq::new(out@.len(), |k: int| out@[k]@) =~= finding::finding_views(out@));
}

} // verus!
