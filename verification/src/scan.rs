//! Scanning text line by line.

use vstd::prelude::*;
use aho_corasick::AhoCorasick;
use regex::Regex;

use crate::entropy;
use crate::entropy::{ask_all, ByteCounts};
use crate::evidence;
use crate::evidence::{judge_line, Evidence, LineEvidence, PhraseMatch, RuleMatch, Token};
use crate::finding;
use crate::finding::{Finding, FindingView};
use crate::matching;
use crate::rules;
use crate::rules::Rule;
use crate::text;
use crate::text::{fold_text, split_lines};

verus! {

/// Files above this size are assumed to be data or vendored and skipped when a tree is scanned.
pub const DEFAULT_MAX_BYTES: u64 = 2 * 1024 * 1024;

/// What to scan for.
#[derive(Debug, Clone)]
pub struct ScanOpts {
    /// Also flag prompt-injection phrasing (for scanning model-bound untrusted text).
    pub injection: bool,
    /// Skip files larger than this (bytes). 0 = no limit.
    pub max_bytes: u64,
    /// Follow gitignore / .ignore / hidden-file rules when walking a tree.
    pub respect_gitignore: bool,
}

impl Default for ScanOpts {
    fn default() -> (opts: Self)
        ensures
            !opts.injection,
            opts.max_bytes == 2097152,
            opts.respect_gitignore,
    {
        ScanOpts { injection: false, max_bytes: DEFAULT_MAX_BYTES, respect_gitignore: true }
    }
}

/// How an anchor word occurs in a text: as it is written, only with the case of letters folded,
/// or not at all.
pub enum Anchor {
    Written,
    Folded,
    Missing,
}

/// How an anchor word occurs in `t`.
pub open spec fn anchor_of(t: Seq<char>) -> Anchor {
    if matching::contains_any(t, rules::anchors()) {
        Anchor::Written
    } else if matching::contains_any(text::folded(t), rules::anchors()) {
        Anchor::Folded
    } else {
        Anchor::Missing
    }
}

/// An anchor word occurs in `t`, as it is written or with the case of letters folded.
pub open spec fn has_anchor_word(t: Seq<char>) -> bool {
    !(anchor_of(t) is Missing)
}

/// A rule with this pattern is tried where an anchor word occurs as it is written, and one that
/// ignores case also where it occurs only with the case of letters folded.
pub open spec fn is_tried(pattern: Seq<char>, anchor: Anchor) -> bool {
    match anchor {
        Anchor::Written => true,
        Anchor::Folded => rules::ignores_case(pattern),
        Anchor::Missing => false,
    }
}

/// What a credential rule reports of `line`: nothing where it is not tried.
pub open spec fn rule_match(r: rules::RuleText, line: Seq<char>) -> Option<Seq<char>> {
    if is_tried(r.pattern, anchor_of(line)) {
        matching::regex_find(r.pattern, line)
    } else {
        None
    }
}

/// What the credential rules report of `line`: nothing where it holds no anchor word.
pub open spec fn credential_evidence(line: Seq<char>) -> Seq<(Seq<char>, Option<Seq<char>>)> {
    if has_anchor_word(line) {
        rules::credential_rules().map_values(
            |r: rules::RuleText| (r.name, rule_match(r, line)),
        )
    } else {
        seq![]
    }
}

/// The long tokens of `line`.
pub open spec fn candidates(line: Seq<char>) -> Seq<Seq<char>> {
    rules::long_tokens(line)
}

/// What the injection rules report of `line`: nothing where they are not asked for.
pub open spec fn injection_evidence(line: Seq<char>, injection: bool) -> Seq<(Seq<char>, bool)> {
    if injection {
        rules::injection_rules_text().map_values(
            |r: rules::RuleText| (r.name, matching::regex_find(r.pattern, line) is Some),
        )
    } else {
        seq![]
    }
}

/// All the evidence about `line`, with an answer for each of its long tokens.
pub open spec fn line_evidence(line: Seq<char>, injection: bool, random: Seq<bool>) -> Evidence {
    Evidence {
        line,
        credentials: credential_evidence(line),
        tokens: Seq::new(candidates(line).len(), |k: int| (candidates(line)[k], random[k])),
        injections: injection_evidence(line, injection),
    }
}

/// The findings of the first lines of a text, with answers for the long tokens of each line.
/// Lines are numbered from one.
pub open spec fn text_findings(
    lines: Seq<Seq<char>>,
    file: Seq<char>,
    injection: bool,
    random: Seq<Seq<bool>>,
) -> Seq<FindingView>
    decreases lines.len(),
{
    if lines.len() == 0 {
        seq![]
    } else {
        text_findings(lines.drop_last(), file, injection, random) + evidence::line_findings(
            line_evidence(lines.last(), injection, random[lines.len() - 1]),
            file,
            lines.len(),
        )
    }
}

/// `random` holds an answer of `judge` for each long token of each line.
pub open spec fn lines_answered<F: Fn(&ByteCounts) -> bool>(
    judge: &F,
    lines: Seq<Seq<char>>,
    random: Seq<Seq<bool>>,
) -> bool {
    &&& random.len() == lines.len()
    &&& forall|i: int|
        0 <= i < lines.len() ==> entropy::all_answered(
            judge,
            candidates(#[trigger] lines[i]),
            random[i],
        )
}

/// `found` are the findings of `text`, for some answers that `judge` can give on its long tokens.
pub open spec fn scanned<F: Fn(&ByteCounts) -> bool>(
    text: Seq<char>,
    file: Seq<char>,
    injection: bool,
    judge: &F,
    found: Seq<FindingView>,
) -> bool {
    exists|random: Seq<Seq<bool>>| #[trigger]
        lines_answered(judge, text::lines(text), random) && found == text_findings(
            text::lines(text),
            file,
            injection,
            random,
        )
}

/// What holds an anchor word in a part holds one as a whole.
proof fn lemma_anchor_word_in_part(t: Seq<char>, part: Seq<char>)
    requires
        text::contains(t, part),
        has_anchor_word(part),
    ensures
        has_anchor_word(t),
{
    if matching::contains_any(part, rules::anchors()) {
        let i = choose|i: int|
            0 <= i < rules::anchors().len() && text::contains(part, #[trigger] rules::anchors()[i]);
        text::lemma_contains_part(t, part, rules::anchors()[i]);
    } else {
        let i = choose|i: int|
            0 <= i < rules::anchors().len() && text::contains(
                text::folded(part),
                #[trigger] rules::anchors()[i],
            );
        text::lemma_contains_folded(t, part);
        text::lemma_contains_part(text::folded(t), text::folded(part), rules::anchors()[i]);
    }
}

/// A text that holds no anchor word has no line that holds one, so asking the whole text first
/// changes nothing that is found.
pub proof fn law_whole_text_filter_loses_nothing(t: Seq<char>, n: int)
    requires
        0 <= n < text::lines(t).len(),
        !has_anchor_word(t),
    ensures
        !has_anchor_word(text::lines(t)[n]),
        credential_evidence(text::lines(t)[n]).len() == 0,
{
    text::lemma_line_in_text(t, n);
    if has_anchor_word(text::lines(t)[n]) {
        lemma_anchor_word_in_part(t, text::lines(t)[n]);
    }
}

/// The rules and engines of a scan, compiled once.
pub struct Scanner {
    credentials: Vec<Rule>,
    injections: Vec<Rule>,
    anchors: AhoCorasick,
    token: Regex,
    hunk: Regex,
}

impl Scanner {
    /// The rules and words of this crate are compiled, each list whole and in order.
    #[verifier::type_invariant]
    pub closed spec fn ready(self) -> bool {
        &&& rules::compiled_rules(self.credentials@, rules::credential_rules())
        &&& rules::compiled_rules(self.injections@, rules::injection_rules_text())
        &&& matching::literals_of(self.anchors) == Some(rules::anchors())
        &&& matching::compiled_from(self.token) == Some(rules::ENTROPY_TOKEN@)
        &&& matching::compiled_from(self.hunk) == Some(rules::HUNK_START@)
    }

    /// Compiles the rules.
    pub fn new() -> (scanner: Scanner)
        ensures
            scanner.ready(),
    {
        Scanner {
            credentials: rules::rules(),
            injections: rules::injection_rules(),
            anchors: rules::anchor_ac(),
            token: rules::entropy_token(),
            hunk: rules::hunk_start(),
        }
    }

    /// What the credential rules report of `line`.
    fn credential_matches<'a>(&'a self, line: &'a str, anchor: &Anchor) -> (v: Vec<RuleMatch<'a>>)
        requires
            *anchor == anchor_of(line@),
        ensures
            evidence::credential_views(v@) == credential_evidence(line@),
    {
        proof {
            use_type_invariant(self);
        }
        let mut v: Vec<RuleMatch<'a>> = Vec::new();
        let written = match anchor {
            Anchor::Written => true,
            Anchor::Folded => false,
            Anchor::Missing => {
                assert(evidence::credential_views(v@) =~= credential_evidence(line@));
                return v;
            },
        };
        let mut i: usize = 0;
        while i < self.credentials.len()
            invariant
                i <= self.credentials@.len(),
                rules::compiled_rules(self.credentials@, rules::credential_rules()),
                !(anchor_of(line@) is Missing),
                written == (anchor_of(line@) is Written),
                v@.len() == i,
                forall|k: int|
                    0 <= k < i ==> #[trigger] evidence::credential_views(v@)[k] == (
                        rules::credential_rules()[k].name,
                        rule_match(rules::credential_rules()[k], line@),
                    ),
            decreases self.credentials@.len() - i,
        {
            let r = &self.credentials[i];
            assert(r == self.credentials@[i as int]);
            let ghost before = v@;
            let m = if written || r.any_case {
                matching::find(&r.re, line)
            } else {
                None
            };
            v.push(RuleMatch { rule: r.name, matched: m });
            assert forall|k: int| 0 <= k < i + 1 implies #[trigger] evidence::credential_views(v@)[k] == (
                rules::credential_rules()[k].name,
                rule_match(rules::credential_rules()[k], line@),
            ) by {
                if k < i {
                    assert(evidence::credential_views(before)[k] == evidence::credential_views(v@)[k]);
                }
            }
            i = i + 1;
        }
        assert(evidence::credential_views(v@) =~= credential_evidence(line@));
        v
    }

    /// What the injection rules report of `line`.
    fn injection_matches<'a>(&'a self, line: &'a str, injection: bool) -> (v: Vec<PhraseMatch<'a>>)
        ensures
            evidence::injection_views(v@) == injection_evidence(line@, injection),
    {
        proof {
            use_type_invariant(self);
        }
        let mut v: Vec<PhraseMatch<'a>> = Vec::new();
        if injection {
            let mut i: usize = 0;
            while i < self.injections.len()
                invariant
                    i <= self.injections@.len(),
                    rules::compiled_rules(self.injections@, rules::injection_rules_text()),
                    v@.len() == i,
                    forall|k: int|
                        0 <= k < i ==> #[trigger] evidence::injection_views(v@)[k] == (
                            rules::injection_rules_text()[k].name,
                            matching::regex_find(rules::injection_rules_text()[k].pattern, line@)
                                is Some,
                        ),
                decreases self.injections@.len() - i,
            {
                let r = &self.injections[i];
                assert(r == self.injections@[i as int]);
                let ghost before = v@;
                let m = matching::is_match(&r.re, line);
                v.push(PhraseMatch { rule: r.name, matched: m });
                assert forall|k: int| 0 <= k < i + 1 implies #[trigger] evidence::injection_views(v@)[k] == (
                    rules::injection_rules_text()[k].name,
                    matching::regex_find(rules::injection_rules_text()[k].pattern, line@) is Some,
                ) by {
                    if k < i {
                        assert(evidence::injection_views(before)[k] == evidence::injection_views(v@)[k]);
                    }
                }
                i = i + 1;
            }
        }
        assert(evidence::injection_views(v@) =~= injection_evidence(line@, injection));
        v
    }

    /// The long tokens of `line`, each with the answer of `judge`.
    fn tokens<'a, F: Fn(&ByteCounts) -> bool>(&self, line: &'a str, judge: &F) -> (v: Vec<Token<'a>>)
        requires
            entropy::can_judge(judge),
        ensures
            exists|random: Seq<bool>| #[trigger]
                entropy::all_answered(judge, candidates(line@), random) && evidence::token_views(v@)
                    == line_evidence(line@, false, random).tokens,
    {
        proof {
            use_type_invariant(self);
        }
        let found = matching::find_all(&self.token, line);
        let answers = ask_all(judge, &found);
        let mut v: Vec<Token<'a>> = Vec::new();
        let mut i: usize = 0;
        while i < found.len()
            invariant
                i <= found@.len(),
                found@.len() == answers@.len(),
                v@.len() == i,
                forall|k: int|
                    0 <= k < i ==> #[trigger] evidence::token_views(v@)[k] == (found@[k]@, answers@[k]),
            decreases found@.len() - i,
        {
            let ghost before = v@;
            v.push(Token { text: found[i], random: answers[i] });
            assert forall|k: int| 0 <= k < i + 1 implies #[trigger] evidence::token_views(v@)[k] == (
                found@[k]@,
                answers@[k],
            ) by {
                if k < i {
                    assert(evidence::token_views(before)[k] == evidence::token_views(v@)[k]);
                }
            }
            i = i + 1;
        }
        proof {
            assert(evidence::token_views(v@) =~= line_evidence(line@, false, answers@).tokens);
        }
        v
    }

    /// Scans one line, which is numbered `number`. `anchor` tells how an anchor word occurs in it.
    pub(crate) fn scan_line<F: Fn(&ByteCounts) -> bool>(
        &self,
        line: &str,
        number: usize,
        file: &str,
        anchor: &Anchor,
        injection: bool,
        judge: &F,
    ) -> (out: Vec<Finding>)
        requires
            *anchor == anchor_of(line@),
            entropy::can_judge(judge),
        ensures
            exists|random: Seq<bool>| #[trigger]
                entropy::all_answered(judge, candidates(line@), random) && finding::finding_views(
                    out@,
                ) == evidence::line_findings(
                    line_evidence(line@, injection, random),
                    file@,
                    number as nat,
                ),
    {
        let e = LineEvidence {
            line,
            credentials: self.credential_matches(line, anchor),
            tokens: self.tokens(line, judge),
            injections: self.injection_matches(line, injection),
        };
        proof {
            let random = choose|a: Seq<bool>| #[trigger]
                entropy::all_answered(judge, candidates(line@), a) && evidence::token_views(
                    e.tokens@,
                ) == line_evidence(line@, false, a).tokens;
            assert(e@ == line_evidence(line@, injection, random));
        }
        judge_line(&e, file, number)
    }

    /// How an anchor word occurs in `t`.
    pub(crate) fn anchor(&self, t: &str) -> (a: Anchor)
        ensures
            a == anchor_of(t@),
    {
        proof {
            use_type_invariant(self);
        }
        if matching::has_word(&self.anchors, t) {
            Anchor::Written
        } else if matching::has_word(&self.anchors, fold_text(t).as_str()) {
            Anchor::Folded
        } else {
            Anchor::Missing
        }
    }

    /// The first line number in a hunk header, as it is written there.
    pub(crate) fn hunk_number<'h>(&self, header: &'h str) -> (digits: Option<&'h str>)
        ensures
            matching::opt_view(digits) == rules::hunk_digits(header@),
    {
        proof {
            use_type_invariant(self);
        }
        matching::group(&self.hunk, header, 1)
    }

    /// Scans free text with explicit options (`injection` adds the prompt-injection pack).
    /// `judge` answers whether a long token with the given byte counts looks random.
    pub fn scan_text_opts<F: Fn(&ByteCounts) -> bool>(
        &self,
        text: &str,
        file: &str,
        opts: &ScanOpts,
        judge: &F,
    ) -> (out: Vec<Finding>)
        requires
            entropy::can_judge(judge),
        ensures
            scanned(text@, file@, opts.injection, judge, finding::finding_views(out@)),
    {
        let mut out: Vec<Finding> = Vec::new();
        let has_anchor = match self.anchor(text) {
            Anchor::Missing => false,
            _ => true,
        };
        let lines = split_lines(text);
        let ghost all = text::lines(text@);
        let ghost mut random: Seq<Seq<bool>> = seq![];
        let mut i: usize = 0;
        assert(finding::finding_views(out@) =~= text_findings(
            all.take(0),
            file@,
            opts.injection,
            random,
        ));
        while i < lines.len()
            invariant
                i <= lines@.len(),
                entropy::can_judge(judge),
                all == text::lines(text@),
                text::views(lines@) == all,
                has_anchor == has_anchor_word(text@),
                lines_answered(judge, all.take(i as int), random),
                finding::finding_views(out@) == text_findings(
                    all.take(i as int),
                    file@,
                    opts.injection,
                    random,
                ),
            decreases lines@.len() - i,
        {
            let line = lines[i].as_str();
            assert(line@ == all[i as int]) by {
                assert(text::views(lines@)[i as int] == lines@[i as int]@);
            }
            let anchor = if has_anchor {
                self.anchor(line)
            } else {
                Anchor::Missing
            };
            proof {
                if !has_anchor {
                    law_whole_text_filter_loses_nothing(text@, i as int);
                }
            }
            let mut found = self.scan_line(line, i + 1, file, &anchor, opts.injection, judge);
            let ghost answers = choose|a: Seq<bool>| #[trigger]
                entropy::all_answered(judge, candidates(line@), a) && finding::finding_views(found@)
                    == evidence::line_findings(
                    line_evidence(line@, opts.injection, a),
                    file@,
                    (i + 1) as nat,
                );
            proof {
                let before = finding::finding_views(out@);
                let prefix = all.take(i as int);
                let longer = all.take(i + 1);
                let more = random.push(answers);
                assert(longer.drop_last() =~= prefix);
                lemma_text_findings_prefix(prefix, file@, opts.injection, random, more);
                assert(longer.last() == line@);
                assert(more[i as int] == answers);
                assert(text_findings(longer, file@, opts.injection, more) == before
                    + finding::finding_views(found@));
                assert forall|k: int| 0 <= k < longer.len() implies entropy::all_answered(
                    judge,
                    candidates(#[trigger] longer[k]),
                    more[k],
                ) by {
                    if k < i {
                        assert(longer[k] == prefix[k]);
                    }
                }
                random = more;
            }
            let ghost old_out = out@;
            let ghost new_found = found@;
            out.append(&mut found);
            assert(finding::finding_views(out@) =~= finding::finding_views(old_out)
                + finding::finding_views(new_found));
            i = i + 1;
        }
        assert(all.take(i as int) =~= all);
        out
    }
}

/// The findings of the first lines rest on the answers for those lines alone.
pub proof fn lemma_text_findings_prefix(
    lines: Seq<Seq<char>>,
    file: Seq<char>,
    injection: bool,
    a: Seq<Seq<bool>>,
    b: Seq<Seq<bool>>,
)
    requires
        forall|i: int| 0 <= i < lines.len() ==> a[i] == b[i],
    ensures
        text_findings(lines, file, injection, a) == text_findings(lines, file, injection, b),
    decreases lines.len(),
{
    if lines.len() > 0 {
        lemma_text_findings_prefix(lines.drop_last(), file, injection, a, b);
    }
}

/// Scans free text. `file` labels the origin for the finding; `judge` answers whether a long
/// token with the given byte counts looks random.
pub fn scan_text<F: Fn(&ByteCounts) -> bool>(text: &str, file: &str, judge: &F) -> (out: Vec<
    Finding,
>)
    requires
        entropy::can_judge(judge),
    ensures
        scanned(text@, file@, false, judge, finding::finding_views(out@)),
{
    scan_text_opts(text, file, &ScanOpts::default(), judge)
}

/// Scans free text with explicit options (`injection` adds the prompt-injection pack).
pub fn scan_text_opts<F: Fn(&ByteCounts) -> bool>(
    text: &str,
    file: &str,
    opts: &ScanOpts,
    judge: &F,
) -> (out: Vec<Finding>)
    requires
        entropy::can_judge(judge),
    ensures
        scanned(text@, file@, opts.injection, judge, finding::finding_views(out@)),
{
    Scanner::new().scan_text_opts(text, file, opts, judge)
}

} // verus!
