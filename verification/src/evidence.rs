//! What the engines can report of a line, and what is made of it. The functions here take the
//! reports as arguments, so they hold for every report.

use vstd::prelude::*;

use crate::finding;
use crate::finding::{is_placeholder, mask, Finding, FindingView};
use crate::matching;
use crate::text;
use crate::text::{chars_of, trimmed};

verus! {

/// A credential rule that was tried on a line, and what it matched there.
pub struct RuleMatch<'a> {
    pub rule: &'a str,
    pub matched: Option<&'a str>,
}

/// A long token of a line, and the answer on whether it looks random.
pub struct Token<'a> {
    pub text: &'a str,
    pub random: bool,
}

/// An injection rule that was tried on a line, and whether it matched there.
pub struct PhraseMatch<'a> {
    pub rule: &'a str,
    pub matched: bool,
}

/// What was found out about one line.
pub struct LineEvidence<'a> {
    pub line: &'a str,
    pub credentials: Vec<RuleMatch<'a>>,
    pub tokens: Vec<Token<'a>>,
    pub injections: Vec<PhraseMatch<'a>>,
}

/// The evidence about one line as plain text: what each credential rule matched, which tokens
/// look random, which injection rules matched.
pub struct Evidence {
    pub line: Seq<char>,
    pub credentials: Seq<(Seq<char>, Option<Seq<char>>)>,
    pub tokens: Seq<(Seq<char>, bool)>,
    pub injections: Seq<(Seq<char>, bool)>,
}

/// What each credential match of `v` says.
pub open spec fn credential_views(v: Seq<RuleMatch>) -> Seq<(Seq<char>, Option<Seq<char>>)> {
    v.map_values(|m: RuleMatch| (m.rule@, matching::opt_view(m.matched)))
}

/// What each token of `v` says.
pub open spec fn token_views(v: Seq<Token>) -> Seq<(Seq<char>, bool)> {
    v.map_values(|t: Token| (t.text@, t.random))
}

/// What each phrase match of `v` says.
pub open spec fn injection_views(v: Seq<PhraseMatch>) -> Seq<(Seq<char>, bool)> {
    v.map_values(|m: PhraseMatch| (m.rule@, m.matched))
}

impl<'a> View for LineEvidence<'a> {
    type V = Evidence;

    open spec fn view(&self) -> Evidence {
        Evidence {
            line: self.line@,
            credentials: credential_views(self.credentials@),
            tokens: token_views(self.tokens@),
            injections: injection_views(self.injections@),
        }
    }
}

/// What the match of a credential rule is worth: a finding, unless it is a placeholder.
pub open spec fn credential_verdict(
    rule: Seq<char>,
    matched: Option<Seq<char>>,
    file: Seq<char>,
    line: nat,
) -> Option<FindingView> {
    match matched {
        Some(m) => if finding::placeholder(m) {
            None
        } else {
            Some(FindingView { rule, file, line, hint: finding::masked(m) })
        },
        None => None,
    }
}

/// The name under which a random-looking token is reported.
pub open spec fn entropy_rule() -> Seq<char> {
    "high-entropy-token"@
}

/// What a long token is worth: a finding where it looks random and is no placeholder.
pub open spec fn token_verdict(
    token: Seq<char>,
    random: bool,
    file: Seq<char>,
    line: nat,
) -> Option<FindingView> {
    if random && !finding::placeholder(token) {
        Some(FindingView { rule: entropy_rule(), file, line, hint: finding::masked(token) })
    } else {
        None
    }
}

/// What the match of an injection rule is worth: a finding that shows the trimmed line, masked.
pub open spec fn injection_verdict(
    rule: Seq<char>,
    matched: bool,
    text_line: Seq<char>,
    file: Seq<char>,
    line: nat,
) -> Option<FindingView> {
    if matched {
        Some(
            FindingView { rule, file, line, hint: finding::masked(text::trim(text_line)) },
        )
    } else {
        None
    }
}

/// `s` with `f` at its end, where there is one.
pub open spec fn with_next(s: Seq<FindingView>, f: Option<FindingView>) -> Seq<FindingView> {
    match f {
        Some(x) => s.push(x),
        None => s,
    }
}

/// The findings of the credential rules, in the order of the rules.
pub open spec fn credential_findings(
    matches: Seq<(Seq<char>, Option<Seq<char>>)>,
    file: Seq<char>,
    line: nat,
) -> Seq<FindingView>
    decreases matches.len(),
{
    if matches.len() == 0 {
        seq![]
    } else {
        with_next(
            credential_findings(matches.drop_last(), file, line),
            credential_verdict(matches.last().0, matches.last().1, file, line),
        )
    }
}

/// The findings of the entropy check, in the order of the tokens.
pub open spec fn token_findings(
    tokens: Seq<(Seq<char>, bool)>,
    file: Seq<char>,
    line: nat,
) -> Seq<FindingView>
    decreases tokens.len(),
{
    if tokens.len() == 0 {
        seq![]
    } else {
        with_next(
            token_findings(tokens.drop_last(), file, line),
            token_verdict(tokens.last().0, tokens.last().1, file, line),
        )
    }
}

/// The findings of the injection rules, in the order of the rules.
pub open spec fn injection_findings(
    matches: Seq<(Seq<char>, bool)>,
    text_line: Seq<char>,
    file: Seq<char>,
    line: nat,
) -> Seq<FindingView>
    decreases matches.len(),
{
    if matches.len() == 0 {
        seq![]
    } else {
        with_next(
            injection_findings(matches.drop_last(), text_line, file, line),
            injection_verdict(matches.last().0, matches.last().1, text_line, file, line),
        )
    }
}

/// The findings of one line: credentials, then tokens, then injections.
pub open spec fn line_findings(e: Evidence, file: Seq<char>, line: nat) -> Seq<FindingView> {
    credential_findings(e.credentials, file, line) + token_findings(e.tokens, file, line)
        + injection_findings(e.injections, e.line, file, line)
}

/// Weighs what a credential rule matched.
pub fn judge_credential(rule: &str, matched: Option<&str>, file: &str, line: usize) -> (f: Option<
    Finding,
>)
    ensures
        (match f {
            Some(x) => Some(x@),
            None => None,
        }) == credential_verdict(rule@, matching::opt_view(matched), file@, line as nat),
{
    match matched {
        Some(m) => if is_placeholder(m) {
            None
        } else {
            Some(
                Finding { rule: rule.to_owned(), file: file.to_owned(), line, hint: mask(m) },
            )
        },
        None => None,
    }
}

/// Weighs a long token.
pub fn judge_token(token: &str, random: bool, file: &str, line: usize) -> (f: Option<Finding>)
    ensures
        (match f {
            Some(x) => Some(x@),
            None => None,
        }) == token_verdict(token@, random, file@, line as nat),
{
    if random && !is_placeholder(token) {
        Some(
            Finding {
                rule: "high-entropy-token".to_owned(),
                file: file.to_owned(),
                line,
                hint: mask(token),
            },
        )
    } else {
        None
    }
}

/// Weighs what an injection rule said of a line.
pub fn judge_injection(
    rule: &str,
    matched: bool,
    text_line: &str,
    file: &str,
    line: usize,
) -> (f: Option<Finding>)
    ensures
        (match f {
            Some(x) => Some(x@),
            None => None,
        }) == injection_verdict(rule@, matched, text_line@, file@, line as nat),
{
    if matched {
        let cs = chars_of(text_line);
        assert(cs@.subrange(0, cs@.len() as int) =~= cs@);
        let shown = trimmed(&cs, 0, cs.len());
        Some(
            Finding {
                rule: rule.to_owned(),
                file: file.to_owned(),
                line,
                hint: mask(shown.as_str()),
            },
        )
    } else {
        None
    }
}

/// Weighs the evidence about one line.
pub fn judge_line(e: &LineEvidence, file: &str, line: usize) -> (out: Vec<Finding>)
    ensures
        finding::finding_views(out@) == line_findings(e@, file@, line as nat),
{
    let mut out: Vec<Finding> = Vec::new();
    let ghost cs = e@.credentials;
    let ghost ts = e@.tokens;
    let ghost js = e@.injections;
    let mut i: usize = 0;
    assert(finding::finding_views(out@) =~= credential_findings(cs.take(0), file@, line as nat));
    while i < e.credentials.len()
        invariant
            i <= e.credentials@.len(),
            cs == credential_views(e.credentials@),
            finding::finding_views(out@) == credential_findings(
                cs.take(i as int),
                file@,
                line as nat,
            ),
        decreases e.credentials@.len() - i,
    {
        let m = &e.credentials[i];
        let ghost before = finding::finding_views(out@);
        let f = judge_credential(m.rule, m.matched, file, line);
        assert(cs.take(i + 1).drop_last() =~= cs.take(i as int));
        if let Some(x) = f {
            out.push(x);
            assert(finding::finding_views(out@) =~= before.push(x@));
        }
        i = i + 1;
    }
    assert(cs.take(i as int) =~= cs);
    let ghost first = finding::finding_views(out@);
    i = 0;
    assert(first =~= first + token_findings(ts.take(0), file@, line as nat));
    while i < e.tokens.len()
        invariant
            i <= e.tokens@.len(),
            ts == token_views(e.tokens@),
            finding::finding_views(out@) == first + token_findings(
                ts.take(i as int),
                file@,
                line as nat,
            ),
        decreases e.tokens@.len() - i,
    {
        let t = &e.tokens[i];
        let ghost before = finding::finding_views(out@);
        let f = judge_token(t.text, t.random, file, line);
        assert(ts.take(i + 1).drop_last() =~= ts.take(i as int));
        if let Some(x) = f {
            out.push(x);
            assert(finding::finding_views(out@) =~= before.push(x@));
        }
        i = i + 1;
        assert(finding::finding_views(out@) =~= first + token_findings(
            ts.take(i as int),
            file@,
            line as nat,
        ));
    }
    assert(ts.take(i as int) =~= ts);
    let ghost second = finding::finding_views(out@);
    i = 0;
    assert(second =~= second + injection_findings(js.take(0), e.line@, file@, line as nat));
    while i < e.injections.len()
        invariant
            i <= e.injections@.len(),
            js == injection_views(e.injections@),
            finding::finding_views(out@) == second + injection_findings(
                js.take(i as int),
                e.line@,
                file@,
                line as nat,
            ),
        decreases e.injections@.len() - i,
    {
        let m = &e.injections[i];
        let ghost before = finding::finding_views(out@);
        let f = judge_injection(m.rule, m.matched, e.line, file, line);
        assert(js.take(i + 1).drop_last() =~= js.take(i as int));
        if let Some(x) = f {
            out.push(x);
            assert(finding::finding_views(out@) =~= before.push(x@));
        }
        i = i + 1;
        assert(finding::finding_views(out@) =~= second + injection_findings(
            js.take(i as int),
            e.line@,
            file@,
            line as nat,
        ));
    }
    assert(js.take(i as int) =~= js);
    out
}

} // verus!
