//! What holds of every scan of a text.

use vstd::prelude::*;

use crate::entropy;
use crate::entropy::ByteCounts;
use crate::evidence;
use crate::evidence::Evidence;
use crate::finding;
use crate::finding::FindingView;
use crate::matching;
use crate::rules;
use crate::scan;
use crate::text;

verus! {

/// `name` is written as the names of the injection rules are.
pub open spec fn is_injection_rule(name: Seq<char>) -> bool {
    "injection-"@.is_prefix_of(name)
}

/// Finding by finding: not one of the injection pack.
pub open spec fn outside_injection_pack() -> spec_fn(FindingView) -> bool {
    |f: FindingView| !is_injection_rule(f.rule)
}

/// Of the credential rules, `aws-secret-access-key` and `generic-assignment` ignore case, and the
/// others do not. Where an anchor word occurs only with the case of letters folded, those two are
/// tried and the others report nothing.
pub proof fn law_folded_anchors_serve_rules_that_ignore_case(line: Seq<char>, i: int)
    requires
        0 <= i < rules::credential_rules().len(),
        scan::anchor_of(line) is Folded,
    ensures
        ({
            let r = rules::credential_rules()[i];
            scan::credential_evidence(line)[i] == (
                r.name,
                if r.name == "aws-secret-access-key"@ || r.name == "generic-assignment"@ {
                    matching::regex_find(r.pattern, line)
                } else {
                    None
                },
            )
        }),
{
    lemma_which_rules_ignore_case(i);
    law_rule_names_are_distinct();
    assert(rules::credential_rules()[1].name == "aws-secret-access-key"@);
    assert(rules::credential_rules()[20].name == "generic-assignment"@);
}

pub proof fn lemma_which_rules_ignore_case(i: int)
    requires
        0 <= i < rules::credential_rules().len(),
    ensures
        rules::ignores_case(rules::credential_rules()[i].pattern) <==> i == 1 || i == 20,
{
    reveal_strlit("(?i)");
    reveal_strlit(r"\b(?:AKIA|ASIA|AGPA|AIDA|AROA)[0-9A-Z]{16}\b");
    reveal_strlit(r#"(?i)aws_secret[^=]{0,20}=\s*['"]?[A-Za-z0-9/+=]{40}"#);
    reveal_strlit(r"\bgh[pousr]_[A-Za-z0-9]{36,255}\b");
    reveal_strlit(r"\bgithub_pat_[A-Za-z0-9_]{60,}\b");
    reveal_strlit(r"\bglpat-[A-Za-z0-9_\-]{20,}\b");
    reveal_strlit(r"\bxox[baprs]-[A-Za-z0-9-]{10,}\b");
    reveal_strlit(r"https://hooks\.slack\.com/services/T[A-Za-z0-9_/]{40,}");
    reveal_strlit(r"\bAIza[0-9A-Za-z_\-]{35}\b");
    reveal_strlit(r#""type"\s*:\s*"service_account""#);
    reveal_strlit(r"\bsk-(?:proj-)?[A-Za-z0-9_\-]{20,}\b");
    reveal_strlit(r"\bsk-ant-[A-Za-z0-9_\-]{20,}\b");
    reveal_strlit(r"\bhf_[A-Za-z0-9]{34,}\b");
    reveal_strlit(r"\b[rs]k_live_[A-Za-z0-9]{24,}\b");
    reveal_strlit(r"\bSK[0-9a-fA-F]{32}\b");
    reveal_strlit(r"\bSG\.[A-Za-z0-9_\-]{22}\.[A-Za-z0-9_\-]{43}\b");
    reveal_strlit(r"\bnpm_[A-Za-z0-9]{36}\b");
    reveal_strlit(r"\bpypi-AgEIcHlwaS5vcmc[A-Za-z0-9_\-]{50,}\b");
    reveal_strlit(r"\beyJ[A-Za-z0-9_\-]{10,}\.eyJ[A-Za-z0-9_\-]{10,}\.[A-Za-z0-9_\-]{10,}\b");
    reveal_strlit(r"\b(?:postgres(?:ql)?|mysql|mongodb(?:\+srv)?|redis|amqp)://[^\s:/@]+:[^\s:/@]{3,}@[^\s/]+");
    reveal_strlit(r"-----BEGIN (?:RSA |EC |OPENSSH |DSA |PGP )?PRIVATE KEY-----");
    reveal_strlit(r#"(?i)\b(?:api[_-]?key|secret|passwd|password|token|client[_-]?secret|access[_-]?token)\b\s*[:=]\s*['"][^'"\s]{12,}['"]"#);
    let p = rules::credential_rules()[i].pattern;
    text::lemma_prefix("(?i)"@, p);
    if i == 1 || i == 20 {
        assert(p[0] == '(' && p[1] == '?' && p[2] == 'i' && p[3] == ')');
    } else {
        assert(p[0] != "(?i)"@[0]);
    }
}

/// The names of the injection rules begin with `injection-`, and no other rule's name does.
pub proof fn law_injection_names_stand_apart()
    ensures
        forall|i: int|
            0 <= i < rules::injection_rules_text().len() ==> is_injection_rule(
                (#[trigger] rules::injection_rules_text()[i]).name,
            ),
        forall|i: int|
            0 <= i < rules::credential_rules().len() ==> !is_injection_rule(
                (#[trigger] rules::credential_rules()[i]).name,
            ),
        !is_injection_rule(evidence::entropy_rule()),
{
    reveal_strlit("injection-");
    reveal_strlit("injection-override");
    reveal_strlit("injection-role");
    reveal_strlit("injection-exfil");
    reveal_strlit("injection-tooluse");
    reveal_strlit("injection-fence");
    reveal_strlit("aws-access-key-id");
    reveal_strlit("aws-secret-access-key");
    reveal_strlit("github-token");
    reveal_strlit("github-pat-fine");
    reveal_strlit("gitlab-pat");
    reveal_strlit("slack-token");
    reveal_strlit("slack-webhook");
    reveal_strlit("google-api-key");
    reveal_strlit("gcp-sa-key");
    reveal_strlit("openai-key");
    reveal_strlit("anthropic-key");
    reveal_strlit("huggingface-token");
    reveal_strlit("stripe-secret-key");
    reveal_strlit("twilio-key");
    reveal_strlit("sendgrid-key");
    reveal_strlit("npm-token");
    reveal_strlit("pypi-token");
    reveal_strlit("jwt");
    reveal_strlit("db-connection-uri");
    reveal_strlit("private-key-block");
    reveal_strlit("generic-assignment");
    reveal_strlit("high-entropy-token");
    assert forall|i: int| 0 <= i < rules::injection_rules_text().len() implies is_injection_rule(
        (#[trigger] rules::injection_rules_text()[i]).name,
    ) by {
        text::lemma_prefix("injection-"@, rules::injection_rules_text()[i].name);
    }
    assert forall|i: int| 0 <= i < rules::credential_rules().len() implies !is_injection_rule(
        (#[trigger] rules::credential_rules()[i]).name,
    ) by {
        text::lemma_prefix("injection-"@, rules::credential_rules()[i].name);
        assert(rules::credential_rules()[i].name[0] != "injection-"@[0]);
    }
    text::lemma_prefix("injection-"@, evidence::entropy_rule());
    assert(evidence::entropy_rule()[0] != "injection-"@[0]);
}

/// No two credential rules have one name, and no two injection rules do.
pub proof fn law_rule_names_are_distinct()
    ensures
        forall|i: int, j: int|
            0 <= i < j < rules::credential_rules().len() ==> (#[trigger] rules::credential_rules()[i]).name
                != (#[trigger] rules::credential_rules()[j]).name,
        forall|i: int, j: int|
            0 <= i < j < rules::injection_rules_text().len() ==> (
            #[trigger] rules::injection_rules_text()[i]).name != (
            #[trigger] rules::injection_rules_text()[j]).name,
{
    reveal_strlit("aws-access-key-id");
    reveal_strlit("aws-secret-access-key");
    reveal_strlit("github-token");
    reveal_strlit("github-pat-fine");
    reveal_strlit("gitlab-pat");
    reveal_strlit("slack-token");
    reveal_strlit("slack-webhook");
    reveal_strlit("google-api-key");
    reveal_strlit("gcp-sa-key");
    reveal_strlit("openai-key");
    reveal_strlit("anthropic-key");
    reveal_strlit("huggingface-token");
    reveal_strlit("stripe-secret-key");
    reveal_strlit("twilio-key");
    reveal_strlit("sendgrid-key");
    reveal_strlit("npm-token");
    reveal_strlit("pypi-token");
    reveal_strlit("jwt");
    reveal_strlit("db-connection-uri");
    reveal_strlit("private-key-block");
    reveal_strlit("generic-assignment");
    reveal_strlit("injection-override");
    reveal_strlit("injection-role");
    reveal_strlit("injection-exfil");
    reveal_strlit("injection-tooluse");
    reveal_strlit("injection-fence");
    assert forall|i: int, j: int| 0 <= i < j < rules::credential_rules().len() implies (
    #[trigger] rules::credential_rules()[i]).name != (#[trigger] rules::credential_rules()[j]).name by {
        let a = rules::credential_rules()[i].name;
        let b = rules::credential_rules()[j].name;
        assert(a.len() != b.len() || a[0] != b[0] || a[1] != b[1]);
    }
    assert forall|i: int, j: int| 0 <= i < j < rules::injection_rules_text().len() implies (
    #[trigger] rules::injection_rules_text()[i]).name != (
    #[trigger] rules::injection_rules_text()[j]).name by {
        let a = rules::injection_rules_text()[i].name;
        let b = rules::injection_rules_text()[j].name;
        assert(a.len() != b.len() || a[10] != b[10]);
    }
}

/// The findings among `verdicts`, in order.
pub open spec fn reported(verdicts: Seq<Option<FindingView>>) -> Seq<FindingView>
    decreases verdicts.len(),
{
    if verdicts.len() == 0 {
        seq![]
    } else {
        evidence::with_next(reported(verdicts.drop_last()), verdicts.last())
    }
}

/// What each match of a credential rule is worth.
pub open spec fn credential_verdicts(
    m: Seq<(Seq<char>, Option<Seq<char>>)>,
    file: Seq<char>,
    line: nat,
) -> Seq<Option<FindingView>> {
    Seq::new(m.len(), |i: int| evidence::credential_verdict(m[i].0, m[i].1, file, line))
}

/// What each long token is worth.
pub open spec fn token_verdicts(m: Seq<(Seq<char>, bool)>, file: Seq<char>, line: nat) -> Seq<
    Option<FindingView>,
> {
    Seq::new(m.len(), |i: int| evidence::token_verdict(m[i].0, m[i].1, file, line))
}

/// What each match of an injection rule is worth.
pub open spec fn injection_verdicts(
    m: Seq<(Seq<char>, bool)>,
    text_line: Seq<char>,
    file: Seq<char>,
    line: nat,
) -> Seq<Option<FindingView>> {
    Seq::new(m.len(), |i: int| evidence::injection_verdict(m[i].0, m[i].1, text_line, file, line))
}

pub proof fn lemma_credentials_reported(
    m: Seq<(Seq<char>, Option<Seq<char>>)>,
    file: Seq<char>,
    line: nat,
)
    ensures
        evidence::credential_findings(m, file, line) == reported(credential_verdicts(m, file, line)),
    decreases m.len(),
{
    if m.len() > 0 {
        lemma_credentials_reported(m.drop_last(), file, line);
        assert(credential_verdicts(m, file, line).drop_last() =~= credential_verdicts(
            m.drop_last(),
            file,
            line,
        ));
    }
}

pub proof fn lemma_tokens_reported(m: Seq<(Seq<char>, bool)>, file: Seq<char>, line: nat)
    ensures
        evidence::token_findings(m, file, line) == reported(token_verdicts(m, file, line)),
    decreases m.len(),
{
    if m.len() > 0 {
        lemma_tokens_reported(m.drop_last(), file, line);
        assert(token_verdicts(m, file, line).drop_last() =~= token_verdicts(
            m.drop_last(),
            file,
            line,
        ));
    }
}

pub proof fn lemma_injections_reported(
    m: Seq<(Seq<char>, bool)>,
    text_line: Seq<char>,
    file: Seq<char>,
    line: nat,
)
    ensures
        evidence::injection_findings(m, text_line, file, line) == reported(
            injection_verdicts(m, text_line, file, line),
        ),
    decreases m.len(),
{
    if m.len() > 0 {
        lemma_injections_reported(m.drop_last(), text_line, file, line);
        assert(injection_verdicts(m, text_line, file, line).drop_last() =~= injection_verdicts(
            m.drop_last(),
            text_line,
            file,
            line,
        ));
    }
}

/// Taking the injection pack out of what is reported leaves it as it is where no verdict is one
/// of the pack, and leaves nothing where all are.
proof fn lemma_filter_reported(verdicts: Seq<Option<FindingView>>, of_pack: bool)
    requires
        forall|i: int|
            0 <= i < verdicts.len() && (#[trigger] verdicts[i]) is Some ==> is_injection_rule(
                verdicts[i]->0.rule,
            ) == of_pack,
    ensures
        reported(verdicts).filter(outside_injection_pack()) == if of_pack {
            seq![]
        } else {
            reported(verdicts)
        },
    decreases verdicts.len(),
{
    reveal(Seq::filter);
    if verdicts.len() > 0 {
        let init = verdicts.drop_last();
        let last = verdicts.last();
        assert forall|i: int| 0 <= i < init.len() && (#[trigger] init[i]) is Some implies is_injection_rule(
            init[i]->0.rule,
        ) == of_pack by {
            assert(init[i] == verdicts[i]);
        }
        lemma_filter_reported(init, of_pack);
        assert(last == verdicts[verdicts.len() - 1]);
        if let Some(x) = last {
            assert(reported(init).push(x).drop_last() =~= reported(init));
        }
    }
}

/// The injection pack is opt-in and changes nothing else: without it, a scan reports what it
/// reports with it, less the findings of the pack.
pub proof fn law_injection_pack_is_opt_in(
    lines: Seq<Seq<char>>,
    file: Seq<char>,
    random: Seq<Seq<bool>>,
)
    ensures
        scan::text_findings(lines, file, false, random) == scan::text_findings(
            lines,
            file,
            true,
            random,
        ).filter(outside_injection_pack()),
    decreases lines.len(),
{
    let pred = outside_injection_pack();
    if lines.len() == 0 {
        reveal(Seq::filter);
    } else {
        let init = lines.drop_last();
        let line = lines.last();
        let n = lines.len();
        let answers = random[n - 1];
        law_injection_pack_is_opt_in(init, file, random);
        law_injection_names_stand_apart();
        let without = scan::line_evidence(line, false, answers);
        let with = scan::line_evidence(line, true, answers);
        let c = evidence::credential_findings(with.credentials, file, n);
        let t = evidence::token_findings(with.tokens, file, n);
        let j = evidence::injection_findings(with.injections, line, file, n);
        assert(without.tokens =~= with.tokens);
        lemma_credentials_reported(with.credentials, file, n);
        lemma_tokens_reported(with.tokens, file, n);
        lemma_injections_reported(with.injections, line, file, n);
        lemma_filter_reported(credential_verdicts(with.credentials, file, n), false);
        lemma_filter_reported(token_verdicts(with.tokens, file, n), false);
        assert forall|i: int| 0 <= i < with.injections.len() implies is_injection_rule(
            (#[trigger] with.injections[i]).0,
        ) by {
            assert(rules::injection_rules_text()[i].name == with.injections[i].0);
        }
        lemma_filter_reported(injection_verdicts(with.injections, line, file, n), true);
        Seq::filter_distributes_over_add(c, t, pred);
        Seq::filter_distributes_over_add(c + t, j, pred);
        Seq::filter_distributes_over_add(scan::text_findings(init, file, true, random), c + t + j, pred);
        assert(evidence::line_findings(without, file, n) =~= c + t);
        assert(evidence::line_findings(with, file, n).filter(pred) =~= c + t);
    }
}

/// Some rule or token of the evidence is worth exactly the finding `f`.
pub open spec fn backed(f: FindingView, e: Evidence, file: Seq<char>, line: nat) -> bool {
    ||| exists|i: int|
        0 <= i < e.credentials.len() && evidence::credential_verdict(
            (#[trigger] e.credentials[i]).0,
            e.credentials[i].1,
            file,
            line,
        ) == Some(f)
    ||| exists|i: int|
        0 <= i < e.tokens.len() && evidence::token_verdict(
            (#[trigger] e.tokens[i]).0,
            e.tokens[i].1,
            file,
            line,
        ) == Some(f)
    ||| exists|i: int|
        0 <= i < e.injections.len() && evidence::injection_verdict(
            (#[trigger] e.injections[i]).0,
            e.injections[i].1,
            e.line,
            file,
            line,
        ) == Some(f)
}

proof fn lemma_with_next_contains(s: Seq<FindingView>, x: Option<FindingView>, f: FindingView)
    ensures
        evidence::with_next(s, x).contains(f) <==> s.contains(f) || x == Some(f),
{
    if let Some(y) = x {
        if s.contains(f) {
            let i = choose|i: int| 0 <= i < s.len() && s[i] == f;
            assert(s.push(y)[i] == f);
        }
        if y == f {
            assert(s.push(y)[s.len() as int] == f);
        }
        if s.push(y).contains(f) && y != f {
            let i = choose|i: int| 0 <= i < s.push(y).len() && s.push(y)[i] == f;
            assert(s[i] == f);
        }
    }
}

pub proof fn lemma_concat_contains(a: Seq<FindingView>, b: Seq<FindingView>, f: FindingView)
    ensures
        (a + b).contains(f) <==> a.contains(f) || b.contains(f),
{
    if a.contains(f) {
        let i = choose|i: int| 0 <= i < a.len() && a[i] == f;
        assert((a + b)[i] == f);
    }
    if b.contains(f) {
        let i = choose|i: int| 0 <= i < b.len() && b[i] == f;
        assert((a + b)[a.len() + i] == f);
    }
    if (a + b).contains(f) {
        let i = choose|i: int| 0 <= i < (a + b).len() && (a + b)[i] == f;
        if i < a.len() {
            assert(a[i] == f);
        } else {
            assert(b[i - a.len()] == f);
        }
    }
}

/// A finding is reported exactly where it is one of the verdicts.
proof fn lemma_reported_contains(verdicts: Seq<Option<FindingView>>, f: FindingView)
    ensures
        reported(verdicts).contains(f) <==> exists|i: int|
            0 <= i < verdicts.len() && #[trigger] verdicts[i] == Some(f),
    decreases verdicts.len(),
{
    if verdicts.len() > 0 {
        let init = verdicts.drop_last();
        let n = verdicts.len() - 1;
        lemma_reported_contains(init, f);
        lemma_with_next_contains(reported(init), verdicts.last(), f);
        assert(verdicts.last() == verdicts[n]);
        if reported(init).contains(f) {
            let i = choose|i: int| 0 <= i < init.len() && #[trigger] init[i] == Some(f);
            assert(verdicts[i] == Some(f));
        }
        if exists|i: int| 0 <= i < verdicts.len() && #[trigger] verdicts[i] == Some(f) {
            let i = choose|i: int| 0 <= i < verdicts.len() && #[trigger] verdicts[i] == Some(f);
            if i < n {
                assert(init[i] == Some(f));
            }
        }
    }
}

/// A line has exactly the findings that its evidence backs.
pub proof fn law_line_reports_what_is_backed(
    e: Evidence,
    file: Seq<char>,
    line: nat,
    f: FindingView,
)
    ensures
        evidence::line_findings(e, file, line).contains(f) <==> backed(f, e, file, line),
{
    let c = evidence::credential_findings(e.credentials, file, line);
    let t = evidence::token_findings(e.tokens, file, line);
    let j = evidence::injection_findings(e.injections, e.line, file, line);
    let cv = credential_verdicts(e.credentials, file, line);
    let tv = token_verdicts(e.tokens, file, line);
    let jv = injection_verdicts(e.injections, e.line, file, line);
    lemma_credentials_reported(e.credentials, file, line);
    lemma_tokens_reported(e.tokens, file, line);
    lemma_injections_reported(e.injections, e.line, file, line);
    lemma_reported_contains(cv, f);
    lemma_reported_contains(tv, f);
    lemma_reported_contains(jv, f);
    lemma_concat_contains(c, t, f);
    lemma_concat_contains(c + t, j, f);
    assert forall|i: int| 0 <= i < e.credentials.len() implies cv[i]
        == evidence::credential_verdict(
        (#[trigger] e.credentials[i]).0,
        e.credentials[i].1,
        file,
        line,
    ) by {
    }
    assert forall|i: int| 0 <= i < e.tokens.len() implies tv[i] == evidence::token_verdict(
        (#[trigger] e.tokens[i]).0,
        e.tokens[i].1,
        file,
        line,
    ) by {
    }
    assert forall|i: int| 0 <= i < e.injections.len() implies jv[i] == evidence::injection_verdict(
        (#[trigger] e.injections[i]).0,
        e.injections[i].1,
        e.line,
        file,
        line,
    ) by {
    }
}

/// A text has exactly the findings that the evidence about its lines backs: none is made up, and
/// none is lost.
pub proof fn law_text_reports_what_is_backed(
    lines: Seq<Seq<char>>,
    file: Seq<char>,
    injection: bool,
    random: Seq<Seq<bool>>,
    f: FindingView,
)
    ensures
        scan::text_findings(lines, file, injection, random).contains(f) <==> exists|n: int|
            0 <= n < lines.len() && backed(
                f,
                scan::line_evidence(#[trigger] lines[n], injection, random[n]),
                file,
                (n + 1) as nat,
            ),
    decreases lines.len(),
{
    if lines.len() > 0 {
        let init = lines.drop_last();
        let a = scan::text_findings(init, file, injection, random);
        let e = scan::line_evidence(lines.last(), injection, random[lines.len() - 1]);
        let b = evidence::line_findings(e, file, lines.len());
        law_text_reports_what_is_backed(init, file, injection, random, f);
        law_line_reports_what_is_backed(e, file, lines.len(), f);
        lemma_concat_contains(a, b, f);
        if a.contains(f) {
            let n = choose|n: int|
                0 <= n < init.len() && backed(
                    f,
                    scan::line_evidence(#[trigger] init[n], injection, random[n]),
                    file,
                    (n + 1) as nat,
                );
            assert(lines[n] == init[n]);
        }
        if b.contains(f) {
            let n = lines.len() - 1;
            assert(backed(f, scan::line_evidence(lines[n], injection, random[n]), file, (n + 1) as nat));
        }
        if exists|n: int|
            0 <= n < lines.len() && backed(
                f,
                scan::line_evidence(#[trigger] lines[n], injection, random[n]),
                file,
                (n + 1) as nat,
            ) {
            let n = choose|n: int|
                0 <= n < lines.len() && backed(
                    f,
                    scan::line_evidence(#[trigger] lines[n], injection, random[n]),
                    file,
                    (n + 1) as nat,
                );
            if n < init.len() {
                assert(init[n] == lines[n]);
            }
        }
    }
}

/// Every finding carries the label of the scanned text, and the number of one of its lines.
pub proof fn law_findings_are_located(
    lines: Seq<Seq<char>>,
    file: Seq<char>,
    injection: bool,
    random: Seq<Seq<bool>>,
    f: FindingView,
)
    requires
        scan::text_findings(lines, file, injection, random).contains(f),
    ensures
        f.file == file,
        1 <= f.line <= lines.len(),
{
    law_text_reports_what_is_backed(lines, file, injection, random, f);
}

/// The allow-list is applied to the matched text, never to the line: lines with the same matches
/// and the same tokens have the same findings, whatever else they hold.
pub proof fn law_only_matched_text_counts(d: Evidence, e: Evidence, file: Seq<char>, line: nat)
    requires
        d.credentials == e.credentials,
        d.tokens == e.tokens,
        d.injections.len() == 0,
        e.injections.len() == 0,
    ensures
        evidence::line_findings(d, file, line) == evidence::line_findings(e, file, line),
{
}

/// A judge that never contradicts itself leaves only one possible outcome of a scan.
pub proof fn law_scan_is_determined<F: Fn(&ByteCounts) -> bool>(
    text: Seq<char>,
    file: Seq<char>,
    injection: bool,
    judge: &F,
    a: Seq<FindingView>,
    b: Seq<FindingView>,
)
    requires
        entropy::consistent(judge),
        scan::scanned(text, file, injection, judge, a),
        scan::scanned(text, file, injection, judge, b),
    ensures
        a == b,
{
    let lines = text::lines(text);
    let r = choose|r: Seq<Seq<bool>>| #[trigger]
        scan::lines_answered(judge, lines, r) && a == scan::text_findings(lines, file, injection, r);
    let s = choose|s: Seq<Seq<bool>>| #[trigger]
        scan::lines_answered(judge, lines, s) && b == scan::text_findings(lines, file, injection, s);
    assert forall|i: int| 0 <= i < lines.len() implies r[i] == s[i] by {
        entropy::lemma_answers_agree(judge, scan::candidates(lines[i]), r[i], s[i]);
    }
    scan::lemma_text_findings_prefix(lines, file, injection, r, s);
}

/// An empty line has no findings.
pub proof fn law_empty_line_has_no_findings(random: Seq<bool>, file: Seq<char>, line: nat)
    ensures
        evidence::line_findings(scan::line_evidence(seq![], false, random), file, line) == Seq::<
            FindingView,
        >::empty(),
{
    reveal_strlit("AKIA");
    reveal_strlit("ASIA");
    reveal_strlit("AGPA");
    reveal_strlit("AIDA");
    reveal_strlit("AROA");
    reveal_strlit("ghp_");
    reveal_strlit("gho_");
    reveal_strlit("ghu_");
    reveal_strlit("ghs_");
    reveal_strlit("ghr_");
    reveal_strlit("github_pat_");
    reveal_strlit("glpat-");
    reveal_strlit("xox");
    reveal_strlit("hooks.slack.com");
    reveal_strlit("AIza");
    reveal_strlit("service_account");
    reveal_strlit("sk-");
    reveal_strlit("hf_");
    reveal_strlit("k_live_");
    reveal_strlit("SG.");
    reveal_strlit("npm_");
    reveal_strlit("pypi-");
    reveal_strlit("eyJ");
    reveal_strlit("://");
    reveal_strlit("PRIVATE KEY");
    reveal_strlit("key");
    reveal_strlit("secret");
    reveal_strlit("passwd");
    reveal_strlit("password");
    reveal_strlit("token");
    let nothing = Seq::<char>::empty();
    assert(text::folded(nothing) =~= nothing);
    assert(!scan::has_anchor_word(nothing)) by {
        assert forall|i: int| 0 <= i < rules::anchors().len() implies !text::contains(
            nothing,
            #[trigger] rules::anchors()[i],
        ) by {
            assert(rules::anchors()[i].len() > 0);
        }
    }
    let e = scan::line_evidence(nothing, false, random);
    assert(e.tokens.len() == 0);
    assert(evidence::line_findings(e, file, line) =~= seq![]);
}

/// `fs` with `number` applied to their line numbers.
pub open spec fn renumbered(fs: Seq<FindingView>, number: spec_fn(nat) -> nat) -> Seq<FindingView> {
    fs.map_values(|f: FindingView| FindingView { line: number(f.line), ..f })
}

/// `v` with `number` applied to its line number, where it is a finding.
spec fn renumbered_verdict(v: Option<FindingView>, number: spec_fn(nat) -> nat) -> Option<
    FindingView,
> {
    match v {
        Some(x) => Some(FindingView { line: number(x.line), ..x }),
        None => None,
    }
}

/// To renumber what is reported is to report the renumbered verdicts.
proof fn lemma_renumber_reported(
    v: Seq<Option<FindingView>>,
    w: Seq<Option<FindingView>>,
    number: spec_fn(nat) -> nat,
)
    requires
        v.len() == w.len(),
        forall|i: int| 0 <= i < v.len() ==> #[trigger] w[i] == renumbered_verdict(v[i], number),
    ensures
        renumbered(reported(v), number) == reported(w),
    decreases v.len(),
{
    if v.len() > 0 {
        lemma_renumber_reported(v.drop_last(), w.drop_last(), number);
        assert(w[w.len() - 1] == renumbered_verdict(v.last(), number));
    }
    assert(renumbered(reported(v), number) =~= reported(w));
}

proof fn lemma_renumber_concat(
    a: Seq<FindingView>,
    b: Seq<FindingView>,
    number: spec_fn(nat) -> nat,
)
    ensures
        renumbered(a + b, number) == renumbered(a, number) + renumbered(b, number),
{
    assert(renumbered(a + b, number) =~= renumbered(a, number) + renumbered(b, number));
}

/// The number of a line goes into its findings and nowhere else.
pub proof fn lemma_renumber_line(
    e: Evidence,
    file: Seq<char>,
    line: nat,
    number: spec_fn(nat) -> nat,
)
    ensures
        renumbered(evidence::line_findings(e, file, line), number) == evidence::line_findings(
            e,
            file,
            number(line),
        ),
{
    let c = evidence::credential_findings(e.credentials, file, line);
    let t = evidence::token_findings(e.tokens, file, line);
    let j = evidence::injection_findings(e.injections, e.line, file, line);
    let there = number(line);
    lemma_credentials_reported(e.credentials, file, line);
    lemma_tokens_reported(e.tokens, file, line);
    lemma_injections_reported(e.injections, e.line, file, line);
    lemma_credentials_reported(e.credentials, file, there);
    lemma_tokens_reported(e.tokens, file, there);
    lemma_injections_reported(e.injections, e.line, file, there);
    lemma_renumber_reported(
        credential_verdicts(e.credentials, file, line),
        credential_verdicts(e.credentials, file, there),
        number,
    );
    lemma_renumber_reported(
        token_verdicts(e.tokens, file, line),
        token_verdicts(e.tokens, file, there),
        number,
    );
    lemma_renumber_reported(
        injection_verdicts(e.injections, e.line, file, line),
        injection_verdicts(e.injections, e.line, file, there),
        number,
    );
    lemma_renumber_concat(c, t, number);
    lemma_renumber_concat(c + t, j, number);
}

/// Lines are scanned independently: the findings of two runs of lines, one after the other, are
/// those of the first, then those of the second with their line numbers moved down.
pub proof fn law_lines_are_scanned_independently(
    a: Seq<Seq<char>>,
    b: Seq<Seq<char>>,
    file: Seq<char>,
    injection: bool,
    ra: Seq<Seq<bool>>,
    rb: Seq<Seq<bool>>,
)
    requires
        ra.len() == a.len(),
        rb.len() == b.len(),
    ensures
        scan::text_findings(a + b, file, injection, ra + rb) == scan::text_findings(
            a,
            file,
            injection,
            ra,
        ) + renumbered(scan::text_findings(b, file, injection, rb), |l: nat| l + a.len()),
    decreases b.len(),
{
    let down = |l: nat| l + a.len();
    let fa = scan::text_findings(a, file, injection, ra);
    if b.len() == 0 {
        assert(a + b =~= a);
        assert(ra + rb =~= ra);
        assert(fa + renumbered(scan::text_findings(b, file, injection, rb), down) =~= fa);
    } else {
        let b0 = b.drop_last();
        let rb0 = rb.drop_last();
        law_lines_are_scanned_independently(a, b0, file, injection, ra, rb0);
        assert((a + b).drop_last() =~= a + b0);
        scan::lemma_text_findings_prefix(a + b0, file, injection, ra + rb, ra + rb0);
        scan::lemma_text_findings_prefix(b0, file, injection, rb, rb0);
        let e = scan::line_evidence(b.last(), injection, rb.last());
        assert((a + b).last() == b.last());
        assert((ra + rb)[(a + b).len() - 1] == rb.last());
        let fb0 = scan::text_findings(b0, file, injection, rb0);
        let last = evidence::line_findings(e, file, b.len());
        lemma_renumber_line(e, file, b.len(), down);
        lemma_renumber_concat(fb0, last, down);
        assert(fa + (renumbered(fb0, down) + renumbered(last, down)) =~= fa + renumbered(
            fb0,
            down,
        ) + renumbered(last, down));
    }
}

/// A finding never shows what it was made from: whether a credential match, a token or the
/// trimmed line of an injection, the text does not occur in the hint. The exceptions are texts
/// of at most three characters that are nothing but stars.
pub proof fn law_hints_hide_what_was_found(
    rule: Seq<char>,
    found: Seq<char>,
    text_line: Seq<char>,
    file: Seq<char>,
    line: nat,
    f: FindingView,
)
    requires
        found.len() > 3 || exists|i: int| 0 <= i < found.len() && found[i] != '*',
        evidence::credential_verdict(rule, Some(found), file, line) == Some(f)
            || evidence::token_verdict(found, true, file, line) == Some(f) || (
        evidence::injection_verdict(rule, true, text_line, file, line) == Some(f) && found
            == text::trim(text_line)),
    ensures
        !text::contains(f.hint, found),
{
    finding::law_mask_hides(found);
}

} // verus!
