//! What is looked for, written out: the rules, the anchor words and the shapes.

use vstd::prelude::*;
use aho_corasick::AhoCorasick;
use regex::Regex;

use crate::matching;
use crate::plain;
use crate::rules;
use crate::rules::Rule;
use crate::scan_laws;
use crate::text;

verus! {

/// The rule `r` goes by `name` and looks for `pattern`.
pub open spec fn looks_for(r: Rule, name: Seq<char>, pattern: Seq<char>) -> bool {
    r.name@ == name && matching::compiled_from(r.re) == Some(pattern)
}

/// The credential rules, one by one. Two of them ignore case.
pub proof fn law_credential_rules(v: Vec<Rule>)
    requires
        call_ensures(rules::rules, (), v),
    ensures
        v@.len() == 21,
        looks_for(v@[0], "aws-access-key-id"@, r"\b(?:AKIA|ASIA|AGPA|AIDA|AROA)[0-9A-Z]{16}\b"@),
        looks_for(v@[1], "aws-secret-access-key"@, r#"(?i)aws_secret[^=]{0,20}=\s*['"]?[A-Za-z0-9/+=]{40}"#@),
        looks_for(v@[2], "github-token"@, r"\bgh[pousr]_[A-Za-z0-9]{36,255}\b"@),
        looks_for(v@[3], "github-pat-fine"@, r"\bgithub_pat_[A-Za-z0-9_]{60,}\b"@),
        looks_for(v@[4], "gitlab-pat"@, r"\bglpat-[A-Za-z0-9_\-]{20,}\b"@),
        looks_for(v@[5], "slack-token"@, r"\bxox[baprs]-[A-Za-z0-9-]{10,}\b"@),
        looks_for(v@[6], "slack-webhook"@, r"https://hooks\.slack\.com/services/T[A-Za-z0-9_/]{40,}"@),
        looks_for(v@[7], "google-api-key"@, r"\bAIza[0-9A-Za-z_\-]{35}\b"@),
        looks_for(v@[8], "gcp-sa-key"@, r#""type"\s*:\s*"service_account""#@),
        looks_for(v@[9], "openai-key"@, r"\bsk-(?:proj-)?[A-Za-z0-9_\-]{20,}\b"@),
        looks_for(v@[10], "anthropic-key"@, r"\bsk-ant-[A-Za-z0-9_\-]{20,}\b"@),
        looks_for(v@[11], "huggingface-token"@, r"\bhf_[A-Za-z0-9]{34,}\b"@),
        looks_for(v@[12], "stripe-secret-key"@, r"\b[rs]k_live_[A-Za-z0-9]{24,}\b"@),
        looks_for(v@[13], "twilio-key"@, r"\bSK[0-9a-fA-F]{32}\b"@),
        looks_for(v@[14], "sendgrid-key"@, r"\bSG\.[A-Za-z0-9_\-]{22}\.[A-Za-z0-9_\-]{43}\b"@),
        looks_for(v@[15], "npm-token"@, r"\bnpm_[A-Za-z0-9]{36}\b"@),
        looks_for(v@[16], "pypi-token"@, r"\bpypi-AgEIcHlwaS5vcmc[A-Za-z0-9_\-]{50,}\b"@),
        looks_for(v@[17], "jwt"@, r"\beyJ[A-Za-z0-9_\-]{10,}\.eyJ[A-Za-z0-9_\-]{10,}\.[A-Za-z0-9_\-]{10,}\b"@),
        looks_for(v@[18], "db-connection-uri"@, r"\b(?:postgres(?:ql)?|mysql|mongodb(?:\+srv)?|redis|amqp)://[^\s:/@]+:[^\s:/@]{3,}@[^\s/]+"@),
        looks_for(v@[19], "private-key-block"@, r"-----BEGIN (?:RSA |EC |OPENSSH |DSA |PGP )?PRIVATE KEY-----"@),
        looks_for(v@[20], "generic-assignment"@, r#"(?i)\b(?:api[_-]?key|secret|passwd|password|token|client[_-]?secret|access[_-]?token)\b\s*[:=]\s*['"][^'"\s]{12,}['"]"#@),
        forall|i: int| 0 <= i < 21 ==> (#[trigger] v@[i]).any_case == (i == 1 || i == 20),
{
    assert(v@[0].name@ == rules::credential_rules()[0].name);
    assert(v@[1].name@ == rules::credential_rules()[1].name);
    assert(v@[2].name@ == rules::credential_rules()[2].name);
    assert(v@[3].name@ == rules::credential_rules()[3].name);
    assert(v@[4].name@ == rules::credential_rules()[4].name);
    assert(v@[5].name@ == rules::credential_rules()[5].name);
    assert(v@[6].name@ == rules::credential_rules()[6].name);
    assert(v@[7].name@ == rules::credential_rules()[7].name);
    assert(v@[8].name@ == rules::credential_rules()[8].name);
    assert(v@[9].name@ == rules::credential_rules()[9].name);
    assert(v@[10].name@ == rules::credential_rules()[10].name);
    assert(v@[11].name@ == rules::credential_rules()[11].name);
    assert(v@[12].name@ == rules::credential_rules()[12].name);
    assert(v@[13].name@ == rules::credential_rules()[13].name);
    assert(v@[14].name@ == rules::credential_rules()[14].name);
    assert(v@[15].name@ == rules::credential_rules()[15].name);
    assert(v@[16].name@ == rules::credential_rules()[16].name);
    assert(v@[17].name@ == rules::credential_rules()[17].name);
    assert(v@[18].name@ == rules::credential_rules()[18].name);
    assert(v@[19].name@ == rules::credential_rules()[19].name);
    assert(v@[20].name@ == rules::credential_rules()[20].name);
    assert forall|i: int| 0 <= i < 21 implies (#[trigger] v@[i]).any_case == (i == 1 || i
        == 20) by {
        scan_laws::lemma_which_rules_ignore_case(i);
    }
}

/// The table of credential rules holds these names and patterns.
pub proof fn law_credential_table()
    ensures
        rules::credential_rules().len() == 21,
        rules::credential_rules()[0] == rules::rule_text("aws-access-key-id"@, r"\b(?:AKIA|ASIA|AGPA|AIDA|AROA)[0-9A-Z]{16}\b"@),
        rules::credential_rules()[1] == rules::rule_text("aws-secret-access-key"@, r#"(?i)aws_secret[^=]{0,20}=\s*['"]?[A-Za-z0-9/+=]{40}"#@),
        rules::credential_rules()[2] == rules::rule_text("github-token"@, r"\bgh[pousr]_[A-Za-z0-9]{36,255}\b"@),
        rules::credential_rules()[3] == rules::rule_text("github-pat-fine"@, r"\bgithub_pat_[A-Za-z0-9_]{60,}\b"@),
        rules::credential_rules()[4] == rules::rule_text("gitlab-pat"@, r"\bglpat-[A-Za-z0-9_\-]{20,}\b"@),
        rules::credential_rules()[5] == rules::rule_text("slack-token"@, r"\bxox[baprs]-[A-Za-z0-9-]{10,}\b"@),
        rules::credential_rules()[6] == rules::rule_text("slack-webhook"@, r"https://hooks\.slack\.com/services/T[A-Za-z0-9_/]{40,}"@),
        rules::credential_rules()[7] == rules::rule_text("google-api-key"@, r"\bAIza[0-9A-Za-z_\-]{35}\b"@),
        rules::credential_rules()[8] == rules::rule_text("gcp-sa-key"@, r#""type"\s*:\s*"service_account""#@),
        rules::credential_rules()[9] == rules::rule_text("openai-key"@, r"\bsk-(?:proj-)?[A-Za-z0-9_\-]{20,}\b"@),
        rules::credential_rules()[10] == rules::rule_text("anthropic-key"@, r"\bsk-ant-[A-Za-z0-9_\-]{20,}\b"@),
        rules::credential_rules()[11] == rules::rule_text("huggingface-token"@, r"\bhf_[A-Za-z0-9]{34,}\b"@),
        rules::credential_rules()[12] == rules::rule_text("stripe-secret-key"@, r"\b[rs]k_live_[A-Za-z0-9]{24,}\b"@),
        rules::credential_rules()[13] == rules::rule_text("twilio-key"@, r"\bSK[0-9a-fA-F]{32}\b"@),
        rules::credential_rules()[14] == rules::rule_text("sendgrid-key"@, r"\bSG\.[A-Za-z0-9_\-]{22}\.[A-Za-z0-9_\-]{43}\b"@),
        rules::credential_rules()[15] == rules::rule_text("npm-token"@, r"\bnpm_[A-Za-z0-9]{36}\b"@),
        rules::credential_rules()[16] == rules::rule_text("pypi-token"@, r"\bpypi-AgEIcHlwaS5vcmc[A-Za-z0-9_\-]{50,}\b"@),
        rules::credential_rules()[17] == rules::rule_text("jwt"@, r"\beyJ[A-Za-z0-9_\-]{10,}\.eyJ[A-Za-z0-9_\-]{10,}\.[A-Za-z0-9_\-]{10,}\b"@),
        rules::credential_rules()[18] == rules::rule_text("db-connection-uri"@, r"\b(?:postgres(?:ql)?|mysql|mongodb(?:\+srv)?|redis|amqp)://[^\s:/@]+:[^\s:/@]{3,}@[^\s/]+"@),
        rules::credential_rules()[19] == rules::rule_text("private-key-block"@, r"-----BEGIN (?:RSA |EC |OPENSSH |DSA |PGP )?PRIVATE KEY-----"@),
        rules::credential_rules()[20] == rules::rule_text("generic-assignment"@, r#"(?i)\b(?:api[_-]?key|secret|passwd|password|token|client[_-]?secret|access[_-]?token)\b\s*[:=]\s*['"][^'"\s]{12,}['"]"#@),
{
}

/// The injection rules, one by one. All of them ignore case.
pub proof fn law_injection_rules(v: Vec<Rule>)
    requires
        call_ensures(rules::injection_rules, (), v),
    ensures
        v@.len() == 5,
        looks_for(v@[0], "injection-override"@, r"(?i)ignore (?:all |any )?(?:previous|prior|above) (?:instructions|prompts|context)"@),
        looks_for(v@[1], "injection-role"@, r"(?i)^\s*(?:system|assistant|developer)\s*:\s"@),
        looks_for(v@[2], "injection-exfil"@, r"(?i)(?:print|reveal|repeat|output|show me) (?:your |the )?(?:system prompt|instructions|api[_ -]?key|secret)"@),
        looks_for(v@[3], "injection-tooluse"@, r"(?i)(?:run|execute|exec|eval)\s+(?:the following|this)\s+(?:command|code|shell)"@),
        looks_for(v@[4], "injection-fence"@, r"(?i)```(?:system|assistant|tool|developer)\b"@),
{
    assert(v@[0].name@ == rules::injection_rules_text()[0].name);
    assert(v@[1].name@ == rules::injection_rules_text()[1].name);
    assert(v@[2].name@ == rules::injection_rules_text()[2].name);
    assert(v@[3].name@ == rules::injection_rules_text()[3].name);
    assert(v@[4].name@ == rules::injection_rules_text()[4].name);
}

/// The table of injection rules holds these names and patterns.
pub proof fn law_injection_table()
    ensures
        rules::injection_rules_text().len() == 5,
        rules::injection_rules_text()[0] == rules::rule_text("injection-override"@, r"(?i)ignore (?:all |any )?(?:previous|prior|above) (?:instructions|prompts|context)"@),
        rules::injection_rules_text()[1] == rules::rule_text("injection-role"@, r"(?i)^\s*(?:system|assistant|developer)\s*:\s"@),
        rules::injection_rules_text()[2] == rules::rule_text("injection-exfil"@, r"(?i)(?:print|reveal|repeat|output|show me) (?:your |the )?(?:system prompt|instructions|api[_ -]?key|secret)"@),
        rules::injection_rules_text()[3] == rules::rule_text("injection-tooluse"@, r"(?i)(?:run|execute|exec|eval)\s+(?:the following|this)\s+(?:command|code|shell)"@),
        rules::injection_rules_text()[4] == rules::rule_text("injection-fence"@, r"(?i)```(?:system|assistant|tool|developer)\b"@),
{
}

/// The anchor words, one by one.
pub proof fn law_anchor_words(ac: AhoCorasick)
    requires
        call_ensures(rules::anchor_ac, (), ac),
    ensures
        matching::literals_of(ac) == Some(rules::anchors()),
        rules::anchors() == seq![
            "AKIA"@,
            "ASIA"@,
            "AGPA"@,
            "AIDA"@,
            "AROA"@,
            "ghp_"@,
            "gho_"@,
            "ghu_"@,
            "ghs_"@,
            "ghr_"@,
            "github_pat_"@,
            "glpat-"@,
            "xox"@,
            "hooks.slack.com"@,
            "AIza"@,
            "service_account"@,
            "sk-"@,
            "hf_"@,
            "k_live_"@,
            "SG."@,
            "npm_"@,
            "pypi-"@,
            "eyJ"@,
            "://"@,
            "PRIVATE KEY"@,
            "key"@,
            "secret"@,
            "passwd"@,
            "password"@,
            "token"@,
        ],
{
}

/// The shape of a long token, and that of a hunk's first line number.
pub proof fn law_shapes(token: Regex, hunk: Regex)
    requires
        call_ensures(rules::entropy_token, (), token),
        call_ensures(rules::hunk_start, (), hunk),
    ensures
        matching::compiled_from(token) == Some(r"[A-Za-z0-9+/=_\-]{24,}"@),
        matching::compiled_from(hunk) == Some(r"\+(\d+)"@),
{
}

/// A character that a long token can hold: an ASCII letter or digit, `+`, `/`, `=`, `_` or `-`.
pub open spec fn in_token(c: char) -> bool {
    let n = plain::code(c);
    ||| 48 <= n <= 57
    ||| 65 <= n <= 90
    ||| 97 <= n <= 122
    ||| n == 43
    ||| n == 47
    ||| n == 61
    ||| n == 95
    ||| n == 45
}

proof fn lemma_token_run(t: Seq<char>, n: nat)
    requires
        n <= t.len(),
        forall|i: int| 0 <= i < n ==> in_token(#[trigger] t[i]),
        n == t.len() || !in_token(t[n as int]),
    ensures
        rules::token_run(t) == n,
    decreases t.len(),
{
    if n > 0 {
        assert(in_token(t[0]));
        assert forall|i: int| 0 <= i < n - 1 implies in_token(#[trigger] t.drop_first()[i]) by {
            assert(t.drop_first()[i] == t[i + 1]);
        }
        lemma_token_run(t.drop_first(), (n - 1) as nat);
    }
}

/// A text that is one unbroken run of token characters is one long token where it has at least 24
/// of them, and none where it has fewer.
pub proof fn law_unbroken_run(t: Seq<char>)
    requires
        forall|i: int| 0 <= i < t.len() ==> in_token(#[trigger] t[i]),
    ensures
        t.len() >= 24 ==> rules::long_tokens(t) == seq![t],
        t.len() < 24 ==> rules::long_tokens(t).len() == 0,
{
    if t.len() > 0 {
        lemma_token_run(t, t.len());
        assert(t.take(t.len() as int) =~= t);
        assert(t.skip(t.len() as int) =~= Seq::<char>::empty());
        assert(rules::long_tokens(t.skip(t.len() as int)) =~= Seq::<Seq<char>>::empty());
    }
}

/// Any other character parts the text: the long tokens are those before it and those behind it.
pub proof fn law_other_characters_part_tokens(a: Seq<char>, c: char, b: Seq<char>)
    requires
        !in_token(c),
    ensures
        rules::long_tokens(a.push(c) + b) == rules::long_tokens(a) + rules::long_tokens(b),
    decreases a.len(),
{
    let t = a.push(c) + b;
    let parts = rules::long_tokens(a) + rules::long_tokens(b);
    if a.len() == 0 {
        lemma_token_run(t, 0);
        assert(t.drop_first() =~= b);
        assert(parts =~= rules::long_tokens(b));
    } else if !in_token(a[0]) {
        lemma_token_run(t, 0);
        lemma_token_run(a, 0);
        assert(t.drop_first() =~= a.drop_first().push(c) + b);
        law_other_characters_part_tokens(a.drop_first(), c, b);
    } else {
        let n = first_break(a);
        lemma_token_run(a, n);
        assert forall|i: int| 0 <= i < n implies in_token(#[trigger] t[i]) by {
            assert(t[i] == a[i]);
        }
        assert(t[n as int] == if n < a.len() {
            a[n as int]
        } else {
            c
        });
        lemma_token_run(t, n);
        let rest = a.skip(n as int);
        assert(t.skip(n as int) =~= rest.push(c) + b);
        assert(t.take(n as int) =~= a.take(n as int));
        law_other_characters_part_tokens(rest, c, b);
        let first = seq![a.take(n as int)];
        assert(first + (rules::long_tokens(rest) + rules::long_tokens(b)) =~= first
            + rules::long_tokens(rest) + rules::long_tokens(b));
    }
}

proof fn first_break(a: Seq<char>) -> (n: nat)
    ensures
        n <= a.len(),
        forall|i: int| 0 <= i < n ==> in_token(#[trigger] a[i]),
        n == a.len() || !in_token(a[n as int]),
        a.len() > 0 && in_token(a[0]) ==> n > 0,
    decreases a.len(),
{
    if a.len() == 0 || !in_token(a[0]) {
        0
    } else {
        let n = first_break(a.drop_first());
        assert forall|i: int| 0 <= i < n + 1 implies in_token(#[trigger] a[i]) by {
            if i > 0 {
                assert(a[i] == a.drop_first()[i - 1]);
            }
        }
        n + 1
    }
}

/// The number of a hunk's first line is written behind the first plus sign of its header.
pub proof fn law_hunk_number_follows_the_plus_sign(a: Seq<char>, d: Seq<char>, b: Seq<char>)
    requires
        plain::lacks(a, '+'),
        plain::is_digits(d),
        b.len() == 0 || (plain::code(b[0]) < 128 && !plain::is_decimal(b[0])),
    ensures
        rules::hunk_digits(a.push('+') + d + b) == Some(d),
{
    let h = a.push('+') + d + b;
    text::lemma_index_of(h, '+', a.len());
    let rest = rules::after_plus(h);
    assert(rest =~= d + b);
    assert forall|i: int| 0 <= i < d.len() implies text::is_digit(#[trigger] rest[i]) by {
        assert(plain::is_decimal(d[i]));
    }
    text::lemma_digit_run(rest, d.len());
    assert(rest.take(d.len() as int) =~= d);
}

/// Where no ASCII digit follows the first plus sign, or a character beyond ASCII goes on from the
/// digits, or there is no plus sign, the number is what the engine finds.
pub proof fn law_other_hunk_numbers_are_left_to_the_engine(
    a: Seq<char>,
    d: Seq<char>,
    b: Seq<char>,
    h: Seq<char>,
)
    requires
        plain::lacks(a, '+'),
        d.len() == 0 || plain::is_digits(d),
        d.len() == 0 ==> b.len() == 0 || !plain::is_decimal(b[0]),
        d.len() > 0 ==> b.len() > 0 && plain::code(b[0]) >= 128,
        h == a || h == a.push('+') + d + b,
    ensures
        rules::hunk_digits(h) == matching::regex_group(r"\+(\d+)"@, h, 1),
{
    text::lemma_index_of(h, '+', a.len());
    if h != a {
        let rest = rules::after_plus(h);
        assert(rest =~= d + b);
        assert forall|i: int| 0 <= i < d.len() implies text::is_digit(#[trigger] rest[i]) by {
            assert(plain::is_decimal(d[i]));
        }
        text::lemma_digit_run(rest, d.len());
    }
}

} // verus!
