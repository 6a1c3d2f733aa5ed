//! What is looked for: the credential shapes, the prompt-injection phrasings, the words that a
//! line must hold before the credential shapes are tried on it, and the shape of a long token.

use vstd::prelude::*;
use aho_corasick::AhoCorasick;
use regex::Regex;

use crate::matching;
use crate::text;
use crate::text::{chars_of, starts_with};

verus! {

pub const AWS_ACCESS_KEY_ID: &'static str =
    r"\b(?:AKIA|ASIA|AGPA|AIDA|AROA)[0-9A-Z]{16}\b";

pub const AWS_SECRET_ACCESS_KEY: &'static str =
    r#"(?i)aws_secret[^=]{0,20}=\s*['"]?[A-Za-z0-9/+=]{40}"#;

pub const GITHUB_TOKEN: &'static str =
    r"\bgh[pousr]_[A-Za-z0-9]{36,255}\b";

pub const GITHUB_PAT_FINE: &'static str =
    r"\bgithub_pat_[A-Za-z0-9_]{60,}\b";

pub const GITLAB_PAT: &'static str =
    r"\bglpat-[A-Za-z0-9_\-]{20,}\b";

pub const SLACK_TOKEN: &'static str =
    r"\bxox[baprs]-[A-Za-z0-9-]{10,}\b";

pub const SLACK_WEBHOOK: &'static str =
    r"https://hooks\.slack\.com/services/T[A-Za-z0-9_/]{40,}";

pub const GOOGLE_API_KEY: &'static str =
    r"\bAIza[0-9A-Za-z_\-]{35}\b";

pub const GCP_SA_KEY: &'static str =
    r#""type"\s*:\s*"service_account""#;

pub const OPENAI_KEY: &'static str =
    r"\bsk-(?:proj-)?[A-Za-z0-9_\-]{20,}\b";

pub const ANTHROPIC_KEY: &'static str =
    r"\bsk-ant-[A-Za-z0-9_\-]{20,}\b";

pub const HUGGINGFACE_TOKEN: &'static str =
    r"\bhf_[A-Za-z0-9]{34,}\b";

pub const STRIPE_SECRET_KEY: &'static str =
    r"\b[rs]k_live_[A-Za-z0-9]{24,}\b";

pub const TWILIO_KEY: &'static str =
    r"\bSK[0-9a-fA-F]{32}\b";

pub const SENDGRID_KEY: &'static str =
    r"\bSG\.[A-Za-z0-9_\-]{22}\.[A-Za-z0-9_\-]{43}\b";

pub const NPM_TOKEN: &'static str =
    r"\bnpm_[A-Za-z0-9]{36}\b";

pub const PYPI_TOKEN: &'static str =
    r"\bpypi-AgEIcHlwaS5vcmc[A-Za-z0-9_\-]{50,}\b";

pub const JWT: &'static str =
    r"\beyJ[A-Za-z0-9_\-]{10,}\.eyJ[A-Za-z0-9_\-]{10,}\.[A-Za-z0-9_\-]{10,}\b";

pub const DB_CONNECTION_URI: &'static str =
    r"\b(?:postgres(?:ql)?|mysql|mongodb(?:\+srv)?|redis|amqp)://[^\s:/@]+:[^\s:/@]{3,}@[^\s/]+";

pub const PRIVATE_KEY_BLOCK: &'static str =
    r"-----BEGIN (?:RSA |EC |OPENSSH |DSA |PGP )?PRIVATE KEY-----";

pub const GENERIC_ASSIGNMENT: &'static str =
    r#"(?i)\b(?:api[_-]?key|secret|passwd|password|token|client[_-]?secret|access[_-]?token)\b\s*[:=]\s*['"][^'"\s]{12,}['"]"#;

pub const INJECTION_OVERRIDE: &'static str =
    r"(?i)ignore (?:all |any )?(?:previous|prior|above) (?:instructions|prompts|context)";

pub const INJECTION_ROLE: &'static str =
    r"(?i)^\s*(?:system|assistant|developer)\s*:\s";

pub const INJECTION_EXFIL: &'static str =
    r"(?i)(?:print|reveal|repeat|output|show me) (?:your |the )?(?:system prompt|instructions|api[_ -]?key|secret)";

pub const INJECTION_TOOLUSE: &'static str =
    r"(?i)(?:run|execute|exec|eval)\s+(?:the following|this)\s+(?:command|code|shell)";

pub const INJECTION_FENCE: &'static str =
    r"(?i)```(?:system|assistant|tool|developer)\b";

/// A long unbroken token, the candidate for the entropy check.
pub const ENTROPY_TOKEN: &'static str = r"[A-Za-z0-9+/=_\-]{24,}";

/// The first line number of the new side in a hunk header.
pub const HUNK_START: &'static str = r"\+(\d+)";

/// A character that a long token can hold.
pub open spec fn is_token_char(c: char) -> bool {
    ||| 'A' <= c <= 'Z'
    ||| 'a' <= c <= 'z'
    ||| '0' <= c <= '9'
    ||| c == '+'
    ||| c == '/'
    ||| c == '='
    ||| c == '_'
    ||| c == '-'
}

/// How many token characters `t` begins with.
pub open spec fn token_run(t: Seq<char>) -> nat
    decreases t.len(),
{
    if t.len() > 0 && is_token_char(t[0]) {
        1 + token_run(t.drop_first())
    } else {
        0
    }
}

/// A run of token characters is no longer than the text.
pub proof fn lemma_token_run_bound(t: Seq<char>)
    ensures
        token_run(t) <= t.len(),
    decreases t.len(),
{
    if t.len() > 0 && is_token_char(t[0]) {
        lemma_token_run_bound(t.drop_first());
    }
}

/// The long tokens of `t`, from left to right: its unbroken runs of token characters, each as
/// long as it goes, that have at least 24 characters.
pub open spec fn long_tokens(t: Seq<char>) -> Seq<Seq<char>>
    decreases t.len(),
{
    proof {
        lemma_token_run_bound(t);
    }
    if t.len() == 0 {
        seq![]
    } else if token_run(t) == 0 {
        long_tokens(t.drop_first())
    } else if token_run(t) < 24 {
        long_tokens(t.skip(token_run(t) as int))
    } else {
        seq![t.take(token_run(t) as int)] + long_tokens(t.skip(token_run(t) as int))
    }
}

/// What follows the first plus sign of `h`.
pub open spec fn after_plus(h: Seq<char>) -> Seq<char> {
    h.skip(text::index_of(h, '+') as int + 1)
}

/// The ASCII digits behind the first plus sign of `h`.
pub open spec fn plus_number(h: Seq<char>) -> Seq<char> {
    after_plus(h).take(text::digit_run(after_plus(h)) as int)
}

/// `h` holds a plus sign, and behind the first one a number in ASCII digits that no character
/// beyond ASCII goes on.
pub open spec fn has_plus_number(h: Seq<char>) -> bool {
    let rest = after_plus(h);
    let n = text::digit_run(rest) as int;
    &&& text::index_of(h, '+') < h.len()
    &&& n > 0
    &&& n >= rest.len() || rest[n] < '\u{80}'
}

/// The number of a hunk's first line on the new side, as its header writes it: what
/// `HUNK_START` finds there. A header with other digits than those of ASCII is left to the engine.
pub open spec fn hunk_digits(h: Seq<char>) -> Option<Seq<char>> {
    if has_plus_number(h) {
        Some(plus_number(h))
    } else {
        matching::regex_group(HUNK_START@, h, 1)
    }
}

/// A pattern that ignores the case of letters.
pub open spec fn ignores_case(pattern: Seq<char>) -> bool {
    "(?i)"@.is_prefix_of(pattern)
}

/// A rule as text: its name and the pattern that finds it.
pub struct RuleText {
    pub name: Seq<char>,
    pub pattern: Seq<char>,
}

/// A rule as text, made from its two parts.
pub open spec fn rule_text(name: Seq<char>, pattern: Seq<char>) -> RuleText {
    RuleText { name, pattern }
}

/// The credential shapes, in the order in which they are tried.
pub open spec fn credential_rules() -> Seq<RuleText> {
    seq![
        rule_text("aws-access-key-id"@, AWS_ACCESS_KEY_ID@),
        rule_text("aws-secret-access-key"@, AWS_SECRET_ACCESS_KEY@),
        rule_text("github-token"@, GITHUB_TOKEN@),
        rule_text("github-pat-fine"@, GITHUB_PAT_FINE@),
        rule_text("gitlab-pat"@, GITLAB_PAT@),
        rule_text("slack-token"@, SLACK_TOKEN@),
        rule_text("slack-webhook"@, SLACK_WEBHOOK@),
        rule_text("google-api-key"@, GOOGLE_API_KEY@),
        rule_text("gcp-sa-key"@, GCP_SA_KEY@),
        rule_text("openai-key"@, OPENAI_KEY@),
        rule_text("anthropic-key"@, ANTHROPIC_KEY@),
        rule_text("huggingface-token"@, HUGGINGFACE_TOKEN@),
        rule_text("stripe-secret-key"@, STRIPE_SECRET_KEY@),
        rule_text("twilio-key"@, TWILIO_KEY@),
        rule_text("sendgrid-key"@, SENDGRID_KEY@),
        rule_text("npm-token"@, NPM_TOKEN@),
        rule_text("pypi-token"@, PYPI_TOKEN@),
        rule_text("jwt"@, JWT@),
        rule_text("db-connection-uri"@, DB_CONNECTION_URI@),
        rule_text("private-key-block"@, PRIVATE_KEY_BLOCK@),
        rule_text("generic-assignment"@, GENERIC_ASSIGNMENT@),
    ]
}

/// Phrasings that would redirect a model which later reads the text.
pub open spec fn injection_rules_text() -> Seq<RuleText> {
    seq![
        rule_text("injection-override"@, INJECTION_OVERRIDE@),
        rule_text("injection-role"@, INJECTION_ROLE@),
        rule_text("injection-exfil"@, INJECTION_EXFIL@),
        rule_text("injection-tooluse"@, INJECTION_TOOLUSE@),
        rule_text("injection-fence"@, INJECTION_FENCE@),
    ]
}

/// Words of which a line must hold one before the credential shapes are tried on it.
pub open spec fn anchors() -> Seq<Seq<char>> {
    seq![
        "AKIA"@,
        "ASIA"@,
        "AGPA"@,
        "AIDA"@,
        "AROA"@,
        "ghp_"@,
        "gho_"@,
        "ghu_"@,
        "ghs_"@,
        "ghr_"@,
        "github_pat_"@,
        "glpat-"@,
        "xox"@,
        "hooks.slack.com"@,
        "AIza"@,
        "service_account"@,
        "sk-"@,
        "hf_"@,
        "k_live_"@,
        "SG."@,
        "npm_"@,
        "pypi-"@,
        "eyJ"@,
        "://"@,
        "PRIVATE KEY"@,
        "key"@,
        "secret"@,
        "passwd"@,
        "password"@,
        "token"@,
    ]
}

/// `p` is the pattern of one of the rules of `table`.
pub open spec fn is_pattern_of(table: Seq<RuleText>, p: Seq<char>) -> bool {
    exists|i: int| 0 <= i < table.len() && (#[trigger] table[i]).pattern == p
}

/// `p` is one of the patterns written in this module.
pub open spec fn is_static_pattern(p: Seq<char>) -> bool {
    ||| is_pattern_of(credential_rules(), p)
    ||| is_pattern_of(injection_rules_text(), p)
    ||| p == ENTROPY_TOKEN@
    ||| p == HUNK_START@
}

/// A name and a pattern, not yet compiled.
struct RuleSource {
    name: &'static str,
    pattern: &'static str,
}

/// `v` writes out `table`.
spec fn sources_of(v: Seq<RuleSource>, table: Seq<RuleText>) -> bool {
    &&& v.len() == table.len()
    &&& forall|i: int|
        0 <= i < v.len() ==> (#[trigger] v[i]).name@ == table[i].name && v[i].pattern@
            == table[i].pattern
}

/// A rule ready for use.
pub struct Rule {
    pub name: &'static str,
    pub re: Regex,
    /// Whether the pattern ignores the case of letters.
    pub any_case: bool,
}

/// `v` holds the rules of `table`, compiled, in order.
pub open spec fn compiled_rules(v: Seq<Rule>, table: Seq<RuleText>) -> bool {
    &&& v.len() == table.len()
    &&& forall|i: int|
        0 <= i < v.len() ==> (#[trigger] v[i]).name@ == table[i].name
            && matching::compiled_from(v[i].re) == Some(table[i].pattern) && v[i].any_case
            == ignores_case(table[i].pattern)
}

/// Compiles the rules of a table.
fn compile_all(sources: Vec<RuleSource>, Ghost(table): Ghost<Seq<RuleText>>) -> (v: Vec<Rule>)
    requires
        sources_of(sources@, table),
        table == credential_rules() || table == injection_rules_text(),
    ensures
        compiled_rules(v@, table),
{
    let mut v: Vec<Rule> = Vec::new();
    let mut i: usize = 0;
    while i < sources.len()
        invariant
            i <= sources@.len(),
            sources_of(sources@, table),
            table == credential_rules() || table == injection_rules_text(),
            v@.len() == i,
            forall|k: int|
                0 <= k < i ==> (#[trigger] v@[k]).name@ == table[k].name
                    && matching::compiled_from(v@[k].re) == Some(table[k].pattern) && v@[k].any_case
                    == ignores_case(table[k].pattern),
        decreases sources@.len() - i,
    {
        assert(sources@[i as int].pattern@ == table[i as int].pattern);
        let re = matching::compile(sources[i].pattern);
        let any_case = starts_with(&chars_of(sources[i].pattern), "(?i)");
        v.push(Rule { name: sources[i].name, re, any_case });
        i = i + 1;
    }
    v
}

/// The credential rules, compiled.
pub fn rules() -> (v: Vec<Rule>)
    ensures
        compiled_rules(v@, credential_rules()),
{
    let sources: Vec<RuleSource> = vec![
        RuleSource { name: "aws-access-key-id", pattern: AWS_ACCESS_KEY_ID },
        RuleSource { name: "aws-secret-access-key", pattern: AWS_SECRET_ACCESS_KEY },
        RuleSource { name: "github-token", pattern: GITHUB_TOKEN },
        RuleSource { name: "github-pat-fine", pattern: GITHUB_PAT_FINE },
        RuleSource { name: "gitlab-pat", pattern: GITLAB_PAT },
        RuleSource { name: "slack-token", pattern: SLACK_TOKEN },
        RuleSource { name: "slack-webhook", pattern: SLACK_WEBHOOK },
        RuleSource { name: "google-api-key", pattern: GOOGLE_API_KEY },
        RuleSource { name: "gcp-sa-key", pattern: GCP_SA_KEY },
        RuleSource { name: "openai-key", pattern: OPENAI_KEY },
        RuleSource { name: "anthropic-key", pattern: ANTHROPIC_KEY },
        RuleSource { name: "huggingface-token", pattern: HUGGINGFACE_TOKEN },
        RuleSource { name: "stripe-secret-key", pattern: STRIPE_SECRET_KEY },
        RuleSource { name: "twilio-key", pattern: TWILIO_KEY },
        RuleSource { name: "sendgrid-key", pattern: SENDGRID_KEY },
        RuleSource { name: "npm-token", pattern: NPM_TOKEN },
        RuleSource { name: "pypi-token", pattern: PYPI_TOKEN },
        RuleSource { name: "jwt", pattern: JWT },
        RuleSource { name: "db-connection-uri", pattern: DB_CONNECTION_URI },
        RuleSource { name: "private-key-block", pattern: PRIVATE_KEY_BLOCK },
        RuleSource { name: "generic-assignment", pattern: GENERIC_ASSIGNMENT },
    ];
    compile_all(sources, Ghost(credential_rules()))
}

/// Opt-in: phrasings an attacker uses to redirect a model that later reads this text.
pub fn injection_rules() -> (v: Vec<Rule>)
    ensures
        compiled_rules(v@, injection_rules_text()),
{
    let sources: Vec<RuleSource> = vec![
        RuleSource { name: "injection-override", pattern: INJECTION_OVERRIDE },
        RuleSource { name: "injection-role", pattern: INJECTION_ROLE },
        RuleSource { name: "injection-exfil", pattern: INJECTION_EXFIL },
        RuleSource { name: "injection-tooluse", pattern: INJECTION_TOOLUSE },
        RuleSource { name: "injection-fence", pattern: INJECTION_FENCE },
    ];
    compile_all(sources, Ghost(injection_rules_text()))
}

/// A fast pre-filter: where none of the anchor words occurs, no credential rule can match but
/// `twilio-key`, so the rules are not tried. For the rules that ignore case the words are looked
/// for with the case of the letters folded too. The words are deliberately specific: a word of two
/// letters such as `SK` would let most files through. The rule without a distinctive word
/// (`twilio-key`) still fires whenever another anchor word, as written, shares the line.
pub fn anchor_ac() -> (ac: AhoCorasick)
    ensures
        matching::literals_of(ac) == Some(anchors()),
{
    let words: Vec<&'static str> = vec![
        "AKIA",
        "ASIA",
        "AGPA",
        "AIDA",
        "AROA",
        "ghp_",
        "gho_",
        "ghu_",
        "ghs_",
        "ghr_",
        "github_pat_",
        "glpat-",
        "xox",
        "hooks.slack.com",
        "AIza",
        "service_account",
        "sk-",
        "hf_",
        "k_live_",
        "SG.",
        "npm_",
        "pypi-",
        "eyJ",
        "://",
        "PRIVATE KEY",
        "key",
        "secret",
        "passwd",
        "password",
        "token",
    ];
    assert(matching::str_views(words@) =~= anchors());
    matching::automaton(&words)
}

/// The shape of a token that the entropy check is made on, compiled.
pub fn entropy_token() -> (re: Regex)
    ensures
        matching::compiled_from(re) == Some(ENTROPY_TOKEN@),
{
    matching::compile(ENTROPY_TOKEN)
}

/// The shape of a hunk's first line number, compiled.
pub fn hunk_start() -> (re: Regex)
    ensures
        matching::compiled_from(re) == Some(HUNK_START@),
{
    matching::compile(HUNK_START)
}

} // verus!
