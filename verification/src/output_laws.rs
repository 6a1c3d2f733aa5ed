//! How findings are written out, said of the findings and of what is written.

use vstd::prelude::*;
use serde_json::Value;
use vstd::utf8::*;

use crate::finding;
use crate::finding::{Finding, FindingView};
use crate::json;
use crate::json::Json;
use crate::plain;
use crate::report;
use crate::sarif;
use crate::text;
use crate::text_laws;

verus! {

/// A scan exits with 0 where it found nothing, and with 1 otherwise.
pub proof fn law_exit_status(findings: &Vec<Finding>, status: i32)
    requires
        call_ensures(report::exit_status, (findings,), status),
    ensures
        findings@.len() == 0 ==> status == 0,
        findings@.len() > 0 ==> status == 1,
{
}

/// The closing line says that all is clean, or how many findings there are.
pub proof fn law_summary_line(findings: &Vec<Finding>, s: String)
    requires
        call_ensures(report::summary_line, (findings,), s),
    ensures
        findings@.len() == 0 ==> s@ == "clean"@,
        findings@.len() > 0 ==> s@ == text::decimal(findings@.len()) + " finding(s)"@,
{
}

/// A line of plain text gives the rule, filled with spaces up to 22 characters and one more space,
/// then the file, a colon, the line number, two spaces and the hint.
pub proof fn law_finding_line(f: &Finding, s: String)
    requires
        call_ensures(report::finding_line, (f,), s),
    ensures
        s@ == f.rule@ + Seq::new(
            if f.rule@.len() < 22 {
                (23 - f.rule@.len()) as nat
            } else {
                1
            },
            |i: int| ' ',
        ) + f.file@ + seq![':'] + text::decimal(f.line as nat) + seq![' ', ' '] + f.hint@,
{
    reveal_strlit(" ");
    reveal_strlit(":");
    reveal_strlit("  ");
    let blanks = Seq::new(
        if f.rule@.len() < 22 {
            (23 - f.rule@.len()) as nat
        } else {
            1
        },
        |i: int| ' ',
    );
    assert(" "@ =~= seq![' ']);
    assert(":"@ =~= seq![':']);
    assert("  "@ =~= seq![' ', ' ']);
    assert(report::padded(f.rule@, 22) + " "@ =~= f.rule@ + blanks);
}

/// The pieces, one after the other.
pub open spec fn glued(pieces: Seq<Seq<char>>) -> Seq<char>
    decreases pieces.len(),
{
    if pieces.len() == 0 {
        seq![]
    } else {
        glued(pieces.drop_last()) + pieces.last()
    }
}

/// What a baseline file says of finding `i`: a line with its fingerprint, and behind two spaces
/// and a `#` its rule, file and line, unless a finding before it has the same fingerprint.
pub open spec fn accepting_piece(fs: Seq<FindingView>, i: int) -> Seq<char> {
    if exists|k: int|
        0 <= k < i && finding::fingerprint(#[trigger] fs[k]) == finding::fingerprint(fs[i]) {
        seq![]
    } else {
        finding::fingerprint(fs[i]) + seq![' ', ' ', '#', ' '] + fs[i].rule + seq![' '] + fs[i].file
            + seq![':'] + text::decimal(fs[i].line) + seq!['\n']
    }
}

proof fn lemma_fingerprints(fs: Seq<FindingView>, fp: Seq<char>)
    ensures
        report::fingerprints(fs).contains(fp) <==> exists|k: int|
            0 <= k < fs.len() && finding::fingerprint(#[trigger] fs[k]) == fp,
    decreases fs.len(),
{
    if fs.len() > 0 {
        let init = fs.drop_last();
        let n = fs.len() - 1;
        lemma_fingerprints(init, fp);
        if report::fingerprints(init).contains(fp) {
            let k = choose|k: int|
                0 <= k < init.len() && finding::fingerprint(#[trigger] init[k]) == fp;
            assert(finding::fingerprint(fs[k]) == fp);
        }
        if finding::fingerprint(fs[n]) == fp {
            assert(finding::fingerprint(fs[n]) == fp);
        }
        if exists|k: int| 0 <= k < fs.len() && finding::fingerprint(#[trigger] fs[k]) == fp {
            let k = choose|k: int|
                0 <= k < fs.len() && finding::fingerprint(#[trigger] fs[k]) == fp;
            if k < n {
                assert(finding::fingerprint(init[k]) == fp);
            }
        }
    }
}

proof fn lemma_same_piece(fs: Seq<FindingView>, i: int)
    requires
        0 <= i < fs.len() - 1,
    ensures
        accepting_piece(fs.drop_last(), i) == accepting_piece(fs, i),
{
    let init = fs.drop_last();
    assert(init[i] == fs[i]);
    if exists|k: int|
        0 <= k < i && finding::fingerprint(#[trigger] fs[k]) == finding::fingerprint(fs[i]) {
        let k = choose|k: int|
            0 <= k < i && finding::fingerprint(#[trigger] fs[k]) == finding::fingerprint(fs[i]);
        assert(finding::fingerprint(init[k]) == finding::fingerprint(init[i]));
    }
    if exists|k: int|
        0 <= k < i && finding::fingerprint(#[trigger] init[k]) == finding::fingerprint(init[i]) {
        let k = choose|k: int|
            0 <= k < i && finding::fingerprint(#[trigger] init[k]) == finding::fingerprint(
                init[i],
            );
        assert(finding::fingerprint(fs[k]) == finding::fingerprint(fs[i]));
    }
}

proof fn lemma_last_piece(fs: Seq<FindingView>)
    requires
        fs.len() > 0,
    ensures
        accepting_piece(fs, fs.len() - 1) == if report::fingerprints(fs.drop_last()).contains(
            finding::fingerprint(fs.last()),
        ) {
            seq![]
        } else {
            report::baseline_line(fs.last())
        },
{
    let init = fs.drop_last();
    let n = fs.len() - 1;
    let f = fs[n];
    lemma_fingerprints(init, finding::fingerprint(f));
    lemma_accepting_line(f);
    if report::fingerprints(init).contains(finding::fingerprint(f)) {
        let k = choose|k: int|
            0 <= k < init.len() && finding::fingerprint(#[trigger] init[k])
                == finding::fingerprint(f);
        assert(finding::fingerprint(fs[k]) == finding::fingerprint(fs[n]));
    } else if exists|k: int|
        0 <= k < n && finding::fingerprint(#[trigger] fs[k]) == finding::fingerprint(fs[n]) {
        let k = choose|k: int|
            0 <= k < n && finding::fingerprint(#[trigger] fs[k]) == finding::fingerprint(fs[n]);
        assert(finding::fingerprint(init[k]) == finding::fingerprint(f));
    }
}

proof fn lemma_accepting_line(f: FindingView)
    ensures
        report::baseline_line(f) == finding::fingerprint(f) + seq![' ', ' ', '#', ' '] + f.rule
            + seq![' '] + f.file + seq![':'] + text::decimal(f.line) + seq!['\n'],
{
    reveal_strlit("  # ");
    reveal_strlit(" ");
    reveal_strlit(":");
    reveal_strlit("\n");
    assert("  # "@ =~= seq![' ', ' ', '#', ' ']);
    assert(" "@ =~= seq![' ']);
    assert(":"@ =~= seq![':']);
    assert("\n"@ =~= seq!['\n']);
    let head = finding::fingerprint(f) + seq![' ', ' ', '#', ' '];
    let d = text::decimal(f.line);
    let a = f.rule + seq![' '];
    let b = a + f.file;
    let c = b + seq![':'];
    assert(head + a =~= head + f.rule + seq![' ']);
    assert(head + b =~= head + a + f.file);
    assert(head + c =~= head + b + seq![':']);
    assert(head + (c + d) =~= head + c + d);
    assert(head + (c + d + seq!['\n']) =~= head + (c + d) + seq!['\n']);
}

proof fn lemma_body(fs: Seq<FindingView>)
    ensures
        report::baseline_body(fs) == glued(
            Seq::new(fs.len(), |i: int| accepting_piece(fs, i)),
        ),
    decreases fs.len(),
{
    let pieces = Seq::new(fs.len(), |i: int| accepting_piece(fs, i));
    if fs.len() > 0 {
        let init = fs.drop_last();
        lemma_body(init);
        let before = Seq::new(init.len(), |i: int| accepting_piece(init, i));
        assert forall|i: int| 0 <= i < init.len() implies before[i] == #[trigger] pieces[i] by {
            lemma_same_piece(fs, i);
        }
        assert(pieces.drop_last() =~= before);
        lemma_last_piece(fs);
        assert(glued(before) + Seq::<char>::empty() =~= glued(before));
    }
}

/// A baseline file begins with how many findings it accepts, and then names each fingerprint once,
/// where it first occurs.
pub proof fn law_baseline_report(findings: &Vec<Finding>, s: String)
    requires
        call_ensures(report::baseline_report, (findings,), s),
    ensures
        ({
            let fs = Seq::new(findings@.len(), |i: int| findings@[i]@);
            s@ == "# zecor-secretscan baseline -- "@ + text::decimal(findings@.len())
                + " finding(s) accepted\n"@ + glued(
                Seq::new(fs.len(), |i: int| accepting_piece(fs, i)),
            )
        }),
{
    let fs = Seq::new(findings@.len(), |i: int| findings@[i]@);
    assert(fs =~= finding::finding_views(findings@));
    lemma_body(fs);
}

/// What each rule finds, in words.
pub proof fn law_describe(rule: &str, s: &'static str)
    requires
        call_ensures(sarif::describe, (rule,), s),
    ensures
        rule@ == "aws-access-key-id"@ ==> s@ == "AWS access key id"@,
        rule@ == "aws-secret-access-key"@ ==> s@ == "AWS secret access key"@,
        rule@ == "github-token"@ ==> s@ == "GitHub token"@,
        rule@ == "github-pat-fine"@ ==> s@ == "GitHub fine-grained PAT"@,
        rule@ == "gitlab-pat"@ ==> s@ == "GitLab personal access token"@,
        rule@ == "slack-token"@ ==> s@ == "Slack token"@,
        rule@ == "slack-webhook"@ ==> s@ == "Slack incoming webhook URL"@,
        rule@ == "google-api-key"@ ==> s@ == "Google API key"@,
        rule@ == "gcp-sa-key"@ ==> s@ == "GCP service-account key material"@,
        rule@ == "openai-key"@ ==> s@ == "OpenAI API key"@,
        rule@ == "anthropic-key"@ ==> s@ == "Anthropic API key"@,
        rule@ == "huggingface-token"@ ==> s@ == "Hugging Face access token"@,
        rule@ == "stripe-secret-key"@ ==> s@ == "Stripe live secret key"@,
        rule@ == "twilio-key"@ ==> s@ == "Twilio API key"@,
        rule@ == "sendgrid-key"@ ==> s@ == "SendGrid API key"@,
        rule@ == "npm-token"@ ==> s@ == "npm access token"@,
        rule@ == "pypi-token"@ ==> s@ == "PyPI upload token"@,
        rule@ == "jwt"@ ==> s@ == "JSON Web Token"@,
        rule@ == "db-connection-uri"@ ==> s@ == "database connection URI with inline credentials"@,
        rule@ == "private-key-block"@ ==> s@ == "PEM private key block"@,
        rule@ == "generic-assignment"@ ==> s@ == "hardcoded credential assignment"@,
        rule@ == "high-entropy-token"@ ==> s@ == "high-entropy token"@,
        (exists|z: Seq<char>| rule@ == #[trigger] ("injection-"@ + z)) ==> s@
            == "prompt-injection phrasing"@,
        !(exists|z: Seq<char>| rule@ == #[trigger] ("injection-"@ + z))
            && rule@ != "aws-access-key-id"@
            && rule@ != "aws-secret-access-key"@
            && rule@ != "github-token"@
            && rule@ != "github-pat-fine"@
            && rule@ != "gitlab-pat"@
            && rule@ != "slack-token"@
            && rule@ != "slack-webhook"@
            && rule@ != "google-api-key"@
            && rule@ != "gcp-sa-key"@
            && rule@ != "openai-key"@
            && rule@ != "anthropic-key"@
            && rule@ != "huggingface-token"@
            && rule@ != "stripe-secret-key"@
            && rule@ != "twilio-key"@
            && rule@ != "sendgrid-key"@
            && rule@ != "npm-token"@
            && rule@ != "pypi-token"@
            && rule@ != "jwt"@
            && rule@ != "db-connection-uri"@
            && rule@ != "private-key-block"@
            && rule@ != "generic-assignment"@
            && rule@ != "high-entropy-token"@
            ==> s@ == "potential secret"@,
{
    reveal_strlit("injection-");
    reveal_strlit("aws-access-key-id");
    reveal_strlit("aws-secret-access-key");
    reveal_strlit("github-token");
    reveal_strlit("github-pat-fine");
    reveal_strlit("gitlab-pat");
    reveal_strlit("slack-token");
    reveal_strlit("slack-webhook");
    reveal_strlit("google-api-key");
    reveal_strlit("gcp-sa-key");
    reveal_strlit("openai-key");
    reveal_strlit("anthropic-key");
    reveal_strlit("huggingface-token");
    reveal_strlit("stripe-secret-key");
    reveal_strlit("twilio-key");
    reveal_strlit("sendgrid-key");
    reveal_strlit("npm-token");
    reveal_strlit("pypi-token");
    reveal_strlit("jwt");
    reveal_strlit("db-connection-uri");
    reveal_strlit("private-key-block");
    reveal_strlit("generic-assignment");
    reveal_strlit("high-entropy-token");
    assert("injection-"@.len() == 10 && "injection-"@[0] == 'i' && "injection-"@[1] == 'n');
    assert("aws-access-key-id"@.len() == 17 && "aws-access-key-id"@[0] == 'a' && "aws-access-key-id"@[1] == 'w');
    assert("aws-secret-access-key"@.len() == 21 && "aws-secret-access-key"@[0] == 'a' && "aws-secret-access-key"@[1] == 'w');
    assert("github-token"@.len() == 12 && "github-token"@[0] == 'g' && "github-token"@[1] == 'i');
    assert("github-pat-fine"@.len() == 15 && "github-pat-fine"@[0] == 'g' && "github-pat-fine"@[1] == 'i');
    assert("gitlab-pat"@.len() == 10 && "gitlab-pat"@[0] == 'g' && "gitlab-pat"@[1] == 'i');
    assert("slack-token"@.len() == 11 && "slack-token"@[0] == 's' && "slack-token"@[1] == 'l');
    assert("slack-webhook"@.len() == 13 && "slack-webhook"@[0] == 's' && "slack-webhook"@[1] == 'l');
    assert("google-api-key"@.len() == 14 && "google-api-key"@[0] == 'g' && "google-api-key"@[1] == 'o');
    assert("gcp-sa-key"@.len() == 10 && "gcp-sa-key"@[0] == 'g' && "gcp-sa-key"@[1] == 'c');
    assert("openai-key"@.len() == 10 && "openai-key"@[0] == 'o' && "openai-key"@[1] == 'p');
    assert("anthropic-key"@.len() == 13 && "anthropic-key"@[0] == 'a' && "anthropic-key"@[1] == 'n');
    assert("huggingface-token"@.len() == 17 && "huggingface-token"@[0] == 'h' && "huggingface-token"@[1] == 'u');
    assert("stripe-secret-key"@.len() == 17 && "stripe-secret-key"@[0] == 's' && "stripe-secret-key"@[1] == 't');
    assert("twilio-key"@.len() == 10 && "twilio-key"@[0] == 't' && "twilio-key"@[1] == 'w');
    assert("sendgrid-key"@.len() == 12 && "sendgrid-key"@[0] == 's' && "sendgrid-key"@[1] == 'e');
    assert("npm-token"@.len() == 9 && "npm-token"@[0] == 'n' && "npm-token"@[1] == 'p');
    assert("pypi-token"@.len() == 10 && "pypi-token"@[0] == 'p' && "pypi-token"@[1] == 'y');
    assert("jwt"@.len() == 3 && "jwt"@[0] == 'j' && "jwt"@[1] == 'w');
    assert("db-connection-uri"@.len() == 17 && "db-connection-uri"@[0] == 'd' && "db-connection-uri"@[1] == 'b');
    assert("private-key-block"@.len() == 17 && "private-key-block"@[0] == 'p' && "private-key-block"@[1] == 'r');
    assert("generic-assignment"@.len() == 18 && "generic-assignment"@[0] == 'g' && "generic-assignment"@[1] == 'e');
    assert("high-entropy-token"@.len() == 18 && "high-entropy-token"@[0] == 'h' && "high-entropy-token"@[1] == 'i');
    let r = rule@;
    let p = "injection-"@;
    text::lemma_prefix(p, r);
    if p.is_prefix_of(r) {
        assert(r =~= p + r.skip(p.len() as int));
        assert(r[0] == p[0] && r[1] == p[1]);
    }
    if exists|z: Seq<char>| r == #[trigger] (p + z) {
        let z = choose|z: Seq<char>| r == #[trigger] (p + z);
        assert forall|k: int| 0 <= k < p.len() implies r[k] == #[trigger] p[k] by {
            assert((p + z)[k] == p[k]);
        }
        assert(r[0] == p[0] && r[1] == p[1]);
    }
}

/// The member `name` of an object.
pub open spec fn member(j: Json, name: Seq<char>) -> Json {
    j->Object_0[name]
}

/// `j` is an object with just the members `names`.
pub open spec fn has_members(j: Json, names: Set<Seq<char>>) -> bool {
    j is Object && j->Object_0.dom() == names
}

/// The one run of a log.
pub open spec fn run_of(log: Json) -> Json {
    member(log, "runs"@)->List_0[0]
}

/// What a log says of finding `i`.
pub open spec fn result_of(log: Json, i: int) -> Json {
    member(run_of(log), "results"@)->List_0[i]
}

/// Where a log says that finding `i` is.
pub open spec fn place_of(log: Json, i: int) -> Json {
    member(member(result_of(log, i), "locations"@)->List_0[0], "physicalLocation"@)
}

/// What a log says of the tool.
pub open spec fn driver_of(log: Json) -> Json {
    member(member(run_of(log), "tool"@), "driver"@)
}

/// A log is one of SARIF 2.1.0, with the schema's address and one run.
pub proof fn law_sarif_log(findings: &[Finding], version: &str, v: Value)
    requires
        call_ensures(sarif::to_sarif, (findings, version), v),
    ensures
        ({
            let log = json::json_of(v);
            &&& has_members(log, set!["$schema"@, "version"@, "runs"@])
            &&& member(log, "$schema"@) == Json::Text(
                "https://json.schemastore.org/sarif-2.1.0.json"@,
            )
            &&& member(log, "version"@) == Json::Text("2.1.0"@)
            &&& member(log, "runs"@) is List
            &&& member(log, "runs"@)->List_0.len() == 1
            &&& has_members(run_of(log), set!["tool"@, "results"@])
            &&& member(run_of(log), "results"@) is List
            &&& member(run_of(log), "results"@)->List_0.len() == findings@.len()
            &&& has_members(member(run_of(log), "tool"@), set!["driver"@])
            &&& has_members(
                driver_of(log),
                set!["name"@, "informationUri"@, "version"@, "rules"@],
            )
            &&& member(driver_of(log), "name"@) == Json::Text("zecor-secretscan"@)
            &&& member(driver_of(log), "informationUri"@) == Json::Text("https://zecor.dev"@)
            &&& member(driver_of(log), "version"@) == Json::Text(version@)
            &&& member(driver_of(log), "rules"@) is List
        }),
{
    lemma_keys();
    let log = json::json_of(v);
    assert(log->Object_0.dom() =~= set!["$schema"@, "version"@, "runs"@]);
    assert(run_of(log)->Object_0.dom() =~= set!["tool"@, "results"@]);
    assert(member(run_of(log), "tool"@)->Object_0.dom() =~= set!["driver"@]);
    assert(driver_of(log)->Object_0.dom() =~= set![
        "name"@,
        "informationUri"@,
        "version"@,
        "rules"@,
    ]);
}

/// The names of members that stand in one object differ.
proof fn lemma_keys()
    ensures
        "$schema"@ != "version"@ && "$schema"@ != "runs"@ && "version"@ != "runs"@,
        "tool"@ != "results"@,
        "name"@ != "informationUri"@ && "name"@ != "version"@ && "name"@ != "rules"@,
        "informationUri"@ != "version"@ && "informationUri"@ != "rules"@ && "version"@ != "rules"@,
        "id"@ != "name"@ && "id"@ != "shortDescription"@ && "id"@ != "defaultConfiguration"@,
        "name"@ != "shortDescription"@ && "name"@ != "defaultConfiguration"@,
        "shortDescription"@ != "defaultConfiguration"@,
        "ruleId"@ != "level"@ && "ruleId"@ != "message"@ && "ruleId"@ != "partialFingerprints"@,
        "ruleId"@ != "locations"@ && "level"@ != "message"@ && "level"@ != "partialFingerprints"@,
        "level"@ != "locations"@ && "message"@ != "partialFingerprints"@ && "message"@
            != "locations"@,
        "partialFingerprints"@ != "locations"@,
        "artifactLocation"@ != "region"@,
{
    reveal_strlit("$schema");
    reveal_strlit("version");
    reveal_strlit("runs");
    reveal_strlit("tool");
    reveal_strlit("results");
    reveal_strlit("name");
    reveal_strlit("informationUri");
    reveal_strlit("rules");
    reveal_strlit("id");
    reveal_strlit("shortDescription");
    reveal_strlit("defaultConfiguration");
    reveal_strlit("ruleId");
    reveal_strlit("level");
    reveal_strlit("message");
    reveal_strlit("partialFingerprints");
    reveal_strlit("locations");
    reveal_strlit("artifactLocation");
    reveal_strlit("region");
    assert("$schema"@.len() == 7);
    assert("version"@.len() == 7);
    assert("runs"@.len() == 4);
    assert("tool"@.len() == 4);
    assert("results"@.len() == 7);
    assert("name"@.len() == 4);
    assert("informationUri"@.len() == 14);
    assert("rules"@.len() == 5);
    assert("id"@.len() == 2);
    assert("shortDescription"@.len() == 16);
    assert("defaultConfiguration"@.len() == 20);
    assert("ruleId"@.len() == 6);
    assert("level"@.len() == 5);
    assert("message"@.len() == 7);
    assert("partialFingerprints"@.len() == 19);
    assert("locations"@.len() == 9);
    assert("artifactLocation"@.len() == 16);
    assert("region"@.len() == 6);
    assert("$schema"@[0] != "version"@[0]);
}

/// The log lists each finding in turn, whole and as an error: its rule, what it is in words with
/// its hint, its fingerprint, its file as it stands and its line, or the first line where it has
/// none.
pub proof fn law_sarif_result(findings: &[Finding], version: &str, v: Value, i: int)
    requires
        call_ensures(sarif::to_sarif, (findings, version), v),
        0 <= i < findings@.len(),
    ensures
        ({
            let f = findings@[i];
            let result = result_of(json::json_of(v), i);
            let place = place_of(json::json_of(v), i);
            &&& has_members(
                result,
                set!["ruleId"@, "level"@, "message"@, "partialFingerprints"@, "locations"@],
            )
            &&& member(result, "ruleId"@) == Json::Text(f.rule@)
            &&& member(result, "level"@) == Json::Text("error"@)
            &&& has_members(member(result, "message"@), set!["text"@])
            &&& member(member(result, "message"@), "text"@) == Json::Text(
                sarif::description(f.rule@) + " (masked: "@ + f.hint@ + ")"@,
            )
            &&& has_members(member(result, "partialFingerprints"@), set!["zecor/v1"@])
            &&& member(member(result, "partialFingerprints"@), "zecor/v1"@) == Json::Text(
                finding::fingerprint(f@),
            )
            &&& member(result, "locations"@) is List
            &&& member(result, "locations"@)->List_0.len() == 1
            &&& has_members(member(result, "locations"@)->List_0[0], set!["physicalLocation"@])
            &&& has_members(place, set!["artifactLocation"@, "region"@])
            &&& has_members(member(place, "artifactLocation"@), set!["uri"@])
            &&& member(member(place, "artifactLocation"@), "uri"@) == Json::Text(f.file@)
            &&& has_members(member(place, "region"@), set!["startLine"@])
            &&& member(member(place, "region"@), "startLine"@) == Json::Number(
                if f.line == 0 {
                    1
                } else {
                    f.line as nat
                },
            )
        }),
{
    lemma_keys();
    let log = json::json_of(v);
    let fs = finding::finding_views(findings@);
    let result = result_of(log, i);
    let place = place_of(log, i);
    assert(fs[i] == findings@[i]@);
    assert(result == sarif::result_entry(fs[i]));
    assert(result->Object_0.dom() =~= set![
        "ruleId"@,
        "level"@,
        "message"@,
        "partialFingerprints"@,
        "locations"@,
    ]);
    assert(member(result, "message"@)->Object_0.dom() =~= set!["text"@]);
    assert(member(result, "partialFingerprints"@)->Object_0.dom() =~= set!["zecor/v1"@]);
    assert(member(result, "locations"@)->List_0[0] == sarif::location(fs[i]));
    assert(member(result, "locations"@)->List_0[0]->Object_0.dom() =~= set!["physicalLocation"@]);
    assert(place->Object_0.dom() =~= set!["artifactLocation"@, "region"@]);
    assert(member(place, "artifactLocation"@)->Object_0.dom() =~= set!["uri"@]);
    assert(member(place, "region"@)->Object_0.dom() =~= set!["startLine"@]);
}

/// What a log says of its rule `k`.
pub open spec fn rule_of(log: Json, k: int) -> Json {
    member(driver_of(log), "rules"@)->List_0[k]
}

/// The name of rule `k` of a log.
pub open spec fn id_of(log: Json, k: int) -> Seq<char> {
    member(rule_of(log, k), "id"@)->Text_0
}

/// The log names each rule of its findings once, in dictionary order, and no other, each with what
/// it finds in words and as an error.
pub proof fn law_sarif_rules(findings: &[Finding], version: &str, v: Value)
    requires
        call_ensures(sarif::to_sarif, (findings, version), v),
    ensures
        ({
            let log = json::json_of(v);
            let n = member(driver_of(log), "rules"@)->List_0.len();
            &&& forall|k: int|
                0 <= k < n ==> {
                    let r = #[trigger] rule_of(log, k);
                    &&& has_members(
                        r,
                        set!["id"@, "name"@, "shortDescription"@, "defaultConfiguration"@],
                    )
                    &&& member(r, "id"@) is Text
                    &&& member(r, "name"@) == member(r, "id"@)
                    &&& has_members(member(r, "shortDescription"@), set!["text"@])
                    &&& member(member(r, "shortDescription"@), "text"@) == Json::Text(
                        sarif::description(id_of(log, k)),
                    )
                    &&& has_members(member(r, "defaultConfiguration"@), set!["level"@])
                    &&& member(member(r, "defaultConfiguration"@), "level"@) == Json::Text(
                        "error"@,
                    )
                }
            &&& forall|k: int, l: int|
                0 <= k < l < n ==> #[trigger] id_of(log, k) != #[trigger] id_of(log, l)
                    && plain::dictionary(encode_utf8(id_of(log, k)), encode_utf8(id_of(log, l)))
            &&& forall|k: int|
                0 <= k < n ==> exists|i: int|
                    0 <= i < findings@.len() && (#[trigger] findings@[i]).rule@ == #[trigger] id_of(
                        log,
                        k,
                    )
            &&& forall|i: int|
                0 <= i < findings@.len() ==> exists|k: int|
                    0 <= k < n && #[trigger] id_of(log, k) == (#[trigger] findings@[i]).rule@
        }),
{
    lemma_keys();
    let log = json::json_of(v);
    let fs = finding::finding_views(findings@);
    let ids = sarif::rule_ids(fs);
    let listed = member(driver_of(log), "rules"@)->List_0;
    let n = listed.len();
    assert(listed == ids.map_values(|id: Seq<char>| sarif::rule_entry(id)));
    assert(n == ids.len());
    sarif::law_one_rule_per_finding_kind(fs);
    assert forall|k: int| 0 <= k < n implies #[trigger] rule_of(log, k) == sarif::rule_entry(ids[k])
        && id_of(log, k) == ids[k] by {
        assert(listed[k] == sarif::rule_entry(ids[k]));
    }
    assert forall|k: int| 0 <= k < n implies {
        let r = #[trigger] rule_of(log, k);
        &&& has_members(r, set!["id"@, "name"@, "shortDescription"@, "defaultConfiguration"@])
        &&& member(r, "id"@) is Text
        &&& member(r, "name"@) == member(r, "id"@)
        &&& has_members(member(r, "shortDescription"@), set!["text"@])
        &&& member(member(r, "shortDescription"@), "text"@) == Json::Text(
            sarif::description(id_of(log, k)),
        )
        &&& has_members(member(r, "defaultConfiguration"@), set!["level"@])
        &&& member(member(r, "defaultConfiguration"@), "level"@) == Json::Text("error"@)
    } by {
        let r = rule_of(log, k);
        assert(r->Object_0.dom() =~= set![
            "id"@,
            "name"@,
            "shortDescription"@,
            "defaultConfiguration"@,
        ]);
        assert(member(r, "shortDescription"@)->Object_0.dom() =~= set!["text"@]);
        assert(member(r, "defaultConfiguration"@)->Object_0.dom() =~= set!["level"@]);
    }
    assert forall|k: int, l: int| 0 <= k < l < n implies #[trigger] id_of(log, k)
        != #[trigger] id_of(log, l) && plain::dictionary(
        encode_utf8(id_of(log, k)),
        encode_utf8(id_of(log, l)),
    ) by {
        assert(rule_of(log, k) == sarif::rule_entry(ids[k]));
        assert(rule_of(log, l) == sarif::rule_entry(ids[l]));
        assert(text::text_le(ids[k], ids[l]) && ids[k] != ids[l]);
        text_laws::law_texts_are_ordered_by_their_bytes(ids[k], ids[l]);
    }
    assert forall|k: int| 0 <= k < n implies exists|i: int|
        0 <= i < findings@.len() && (#[trigger] findings@[i]).rule@ == #[trigger] id_of(log, k) by {
        assert(rule_of(log, k) == sarif::rule_entry(ids[k]));
        assert(ids.contains(ids[k]));
        let i = choose|i: int| 0 <= i < fs.len() && (#[trigger] fs[i]).rule == ids[k];
        assert(findings@[i].rule@ == ids[k]);
    }
    assert forall|i: int| 0 <= i < findings@.len() implies exists|k: int|
        0 <= k < n && #[trigger] id_of(log, k) == (#[trigger] findings@[i]).rule@ by {
        assert(fs[i].rule == findings@[i].rule@);
        assert(ids.contains(fs[i].rule));
        let k = choose|k: int| 0 <= k < ids.len() && ids[k] == fs[i].rule;
        assert(rule_of(log, k) == sarif::rule_entry(ids[k]));
        assert(id_of(log, k) == findings@[i].rule@);
    }
}

} // verus!
