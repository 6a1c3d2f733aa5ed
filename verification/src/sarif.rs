//! SARIF 2.1.0 output, so findings drop straight into GitHub code scanning or any
//! CI that speaks SARIF. One run, one rule per finding kind, results as errors.

use vstd::prelude::*;
use serde_json::Value;

use crate::finding;
use crate::finding::{Finding, FindingView};
use crate::json;
use crate::json::Json;
use crate::text;
use crate::text::{at_most, chars_of, same, starts_with};

verus! {

/// The address of the SARIF schema.
pub const SCHEMA: &'static str = "https://json.schemastore.org/sarif-2.1.0.json";

/// What a rule finds, in words.
pub open spec fn description(rule: Seq<char>) -> Seq<char> {
    if rule == "aws-access-key-id"@ {
        "AWS access key id"@
    } else if rule == "aws-secret-access-key"@ {
        "AWS secret access key"@
    } else if rule == "github-token"@ {
        "GitHub token"@
    } else if rule == "github-pat-fine"@ {
        "GitHub fine-grained PAT"@
    } else if rule == "gitlab-pat"@ {
        "GitLab personal access token"@
    } else if rule == "slack-token"@ {
        "Slack token"@
    } else if rule == "slack-webhook"@ {
        "Slack incoming webhook URL"@
    } else if rule == "google-api-key"@ {
        "Google API key"@
    } else if rule == "gcp-sa-key"@ {
        "GCP service-account key material"@
    } else if rule == "openai-key"@ {
        "OpenAI API key"@
    } else if rule == "anthropic-key"@ {
        "Anthropic API key"@
    } else if rule == "huggingface-token"@ {
        "Hugging Face access token"@
    } else if rule == "stripe-secret-key"@ {
        "Stripe live secret key"@
    } else if rule == "twilio-key"@ {
        "Twilio API key"@
    } else if rule == "sendgrid-key"@ {
        "SendGrid API key"@
    } else if rule == "npm-token"@ {
        "npm access token"@
    } else if rule == "pypi-token"@ {
        "PyPI upload token"@
    } else if rule == "jwt"@ {
        "JSON Web Token"@
    } else if rule == "db-connection-uri"@ {
        "database connection URI with inline credentials"@
    } else if rule == "private-key-block"@ {
        "PEM private key block"@
    } else if rule == "generic-assignment"@ {
        "hardcoded credential assignment"@
    } else if rule == "high-entropy-token"@ {
        "high-entropy token"@
    } else if "injection-"@.is_prefix_of(rule) {
        "prompt-injection phrasing"@
    } else {
        "potential secret"@
    }
}

/// Says in words what a rule finds.
pub fn describe(rule: &str) -> (s: &'static str)
    ensures
        s@ == description(rule@),
{
    if same(rule, "aws-access-key-id") {
        "AWS access key id"
    } else if same(rule, "aws-secret-access-key") {
        "AWS secret access key"
    } else if same(rule, "github-token") {
        "GitHub token"
    } else if same(rule, "github-pat-fine") {
        "GitHub fine-grained PAT"
    } else if same(rule, "gitlab-pat") {
        "GitLab personal access token"
    } else if same(rule, "slack-token") {
        "Slack token"
    } else if same(rule, "slack-webhook") {
        "Slack incoming webhook URL"
    } else if same(rule, "google-api-key") {
        "Google API key"
    } else if same(rule, "gcp-sa-key") {
        "GCP service-account key material"
    } else if same(rule, "openai-key") {
        "OpenAI API key"
    } else if same(rule, "anthropic-key") {
        "Anthropic API key"
    } else if same(rule, "huggingface-token") {
        "Hugging Face access token"
    } else if same(rule, "stripe-secret-key") {
        "Stripe live secret key"
    } else if same(rule, "twilio-key") {
        "Twilio API key"
    } else if same(rule, "sendgrid-key") {
        "SendGrid API key"
    } else if same(rule, "npm-token") {
        "npm access token"
    } else if same(rule, "pypi-token") {
        "PyPI upload token"
    } else if same(rule, "jwt") {
        "JSON Web Token"
    } else if same(rule, "db-connection-uri") {
        "database connection URI with inline credentials"
    } else if same(rule, "private-key-block") {
        "PEM private key block"
    } else if same(rule, "generic-assignment") {
        "hardcoded credential assignment"
    } else if same(rule, "high-entropy-token") {
        "high-entropy token"
    } else if starts_with(&chars_of(rule), "injection-") {
        "prompt-injection phrasing"
    } else {
        "potential secret"
    }
}

/// `ids`, which are in order, with `id` at its place in them, where they do not hold it yet.
pub open spec fn with_id(ids: Seq<Seq<char>>, id: Seq<char>) -> Seq<Seq<char>>
    decreases ids.len(),
{
    if ids.len() == 0 {
        seq![id]
    } else if ids.last() == id {
        ids
    } else if text::text_le(ids.last(), id) {
        ids.push(id)
    } else {
        with_id(ids.drop_last(), id).push(ids.last())
    }
}

/// The rules of `fs`, each once, in dictionary order.
pub open spec fn rule_ids(fs: Seq<FindingView>) -> Seq<Seq<char>>
    decreases fs.len(),
{
    if fs.len() == 0 {
        seq![]
    } else {
        with_id(rule_ids(fs.drop_last()), fs.last().rule)
    }
}

/// A JSON object with one text member.
pub open spec fn text_member(name: Seq<char>, value: Seq<char>) -> Json {
    Json::Object(map![name => Json::Text(value)])
}

/// How a rule is listed.
pub open spec fn rule_entry(id: Seq<char>) -> Json {
    Json::Object(
        map![
            "id"@ => Json::Text(id),
            "name"@ => Json::Text(id),
            "shortDescription"@ => text_member("text"@, description(id)),
            "defaultConfiguration"@ => text_member("level"@, "error"@),
        ],
    )
}

/// Where a finding is: the file, and a line of at least one.
pub open spec fn location(f: FindingView) -> Json {
    Json::Object(
        map![
            "physicalLocation"@ => Json::Object(
                map![
                    "artifactLocation"@ => text_member("uri"@, f.file),
                    "region"@ => Json::Object(
                        map!["startLine"@ => Json::Number(if f.line > 1 { f.line } else { 1 })],
                    ),
                ],
            ),
        ],
    )
}

/// What is said of a finding.
pub open spec fn message(f: FindingView) -> Seq<char> {
    description(f.rule) + " (masked: "@ + f.hint + ")"@
}

/// How a finding is listed.
pub open spec fn result_entry(f: FindingView) -> Json {
    Json::Object(
        map![
            "ruleId"@ => Json::Text(f.rule),
            "level"@ => Json::Text("error"@),
            "message"@ => text_member("text"@, message(f)),
            "partialFingerprints"@ => text_member("zecor/v1"@, finding::fingerprint(f)),
            "locations"@ => Json::List(seq![location(f)]),
        ],
    )
}

/// The tool that made the log, with the rules that it reports on.
pub open spec fn tool(fs: Seq<FindingView>, tool_version: Seq<char>) -> Json {
    Json::Object(
        map![
            "driver"@ => Json::Object(
                map![
                    "name"@ => Json::Text("zecor-secretscan"@),
                    "informationUri"@ => Json::Text("https://zecor.dev"@),
                    "version"@ => Json::Text(tool_version),
                    "rules"@ => Json::List(rule_ids(fs).map_values(|id: Seq<char>| rule_entry(id))),
                ],
            ),
        ],
    )
}

/// The SARIF log of `fs`.
pub open spec fn sarif_log(fs: Seq<FindingView>, tool_version: Seq<char>) -> Json {
    Json::Object(
        map![
            "$schema"@ => Json::Text(SCHEMA@),
            "version"@ => Json::Text("2.1.0"@),
            "runs"@ => Json::List(
                seq![
                    Json::Object(
                        map![
                            "tool"@ => tool(fs, tool_version),
                            "results"@ => Json::List(
                                fs.map_values(|f: FindingView| result_entry(f)),
                            ),
                        ],
                    ),
                ],
            ),
        ],
    )
}

/// Puts `id` at its place in `ids`, where they do not hold it yet.
fn add_id(ids: &mut Vec<String>, id: &str)
    ensures
        text::views(final(ids)@) == with_id(text::views(old(ids)@), id@),
{
    let ghost all = text::views(ids@);
    let mut j: usize = ids.len();
    assert(all.take(j as int) =~= all);
    assert(with_id(all, id@) =~= with_id(all.take(j as int), id@) + all.skip(j as int));
    while j > 0
        invariant
            j <= ids@.len(),
            ids@ == old(ids)@,
            all == text::views(ids@),
            with_id(all, id@) == with_id(all.take(j as int), id@) + all.skip(j as int),
        decreases j,
    {
        let last = ids[j - 1].as_str();
        proof {
            assert(all[j - 1] == last@);
            assert(all.take(j as int).last() == last@);
        }
        if same(last, id) {
            assert(with_id(all.take(j as int), id@) == all.take(j as int));
            assert(all.take(j as int) + all.skip(j as int) =~= all);
            return;
        }
        if at_most(last, id) {
            ids.insert(j, id.to_owned());
            proof {
                assert(with_id(all.take(j as int), id@) == all.take(j as int).push(id@));
                assert(text::views(ids@) =~= all.take(j as int).push(id@) + all.skip(j as int));
            }
            return;
        }
        proof {
            let shorter = all.take(j as int).drop_last();
            assert(shorter =~= all.take(j - 1));
            assert(with_id(all.take(j as int), id@) == with_id(shorter, id@).push(last@));
            assert(with_id(shorter, id@).push(last@) + all.skip(j as int) =~= with_id(shorter, id@)
                + all.skip(j - 1));
        }
        j = j - 1;
    }
    ids.insert(0, id.to_owned());
    proof {
        assert(all.take(0) =~= Seq::<Seq<char>>::empty());
        assert(all.skip(0) =~= all);
        assert(text::views(ids@) =~= seq![id@] + all);
    }
}

/// A JSON object with one text member.
fn text_object(name: &str, value: &str) -> (v: Value)
    ensures
        json::json_of(v) == text_member(name@, value@),
{
    let mut m = json::no_members();
    json::put(&mut m, name, json::text(value));
    json::object(m)
}

/// Lists a rule.
fn rule_value(id: &str) -> (v: Value)
    ensures
        json::json_of(v) == rule_entry(id@),
{
    let mut m = json::no_members();
    json::put(&mut m, "id", json::text(id));
    json::put(&mut m, "name", json::text(id));
    json::put(&mut m, "shortDescription", text_object("text", describe(id)));
    json::put(&mut m, "defaultConfiguration", text_object("level", "error"));
    json::object(m)
}

/// Lists where a finding is.
fn location_value(f: &Finding) -> (v: Value)
    ensures
        json::json_of(v) == location(f@),
{
    let line: usize = if f.line > 1 {
        f.line
    } else {
        1
    };
    let mut region = json::no_members();
    json::put(&mut region, "startLine", json::number(line));
    let mut physical = json::no_members();
    json::put(&mut physical, "artifactLocation", text_object("uri", f.file.as_str()));
    json::put(&mut physical, "region", json::object(region));
    let mut m = json::no_members();
    json::put(&mut m, "physicalLocation", json::object(physical));
    json::object(m)
}

/// Lists a finding.
fn result_value(f: &Finding) -> (v: Value)
    ensures
        json::json_of(v) == result_entry(f@),
{
    let mut said = describe(f.rule.as_str()).to_owned();
    said.append(" (masked: ");
    said.append(f.hint.as_str());
    said.append(")");
    let fp = f.fingerprint();
    let mut places: Vec<Value> = Vec::new();
    places.push(location_value(f));
    assert(json::jsons(places@) =~= seq![location(f@)]);
    let mut m = json::no_members();
    json::put(&mut m, "ruleId", json::text(f.rule.as_str()));
    json::put(&mut m, "level", json::text("error"));
    json::put(&mut m, "message", text_object("text", said.as_str()));
    json::put(&mut m, "partialFingerprints", text_object("zecor/v1", fp.as_str()));
    json::put(&mut m, "locations", json::list(places));
    json::object(m)
}

/// Lists the tool, with the rules of `findings`.
fn tool_value(findings: &[Finding], tool_version: &str) -> (v: Value)
    ensures
        json::json_of(v) == tool(finding::finding_views(findings@), tool_version@),
{
    let ghost all = finding::finding_views(findings@);
    let mut ids: Vec<String> = Vec::new();
    let mut i: usize = 0;
    assert(all.take(0) =~= Seq::<FindingView>::empty());
    assert(text::views(ids@) =~= rule_ids(all.take(0)));
    while i < findings.len()
        invariant
            i <= findings@.len(),
            all == finding::finding_views(findings@),
            text::views(ids@) == rule_ids(all.take(i as int)),
        decreases findings@.len() - i,
    {
        proof {
            assert(all.take(i + 1).drop_last() =~= all.take(i as int));
            assert(all.take(i + 1).last() == findings@[i as int]@);
        }
        add_id(&mut ids, findings[i].rule.as_str());
        i = i + 1;
    }
    assert(all.take(i as int) =~= all);
    let mut rules: Vec<Value> = Vec::new();
    let mut j: usize = 0;
    while j < ids.len()
        invariant
            j <= ids@.len(),
            text::views(ids@) == rule_ids(all),
            rules@.len() == j,
            forall|k: int|
                0 <= k < j ==> json::json_of(#[trigger] rules@[k]) == rule_entry(rule_ids(all)[k]),
        decreases ids@.len() - j,
    {
        assert(text::views(ids@)[j as int] == ids@[j as int]@);
        rules.push(rule_value(ids[j].as_str()));
        j = j + 1;
    }
    assert(json::jsons(rules@) =~= rule_ids(all).map_values(|id: Seq<char>| rule_entry(id)));
    let mut driver = json::no_members();
    json::put(&mut driver, "name", json::text("zecor-secretscan"));
    json::put(&mut driver, "informationUri", json::text("https://zecor.dev"));
    json::put(&mut driver, "version", json::text(tool_version));
    json::put(&mut driver, "rules", json::list(rules));
    let mut m = json::no_members();
    json::put(&mut m, "driver", json::object(driver));
    json::object(m)
}

/// The SARIF log of `findings`, made by the given version of the tool.
pub fn to_sarif(findings: &[Finding], tool_version: &str) -> (v: Value)
    ensures
        json::json_of(v) == sarif_log(finding::finding_views(findings@), tool_version@),
{
    let ghost all = finding::finding_views(findings@);
    let mut results: Vec<Value> = Vec::new();
    let mut i: usize = 0;
    while i < findings.len()
        invariant
            i <= findings@.len(),
            all == finding::finding_views(findings@),
            results@.len() == i,
            forall|k: int|
                0 <= k < i ==> json::json_of(#[trigger] results@[k]) == result_entry(all[k]),
        decreases findings@.len() - i,
    {
        results.push(result_value(&findings[i]));
        i = i + 1;
    }
    assert(json::jsons(results@) =~= all.map_values(|f: FindingView| result_entry(f)));
    let mut run = json::no_members();
    json::put(&mut run, "tool", tool_value(findings, tool_version));
    json::put(&mut run, "results", json::list(results));
    let mut runs: Vec<Value> = Vec::new();
    runs.push(json::object(run));
    assert(json::jsons(runs@) =~= seq![json::json_of(runs@[0])]);
    let mut m = json::no_members();
    json::put(&mut m, "$schema", json::text(SCHEMA));
    json::put(&mut m, "version", json::text("2.1.0"));
    json::put(&mut m, "runs", json::list(runs));
    json::object(m)
}

/// `ids` are in dictionary order, and none occurs twice.
pub open spec fn strictly_ascending(ids: Seq<Seq<char>>) -> bool {
    forall|i: int, j: int|
        0 <= i < j < ids.len() ==> text::text_le(#[trigger] ids[i], #[trigger] ids[j]) && ids[i]
            != ids[j]
}

proof fn lemma_with_id(ids: Seq<Seq<char>>, id: Seq<char>)
    requires
        strictly_ascending(ids),
    ensures
        strictly_ascending(with_id(ids, id)),
        with_id(ids, id).contains(id),
        forall|x: Seq<char>| #[trigger]
            with_id(ids, id).contains(x) <==> ids.contains(x) || x == id,
    decreases ids.len(),
{
    let out = with_id(ids, id);
    if ids.len() == 0 {
        assert(out[0] == id);
    } else if ids.last() == id {
        assert(ids[ids.len() - 1] == id);
    } else {
        let last = ids.last();
        let init = ids.drop_last();
        text::lemma_text_le_total(last, id);
        assert(ids =~= init.push(last));
        assert(ids.contains(last)) by {
            assert(ids[ids.len() - 1] == last);
        }
        assert forall|x: Seq<char>| ids.contains(x) <==> init.contains(x) || x == last by {
            lemma_push_contains(init, last, x);
        }
        if text::text_le(last, id) {
            assert forall|x: Seq<char>| #[trigger] out.contains(x) <==> ids.contains(x) || x
                == id by {
                lemma_push_contains(ids, id, x);
            }
            assert forall|i: int| 0 <= i < ids.len() implies text::text_le(#[trigger] ids[i], id)
                && ids[i] != id by {
                if i < ids.len() - 1 {
                    assert(text::text_le(ids[i], ids[ids.len() - 1]));
                    text::lemma_text_le_transitive(ids[i], last, id);
                    text::lemma_text_le_total(ids[i], last);
                }
            }
        } else {
            assert forall|i: int, j: int| 0 <= i < j < init.len() implies text::text_le(
                #[trigger] init[i],
                #[trigger] init[j],
            ) && init[i] != init[j] by {
                assert(init[i] == ids[i] && init[j] == ids[j]);
            }
            lemma_with_id(init, id);
            let inner = with_id(init, id);
            assert forall|x: Seq<char>| #[trigger] out.contains(x) <==> ids.contains(x) || x
                == id by {
                lemma_push_contains(inner, last, x);
                assert(inner.contains(x) <==> init.contains(x) || x == id);
            }
            assert forall|i: int| 0 <= i < inner.len() implies text::text_le(
                #[trigger] inner[i],
                last,
            ) && inner[i] != last by {
                assert(inner.contains(inner[i]));
                if inner[i] != id {
                    let k = choose|k: int| 0 <= k < init.len() && init[k] == inner[i];
                    assert(ids[k] == inner[i]);
                    assert(text::text_le(ids[k], ids[ids.len() - 1]));
                }
            }
        }
    }
}

proof fn lemma_push_contains(s: Seq<Seq<char>>, y: Seq<char>, x: Seq<char>)
    ensures
        s.push(y).contains(x) <==> s.contains(x) || x == y,
{
    if s.contains(x) {
        let i = choose|i: int| 0 <= i < s.len() && s[i] == x;
        assert(s.push(y)[i] == x);
    }
    if x == y {
        assert(s.push(y)[s.len() as int] == x);
    }
    if s.push(y).contains(x) && x != y {
        let i = choose|i: int| 0 <= i < s.push(y).len() && s.push(y)[i] == x;
        assert(s[i] == x);
    }
}

/// One rule is listed per kind of finding: the list is in dictionary order, names no rule twice,
/// and names a rule exactly where a finding is of that rule.
pub proof fn law_one_rule_per_finding_kind(fs: Seq<FindingView>)
    ensures
        strictly_ascending(rule_ids(fs)),
        forall|id: Seq<char>| #[trigger]
            rule_ids(fs).contains(id) <==> exists|i: int|
                0 <= i < fs.len() && (#[trigger] fs[i]).rule == id,
    decreases fs.len(),
{
    if fs.len() > 0 {
        let init = fs.drop_last();
        law_one_rule_per_finding_kind(init);
        lemma_with_id(rule_ids(init), fs.last().rule);
        assert forall|id: Seq<char>| #[trigger] rule_ids(fs).contains(id) <==> exists|i: int|
            0 <= i < fs.len() && (#[trigger] fs[i]).rule == id by {
            if rule_ids(init).contains(id) {
                let i = choose|i: int| 0 <= i < init.len() && (#[trigger] init[i]).rule == id;
                assert(fs[i].rule == id);
            }
            if fs.last().rule == id {
                assert(fs[fs.len() - 1].rule == id);
            }
            if exists|i: int| 0 <= i < fs.len() && (#[trigger] fs[i]).rule == id {
                let i = choose|i: int| 0 <= i < fs.len() && (#[trigger] fs[i]).rule == id;
                if i < init.len() {
                    assert(init[i].rule == id);
                }
            }
        }
    }
}

} // verus!
