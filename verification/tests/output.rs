use zecor_secretscan::cli::{
    command, flag_present, flag_value, output_format, positional, preceded_by_value_flag,
    scan_options, Command, Format,
};
use zecor_secretscan::sarif::{describe, to_sarif};
use zecor_secretscan::Finding;

fn args(list: &[&str]) -> Vec<String> {
    list.iter().map(|s| s.to_string()).collect()
}

fn finding(rule: &str, line: usize) -> Finding {
    Finding { rule: rule.to_string(), file: "f".to_string(), line, hint: "***".to_string() }
}

#[test]
fn shape_is_sarif_210() {
    let f = vec![Finding {
        rule: "github-token".into(),
        file: "a.py".into(),
        line: 3,
        hint: "ghp_\u{2026}zz".into(),
    }];
    let s = to_sarif(&f, "0.1.0");
    assert_eq!(s["version"], "2.1.0");
    assert_eq!(s["runs"][0]["results"][0]["ruleId"], "github-token");
    assert_eq!(
        s["runs"][0]["results"][0]["locations"][0]["physicalLocation"]["region"]["startLine"],
        3
    );
    assert_eq!(
        s["runs"][0]["tool"]["driver"]["rules"][0]["id"],
        "github-token"
    );
}

#[test]
fn a_sarif_log_in_full() {
    let f = vec![Finding {
        rule: "jwt".into(),
        file: "a \"b\".py".into(),
        line: 0,
        hint: "eyJa\u{2026}zz".into(),
    }];
    let expected = format!(
        "{{\"$schema\":\"https://json.schemastore.org/sarif-2.1.0.json\",\"runs\":[{{\"results\":[{{\"level\":\"error\",\"locations\":[{{\"physicalLocation\":{{\"artifactLocation\":{{\"uri\":\"a \\\"b\\\".py\"}},\"region\":{{\"startLine\":1}}}}}}],\"message\":{{\"text\":\"JSON Web Token (masked: eyJa\u{2026}zz)\"}},\"partialFingerprints\":{{\"zecor/v1\":\"{}\"}},\"ruleId\":\"jwt\"}}],\"tool\":{{\"driver\":{{\"informationUri\":\"https://zecor.dev\",\"name\":\"zecor-secretscan\",\"rules\":[{{\"defaultConfiguration\":{{\"level\":\"error\"}},\"id\":\"jwt\",\"name\":\"jwt\",\"shortDescription\":{{\"text\":\"JSON Web Token\"}}}}],\"version\":\"9.9\"}}}}}}],\"version\":\"2.1.0\"}}",
        f[0].fingerprint()
    );
    assert_eq!(to_sarif(&f, "9.9").to_string(), expected);
}

#[test]
fn one_rule_is_listed_per_kind() {
    let f = vec![finding("npm-token", 1), finding("jwt", 2), finding("npm-token", 3), finding("openai-key", 4)];
    let s = to_sarif(&f, "1");
    let rules = s["runs"][0]["tool"]["driver"]["rules"].as_array().unwrap();
    let ids: Vec<&str> = rules.iter().map(|r| r["id"].as_str().unwrap()).collect();
    assert_eq!(ids, vec!["jwt", "npm-token", "openai-key"]);
    assert_eq!(s["runs"].as_array().unwrap().len(), 1);
    let results = s["runs"][0]["results"].as_array().unwrap();
    assert_eq!(results.len(), 4);
    assert_eq!(results[3]["ruleId"], "openai-key");
    let empty = to_sarif(&[], "1");
    assert!(empty["runs"][0]["results"].as_array().unwrap().is_empty());
    assert!(empty["runs"][0]["tool"]["driver"]["rules"].as_array().unwrap().is_empty());
}

#[test]
fn rules_are_described() {
    assert_eq!(describe("aws-access-key-id"), "AWS access key id");
    assert_eq!(describe("aws-secret-access-key"), "AWS secret access key");
    assert_eq!(describe("github-pat-fine"), "GitHub fine-grained PAT");
    assert_eq!(describe("db-connection-uri"), "database connection URI with inline credentials");
    assert_eq!(describe("high-entropy-token"), "high-entropy token");
    assert_eq!(describe("injection-role"), "prompt-injection phrasing");
    assert_eq!(describe("injection-"), "prompt-injection phrasing");
    assert_eq!(describe("injection"), "potential secret");
    assert_eq!(describe(""), "potential secret");
}

#[test]
fn flags() {
    let a = args(&["path", "--format", "sarif", "--injection", "--format", "text", "--baseline"]);
    assert!(flag_present(&a, "--injection"));
    assert!(!flag_present(&a, "--no-gitignore"));
    assert_eq!(flag_value(&a, "--format"), Some("sarif".to_string()));
    assert_eq!(flag_value(&a, "--baseline"), None);
    assert_eq!(flag_value(&a, "--max-bytes"), None);
    assert!(preceded_by_value_flag(&a, 2));
    assert!(!preceded_by_value_flag(&a, 0));
    assert!(!preceded_by_value_flag(&a, 4));
    assert!(preceded_by_value_flag(&a, 7));
}

#[test]
fn positionals() {
    assert_eq!(positional(&args(&["path", "--format", "text", "--injection", "dir", "b"])), Some("dir".to_string()));
    assert_eq!(positional(&args(&["path", "--max-bytes", "9"])), None);
    assert_eq!(positional(&args(&["path"])), None);
    assert_eq!(positional(&[]), None);
}

#[test]
fn options() {
    let o = scan_options(&args(&["path", "--injection", "--no-gitignore", "--max-bytes", "77"]));
    assert!(o.injection);
    assert!(!o.respect_gitignore);
    assert_eq!(o.max_bytes, 77);
    let d = scan_options(&args(&["path", "--max-bytes", "many"]));
    assert!(!d.injection);
    assert!(d.respect_gitignore);
    assert_eq!(d.max_bytes, 2097152);
}

#[test]
fn formats() {
    assert_eq!(output_format(&args(&["diff"])), Format::Json);
    assert_eq!(output_format(&args(&["diff", "--format", "xml"])), Format::Json);
    assert_eq!(output_format(&args(&["diff", "--format", "sarif"])), Format::Sarif);
    assert_eq!(output_format(&args(&["diff", "--format", "text"])), Format::Text);
}

#[test]
fn commands() {
    assert_eq!(command(&args(&["text"])), Command::Text(None));
    assert_eq!(command(&args(&["text", "a.txt"])), Command::Text(Some("a.txt".to_string())));
    assert_eq!(command(&args(&["diff", "x"])), Command::Diff);
    assert_eq!(command(&args(&["path"])), Command::Path(".".to_string()));
    assert_eq!(command(&args(&["path", "src"])), Command::Path("src".to_string()));
    assert_eq!(command(&args(&["baseline", "src"])), Command::Baseline("src".to_string()));
    assert_eq!(command(&args(&["--help"])), Command::Usage);
    assert_eq!(command(&[]), Command::Usage);
}
