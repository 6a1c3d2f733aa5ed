use zecor_secretscan::diff::{announced_lines, line_before_hunk};
use zecor_secretscan::{scan_diff, scan_text, ByteCounts, Finding};

fn finding(rule: &str, file: &str, line: usize, hint: &str) -> Finding {
    Finding { rule: rule.to_string(), file: file.to_string(), line, hint: hint.to_string() }
}

fn never(_: &ByteCounts) -> bool {
    false
}

#[test]
fn diff_tracks_file_and_line() {
    let d = format!(
        "--- a/c.py\n+++ b/c.py\n@@ -1,2 +1,3 @@\n keep\n-old\n+t = \"ghp_{}\"\n",
        "a".repeat(40)
    );
    let f = scan_diff(&d, &never);
    assert_eq!(f[0].file, "c.py");
    assert_eq!(f[0].line, 2);
}

#[test]
fn only_added_lines_are_scanned() {
    let secret = format!("ghp_{}", "a".repeat(40));
    let d = format!("+++ b/f\n@@ -1 +10 @@\n {secret}\n-{secret}\n\\ {secret}\n+{secret}\n+++x{secret}\n");
    let f = scan_diff(&d, &never);
    assert_eq!(f.len(), 1);
    assert_eq!((f[0].file.as_str(), f[0].line), ("f", 11));
    assert_eq!(f[0].hint, "ghp_\u{2026}aa");
}

#[test]
fn a_remark_is_no_line_of_the_file() {
    let d = format!(
        "+++ b/f\n@@ -1 +1 @@\n-old\n\\ No newline at end of file\n+k = ghp_{}\n",
        "a".repeat(40)
    );
    assert_eq!(
        scan_diff(&d, &never),
        vec![finding("github-token", "f", 1, "ghp_\u{2026}aa")]
    );
}

#[test]
fn an_added_line_may_begin_with_plus_signs() {
    let d = format!("+++ b/f\n@@ -0,0 +1 @@\n+++k=ghp_{}\n", "a".repeat(40));
    assert_eq!(
        scan_diff(&d, &never),
        vec![finding("github-token", "f", 1, "ghp_\u{2026}aa")]
    );
    let counted = format!("+++ b/f\n@@ -0,0 +1 @@\n+++\n+ghp_{}\n", "a".repeat(40));
    assert_eq!(scan_diff(&counted, &never)[0].line, 2);
}

#[test]
fn an_announced_line_is_no_file_header() {
    let secret = format!("ghp_{}", "a".repeat(40));
    let at = |d: &str| -> Vec<(String, usize)> {
        scan_diff(d, &never).into_iter().map(|f| (f.file, f.line)).collect()
    };
    let one = format!("+++ b/f\n@@ -0,0 +1 @@\n+++ k={secret}\n");
    assert_eq!(
        scan_diff(&one, &never),
        vec![finding("github-token", "f", 1, "ghp_\u{2026}aa")]
    );
    // The lines after it keep their file and number; beyond the hunk a header is a header.
    let two = format!(
        "+++ b/f\n@@ -3,2 +3,4 @@ fn x()\n a\n+++ g\n-b\n\n+{secret}\n--- a/g\n+++ b/g\n@@ -1 +7 @@\n+{secret}\n"
    );
    assert_eq!(at(&two), vec![("f".to_string(), 6), ("g".to_string(), 7)]);
    // A line that no hunk holds ends what was announced.
    let short = format!("+++ b/f\n@@ -1,9 +1,9 @@\n a\ndiff --git a/g b/g\n+++ b/g\n+{secret}\n");
    assert_eq!(at(&short), vec![("g".to_string(), 1)]);
    // Removed lines and remarks use up nothing.
    let removed = format!("+++ b/f\n@@ -1,3 +1 @@\n-a\n-b\n-c\n\\ x\n+++ {secret}\n+++ b/g\n+{secret}\n");
    assert_eq!(at(&removed), vec![("f".to_string(), 1), ("g".to_string(), 1)]);
}

#[test]
fn a_hunk_header_announces_lines() {
    let n = |h: &str| announced_lines(&h.chars().collect());
    assert_eq!(n("@@ -1,2 +3,14 @@ fn x() +9,9"), 14);
    assert_eq!(n("@@ -1,2 +3 @@"), 1);
    assert_eq!(n("@@ -1,2 +0,0 @@"), 0);
    assert_eq!(n("@@ -1 +3,18446744073709551615 @@"), 18446744073709551615);
    assert_eq!(n("@@ -1 +3,18446744073709551616 @@"), 0);
    assert_eq!(n("@@ -1 +3, @@"), 0);
    assert_eq!(n("@@ -1 + 3 @@"), 0);
    assert_eq!(n("@@ -1 +3\u{663} @@"), 0);
    assert_eq!(n("@@@ -1 -1 +3,4 @@@"), 0);
    assert_eq!(n("@@ -1"), 0);
}

#[test]
fn a_new_file_scans_like_its_text() {
    let text = format!(
        "++ b/other\n+++ x\n\n++ ghp_{}\n@@ -1 +9 @@\n-xoxb-{}",
        "a".repeat(40),
        "b".repeat(10)
    );
    let lines: Vec<&str> = text.lines().collect();
    let mut d = format!("+++ b/new\n@@ -0,0 +1,{} @@\n", lines.len());
    for l in &lines {
        d.push_str(&format!("+{l}\n"));
    }
    let f = scan_diff(&d, &never);
    assert_eq!(f, scan_text(&text, "new", &never));
    assert_eq!(f.iter().map(|x| x.line).collect::<Vec<_>>(), vec![4, 6]);
}

#[test]
fn a_diff_that_adds_a_text_scans_like_the_text() {
    let text = format!(
        "first\n\nTOKEN = 'ghp_{}'\n++x\nhf_{}",
        "a".repeat(40),
        "b".repeat(34)
    );
    let mut d = "+++ b/dir/new file\n@@ -0,0 +1 @@\n".to_string();
    for l in text.lines() {
        d.push_str(&format!("+{l}\n"));
    }
    let f = scan_diff(&d, &never);
    assert_eq!(f, scan_text(&text, "dir/new file", &never));
    assert_eq!(f.iter().map(|x| x.line).collect::<Vec<_>>(), vec![3, 3, 5]);
}

#[test]
fn removed_lines_can_be_taken_out() {
    let secret = format!("ghp_{}", "a".repeat(40));
    let d = format!(
        "--- a/f\n+++ b/f\n@@ -1,3 +7,3 @@\n-{secret}\n x\n-y\n+{secret}\n--- z\n+q {secret}\n"
    );
    let kept: String =
        d.lines().filter(|l| !l.starts_with('-')).map(|l| format!("{l}\n")).collect();
    let f = scan_diff(&d, &never);
    assert_eq!(f, scan_diff(&kept, &never));
    assert_eq!(f.iter().map(|x| x.line).collect::<Vec<_>>(), vec![8, 9]);
}

#[test]
fn removed_lines_change_nothing() {
    let secret = format!("+ghp_{}", "a".repeat(40));
    let with = format!("+++ f\n@@ -1 +3 @@\n-x\n a\n-y\n{secret}\n");
    let without = format!("+++ f\n@@ -1 +3 @@\n a\n{secret}\n");
    assert_eq!(scan_diff(&with, &never), scan_diff(&without, &never));
    assert_eq!(scan_diff(&with, &never)[0].line, 4);
}

#[test]
fn a_file_header_names_the_file() {
    let secret = format!("+ghp_{}", "a".repeat(40));
    let at = |h: &str| scan_diff(&format!("{h}\n{secret}\n"), &never)[0].clone();
    assert_eq!(at("+++ b/dir/x.rs \t").file, "dir/x.rs");
    assert_eq!(at("+++ plain").file, "plain");
    assert_eq!(at("+++ b/b/x").file, "b/x");
    assert_eq!(at("no header").file, "<diff>");
    assert_eq!(at("+++ f").line, 1);
    assert_eq!(at("no header").line, 2);
}

#[test]
fn a_hunk_header_sets_the_line() {
    let secret = format!("+ghp_{}", "a".repeat(40));
    let at = |h: &str| scan_diff(&format!("{h}\n{secret}\n"), &never)[0].line;
    assert_eq!(at("@@ -5,2 +42,3 @@ fn x()"), 42);
    assert_eq!(at("@@ -5,2 +0,0 @@"), 1);
    assert_eq!(at("@@ nothing @@"), 1);
    // Digits of another script are matched but are no number.
    assert_eq!(at("@@ -1 +\u{663} @@"), 1);
    assert_eq!(at("@@ -1 +99999999999999999999999 @@"), 1);
}

#[test]
fn the_line_before_a_hunk() {
    assert_eq!(line_before_hunk(Some("42")), 41);
    assert_eq!(line_before_hunk(Some("0")), 0);
    assert_eq!(line_before_hunk(Some("x")), 0);
    assert_eq!(line_before_hunk(Some("18446744073709551616")), 0);
    assert_eq!(line_before_hunk(None), 0);
}

#[test]
fn an_empty_added_line_is_counted() {
    let d = format!("@@ -1 +1 @@\n+\n+ghp_{}\n", "a".repeat(40));
    assert_eq!(scan_diff(&d, &never)[0].line, 2);
}

#[test]
fn line_numbers_wrap_past_the_largest() {
    let d = format!("@@ -1 +18446744073709551615 @@\n a\n+ghp_{}\n", "a".repeat(40));
    assert_eq!(scan_diff(&d, &never)[0].line, 0);
}
