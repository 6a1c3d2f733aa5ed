use zecor_secretscan::entropy::byte_counts;
use zecor_secretscan::finding::{is_placeholder, mask};
use zecor_secretscan::order::{sort_findings, tree_report};
use zecor_secretscan::report::{
    baseline_report, exit_status, finding_line, summary_line,
};
use zecor_secretscan::text::{
    at_most, parse_u64, split_lines, to_decimal, trimmed, whitespace,
};
use zecor_secretscan::tree::{file_label, looks_binary, too_large};
use zecor_secretscan::{
    apply_baseline, parse_baseline, scan_text, Baseline, ByteCounts, Finding, ScanOpts, Scanner,
};

fn never(_: &ByteCounts) -> bool {
    false
}

fn finding(rule: &str, file: &str, line: usize, hint: &str) -> Finding {
    Finding { rule: rule.to_string(), file: file.to_string(), line, hint: hint.to_string() }
}

#[test]
fn fingerprint_is_line_independent() {
    let a = Finding {
        rule: "r".into(),
        file: "f".into(),
        line: 1,
        hint: "abcd\u{2026}yz".into(),
    };
    let b = Finding {
        line: 99,
        ..a.clone()
    };
    assert_eq!(a.fingerprint(), b.fingerprint());
}

#[test]
fn baseline_suppresses() {
    let fs = scan_text(&format!("k = ghp_{}", "a".repeat(40)), "x", &never);
    let mut base = Baseline::new();
    for f in &fs {
        base.insert(f.fingerprint());
    }
    assert!(!fs.is_empty());
    assert!(apply_baseline(fs, &base).is_empty());
}

#[test]
fn fingerprints_are_fnv_1a() {
    let f = finding("r", "f", 1, "h");
    let mut h: u64 = 0xcbf29ce484222325;
    for b in b"r\0f\0h" {
        h = (h ^ *b as u64).wrapping_mul(0x100000001b3);
    }
    assert_eq!(f.fingerprint(), format!("{h:016x}"));
    let g = finding("", "", 1, "");
    assert_eq!(g.fingerprint(), "08328807b4eb6fed");
    assert_ne!(f.fingerprint(), g.fingerprint());
}

#[test]
fn masks() {
    assert_eq!(mask("123456789"), "1234\u{2026}89");
    assert_eq!(mask("12345678"), "***");
    assert_eq!(mask(""), "***");
    assert_eq!(mask("\u{e9}\u{e9}\u{e9}\u{e9}567\u{e8}\u{e8}"), "\u{e9}\u{e9}\u{e9}\u{e9}\u{2026}\u{e8}\u{e8}");
}

#[test]
fn a_mask_hides_the_text() {
    for t in ["abcdefghi", "abcdefgh", "****", "x"] {
        assert!(!mask(t).contains(t));
    }
    assert_eq!(mask("abcdXXXXyz"), mask("abcdYYYYYYyz"));
}

#[test]
fn placeholders() {
    for t in [
        "EXAMPLE", "xchangemex", "your-key", "aXXXXb", "placeholder", "REDACTED", "dummy", "NotReal",
        "test-value",
    ] {
        assert!(is_placeholder(t), "{t}");
    }
    assert!(!is_placeholder("exampl"));
    assert!(!is_placeholder(""));
}

#[test]
fn counts_of_bytes() {
    let c = byte_counts("aba\u{e9}");
    assert_eq!(c.total, 5);
    assert_eq!(c.counts.len(), 256);
    assert_eq!(c.counts[b'a' as usize], 2);
    assert_eq!(c.counts[b'b' as usize], 1);
    assert_eq!(c.counts[0xc3], 1);
    assert_eq!(c.counts[0xa9], 1);
    assert_eq!(c.counts.iter().sum::<usize>(), c.total);
}

#[test]
fn lines_end_as_they_do_everywhere() {
    for t in ["", "\n", "a", "a\n", "a\r\nb", "a\rb\r", "\r\n\r\n", "a\n\nb\r", "x\r\r\ny"] {
        let expected: Vec<String> = t.lines().map(|l| l.to_string()).collect();
        assert_eq!(split_lines(t), expected, "{t:?}");
    }
}

#[test]
fn white_space_is_what_unicode_says() {
    for n in 0..0x11_0000u32 {
        if let Some(c) = char::from_u32(n) {
            assert_eq!(whitespace(c), c.is_whitespace(), "{n:x}");
        }
    }
}

#[test]
fn trimming() {
    for t in ["", "  ", " a ", "a b", "\u{3000}x\u{2028}"] {
        let cs: Vec<char> = t.chars().collect();
        assert_eq!(trimmed(&cs, 0, cs.len()), t.trim());
    }
}

#[test]
fn dictionary_order() {
    let words = ["", "a", "ab", "b", "\u{e9}", "\u{10000}", "\u{ffff}"];
    for a in words {
        for b in words {
            assert_eq!(at_most(a, b), a <= b);
        }
    }
}

#[test]
fn numbers_as_text() {
    for n in [0usize, 7, 10, 99, 100, 65535, usize::MAX] {
        assert_eq!(to_decimal(n), n.to_string());
    }
    for t in ["", "+", "0", "+7", "007", "-1", "1x", "++1", "18446744073709551615", "18446744073709551616", "\u{663}"] {
        assert_eq!(parse_u64(t), t.parse::<u64>().ok(), "{t}");
    }
}

#[test]
fn findings_are_sorted_and_equals_keep_their_order() {
    let fs = vec![
        finding("b", "y", 1, "1"),
        finding("a", "y", 1, "2"),
        finding("z", "x", 10, "3"),
        finding("z", "x", 9, "4"),
        finding("b", "y", 1, "5"),
        finding("b", "Y", 2, "6"),
        finding("b", "y", 1, "0"),
    ];
    let mut expected = fs.clone();
    expected.sort_by(|a, b| {
        (a.file.as_str(), a.line, a.rule.as_str()).cmp(&(b.file.as_str(), b.line, b.rule.as_str()))
    });
    let sorted = sort_findings(fs);
    assert_eq!(sorted, expected);
    let hints: Vec<&str> = sorted.iter().map(|f| f.hint.as_str()).collect();
    assert_eq!(hints, vec!["6", "4", "3", "2", "1", "5", "0"]);
    assert!(sort_findings(Vec::new()).is_empty());
}

#[test]
fn baseline_lines() {
    let b = parse_baseline("# all\n abc  # x\n\n#\r\nd#e#f\n  \n");
    assert!(b.contains("abc"));
    assert!(b.contains("d"));
    assert!(!b.contains(""));
    assert!(!b.contains("e"));
}

#[test]
fn a_baseline_tells_what_is_new() {
    let mut b = Baseline::new();
    assert!(b.insert("x".to_string()));
    assert!(!b.insert("x".to_string()));
    let old = finding("r", "f", 1, "h");
    let new = finding("r", "f", 1, "other");
    b.insert(old.fingerprint());
    let moved = Finding { line: 40, ..old.clone() };
    assert_eq!(apply_baseline(vec![old, new.clone(), moved], &b), vec![new]);
}

#[test]
fn a_written_baseline_accepts_its_findings() {
    let fs = vec![
        finding("github-token", "a.py", 3, "ghp_\u{2026}zz"),
        finding("github-token", "a.py", 30, "ghp_\u{2026}zz"),
        finding("jwt", "odd # name\nnew", 1, "***"),
    ];
    let text = baseline_report(&fs);
    let first = fs[0].fingerprint();
    let third = fs[2].fingerprint();
    assert_eq!(
        text,
        format!(
            "# zecor-secretscan baseline -- 3 finding(s) accepted\n{first}  # github-token a.py:3\n{third}  # jwt odd # name\nnew:1\n"
        )
    );
    assert!(apply_baseline(fs, &parse_baseline(&text)).is_empty());
    assert_eq!(
        baseline_report(&Vec::new()),
        "# zecor-secretscan baseline -- 0 finding(s) accepted\n"
    );
}

#[test]
fn plain_text_lines() {
    let f = finding("jwt", "a", 12, "***");
    assert_eq!(finding_line(&f), format!("{:22} {}:{}  {}", f.rule, f.file, f.line, f.hint));
    let g = finding("a-rule-name-that-is-longer-than-that", "a", 1, "h");
    assert_eq!(finding_line(&g), format!("{:22} {}:{}  {}", g.rule, g.file, g.line, g.hint));
    assert_eq!(summary_line(&vec![f, g]), "2 finding(s)");
    assert_eq!(summary_line(&Vec::new()), "clean");
}

#[test]
fn exit_statuses() {
    assert_eq!(exit_status(&Vec::new()), 0);
    assert_eq!(exit_status(&vec![finding("r", "f", 1, "h")]), 1);
}

#[test]
fn binary_files_have_a_zero_byte_near_the_start() {
    assert!(looks_binary(&[0u8, 1, 2, 3, b'g', b'h', b'p', b'_']));
    assert!(!looks_binary(b"text"));
    assert!(!looks_binary(&[]));
    let mut far = vec![b'a'; 8192];
    far.push(0);
    assert!(!looks_binary(&far));
    far[8191] = 0;
    assert!(looks_binary(&far));
}

#[test]
fn size_limits() {
    let opts = ScanOpts { max_bytes: 10, ..Default::default() };
    assert!(too_large(Some(11), &opts));
    assert!(!too_large(Some(10), &opts));
    assert!(!too_large(None, &opts));
    let unlimited = ScanOpts { max_bytes: 0, ..Default::default() };
    assert!(!too_large(Some(u64::MAX), &unlimited));
}

#[test]
fn labels_of_files() {
    assert_eq!(file_label("a/b", "/root/a/b"), "a/b");
    assert_eq!(file_label("", "/root/f"), "/root/f");
}

#[test]
fn files_are_decoded_and_scanned() {
    let scanner = Scanner::new();
    let opts = ScanOpts::default();
    let mut bytes = b"\xff\xfe token: ghp_".to_vec();
    bytes.extend(vec![b'a'; 40]);
    let f = scanner.scan_file(&bytes, "l", &opts, &never);
    assert_eq!(f, vec![finding("github-token", "l", 1, "ghp_\u{2026}aa")]);
    bytes.push(0);
    assert!(scanner.scan_file(&bytes, "l", &opts, &never).is_empty());
    let accents = "secret = '\u{e9}\u{e9}\u{e9}\u{e9}\u{e9}\u{e9}\u{e9}\u{e9}\u{e9}\u{e9}\u{e9}\u{e9}'";
    let f = scanner.scan_file(accents.as_bytes(), "l", &opts, &never);
    assert_eq!(f, vec![finding("generic-assignment", "l", 1, "secr\u{2026}\u{e9}'")]);
    // Invalid bytes become replacement characters, which count as text.
    let mut broken = b"secret = '".to_vec();
    broken.extend(vec![0xffu8; 12]);
    broken.push(b'\'');
    let f = scanner.scan_file(&broken, "l", &opts, &never);
    assert_eq!(f, vec![finding("generic-assignment", "l", 1, "secr\u{2026}\u{fffd}'")]);
}

#[test]
fn files_that_are_passed_over_change_nothing() {
    let scanner = Scanner::new();
    let opts = ScanOpts { max_bytes: 100, ..Default::default() };
    let text = format!("token: ghp_{}", "a".repeat(40)).into_bytes();
    let scan = |size: Option<u64>, bytes: Option<&[u8]>, label: &str| {
        scanner.scan_entry(size, bytes, label, &opts, &never)
    };
    let b = scan(Some(51), Some(&text), "b");
    assert_eq!(b, vec![finding("github-token", "b", 1, "ghp_\u{2026}aa")]);
    let a = scan(None, Some(&text), "a");
    assert_eq!(a.len(), 1);
    let oversize = scan(Some(101), Some(&text), "o");
    let unreadable = scan(Some(51), None, "u");
    let mut with_zero = text.clone();
    with_zero.push(0);
    let binary = scan(Some(52), Some(&with_zero), "z");
    assert!(oversize.is_empty() && unreadable.is_empty() && binary.is_empty());
    let report = tree_report(vec![b.clone(), a.clone()]);
    assert_eq!(report, vec![a[0].clone(), b[0].clone()]);
    assert_eq!(tree_report(vec![oversize, b, unreadable, a, binary]), report);
    assert!(tree_report(Vec::new()).is_empty());
}

#[test]
fn fingerprints_are_sixteen_hex_digits() {
    for f in [finding("", "", 0, ""), finding("r", "\u{2026}", 5, "h"), finding("a", "b", 1, "c")] {
        let fp = f.fingerprint();
        assert_eq!(fp.len(), 16);
        assert!(fp.chars().all(|c| c.is_ascii_digit() || ('a'..='f').contains(&c)));
    }
}

#[test]
fn a_written_baseline_accepts_nothing_else() {
    let fs = vec![finding("jwt", "a # b.py", 1, "***")];
    let b = parse_baseline(&baseline_report(&fs));
    assert!(b.contains(&fs[0].fingerprint()));
    assert!(!b.contains(&finding("jwt", "c.py", 1, "***").fingerprint()));
    let new = finding("jwt", "c.py", 1, "***");
    assert_eq!(apply_baseline(vec![new.clone()], &b), vec![new]);
}

#[test]
fn known_findings_survive_edits_above() {
    let below = format!("x\nk = ghp_{}\n", "a".repeat(40));
    let above = format!("one\ntwo token: glpat-{}\n", "b".repeat(20));
    let known = scan_text(&below, "f", &never);
    let b = parse_baseline(&baseline_report(&known));
    let both = scan_text(&format!("{above}{below}"), "f", &never);
    assert_eq!(both.len(), 2);
    assert_eq!(apply_baseline(both, &b), scan_text(&above, "f", &never));
}
