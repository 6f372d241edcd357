use preflightx::scanner::raw::analyze;

#[test]
fn detects_content_after_large_horizontal_gap() {
    let text = format!("const safe = true;{}eval(payload)", " ".repeat(600));
    let analysis = analyze("route.js", text.as_bytes(), Some(&text));
    assert!(
        analysis
            .findings
            .iter()
            .any(|finding| finding.id == "RAW-HIDDEN-AFTER-WHITESPACE")
    );
}

#[test]
fn ordinary_text_has_no_raw_finding() {
    let text = "export const greeting = 'hello';\n";
    assert!(
        analyze("main.js", text.as_bytes(), Some(text))
            .findings
            .is_empty()
    );
}

#[test]
fn detects_content_after_logical_eof() {
    let text = "visible\u{1a}hidden()";
    let analysis = analyze("route.js", text.as_bytes(), Some(text));
    assert!(
        analysis
            .findings
            .iter()
            .any(|finding| finding.id == "RAW-CONTENT-AFTER-EOF")
    );
}

#[test]
fn records_anti_analysis_signals_without_escalating_them_alone() {
    let text = "if (navigator.language !== 'en') debugger; if (navigator.webdriver) process.exit(); if (VirtualBox) Get-Process | x64dbg; setTimeout(run, 10000);";
    let analysis = analyze("main.js", text.as_bytes(), Some(text));
    for expected in [
        "locale or regional environment check",
        "anti-debugging or automation check",
        "long timer delay",
        "virtual-machine environment check",
        "security-tool process enumeration check",
    ] {
        assert!(
            analysis.signals.iter().any(|signal| signal == expected),
            "{expected}"
        );
    }
    assert!(analysis.findings.is_empty());
}

#[test]
fn line_metrics_count_lines_and_longest_line() {
    let text = "ab\nabcd\n";
    let analysis = analyze("a.txt", text.as_bytes(), Some(text));
    assert_eq!(analysis.line_count, 2);
    assert_eq!(analysis.max_line_length, 4);
    let empty = analyze("a.txt", b"", None);
    assert_eq!(empty.line_count, 0);
    assert_eq!(empty.max_line_length, 0);
    let unterminated = analyze("a.txt", b"x\ny", None);
    assert_eq!(unterminated.line_count, 2);
    assert_eq!(unterminated.max_line_length, 1);
}

#[test]
fn extreme_line_is_reported_with_its_length() {
    let text = "a".repeat(10_000);
    let analysis = analyze("min.js", text.as_bytes(), None);
    assert_eq!(analysis.signals, vec!["extreme line length: 10000 bytes".to_owned()]);
    assert_eq!(analysis.findings.len(), 1);
    assert_eq!(analysis.findings[0].id, "RAW-EXTREME-LINE");
    assert_eq!(analysis.findings[0].evidence, vec!["maximum line length: 10000 bytes".to_owned()]);
    assert!(analyze("min.js", "a".repeat(9_999).as_bytes(), None).findings.is_empty());
}

#[test]
fn counts_urls_addresses_and_wallets() {
    let text = "http://a https://b http://c 10.0.0.1 256.1.1.1 0123456789abcdef0123456789abcdef01234567";
    let analysis = analyze("x.txt", text.as_bytes(), Some(text));
    assert!(analysis.signals.contains(&"URL occurrences: 3".to_owned()));
    assert!(analysis.signals.contains(&"IPv4 address occurrences: 1".to_owned()));
    assert!(analysis.signals.contains(&"wallet-like identifiers: 1".to_owned()));
}

#[test]
fn eof_offset_is_reported_in_bytes() {
    let text = "é\u{1a}x";
    let analysis = analyze("x.txt", text.as_bytes(), Some(text));
    assert_eq!(analysis.findings[0].evidence, vec!["content resumes after byte offset 2".to_owned()]);
    let quiet = "abc\u{1a}  \n";
    assert!(analyze("x.txt", quiet.as_bytes(), Some(quiet)).findings.is_empty());
}

#[test]
fn wide_gap_without_content_is_only_a_signal() {
    let text = format!("x{}", " ".repeat(600));
    let analysis = analyze("x.txt", text.as_bytes(), Some(&text));
    assert!(analysis.findings.is_empty());
    assert!(analysis.signals.contains(&"extreme horizontal whitespace: 600 bytes".to_owned()));
}
