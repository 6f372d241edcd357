use preflightx::model::{Confidence, Finding, Risk, ScanReport, ScanStatus, ScanSummary, Severity};
use preflightx::report::{
    confidence_name, markdown, markdown_escape, sanitize, sarif_level, sarif_run, sarif_uri, status_label,
    terminal,
};

#[test]
fn escapes_terminal_control_characters() {
    assert_eq!(sanitize("file\x1b[31m\nname"), "file\\u{1b}[31m\\nname");
}

#[test]
fn markdown_text_is_escaped() {
    assert_eq!(markdown_escape("bad <script> | `x`"), "bad &lt;script&gt; \\| \\`x\\`");
    assert_eq!(markdown_escape("parser\nlimit"), "parser\\nlimit");
    assert_eq!(markdown_escape("a\\b"), "a\\\\b");
}

#[test]
fn sarif_uris_are_percent_encoded() {
    assert_eq!(sarif_uri("src/a b.js"), "src/a%20b.js");
    assert_eq!(sarif_uri("dir\\é.js"), "dir/%C3%A9.js");
    assert_eq!(sarif_uri("a-b_c.d~e"), "a-b_c.d~e");
}

#[test]
fn labels_match_the_report_vocabulary() {
    assert_eq!(sarif_level(Severity::Critical), "error");
    assert_eq!(sarif_level(Severity::High), "error");
    assert_eq!(sarif_level(Severity::Medium), "warning");
    assert_eq!(sarif_level(Severity::Low), "note");
    assert_eq!(sarif_level(Severity::Informational), "none");
    assert_eq!(status_label(ScanStatus::Complete), "COMPLETE");
    assert_eq!(status_label(ScanStatus::Incomplete), "INCOMPLETE");
    assert_eq!(confidence_name(Confidence::VeryHigh), "VeryHigh");
}

fn sample_report() -> ScanReport {
    ScanReport {
        schema_version: 2,
        scanner: "preflightx".to_owned(),
        scanner_version: "0.1.0".to_owned(),
        target: "fixture".to_owned(),
        profile: "default".to_owned(),
        status: ScanStatus::Complete,
        network_access: "disabled".to_owned(),
        risk: Risk {
            severity: Severity::Critical,
            score: 98,
        },
        summary: ScanSummary::default(),
        files: Vec::new(),
        dependencies: Vec::new(),
        findings: vec![Finding {
            id: "REMOTE-EXECUTION".to_owned(),
            severity: Severity::Critical,
            confidence: Confidence::VeryHigh,
            score: 98,
            title: "Remote data reaches code execution".to_owned(),
            message: "Network response reaches Function".to_owned(),
            file: Some("src/a b.js".to_owned()),
            line: Some(9),
            evidence: vec!["axios.get".to_owned()],
        }],
        unresolved_edges: Vec::new(),
        incomplete_reasons: Vec::new(),
    }
}

#[test]
fn emits_sarif_21_with_rule_locations_and_risk_properties() {
    let report = sample_report();
    let run = sarif_run(&report);
    assert_eq!(run.sarif_version, "2.1.0");
    assert_eq!(run.rules.len(), 1);
    assert_eq!(run.results[0].level, "error");
    assert_eq!(run.results[0].uri.as_deref(), Some("src/a%20b.js"));
    assert_eq!(run.results[0].line, Some(9));
    assert_eq!(run.results[0].risk_score, 98);
}

#[test]
fn markdown_has_a_versioned_header_and_stable_report_sections() {
    let rendered = markdown(&sample_report());
    assert!(rendered.starts_with("<!-- PreflightX Markdown v2 -->\n\n# PreflightX"));
    for section in [
        "**Target:**",
        "**Profile:**",
        "**Status:**",
        "**Risk:**",
        "**Network:**",
        "**Rule:**",
    ] {
        assert!(rendered.contains(section), "missing Markdown section {section}");
    }
}

#[test]
fn markdown_escapes_untrusted_text_and_mentions_incomplete_coverage() {
    let mut report = sample_report();
    report.findings[0].title = "bad <script> | `x`".to_owned();
    report.status = ScanStatus::Incomplete;
    report.incomplete_reasons.push("parser\nlimit".to_owned());
    let rendered = markdown(&report);
    assert!(rendered.contains("bad &lt;script&gt; \\| \\`x\\`"));
    assert!(rendered.contains("## Scan incomplete"));
    assert!(rendered.contains("parser\\nlimit"));
}

#[test]
fn markdown_report_is_exact() {
    let rendered = markdown(&sample_report());
    assert_eq!(
        rendered,
        "<!-- PreflightX Markdown v2 -->\n\n# PreflightX 0.1.0\n\n- **Target:** `fixture`\n- **Profile:** default\n\
- **Status:** COMPLETE\n- **Files:** 0\n- **Risk:** CRITICAL (98/100)\n- **Network:** disabled\n\n\
## CRITICAL \u{2014} Remote data reaches code execution\n\nNetwork response reaches Function\n\n\
**Location:** `src/a b.js:9`\n\n**Rule:** `REMOTE-EXECUTION`  \n**Confidence:** VeryHigh  \n**Risk:** 98/100\n\
\n- `axios.get`\n\nNo repository code was executed during this scan.\n"
    );
}

#[test]
fn terminal_report_is_exact_and_escapes_controls() {
    let mut report = sample_report();
    report.target = "repo\x1b[2J".to_owned();
    report.status = ScanStatus::Incomplete;
    report.incomplete_reasons.push("entry limit reached".to_owned());
    report.unresolved_edges.push("dynamic import in a.js".to_owned());
    let rendered = terminal(&report);
    assert_eq!(
        rendered,
        "preflightx 0.1.0\nScanning: repo\\u{1b}[2J\nProfile: default\n\n\
Files        0\nDirectories  0\nSymlinks     0\nContent      0 bytes\n\n\
CRITICAL  REMOTE-EXECUTION\nRemote data reaches code execution\nsrc/a b.js:9\n\
Network response reaches Function\n  axios.get\nConfidence: VeryHigh  Risk: 98/100\n\n\
Repository risk: CRITICAL \u{2014} 98/100\nScan status: INCOMPLETE\n\nSCAN INCOMPLETE\n  - entry limit reached\n\
\nUnresolved execution edges:\n  - dynamic import in a.js\n\n\
No repository code was executed during this scan.\nNetwork access: disabled\n"
    );
    assert!(!rendered.chars().any(|c| c != '\n' && c.is_control()));
}

#[test]
fn terminal_reports_nothing_found_for_a_clean_complete_scan() {
    let mut report = sample_report();
    report.findings.clear();
    let rendered = terminal(&report);
    assert!(rendered.contains("\nNo significant malicious indicators were identified by this version of preflightx.\n"));
}

#[test]
fn sarif_rules_are_sorted_and_indexed() {
    let mut report = sample_report();
    let mut second = report.findings[0].clone();
    second.id = "A-RULE".to_owned();
    second.severity = Severity::Low;
    second.file = None;
    second.title = "first title".to_owned();
    let mut third = second.clone();
    third.title = "later title".to_owned();
    report.findings.push(second);
    report.findings.push(third);
    let run = sarif_run(&report);
    assert_eq!(run.rules.len(), 2);
    assert_eq!(run.rules[0].id, "A-RULE");
    assert_eq!(run.rules[0].title, "first title");
    assert_eq!(run.rules[0].level, "note");
    assert_eq!(run.rules[1].id, "REMOTE-EXECUTION");
    assert_eq!(run.results[0].rule_index, 1);
    assert_eq!(run.results[1].rule_index, 0);
    assert_eq!(run.results[2].rule_index, 0);
    assert_eq!(run.results[1].uri, None);
    assert_eq!(run.results[1].confidence, "veryhigh");
    assert_eq!(run.status, "complete");
}

#[test]
fn sarif_uris_hold_only_safe_characters() {
    let uri = sarif_uri("weird\u{7}<name> é?.js");
    assert!(uri.chars().all(|c| c.is_ascii_alphanumeric() || "/-_.~%".contains(c)));
    assert_eq!(uri, "weird%07%3Cname%3E%20%C3%A9%3F.js");
}
