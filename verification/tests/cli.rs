use preflightx::cli::{help, parse, scan_exit_code, CliArg, Command, Format, ScanArgs};
use preflightx::model::{Confidence, Finding, Risk, ScanReport, ScanStatus, ScanSummary, Severity};

fn args(values: &[&str]) -> Vec<CliArg> {
    values.iter().map(|v| CliArg { text: v.to_string(), utf8: true }).collect()
}

fn scan(command: Result<Command, String>) -> ScanArgs {
    match command {
        Ok(Command::Scan(arguments)) => arguments,
        other => panic!("expected a scan, got {other:?}"),
    }
}

fn same(a: &ScanArgs, path: &str, format: Format, fail_on: Severity, flags: [bool; 5]) {
    assert_eq!(a.path, path);
    assert_eq!(a.format, format);
    assert_eq!(a.fail_on, fail_on);
    assert_eq!([a.quick, a.deep, a.history, a.dependencies, a.online], flags);
}

#[test]
fn accepts_short_and_explicit_scan_forms() {
    let a = scan(parse(&args(&["."])));
    same(&a, ".", Format::Terminal, Severity::High, [false; 5]);
    let a = scan(parse(&args(&["scan", "repo", "--format", "json", "--fail-on=medium"])));
    same(&a, "repo", Format::Json, Severity::Medium, [false; 5]);
}

#[test]
fn accepts_version_subcommand_and_flag() {
    assert!(matches!(parse(&args(&["version"])), Ok(Command::Version)));
    assert!(matches!(parse(&args(&["--version"])), Ok(Command::Version)));
}

#[test]
fn rejects_missing_paths_and_unsupported_options() {
    assert_eq!(parse(&args(&["scan"])).unwrap_err(), "scan requires a path".to_owned());
    assert_eq!(parse(&args(&["repo", "--online"])).unwrap_err(), "--online requires --dependencies".to_owned());
}

#[test]
fn accepts_markdown_and_sarif_output_formats() {
    for (value, format) in [("markdown", Format::Markdown), ("sarif", Format::Sarif)] {
        let a = scan(parse(&args(&["repo", "--format", value])));
        same(&a, "repo", format, Severity::High, [false; 5]);
    }
}

#[test]
fn parses_explicit_deep_history_and_online_dependency_modes() {
    let a = scan(parse(&args(&["repo", "--deep", "--history"])));
    assert!(a.deep && a.history);
    let a = scan(parse(&args(&["repo", "--dependencies", "--online"])));
    assert!(a.dependencies && a.online);
    assert_eq!(
        parse(&args(&["repo", "--quick", "--deep"])).unwrap_err(),
        "--quick and --deep cannot be combined".to_owned()
    );
}

#[test]
fn other_commands_and_their_errors() {
    assert!(matches!(parse(&[]), Ok(Command::Help)));
    assert!(matches!(parse(&args(&["-h"])), Ok(Command::Help)));
    assert_eq!(parse(&args(&["--help", "x"])).unwrap_err(), "unexpected argument");
    assert!(matches!(parse(&args(&["rules"])), Ok(Command::Rules)));
    assert!(matches!(parse(&args(&["rules", "show", "FS-PATH-ESCAPE"])), Ok(Command::Rule(id)) if id == "FS-PATH-ESCAPE"));
    assert_eq!(parse(&args(&["rules", "show"])).unwrap_err(), "rules show requires a rule ID");
    assert_eq!(parse(&args(&["rules", "x"])).unwrap_err(), "expected rules show <rule-id>");
    assert!(matches!(parse(&args(&["explain", "X"])), Ok(Command::Rule(id)) if id == "X"));
    assert!(matches!(parse(&args(&["db", "status"])), Ok(Command::DbStatus)));
    assert!(matches!(parse(&args(&["db", "update"])), Ok(Command::DbUpdate)));
    assert_eq!(parse(&args(&["db"])).unwrap_err(), "expected db status or db update");
    assert!(matches!(parse(&args(&["doctor"])), Ok(Command::Doctor)));
    assert!(matches!(parse(&args(&["diff", "abcdef1..HEAD"])), Ok(Command::Diff(r)) if r == "abcdef1..HEAD"));
    assert_eq!(parse(&args(&["diff", "abc"])).unwrap_err(), "diff requires <good-commit>..HEAD");
    assert_eq!(
        parse(&args(&["diff", "abc..HEAD"])).unwrap_err(),
        "diff requires a hexadecimal commit ID followed by ..HEAD"
    );
}

#[test]
fn option_values_are_checked() {
    assert_eq!(parse(&args(&["repo", "--format"])).unwrap_err(), "--format requires a value");
    assert_eq!(parse(&args(&["repo", "--format=xml"])).unwrap_err(), "unsupported format: xml");
    assert_eq!(parse(&args(&["repo", "--fail-on", "SEVERE"])).unwrap_err(), "unsupported severity: severe");
    let a = scan(parse(&args(&["repo", "--fail-on", "CRITICAL"])));
    assert_eq!(a.fail_on, Severity::Critical);
    assert_eq!(parse(&args(&["repo", "--bogus"])).unwrap_err(), "unknown option: --bogus");
    assert_eq!(parse(&args(&["a", "b"])).unwrap_err(), "unexpected extra path argument");
    let raw = vec![
        CliArg { text: "repo".to_owned(), utf8: true },
        CliArg { text: "--format".to_owned(), utf8: true },
        CliArg { text: "j\u{fffd}".to_owned(), utf8: false },
    ];
    assert_eq!(parse(&raw).unwrap_err(), "format must be valid UTF-8");
    assert!(help().starts_with("Pre-execution security scanner"));
}

#[test]
fn exit_codes_follow_status_and_policy() {
    let finding = Finding {
        id: "X".to_owned(),
        severity: Severity::High,
        confidence: Confidence::High,
        score: 80,
        title: String::new(),
        message: String::new(),
        file: None,
        line: None,
        evidence: Vec::new(),
    };
    let mut report = ScanReport {
        schema_version: 1,
        scanner: "preflightx".to_owned(),
        scanner_version: "0.1.0".to_owned(),
        target: ".".to_owned(),
        profile: "default".to_owned(),
        status: ScanStatus::Complete,
        network_access: "disabled".to_owned(),
        risk: Risk { severity: Severity::High, score: 80 },
        summary: ScanSummary::default(),
        files: Vec::new(),
        dependencies: Vec::new(),
        findings: vec![finding],
        unresolved_edges: Vec::new(),
        incomplete_reasons: Vec::new(),
    };
    assert_eq!(scan_exit_code(&report, Severity::High), 1);
    assert_eq!(scan_exit_code(&report, Severity::Critical), 0);
    report.status = ScanStatus::Incomplete;
    assert_eq!(scan_exit_code(&report, Severity::Critical), 2);
}

#[test]
fn the_rule_listing_names_each_rule_once_and_explains_it() {
    let listing = preflightx::rules::list();
    let lines: Vec<&str> = listing.lines().collect();
    assert_eq!(lines.len(), 37);
    let ids: Vec<&str> = lines.iter().map(|line| line.split("  ").next().unwrap()).collect();
    let mut sorted = ids.clone();
    sorted.sort();
    sorted.dedup();
    assert_eq!(sorted.len(), 37);
    for line in &lines {
        let (id, description) = line.split_once("  ").unwrap();
        let text = preflightx::rules::show(id).unwrap();
        assert!(text.starts_with(&format!("{id}\n{description}\n\n")));
    }
    assert_eq!(preflightx::rules::show("NO-SUCH-RULE"), None);
}
