use preflightx::json::Json;
use preflightx::model::{
    Confidence, DependencyRecord, FileKind, Finding, ScanStatus, Severity,
};
use preflightx::scanner::classifier::{classify, unscanned_record};
use preflightx::scanner::graph::{roots, MAX_EXECUTION_ROOTS};
use preflightx::scanner::js::flow::ModuleFlow;
use preflightx::scanner::js::semantic::ModuleFacts;
use preflightx::scanner::js::{EmbeddedRoot, JsAnalysis};
use preflightx::scanner::limits::{ScanLimits, ScanOptions};
use preflightx::scanner::order::{deduplicate_dependencies, order_files, order_findings};
use preflightx::scanner::walker::WalkResult;
use preflightx::scanner::{
    append_limited, artifact_path, blob_findings, safe_path_component, without_id, Origin, ScanState,
};

fn empty_js() -> JsAnalysis {
    JsAnalysis {
        language: None,
        findings: Vec::new(),
        incomplete_reasons: Vec::new(),
        modules: Vec::new(),
        embedded_roots: Vec::new(),
    }
}

fn finding(id: &str, severity: Severity, file: Option<&str>) -> Finding {
    Finding {
        id: id.to_owned(),
        severity,
        confidence: Confidence::High,
        score: 10,
        title: String::new(),
        message: String::new(),
        file: file.map(str::to_owned),
        line: None,
        evidence: Vec::new(),
    }
}

fn dependency(name: &str, version: Option<&str>, source: &str) -> DependencyRecord {
    DependencyRecord {
        ecosystem: "npm".to_owned(),
        name: name.to_owned(),
        version: version.map(str::to_owned),
        integrity: None,
        resolved: None,
        source_file: source.to_owned(),
    }
}

fn module(id: &str, bytes: u64) -> ModuleFacts {
    ModuleFacts {
        id: id.to_owned(),
        path: id.to_owned(),
        flow_enabled: true,
        source_bytes: bytes,
        imports: Vec::new(),
        calls: Vec::new(),
        flow: ModuleFlow { imports: Vec::new(), exports: Vec::new(), reexports: Vec::new(), functions: Vec::new(), body: Vec::new() },
    }
}

fn parse(text: &str) -> Result<Json, String> {
    fn to_json(value: &serde_json::Value) -> Json {
        match value {
            serde_json::Value::Null => Json::Null,
            serde_json::Value::Bool(b) => Json::Bool(*b),
            serde_json::Value::Number(n) => Json::Number(n.to_string()),
            serde_json::Value::String(s) => Json::Str(s.clone()),
            serde_json::Value::Array(items) => Json::Array(items.iter().map(to_json).collect()),
            serde_json::Value::Object(map) => Json::Object(map.iter().map(|(k, v)| (k.clone(), to_json(v))).collect()),
        }
    }
    serde_json::from_str::<serde_json::Value>(text).map(|v| to_json(&v)).map_err(|e| e.to_string())
}

#[test]
fn append_limited_keeps_what_fits_and_notes_the_rest() {
    let mut target = vec![1, 2];
    let mut notes = Vec::new();
    append_limited(&mut target, vec![3, 4, 5], 4, "limit", &mut notes);
    assert_eq!(target, vec![1, 2, 3, 4]);
    assert_eq!(notes, vec!["limit".to_owned()]);
    append_limited(&mut target, vec![6], 10, "limit", &mut notes);
    assert_eq!(target, vec![1, 2, 3, 4, 6]);
    assert_eq!(notes.len(), 1);
}

#[test]
fn executable_content_is_dropped_only_when_javascript_reports() {
    let kept = without_id(
        vec![finding("FILE-EXECUTABLE-CONTENT", Severity::Medium, None), finding("RAW", Severity::Low, None)],
        "FILE-EXECUTABLE-CONTENT",
    );
    assert_eq!(kept.len(), 1);
    assert_eq!(kept[0].id, "RAW");
}

#[test]
fn findings_are_ordered_by_severity_file_and_id_stably() {
    let ordered = order_findings(vec![
        finding("B", Severity::Low, Some("b.js")),
        finding("A", Severity::High, Some("z.js")),
        finding("C", Severity::Low, None),
        finding("A", Severity::Low, Some("b.js")),
        finding("B", Severity::Low, Some("b.js")),
    ]);
    let ids: Vec<(&str, Option<&str>)> = ordered.iter().map(|f| (f.id.as_str(), f.file.as_deref())).collect();
    assert_eq!(
        ids,
        vec![("A", Some("z.js")), ("C", None), ("A", Some("b.js")), ("B", Some("b.js")), ("B", Some("b.js"))]
    );
}

#[test]
fn files_are_ordered_by_path() {
    let files = order_files(vec![
        unscanned_record("b.txt", 1, false, None),
        unscanned_record("a/z.txt", 1, false, None),
        unscanned_record("a.txt", 1, false, None),
    ]);
    let paths: Vec<&str> = files.iter().map(|f| f.path.as_str()).collect();
    assert_eq!(paths, vec!["a.txt", "a/z.txt", "b.txt"]);
}

#[test]
fn dependencies_are_sorted_and_the_first_record_wins() {
    let mut first = dependency("left-pad", Some("1.0.0"), "package-lock.json");
    first.integrity = Some("first".to_owned());
    let mut second = dependency("left-pad", Some("1.0.0"), "package-lock.json");
    second.integrity = Some("second".to_owned());
    let unique = deduplicate_dependencies(vec![
        dependency("zeta", None, "a"),
        first,
        dependency("left-pad", None, "package-lock.json"),
        second,
    ]);
    let names: Vec<(&str, Option<&str>)> = unique.iter().map(|d| (d.name.as_str(), d.version.as_deref())).collect();
    assert_eq!(names, vec![("left-pad", None), ("left-pad", Some("1.0.0")), ("zeta", None)]);
    assert_eq!(unique[1].integrity.as_deref(), Some("first"));
}

#[test]
fn artifact_paths_are_safe_components() {
    assert_eq!(artifact_path(&dependency("@scope/pkg", Some("1.2.3"), "x")), "artifacts/npm/@scope/pkg/1.2.3.tgz");
    assert_eq!(artifact_path(&dependency("../evil", None, "x")), "artifacts/npm/unknown/evil/unknown.tgz");
    let component: String = safe_path_component(&"a b*c".chars().collect::<Vec<_>>()).into_iter().collect();
    assert_eq!(component, "a_b_c");
}

#[test]
fn package_scripts_and_build_configs_are_roots() {
    let text = r#"{"scripts":{"postinstall":"node setup.js","test":"jest"}}"#;
    let analysis = roots("pkg/package.json", Some(text), &parse(text), &[]);
    assert!(!analysis.incomplete);
    assert_eq!(analysis.roots.len(), 1);
    assert_eq!(analysis.roots[0].file, "pkg/setup.js");
    assert_eq!(analysis.roots[0].trigger, "npm postinstall (pkg/package.json)");
    assert_eq!(analysis.roots[0].line, Some(1));
    let config = roots("vite.config.js", Some("export default {}"), &Err("x".to_owned()), &["executable_config".to_owned()]);
    assert_eq!(config.roots[0].trigger, "build config vite.config.js");
    let tasks = "{ tasks: [ { command: 'node ./.vscode/run.js', runOptions: { runOn: 'folderOpen' } } ] }";
    let parsed = json5::from_str::<serde_json::Value>(tasks).map_err(|e| e.to_string());
    let parsed = parsed.map(|v| match parse(&v.to_string()) { Ok(j) => j, Err(_) => Json::Null });
    let tasks_roots = roots(".vscode/tasks.json", Some(tasks), &parsed, &[]);
    assert_eq!(tasks_roots.roots.len(), 1);
    assert_eq!(tasks_roots.roots[0].file, ".vscode/run.js");
    assert_eq!(tasks_roots.roots[0].trigger, "VS Code folderOpen task");
    assert!(MAX_EXECUTION_ROOTS > 0);
}

#[test]
fn absorbing_a_file_keeps_its_record_findings_and_modules() {
    let mut state = ScanState::new(&ScanLimits::default(), &ScanOptions::default(), Err("threat database unavailable".to_owned()));
    let text = r#"{"scripts":{"postinstall":"node setup.js"}}"#;
    let classification = classify("package.json", text.as_bytes());
    let mut js = empty_js();
    js.modules.push(module("setup.js", 10));
    js.embedded_roots.push(EmbeddedRoot { module_id: "index.html#embedded-script-0".to_owned(), line: 3 });
    state.absorb(Origin::Tree, "package.json", text.len() as u64, false, None, classification, &parse(text), js);
    assert_eq!(state.files.len(), 1);
    assert_eq!(state.files[0].path, "package.json");
    assert!(state.files[0].content_scanned);
    assert_eq!(state.modules.len(), 1);
    assert_eq!(state.semantic_bytes, 10);
    assert_eq!(state.roots.len(), 2);
    assert_eq!(state.roots[1].trigger, "inline script in HTML document package.json");
    assert!(state.findings.iter().any(|f| f.id == "NPM-LIFECYCLE-SCRIPT"));
    assert!(state.incomplete.contains(&"threat database unavailable".to_owned()));
}

#[test]
fn semantic_limit_is_recorded_once_and_archive_members_are_counted() {
    let mut state = ScanState::new(&ScanLimits::default(), &ScanOptions::default(), Err("db".to_owned()));
    let mut js = empty_js();
    js.modules.push(module("huge.js", 70_000_000));
    js.modules.push(module("small.js", 5));
    let classification = classify("a.js", b"x");
    state.absorb(Origin::Member, "a.zip!/a.js", 1, true, None, classification, &Err("n/a".to_owned()), js);
    assert_eq!(state.modules.len(), 1);
    assert_eq!(state.modules[0].id, "small.js");
    assert!(state.semantic_limit_reported);
    let message = "JS/TS global semantic analysis limit of 20000 modules or 67108864 source bytes reached before archive member a.zip!/a.js; additional modules were omitted";
    assert!(state.incomplete.contains(&message.to_owned()));
    assert_eq!(state.archive_files, 1);
    assert_eq!(state.archive_bytes, 1);
}

#[test]
fn concluding_orders_and_limits_the_report() {
    let limits = ScanLimits { max_findings: 2, ..ScanLimits::default() };
    let mut state = ScanState::new(&limits, &ScanOptions::default(), Err("db".to_owned()));
    state.findings.push(finding("LOW", Severity::Low, Some("b")));
    state.dependencies.push(dependency("x", Some("1"), "package.json"));
    let mut walk = WalkResult::new("/tmp\\repo".to_owned());
    walk.entries = 3;
    walk.files = 2;
    walk.findings.push(finding("HIGH", Severity::High, Some("a")));
    walk.findings.push(finding("MORE", Severity::Medium, Some("c")));
    walk.record_special("fifo");
    let report = state.finish(walk, Some(Err("no repository".to_owned())));
    assert_eq!(report.target, "/tmp/repo");
    assert_eq!(report.profile, "default");
    assert_eq!(report.network_access, "disabled");
    assert_eq!(report.status, ScanStatus::Incomplete);
    assert_eq!(report.findings.len(), 2);
    assert_eq!(report.findings[0].id, "HIGH");
    assert_eq!(report.risk.severity, Severity::High);
    assert_eq!(report.summary.findings, 2);
    assert_eq!(report.summary.dependencies, 1);
    assert_eq!(report.files.len(), 1);
    assert_eq!(report.files[0].kind, FileKind::Special);
    assert!(report.incomplete_reasons.contains(&"finding limit reached".to_owned()));
    assert!(report.incomplete_reasons.contains(&"Git history analysis failed: no repository".to_owned()));
    let mut sorted = report.incomplete_reasons.clone();
    sorted.sort();
    sorted.dedup();
    assert_eq!(sorted, report.incomplete_reasons);
}

#[test]
fn online_budget_and_archive_limits_follow_the_profile() {
    let options = ScanOptions { quick: true, ..ScanOptions::default() };
    let mut state = ScanState::new(&ScanLimits::default(), &options, Err("db".to_owned()));
    for i in 0..60 {
        state.dependencies.push(dependency(&format!("p{i}"), Some("1"), "package-lock.json"));
    }
    assert_eq!(state.online_plan(), 50);
    assert!(state.incomplete.contains(&"online npm artifact limit of 50 reached".to_owned()));
    state.online_time_spent();
    assert!(state.incomplete.contains(&"online dependency time limit of 60 seconds reached".to_owned()));
    let limits = state.archive_limits(1234);
    assert_eq!(limits.depth, 1);
    assert_eq!(limits.members, 5000);
    assert_eq!(limits.expanded_bytes, 64 * 1024 * 1024);
    assert_eq!(limits.member_bytes, 16 * 1024 * 1024);
    assert_eq!(limits.time_limit_ms, 1234);
    assert_eq!(state.archive_time_ms(), 5000);
    assert_eq!(state.artifact_limits(7).depth, 4);
}

#[test]
fn git_blobs_combine_their_verdicts() {
    let text = b"plain notes";
    let classification = classify("notes.txt", text);
    let (findings, notes) = blob_findings("notes.txt", classification, &Err("n/a".to_owned()), empty_js(), &Err("db".to_owned()));
    assert!(findings.is_empty());
    assert_eq!(notes, vec!["db".to_owned()]);
}

#[test]
fn the_walk_records_entries_limits_and_special_files() {
    let limits = ScanLimits { max_entries: 1, max_file_bytes: 4, max_total_bytes: 6, ..ScanLimits::default() };
    let mut walk = WalkResult::new("root".to_owned());
    assert!(walk.next_entry(&limits));
    assert!(!walk.next_entry(&limits));
    assert!(walk.incomplete_reasons.contains(&"maximum entry count 1 reached".to_owned()));
    assert!(!walk.admit_file(&limits, "large.bin", 5));
    assert!(walk.incomplete_reasons.contains(&"file exceeds 4 byte limit: large.bin".to_owned()));
    assert!(walk.admit_file(&limits, "a", 4));
    assert!(walk.accept_content(&limits, "a", 4));
    assert!(!walk.admit_file(&limits, "b", 3));
    assert!(walk.incomplete_reasons.contains(&"total content byte limit 6 reached before b".to_owned()));
    walk.record_symlink("link", "/etc", true, true);
    assert_eq!(walk.findings.last().unwrap().id, "FS-SYMLINK-ESCAPE");
    walk.record_symlink("abs", "/repo/x", false, true);
    assert_eq!(walk.findings.last().unwrap().id, "FS-ABSOLUTE-SYMLINK");
    walk.path_escaped("escape");
    assert_eq!(walk.findings.last().unwrap().id, "FS-PATH-ESCAPE");
    walk.record_special("pipe");
    assert_eq!(walk.special_files, 1);
    assert_eq!(walk.findings.last().unwrap().id, "FS-SPECIAL-FILE");
    let before = walk.incomplete_reasons.len();
    walk.incomplete("special file was not read: pipe".to_owned());
    assert_eq!(walk.incomplete_reasons.len(), before);
    assert!(!walk.enter_directory(&ScanLimits { max_depth: 2, ..ScanLimits::default() }, 2, "deep"));
}

fn concluded_twice() -> (preflightx::model::ScanReport, preflightx::model::ScanReport) {
    let build = || {
        let limits = ScanLimits { max_findings: 3, ..ScanLimits::default() };
        let mut state = ScanState::new(&limits, &ScanOptions::default(), Err("db".to_owned()));
        state.findings.push(finding("B", Severity::Low, Some("z")));
        state.findings.push(finding("A", Severity::Critical, None));
        state.note("entry limit reached".to_owned());
        let mut walk = WalkResult::new("repo".to_owned());
        walk.findings.push(finding("C", Severity::Medium, Some("a")));
        state.finish(walk, None)
    };
    (build(), build())
}

#[test]
fn reports_are_deterministic_for_the_same_inputs() {
    let (first, second) = concluded_twice();
    let ids = |r: &preflightx::model::ScanReport| r.findings.iter().map(|f| f.id.clone()).collect::<Vec<_>>();
    assert_eq!(ids(&first), ids(&second));
    assert_eq!(ids(&first), vec!["A", "C", "B"]);
    assert_eq!(first.incomplete_reasons, second.incomplete_reasons);
    assert_eq!(first.status, second.status);
    assert_eq!(first.risk.score, second.risk.score);
}

#[test]
fn a_noted_shortfall_makes_the_scan_exit_with_two() {
    let (report, _) = concluded_twice();
    assert_eq!(report.status, ScanStatus::Incomplete);
    assert_eq!(preflightx::cli::scan_exit_code(&report, Severity::Informational), 2);
}

#[test]
fn dropped_findings_are_noted_and_the_report_stays_under_the_limit() {
    let limits = ScanLimits { max_findings: 1, ..ScanLimits::default() };
    let state = ScanState::new(&limits, &ScanOptions::default(), Err("db".to_owned()));
    let mut walk = WalkResult::new("repo".to_owned());
    walk.findings.push(finding("X", Severity::Low, None));
    walk.findings.push(finding("Y", Severity::Low, None));
    let report = state.finish(walk, None);
    assert_eq!(report.findings.len(), 1);
    assert_eq!(report.incomplete_reasons, vec!["finding limit reached".to_owned()]);
    assert_eq!(report.status, ScanStatus::Incomplete);
}

#[test]
fn a_complete_scan_fails_the_policy_when_its_risk_reaches_it() {
    let state = ScanState::new(&ScanLimits::default(), &ScanOptions::default(), Err("db".to_owned()));
    let mut walk = WalkResult::new("repo".to_owned());
    walk.findings.push(finding("M", Severity::Medium, None));
    let report = state.finish(walk, None);
    assert_eq!(report.status, ScanStatus::Complete);
    assert_eq!(report.risk.severity, Severity::Medium);
    assert_eq!(preflightx::cli::scan_exit_code(&report, Severity::Medium), 1);
    assert_eq!(preflightx::cli::scan_exit_code(&report, Severity::High), 0);
}

#[test]
fn reports_carry_the_second_schema_version() {
    let mut state = ScanState::new(&ScanLimits::default(), &ScanOptions::default(), Err("db".to_owned()));
    state.findings.push(finding("LOW", Severity::Low, Some("b")));
    let walk = WalkResult::new("/tmp/repo".to_owned());
    let report = state.finish(walk, None);
    assert_eq!(report.schema_version, 2);
}
