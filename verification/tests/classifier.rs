use preflightx::scanner::classifier::{
    classify, decode_text, file_extension, is_executable_mime, looks_like_executable_text,
    mismatch_finding, roles,
};

#[test]
fn flags_javascript_disguised_as_svg() {
    assert!(
        mismatch_finding(
            "asset.svg",
            Some("svg"),
            None,
            Some("const cp = require('child_process');")
        )
        .is_some()
    );
}

#[test]
fn accepts_structural_svg_text() {
    assert!(
        mismatch_finding(
            "asset.svg",
            Some("svg"),
            None,
            Some("<svg xmlns='http://www.w3.org/2000/svg'></svg>")
        )
        .is_none()
    );
}

#[test]
fn classifies_nul_bytes_as_binary() {
    let (encoding, text) = decode_text(b"\0\0\0\0");
    assert_eq!(encoding.as_deref(), Some("binary"));
    assert!(text.is_none());
}

#[test]
fn decodes_byte_order_marks() {
    assert_eq!(decode_text(b"\xef\xbb\xbfhi"), (Some("utf-8-bom".to_owned()), Some("hi".to_owned())));
    assert_eq!(decode_text(b"\xff\xfeh\0i\0"), (Some("utf-16le".to_owned()), Some("hi".to_owned())));
    assert_eq!(decode_text(b"\xfe\xff\0h\0i"), (Some("utf-16be".to_owned()), Some("hi".to_owned())));
    assert_eq!(decode_text(b"\xff\xfeh"), (Some("unknown".to_owned()), None));
    assert_eq!(decode_text(b"\xc3\x28"), (Some("unknown".to_owned()), None));
    assert_eq!(decode_text("é".as_bytes()), (Some("utf-8".to_owned()), Some("é".to_owned())));
}

#[test]
fn signature_mismatch_is_high_for_executables() {
    let finding = mismatch_finding("logo.png", Some("png"), Some("application/x-executable"), None).unwrap();
    assert_eq!(finding.id, "FILE-TYPE-MISMATCH");
    assert_eq!(finding.score, 80);
    assert_eq!(
        finding.evidence,
        vec!["extension: .png".to_owned(), "detected MIME: application/x-executable".to_owned()]
    );
    let plain = mismatch_finding("logo.png", Some("png"), None, None).unwrap();
    assert_eq!(plain.score, 45);
    assert_eq!(plain.evidence[1], "detected MIME: unknown");
    assert!(mismatch_finding("logo.png", Some("png"), Some("image/png"), None).is_none());
    assert!(mismatch_finding("logo", None, None, None).is_none());
    assert!(is_executable_mime("application/vnd.microsoft.portable-executable"));
    assert!(!is_executable_mime("image/png"));
}

#[test]
fn roles_follow_the_path() {
    assert_eq!(roles("package.json"), vec!["npm_manifest".to_owned()]);
    assert_eq!(roles("a\\package-lock.json"), vec!["dependency_lockfile".to_owned()]);
    assert_eq!(roles(".vscode/tasks.json"), vec!["developer_tool_config".to_owned()]);
    assert_eq!(roles("web/vite.config.ts"), vec!["executable_config".to_owned()]);
    assert_eq!(roles(".github/workflows/ci.yml"), vec!["ci_config".to_owned()]);
    assert_eq!(roles("docker-compose.yml"), vec!["build_script".to_owned()]);
    assert!(roles("src/main.rs").is_empty());
}

#[test]
fn classification_combines_the_verdicts() {
    let text = "const a = require('x'); function f() {}";
    let c = classify("img/logo.SVG", text.as_bytes());
    assert_eq!(c.extension.as_deref(), Some("svg"));
    assert_eq!(c.encoding.as_deref(), Some("utf-8"));
    assert_eq!(c.text.as_deref(), Some(text));
    let ids: Vec<&str> = c.findings.iter().map(|f| f.id.as_str()).collect();
    assert_eq!(ids, vec!["FILE-TYPE-MISMATCH", "FILE-EXECUTABLE-CONTENT"]);
    assert_eq!(c.sha256.len(), 64);
    assert_eq!(
        classify("a.txt", b"").sha256,
        "e3b0c44298fc1c149afbf4c8996fb92427ae41e4649b934ca495991b7852b855"
    );
    assert!(looks_like_executable_text("import x; const y = 1;"));
    assert!(!looks_like_executable_text("const y = 1;"));
    assert_eq!(file_extension("dir/archive.TAR.GZ").as_deref(), Some("gz"));
    assert_eq!(file_extension(".bashrc"), None);
}

#[test]
fn utf16_surrogate_pairs_decode_and_lone_surrogates_do_not() {
    assert_eq!(
        decode_text(b"\xff\xfeA\0\x3d\xd8\x00\xde"),
        (Some("utf-16le".to_owned()), Some("A\u{1F600}".to_owned()))
    );
    assert_eq!(
        decode_text(b"\xfe\xff\0A\xd8\x3d\xde\x00"),
        (Some("utf-16be".to_owned()), Some("A\u{1F600}".to_owned()))
    );
    let (_, text) = decode_text(b"\xff\xfeA\0\x3d\xd8");
    assert_eq!(text, None);
}
