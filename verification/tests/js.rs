use preflightx::model::{Confidence, Finding, Severity};
use preflightx::git_analysis::introduced_findings;
use preflightx::scanner::js::extract::{
    attribute_value, embedded_source_type, extract_scripts, find_script_close, find_tag_end, line_number,
    MAX_EMBEDDED_SCRIPTS,
};
use preflightx::scanner::js::flow::ModuleFlow;
use preflightx::scanner::js::semantic::ModuleFacts;
use preflightx::scanner::js::{
    document_kind, is_suspicious, is_supported, parse_guard, undecodable, whole_file_kind, whole_file_result,
    EmbeddedScan, SourceKind, MAX_NESTING, MAX_PARSE_BYTES,
};
use preflightx::scanner::yara::{analyze as yara_findings, doctor, rule_finding};

fn module(id: &str) -> ModuleFacts {
    ModuleFacts {
        id: id.to_owned(),
        path: id.to_owned(),
        flow_enabled: true,
        source_bytes: 1,
        imports: Vec::new(),
        calls: Vec::new(),
        flow: ModuleFlow { imports: Vec::new(), exports: Vec::new(), reexports: Vec::new(), functions: Vec::new(), body: Vec::new() },
    }
}

#[test]
fn script_paths_and_documents() {
    assert!(is_supported("src/index.ts"));
    assert!(!is_supported("README.md"));
    assert_eq!(document_kind("index.html"), Some((true, false)));
    assert_eq!(document_kind("icon.svg"), Some((false, false)));
    assert_eq!(document_kind("guide.md"), Some((false, true)));
    assert_eq!(document_kind("main.rs"), None);
}

#[test]
fn fake_assets_need_code_openings() {
    assert!(is_suspicious("   const cp = require('child_process');", "fake.svg"));
    assert!(!is_suspicious("<svg><text>const x = 1</text></svg>", "real.svg"));
    assert!(is_suspicious(
        "/* ordinary banner */\n// second line\nconst cp = require('child_process');",
        "banner.png"
    ));
    assert!(!is_suspicious("#!/bin/sh\nconst x = 1; function f() {}", "script.txt"));
    assert_eq!(whole_file_kind("a.js", "anything"), Some(SourceKind::FromPath));
    assert_eq!(whole_file_kind("notes.txt", "hello"), None);
}

#[test]
fn parse_guard_limits_size_and_nesting() {
    assert!(parse_guard("let x = [1, {a: (2)}];").is_ok());
    let deep = "[".repeat(257);
    assert_eq!(parse_guard(&deep).unwrap_err(), "JS/TS nesting limit of 256 exceeded");
    let closed = "[]".repeat(1000);
    assert!(parse_guard(&closed).is_ok());
    let big = " ".repeat(4 * 1024 * 1024 + 1);
    assert_eq!(parse_guard(&big).unwrap_err(), "JS/TS parse limit of 4194304 bytes exceeded");
}

#[test]
fn whole_file_outcomes() {
    let r = undecodable("a.js");
    assert_eq!(r.incomplete_reasons, vec!["cannot decode JS/TS source: a.js".to_owned()]);
    assert!(undecodable("a.txt").incomplete_reasons.is_empty());
    let r = whole_file_result("fake.svg", SourceKind::Default, Ok(Some(module("fake.svg"))));
    assert_eq!(r.language.as_deref(), Some("javascript"));
    assert_eq!(r.findings.len(), 1);
    assert_eq!(r.findings[0].id, "FILE-PARSEABLE-JAVASCRIPT");
    assert_eq!(r.findings[0].evidence, vec!["extension: .svg".to_owned()]);
    let r = whole_file_result("a.ts", SourceKind::FromPath, Ok(Some(module("a.ts"))));
    assert_eq!(r.language.as_deref(), Some("typescript"));
    assert!(r.findings.is_empty());
    let r = whole_file_result("a.js", SourceKind::FromPath, Err("JS/TS parser could not fully parse: 1 diagnostic(s)".to_owned()));
    assert_eq!(r.incomplete_reasons, vec!["JS/TS parser could not fully parse: 1 diagnostic(s): a.js".to_owned()]);
}

#[test]
fn embedded_scripts_become_modules_and_roots() {
    let mut scan = EmbeddedScan::new("page.html", true, false, &vec!["unterminated embedded script tag".to_owned()]);
    assert_eq!(scan.result.incomplete_reasons, vec!["unterminated embedded script tag: page.html".to_owned()]);
    assert_eq!(scan.module_id(2), "page.html#embedded-script-2");
    assert!(scan.fact_room() > 0);
    scan.parsed(1, &SourceKind::Default, Ok(Some(module("page.html#embedded-script-0"))));
    scan.external(1, 4, &SourceKind::Default, "./app.js".to_owned());
    scan.parsed(7, &SourceKind::Default, Err("JS/TS nesting limit of 256 exceeded".to_owned()));
    let result = scan.finish().unwrap();
    assert_eq!(result.modules.len(), 2);
    assert_eq!(result.modules[1].imports[0].specifier, "./app.js");
    assert_eq!(result.modules[1].imports[0].line, 5);
    assert_eq!(result.embedded_roots.len(), 2);
    assert_eq!(result.embedded_roots[0].line, 2);
    assert_eq!(result.language.as_deref(), Some("javascript"));
    assert!(result.incomplete_reasons.contains(&"JS/TS nesting limit of 256 exceeded at line 8: page.html".to_owned()));
    let quiet = EmbeddedScan::new("x.vue", false, false, &Vec::new());
    assert!(quiet.finish().is_none());
}

#[test]
fn extracts_scripts_by_their_tags() {
    let text = "<html>\n<script>const first = 1;</script>\n<!-- <script>skip()</script> -->\n<SCRIPT TYPE='module' data-note='>'>go()</SCRIPT>\n<script type=\"text/template\">x</script><script src=\"./a.js\"></script>";
    let extraction = extract_scripts(text, false);
    assert!(extraction.incomplete.is_empty());
    let sources: Vec<&str> = extraction.blocks.iter().map(|b| &text[b.start..b.end]).collect();
    assert_eq!(sources, vec!["const first = 1;", "go()", ""]);
    assert_eq!(extraction.blocks[0].line_offset, 1);
    assert_eq!(extraction.blocks[1].line_offset, 3);
    assert_eq!(extraction.blocks[2].external_src.as_deref(), Some("./a.js"));
    let unterminated = extract_scripts("<script>const a = 1;", false);
    assert_eq!(unterminated.incomplete, vec!["unterminated embedded JavaScript block".to_owned()]);
    let many = "<script>const value = 1;</script>".repeat(MAX_EMBEDDED_SCRIPTS + 1);
    let limited = extract_scripts(&many, false);
    assert_eq!(limited.blocks.len(), MAX_EMBEDDED_SCRIPTS);
    assert_eq!(limited.incomplete, vec!["embedded script limit of 256 reached".to_owned()]);
}

#[test]
fn markdown_code_is_not_a_script() {
    let text = "```html\n<script>eval('example only')</script>\n```\n`<script>x()</script>`\n<script>const value = 1;</script>";
    let extraction = extract_scripts(text, true);
    let sources: Vec<&str> = extraction.blocks.iter().map(|b| &text[b.start..b.end]).collect();
    assert_eq!(sources, vec!["const value = 1;"]);
}

#[test]
fn tag_helpers() {
    assert_eq!(find_tag_end(b"a='>' b>", 0), Some(7));
    assert_eq!(find_tag_end(b"a='>", 0), None);
    assert_eq!(find_script_close(b"x</scripts></SCRIPT >", 0), Some(11));
    assert_eq!(line_number(b"a\nb\nc", 4), 3);
    assert_eq!(attribute_value(" type = 'module' src=x.js", "SRC").as_deref(), Some("x.js"));
    assert_eq!(attribute_value(" type='module'", "lang"), None);
    assert_eq!(embedded_source_type(" lang=\"ts\""), Some(SourceKind::Ts));
    assert_eq!(embedded_source_type(" type=\"text/tsx\""), Some(SourceKind::Tsx));
    assert_eq!(embedded_source_type(" type=\"text/babel\""), Some(SourceKind::Jsx));
    assert_eq!(embedded_source_type(" type=\"application/json\""), None);
    assert_eq!(embedded_source_type(" type=\"text/javascript; charset=utf-8\""), Some(SourceKind::Default));
}

#[test]
fn yara_matches_become_findings() {
    let f = rule_finding("install.ps1", "PF_Encoded_PowerShell_Download_Execute").unwrap();
    assert_eq!(f.id, "YARA-POWERSHELL-DOWNLOAD-EXEC");
    assert_eq!(f.evidence, vec!["matched YARA-X rule PF_Encoded_PowerShell_Download_Execute".to_owned()]);
    assert!(rule_finding("x", "Unknown_Rule").is_none());
    let all = yara_findings("x.js", &vec!["Unknown".to_owned(), "PF_Aes_Encrypted_Function_Loader".to_owned()]);
    assert_eq!(all.len(), 1);
    assert_eq!(all[0].id, "YARA-JS-ENCRYPTED-LOADER");
    assert!(doctor(Ok(Vec::new())).is_ok());
    assert_eq!(doctor(Err("bad rules".to_owned())).unwrap_err(), "bad rules");
}

#[test]
fn commits_introduce_only_new_finding_keys() {
    let f = |id: &str, line: u64| Finding {
        id: id.to_owned(),
        severity: Severity::High,
        confidence: Confidence::High,
        score: 80,
        title: id.to_owned(),
        message: String::new(),
        file: Some("a.js".to_owned()),
        line: Some(line),
        evidence: Vec::new(),
    };
    let introduced = introduced_findings("a.js", vec![f("NEW", 2), f("OLD", 1), f("NEW", 2)], &vec![f("OLD", 1)]);
    assert_eq!(introduced.len(), 1);
    assert_eq!(introduced[0].0, "a.js");
    assert_eq!(introduced[0].1.id, "NEW");
}

#[test]
fn syntax_and_size_failures_are_incomplete() {
    let oversized = " ".repeat(MAX_PARSE_BYTES + 1);
    let refused = parse_guard(&oversized).unwrap_err();
    assert_eq!(whole_file_result("large.js", SourceKind::FromPath, Err(refused)).incomplete_reasons.len(), 1);
    let nested = "(".repeat(MAX_NESTING + 1);
    let refused = parse_guard(&nested).unwrap_err();
    assert_eq!(whole_file_result("nested.js", SourceKind::FromPath, Err(refused)).incomplete_reasons.len(), 1);
}

#[test]
fn extracts_embedded_scripts_without_parsing_document_markup() {
    let html = "<!doctype html>\n<script type=\"module\">\nfetch('/config').then((r) => r.text()).then(eval);\n</script>";
    let extraction = extract_scripts(html, false);
    assert!(extraction.incomplete.is_empty());
    assert_eq!(extraction.blocks.len(), 1);
    assert_eq!(extraction.blocks[0].line_offset + 1, 2);
    assert!(html[extraction.blocks[0].start..extraction.blocks[0].end].contains("then(eval)"));

    let vue = "<template />\n<script setup lang=\"ts\">\nconst value: number = 1; eval(String(value));\n</script>";
    let extraction = extract_scripts(vue, false);
    assert_eq!(extraction.blocks.len(), 1);
    assert_eq!(extraction.blocks[0].kind, SourceKind::Ts);

    let multiple = extract_scripts("<script>const first = 1;</script>\n<script>const second = 2;</script>", false);
    assert_eq!(multiple.blocks.len(), 2);

    let commented_text = "<!-- <script>invalid(</script> -->\n<script>const live = 1;</script>";
    let commented = extract_scripts(commented_text, false);
    assert!(commented.incomplete.is_empty());
    assert_eq!(commented.blocks.len(), 1);
    assert_eq!(commented.blocks[0].line_offset + 1, 2);

    let markdown = extract_scripts("# Examples\nconst value = 1; function run() {}", true);
    assert!(markdown.incomplete.is_empty());
    assert!(markdown.blocks.is_empty());
}

#[test]
fn shell_shebang_is_not_sent_to_the_javascript_parser() {
    let path = ".git/hooks/push-to-checkout.sample";
    let text = "#!/bin/sh\nfunction die() { echo failed; }\n";
    assert!(!is_suspicious(text, path));
    assert_eq!(whole_file_kind(path, text), None);
}

#[test]
fn fake_assets_need_parseable_code() {
    let kind = whole_file_kind("fake.woff2", "module.exports = require('child_process');").unwrap();
    let positive = whole_file_result("fake.woff2", kind, Ok(Some(module("fake.woff2"))));
    assert_eq!(positive.findings[0].id, "FILE-PARSEABLE-JAVASCRIPT");
    let kind = whole_file_kind("fake.svg", "   const cp = require('child_process');").unwrap();
    let evasion = whole_file_result("fake.svg", kind, Ok(Some(module("fake.svg"))));
    assert_eq!(evasion.language.as_deref(), Some("javascript"));
    let kind = whole_file_kind("fake.svg", "eval('2 + 2');").unwrap();
    let minimal = whole_file_result("fake.svg", kind, Ok(Some(module("fake.svg"))));
    assert_eq!(minimal.language.as_deref(), Some("javascript"));
    assert_eq!(whole_file_kind("real.svg", "<svg><text>const x = 1</text></svg>"), None);
    let kind = whole_file_kind("payload.data", "/* ordinary banner */\n// second line\nconst cp = require('child_process');").unwrap();
    let commented = whole_file_result("payload.data", kind, Ok(Some(module("payload.data"))));
    assert_eq!(commented.language.as_deref(), Some("javascript"));
    for (path, source) in [
        ("gating.rs", "// mentions const and function\nuse crate::module;"),
        ("module.wat", "(module (import \"const \" \"function \"))"),
        ("style.css", "/* const and function */\nbody { color: red; }"),
    ] {
        assert_eq!(whole_file_kind(path, source), None, "{path}");
    }
}
