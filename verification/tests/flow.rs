use preflightx::scanner::js::flow::{
    analyze_flows, indirect_api_target, persistence_command, persistence_path, sensitive_path,
    Binding, Expr, Function, ModuleFlow, Stmt,
};
use preflightx::scanner::js::semantic::ModuleFacts;

fn chars(s: &str) -> Vec<char> {
    s.chars().collect()
}

fn name(s: &str) -> Expr {
    Expr::Name(s.to_owned())
}

fn call(callee: Expr, args: Vec<Expr>, line: u64) -> Expr {
    Expr::Call(Box::new(callee), args, line)
}

fn module(id: &str, body: Vec<Stmt>) -> ModuleFacts {
    ModuleFacts {
        id: id.to_owned(),
        path: id.to_owned(),
        flow_enabled: true,
        source_bytes: 0,
        imports: Vec::new(),
        calls: Vec::new(),
        flow: ModuleFlow {
            imports: Vec::new(),
            exports: Vec::new(),
            reexports: Vec::new(),
            functions: Vec::new(),
            body,
        },
    }
}

#[test]
fn remote_data_reaching_eval_is_reported() {
    let body = vec![
        Stmt::Bind(Binding::Name("data".to_owned()), call(name("fetch"), vec![Expr::String("https://x.test".to_owned())], 1)),
        Stmt::Expr(call(name("eval"), vec![name("data")], 2)),
    ];
    let reachable = vec![("a.js".to_owned(), vec!["trigger: npm postinstall".to_owned(), "entry: a.js".to_owned()])];
    let result = analyze_flows(&[module("a.js", body)], &reachable);
    assert_eq!(result.findings.len(), 1);
    let finding = &result.findings[0];
    assert_eq!(finding.id, "JS-REMOTE-CODE-EXECUTION");
    assert_eq!(finding.line, Some(2));
    assert_eq!(finding.evidence.first().map(String::as_str), Some("trigger: npm postinstall"));
    assert_eq!(finding.evidence.last().map(String::as_str), Some("sink: a.js:2 eval"));
    assert!(result.incomplete_reasons.is_empty());
}

#[test]
fn secrets_sent_over_the_network_and_combined_chains() {
    let body = vec![
        Stmt::Bind(
            Binding::Name("token".to_owned()),
            Expr::Member(Box::new(name("process")), "env".to_owned()),
        ),
        Stmt::Expr(call(name("fetch"), vec![Expr::String("https://x".to_owned()), name("token")], 3)),
        Stmt::Bind(Binding::Name("code".to_owned()), call(name("fetch"), vec![Expr::String("https://y".to_owned())], 4)),
        Stmt::Expr(call(Expr::Member(Box::new(name("child_process")), "exec".to_owned()), vec![name("code")], 5)),
    ];
    let reachable = vec![("m.js".to_owned(), vec!["trigger: npm start".to_owned(), "entry: m.js".to_owned()])];
    let result = analyze_flows(&[module("m.js", body)], &reachable);
    let ids: Vec<&str> = result.findings.iter().map(|f| f.id.as_str()).collect();
    assert_eq!(ids, vec!["JS-SECRET-EXFILTRATION", "JS-REMOTE-PROCESS-EXECUTION", "JS-COMBINED-ATTACK-CHAIN"]);
    assert_eq!(result.findings[2].evidence[0], "component: JS-REMOTE-PROCESS-EXECUTION at m.js:5");
}

#[test]
fn unreachable_modules_are_skipped_when_roots_exist() {
    let body = vec![
        Stmt::Bind(Binding::Name("d".to_owned()), call(name("fetch"), vec![], 1)),
        Stmt::Expr(call(name("eval"), vec![name("d")], 2)),
    ];
    let reachable = vec![("other.js".to_owned(), vec!["trigger: t".to_owned(), "entry: other.js".to_owned()])];
    assert!(analyze_flows(&[module("a.js", body)], &reachable).findings.is_empty());
}

#[test]
fn deep_nesting_hits_the_depth_limit() {
    let mut body = vec![Stmt::Expr(Expr::Unknown)];
    for _ in 0..40 {
        body = vec![Stmt::Branch(Expr::Bool(true), body, Vec::new())];
    }
    let result = analyze_flows(&[module("a.js", body)], &Vec::new());
    assert_eq!(
        result.incomplete_reasons,
        vec!["JS/TS data-flow work limit of 100000 steps or call depth 32 reached".to_owned()]
    );
}

#[test]
fn helper_classifications() {
    assert_eq!(
        indirect_api_target(&chars("import:child_process#exec.call")).map(|v| v.into_iter().collect::<String>()),
        Some("child_process.exec".to_owned())
    );
    assert_eq!(indirect_api_target(&chars("foo.call")), None);
    assert!(sensitive_path(&chars("C:\\Users\\x\\.SSH\\id_rsa")));
    assert!(!sensitive_path(&chars("src/index.js")));
    assert!(persistence_path(&chars("/home/u/.config/autostart/x.desktop")));
    assert!(persistence_command(&chars("  CRONTAB -l")));
    assert!(!persistence_command(&chars("echo crontab x")));
    assert!(persistence_command(&chars("  crontab /tmp/x")));
}

#[test]
fn modules_disabled_for_the_analysis_are_never_evaluated() {
    let body = vec![
        Stmt::Bind(Binding::Name("data".to_owned()), call(name("fetch"), vec![Expr::String("https://x.test".to_owned())], 1)),
        Stmt::Expr(call(name("eval"), vec![name("data")], 2)),
    ];
    let mut example = module("README.md#1", body);
    example.flow_enabled = false;
    let result = analyze_flows(&[example], &Vec::new());
    assert!(result.findings.is_empty());
    assert!(result.incomplete_reasons.is_empty());
}

#[test]
fn a_persistence_command_given_to_a_process_api_is_reported() {
    let body = vec![
        Stmt::Expr(call(name("child_process.exec"), vec![Expr::String("  CRONTAB -l".to_owned())], 3)),
        Stmt::Expr(call(name("child_process.exec"), vec![Expr::String("ls -la".to_owned())], 4)),
    ];
    let reachable = vec![("a.js".to_owned(), vec!["trigger: npm postinstall".to_owned(), "entry: a.js".to_owned()])];
    let result = analyze_flows(&[module("a.js", body)], &reachable);
    let commands: Vec<_> = result.findings.iter().filter(|f| f.id == "JS-PERSISTENCE-COMMAND").collect();
    assert_eq!(commands.len(), 1);
    assert_eq!(commands[0].line, Some(3));
    assert_eq!(commands[0].score, 85);
    assert_eq!(
        commands[0].evidence,
        vec![
            "trigger: npm postinstall".to_owned(),
            "entry: a.js".to_owned(),
            "command:   CRONTAB -l".to_owned(),
        ]
    );
}

#[test]
fn downloaded_bytes_written_then_executed_are_reported() {
    let body = vec![
        Stmt::Bind(Binding::Name("payload".to_owned()), call(name("fetch"), vec![Expr::String("https://x.test/p".to_owned())], 1)),
        Stmt::Expr(call(
            Expr::Member(Box::new(name("fs")), "writeFileSync".to_owned()),
            vec![Expr::String("run.sh".to_owned()), name("payload")],
            2,
        )),
        Stmt::Expr(call(
            Expr::Member(Box::new(name("child_process")), "execFile".to_owned()),
            vec![Expr::String("run.sh".to_owned())],
            3,
        )),
    ];
    let reachable = vec![("d.js".to_owned(), vec!["trigger: npm install".to_owned(), "entry: d.js".to_owned()])];
    let result = analyze_flows(&[module("d.js", body)], &reachable);
    let ids: Vec<&str> = result.findings.iter().map(|f| f.id.as_str()).collect();
    assert_eq!(ids, vec!["JS-DOWNLOAD-WRITE-EXECUTE"]);
    assert_eq!(result.findings[0].line, Some(3));
    assert_eq!(result.findings[0].evidence.last().map(String::as_str), Some("sink: d.js:3 child_process.execFile"));
}

#[test]
fn remote_data_given_to_require_and_vm_is_reported_once_per_line() {
    let body = vec![
        Stmt::Bind(Binding::Name("code".to_owned()), call(name("fetch"), vec![Expr::String("https://x.test/c".to_owned())], 1)),
        Stmt::Expr(call(name("require"), vec![name("code")], 2)),
        Stmt::Expr(call(Expr::Member(Box::new(name("vm")), "runInNewContext".to_owned()), vec![name("code")], 3)),
        Stmt::Expr(call(Expr::Member(Box::new(name("vm")), "runInNewContext".to_owned()), vec![name("code")], 3)),
    ];
    let reachable = vec![("v.js".to_owned(), vec!["trigger: npm test".to_owned(), "entry: v.js".to_owned()])];
    let result = analyze_flows(&[module("v.js", body)], &reachable);
    let lines: Vec<(&str, Option<u64>)> = result.findings.iter().map(|f| (f.id.as_str(), f.line)).collect();
    assert_eq!(lines, vec![("JS-REMOTE-CODE-EXECUTION", Some(2)), ("JS-REMOTE-CODE-EXECUTION", Some(3))]);
    assert_eq!(result.findings[1].evidence.last().map(String::as_str), Some("sink: v.js:3 vm.runInNewContext"));
}

#[test]
fn data_without_a_source_label_reaches_sinks_without_findings() {
    let body = vec![
        Stmt::Bind(Binding::Name("text".to_owned()), Expr::String("console.log(1)".to_owned())),
        Stmt::Expr(call(name("eval"), vec![name("text")], 1)),
        Stmt::Expr(call(Expr::Member(Box::new(name("child_process")), "spawn".to_owned()), vec![name("text")], 2)),
        Stmt::Expr(call(name("fetch"), vec![Expr::String("https://x.test".to_owned()), name("text")], 3)),
    ];
    let reachable = vec![("q.js".to_owned(), vec!["trigger: npm start".to_owned(), "entry: q.js".to_owned()])];
    let result = analyze_flows(&[module("q.js", body)], &reachable);
    assert!(result.findings.is_empty());
    assert!(result.incomplete_reasons.is_empty());
}

#[test]
fn a_network_result_handed_straight_to_a_sink_is_reported() {
    let code = vec![Stmt::Expr(call(
        name("eval"),
        vec![call(name("fetch"), vec![Expr::String("https://x.test/a".to_owned())], 4)],
        4,
    ))];
    let process = vec![Stmt::Expr(call(
        name("child_process.exec"),
        vec![call(name("axios.get"), vec![Expr::String("https://x.test/b".to_owned())], 7)],
        7,
    ))];
    let reachable = Vec::new();
    let result = analyze_flows(&[module("e.js", code), module("p.js", process)], &reachable);
    let found: Vec<(&str, Option<&str>, Option<u64>)> =
        result.findings.iter().map(|f| (f.id.as_str(), f.file.as_deref(), f.line)).collect();
    assert_eq!(
        found,
        vec![
            ("JS-REMOTE-CODE-EXECUTION", Some("e.js"), Some(4)),
            ("JS-REMOTE-PROCESS-EXECUTION", Some("p.js"), Some(7)),
        ]
    );
    assert!(result.incomplete_reasons.is_empty());
}

#[test]
fn a_module_function_handing_network_data_to_a_sink_is_reported_when_called() {
    let mut facts = module("f.js", vec![Stmt::Expr(call(name("start"), vec![Expr::String("go".to_owned())], 1))]);
    facts.flow.functions.push((
        "start".to_owned(),
        Function {
            params: vec![Binding::Name("mode".to_owned())],
            body: vec![Stmt::Expr(call(
                name("eval"),
                vec![call(name("fetch"), vec![Expr::String("https://x.test/c".to_owned())], 5)],
                5,
            ))],
        },
    ));
    let result = analyze_flows(&[facts], &Vec::new());
    let found: Vec<(&str, Option<&str>, Option<u64>)> =
        result.findings.iter().map(|f| (f.id.as_str(), f.file.as_deref(), f.line)).collect();
    assert_eq!(found, vec![("JS-REMOTE-CODE-EXECUTION", Some("f.js"), Some(5))]);
}

#[test]
fn the_environment_sent_over_the_network_is_reported() {
    let body = vec![Stmt::Expr(call(
        name("fetch"),
        vec![Expr::String("https://x.test/collect".to_owned()), Expr::Member(Box::new(name("process")), "env".to_owned())],
        9,
    ))];
    let result = analyze_flows(&[module("s.js", body)], &Vec::new());
    let found: Vec<(&str, Option<&str>, Option<u64>)> =
        result.findings.iter().map(|f| (f.id.as_str(), f.file.as_deref(), f.line)).collect();
    assert_eq!(found, vec![("JS-SECRET-EXFILTRATION", Some("s.js"), Some(9))]);
}
