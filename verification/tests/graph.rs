use preflightx::scanner::graph::{build, command_target, has_code_extension, resolve_from, Root};
use preflightx::scanner::js::flow::ModuleFlow;
use preflightx::scanner::js::semantic::{CallFact, Capability, ImportFact, ModuleFacts};

fn chars(s: &str) -> Vec<char> {
    s.chars().collect()
}

fn text(v: Option<Vec<char>>) -> Option<String> {
    v.map(|v| v.into_iter().collect())
}

fn module(path: &str, imports: &[&str], calls: Vec<CallFact>) -> ModuleFacts {
    ModuleFacts {
        id: path.to_owned(),
        path: path.to_owned(),
        flow_enabled: true,
        source_bytes: 0,
        imports: imports
            .iter()
            .map(|s| ImportFact { specifier: (*s).to_owned(), line: 1 })
            .collect(),
        calls,
        flow: ModuleFlow {
            imports: Vec::new(),
            exports: Vec::new(),
            reexports: Vec::new(),
            functions: Vec::new(),
            body: Vec::new(),
        },
    }
}

fn call(name: &str, capability: Option<Capability>, function: Option<&str>) -> CallFact {
    CallFact {
        name: name.to_owned(),
        line: 4,
        evidence: name.to_owned(),
        capability,
        function: function.map(str::to_owned),
    }
}

#[test]
fn resolves_paths_like_the_file_system() {
    let r = |from: &str, spec: &str| resolve_from(&chars(from), &chars(spec)).into_iter().collect::<String>();
    assert_eq!(r("src/a.js", "./b"), "src/b");
    assert_eq!(r("src/a.js", "../lib/./c.js"), "lib/c.js");
    assert_eq!(r("a.js", "../x"), "");
    assert_eq!(r("src/a.js", "/abs"), "");
    assert_eq!(r("src//deep/a.js", "./b"), "src/deep/b");
}

#[test]
fn finds_the_script_a_runner_starts() {
    assert_eq!(text(command_target(&chars("node ./scripts/setup.js --flag"))).as_deref(), Some("./scripts/setup.js"));
    assert_eq!(text(command_target(&chars("\"node\" -r x 'run.mjs';"))).as_deref(), Some("run.mjs"));
    assert_eq!(command_target(&chars("python setup.py")), None);
    assert_eq!(command_target(&chars("node --version")), None);
    assert!(has_code_extension(&chars("a/b.tsx")));
    assert!(!has_code_extension(&chars("a/b.png")));
}

#[test]
fn reaches_imported_modules_from_roots() {
    let modules = vec![
        module("index.js", &["./lib", "left-pad", "fs"], Vec::new()),
        module("lib.js", &["./asset.png"], Vec::new()),
        module(
            "asset.png",
            &[],
            vec![call("eval", Some(Capability::DynamicCode), None)],
        ),
        module("unused.js", &["./missing"], Vec::new()),
    ];
    let roots = vec![
        Root { file: "index.js".to_owned(), trigger: "npm postinstall (package.json)".to_owned(), line: Some(3) },
        Root { file: "gone.js".to_owned(), trigger: "npm start (package.json)".to_owned(), line: None },
    ];
    let result = build(&modules, &roots);
    let keys: Vec<&str> = result.reachable.iter().map(|(k, _)| k.as_str()).collect();
    assert_eq!(keys, vec!["index.js", "lib.js", "asset.png"]);
    assert_eq!(
        result.reachable[2].1,
        vec![
            "trigger: npm postinstall (package.json) at line 3".to_owned(),
            "entry: index.js".to_owned(),
            "index.js:1 imports lib.js".to_owned(),
            "lib.js:1 imports asset.png".to_owned(),
        ]
    );
    assert_eq!(
        result.unresolved,
        vec![
            "index.js:1 -> left-pad (external package not inspected)".to_owned(),
            "npm start (package.json) -> gone.js (entry unresolved)".to_owned(),
            "unused.js:1 -> ./missing (relative import unresolved)".to_owned(),
        ]
    );
    let ids: Vec<&str> = result.findings.iter().map(|f| f.id.as_str()).collect();
    assert_eq!(ids, vec!["JS-REACHABLE-DISGUISED-SOURCE", "JS-DYNAMIC-EXECUTION"]);
    assert_eq!(result.findings[0].score, 95);
    assert!(result.incomplete_reasons.is_empty());
}

#[test]
fn only_called_functions_count_as_running() {
    let modules = vec![module(
        "a.js",
        &[],
        vec![
            call("local:run", None, None),
            call("child_process.exec", Some(Capability::Process), Some("run")),
            call("eval", Some(Capability::DynamicCode), Some("never")),
        ],
    )];
    let roots = vec![Root { file: "a.js".to_owned(), trigger: "t".to_owned(), line: None }];
    let result = build(&modules, &roots);
    assert_eq!(result.findings.len(), 2);
    assert_eq!(result.findings[0].evidence.len(), 3);
    assert_eq!(result.findings[1].evidence, vec!["call: eval".to_owned()]);
}

#[test]
fn routes_take_the_fewest_imports() {
    let modules = vec![
        module("index.js", &["./a", "./far"], Vec::new()),
        module("a.js", &["./b"], Vec::new()),
        module("b.js", &["./far"], Vec::new()),
        module("far.js", &[], Vec::new()),
    ];
    let roots = vec![Root { file: "index.js".to_owned(), trigger: "npm start (package.json)".to_owned(), line: None }];
    let result = build(&modules, &roots);
    let far = result.reachable.iter().find(|(k, _)| k == "far.js").expect("far.js is reachable");
    assert_eq!(
        far.1,
        vec![
            "trigger: npm start (package.json)".to_owned(),
            "entry: index.js".to_owned(),
            "index.js:1 imports far.js".to_owned(),
        ]
    );
}

#[test]
fn without_roots_nothing_is_reachable() {
    let modules = vec![
        module("a.js", &["./b"], Vec::new()),
        module("b.js", &["./a"], vec![call("child_process.exec", Some(Capability::Process), None)]),
    ];
    let result = build(&modules, &[]);
    assert!(result.reachable.is_empty());
    assert!(result.findings.iter().all(|f| f.id != "JS-REACHABLE-DISGUISED-SOURCE"));
    assert_eq!(result.findings.len(), 1);
    assert_eq!(result.findings[0].evidence, vec!["call: child_process.exec".to_owned()]);
}

#[test]
fn a_build_config_reaches_a_disguised_asset() {
    let modules = vec![
        module("tailwind.config.js", &["./fake.svg"], Vec::new()),
        module("fake.svg", &[], vec![call("child_process.exec", Some(Capability::Process), None)]),
    ];
    let roots = vec![Root { file: "tailwind.config.js".to_owned(), trigger: "build config tailwind.config.js".to_owned(), line: None }];
    let result = build(&modules, &roots);
    let fake = result.reachable.iter().find(|(k, _)| k == "fake.svg").expect("fake.svg is reachable");
    assert_eq!(
        fake.1,
        vec![
            "trigger: build config tailwind.config.js".to_owned(),
            "entry: tailwind.config.js".to_owned(),
            "tailwind.config.js:1 imports fake.svg".to_owned(),
        ]
    );
    let ids: Vec<&str> = result.findings.iter().map(|f| f.id.as_str()).collect();
    assert_eq!(ids, vec!["JS-REACHABLE-DISGUISED-SOURCE", "JS-PROCESS-EXECUTION"]);
    assert_eq!(result.findings[0].score, 95);
    assert!(result.unresolved.is_empty());
}
