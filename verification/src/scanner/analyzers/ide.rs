//! Developer-tool configuration that runs commands: VS Code tasks, settings
//! and launch configurations, and devcontainer hooks.
use vstd::prelude::*;
use crate::json::{Json, as_text, get, get_in, member, member_in, string_of};
use crate::model::{Confidence, Finding, FindingView, Severity, findings_view, strings_view};
use crate::scanner::analyzers::{MetadataAnalysis, bounded, bounded_text, parsed_view};
use crate::text::{
    chars_contain_str, chars_eq_str, chars_of, find_line, join, line_number, lines, lower,
    lowercase_chars, owned, push_str, seq_contains, str_eq, strs_view,
};

verus! {

/// The strings among an array's items, in order.
pub open spec fn array_strings(parts: Seq<Json>) -> Seq<Seq<char>>
    decreases parts.len(),
{
    if parts.len() == 0 {
        Seq::empty()
    } else {
        array_strings(parts.drop_last()) + match parts.last() {
            Json::Str(s) => seq![s@],
            _ => Seq::empty(),
        }
    }
}

/// The string values among an object's members, in order.
pub open spec fn object_strings(entries: Seq<(String, Json)>) -> Seq<Seq<char>>
    decreases entries.len(),
{
    if entries.len() == 0 {
        Seq::empty()
    } else {
        object_strings(entries.drop_last()) + match entries.last().1 {
            Json::Str(s) => seq![s@],
            _ => Seq::empty(),
        }
    }
}

/// The command a configuration value gives: a string, or the strings of an
/// array or object joined with spaces.
pub open spec fn command_of(value: Option<Json>) -> Option<Seq<char>> {
    match value {
        Some(Json::Str(c)) => Some(c@),
        Some(Json::Array(parts)) => Some(join(array_strings(parts@), " "@)),
        Some(Json::Object(entries)) => Some(join(object_strings(entries@), " "@)),
        _ => None,
    }
}

fn push_joined_part(out: &mut String, first: &mut bool, part: &str)
    ensures
        final(out)@ == old(out)@ + (if *old(first) { Seq::<char>::empty() } else { " "@ }) + part@,
        !*final(first),
{
    if !*first {
        push_str(out, " ");
    }
    push_str(out, part);
    *first = false;
}

/// The command a configuration value gives.
pub fn command_text(value: Option<&Json>) -> (r: Option<String>)
    ensures
        match r {
            Some(c) => command_of(match value { Some(v) => Some(*v), None => None }) == Some(c@),
            None => command_of(match value { Some(v) => Some(*v), None => None }).is_none(),
        },
{
    match value {
        Some(Json::Str(c)) => Some(c.clone()),
        Some(Json::Array(parts)) => {
            let mut out = String::new();
            let mut first = true;
            let mut i: usize = 0;
            while i < parts.len()
                invariant
                    i <= parts@.len(),
                    out@ == join(array_strings(parts@.subrange(0, i as int)), " "@),
                    first == (array_strings(parts@.subrange(0, i as int)).len() == 0),
                decreases parts.len() - i,
            {
                assert(parts@.subrange(0, i + 1).drop_last() =~= parts@.subrange(0, i as int));
                match &parts[i] {
                    Json::Str(s) => {
                        let ghost before = array_strings(parts@.subrange(0, i as int));
                        push_joined_part(&mut out, &mut first, s.as_str());
                        assert(array_strings(parts@.subrange(0, i + 1)) =~= before.push(s@));
                        assert(before.push(s@).drop_last() =~= before);
                        assert(before.push(s@).last() == s@);
                        proof {
                            if before.len() == 0 {
                                assert(out@ =~= s@);
                            }
                        }
                        assert(out@ =~= join(before.push(s@), " "@));
                    },
                    _ => {},
                }
                i = i + 1;
            }
            assert(parts@.subrange(0, parts@.len() as int) =~= parts@);
            Some(out)
        },
        Some(Json::Object(entries)) => {
            let mut out = String::new();
            let mut first = true;
            let mut i: usize = 0;
            while i < entries.len()
                invariant
                    i <= entries@.len(),
                    out@ == join(object_strings(entries@.subrange(0, i as int)), " "@),
                    first == (object_strings(entries@.subrange(0, i as int)).len() == 0),
                decreases entries.len() - i,
            {
                assert(entries@.subrange(0, i + 1).drop_last() =~= entries@.subrange(0, i as int));
                match &entries[i].1 {
                    Json::Str(s) => {
                        let ghost before = object_strings(entries@.subrange(0, i as int));
                        push_joined_part(&mut out, &mut first, s.as_str());
                        assert(object_strings(entries@.subrange(0, i + 1)) =~= before.push(s@));
                        assert(before.push(s@).drop_last() =~= before);
                        assert(before.push(s@).last() == s@);
                        proof {
                            if before.len() == 0 {
                                assert(out@ =~= s@);
                            }
                        }
                        assert(out@ =~= join(before.push(s@), " "@));
                    },
                    _ => {},
                }
                i = i + 1;
            }
            assert(entries@.subrange(0, entries@.len() as int) =~= entries@);
            Some(out)
        },
        _ => None,
    }
}

pub open spec fn download_markers() -> Seq<Seq<char>> {
    seq!["curl "@, "wget "@, "invoke-webrequest"@, "iwr "@]
}

pub open spec fn execute_markers() -> Seq<Seq<char>> {
    seq!["| sh"@, "|sh"@, "| bash"@, "|bash"@, "invoke-expression"@, "iex "@, "powershell"@, "pwsh"@]
}

pub open spec fn contains_any(text: Seq<char>, markers: Seq<Seq<char>>) -> bool {
    exists|i: int| 0 <= i < markers.len() && seq_contains(text, #[trigger] markers[i])
}

fn contains_one_of(text: &[char], markers: &[&str]) -> (r: bool)
    ensures
        r == contains_any(text@, strs_view(markers@)),
{
    let mut i: usize = 0;
    while i < markers.len()
        invariant
            i <= markers@.len(),
            forall|j: int| 0 <= j < i ==> !seq_contains(text@, #[trigger] strs_view(markers@)[j]),
        decreases markers.len() - i,
    {
        if chars_contain_str(text, markers[i]) {
            assert(seq_contains(text@, strs_view(markers@)[i as int]));
            return true;
        }
        i = i + 1;
    }
    false
}

/// A command that both downloads and hands something to a shell.
pub open spec fn download_chain(command: Seq<char>) -> bool {
    contains_any(lower(command), download_markers()) && contains_any(lower(command), execute_markers())
}

/// Whether the command both downloads and hands something to a shell.
pub fn download_or_shell_chain(command: &str) -> (r: bool)
    ensures
        r == download_chain(command@),
{
    let c = lowercase_chars(&chars_of(command));
    let d = ["curl ", "wget ", "invoke-webrequest", "iwr "];
    assert(strs_view(d@) =~= download_markers());
    let e = ["| sh", "|sh", "| bash", "|bash", "invoke-expression", "iex ", "powershell", "pwsh"];
    assert(strs_view(e@) =~= execute_markers());
    contains_one_of(&c, &d) && contains_one_of(&c, &e)
}

pub open spec fn security_path_markers() -> Seq<Seq<char>> {
    seq![".vscode"@, ".devcontainer"@, "package.json"@, "vite.config"@, "webpack.config"@, "tailwind.config"@]
}

/// An exclusion pattern that covers developer-tool or build configuration.
pub open spec fn hides_security(pattern: Seq<char>) -> bool {
    contains_any(lower(pattern), security_path_markers())
}

/// Whether an exclusion pattern covers developer-tool or build configuration.
pub fn hides_security_path(pattern: &str) -> (r: bool)
    ensures
        r == hides_security(pattern@),
{
    let p = lowercase_chars(&chars_of(pattern));
    let m = [".vscode", ".devcontainer", "package.json", "vite.config", "webpack.config", "tailwind.config"];
    assert(strs_view(m@) =~= security_path_markers());
    contains_one_of(&p, &m)
}

fn line_of(text: &[char], needle: &str) -> (r: Option<u64>)
    ensures
        r == line_number(lines(text@), needle@),
{
    find_line(text, &chars_of(needle))
}

pub open spec fn opt_json(v: Option<&Json>) -> Option<Json> {
    match v {
        Some(v) => Some(*v),
        None => None,
    }
}

// ---------------------------------------------------------------------------
// tasks.json

/// The finding for a task that runs when the folder opens.
pub open spec fn task_finding(path: Seq<char>, text: Seq<char>, task: Json) -> FindingView {
    let command = command_of(get(task, "command"@));
    let dangerous = match command { Some(c) => download_chain(c), None => false };
    let hidden = string_of(get_in(get(task, "presentation"@), "reveal"@)) == Some("never"@);
    let label = match string_of(get(task, "label"@)) { Some(l) => l, None => "unnamed task"@ };
    FindingView {
        id: if dangerous { "IDE-FOLDER-OPEN-DOWNLOAD-EXECUTE"@ } else { "IDE-FOLDER-OPEN-TASK"@ },
        severity: if dangerous { Severity::Critical } else { Severity::High },
        confidence: Confidence::VeryHigh,
        score: if dangerous { 97 } else { 85 },
        title: if dangerous { "Repository downloads or executes content when opened"@ } else { "Repository task runs automatically when opened"@ },
        message: "A VS Code folder-open task can execute repository-controlled commands before the developer intentionally runs the project."@,
        file: Some(path),
        line: line_number(lines(text), "folderOpen"@),
        evidence: seq!["task: "@ + label, "runOn: folderOpen"@]
            + match command { Some(c) => seq!["command: "@ + bounded_text(c)], None => Seq::empty() }
            + if hidden { seq!["terminal reveal: never"@] } else { Seq::empty() },
    }
}

/// The task runs when the folder opens.
pub open spec fn runs_on_open(task: Json) -> bool {
    string_of(get_in(get(task, "runOptions"@), "runOn"@)) == Some("folderOpen"@)
}

/// The findings for the tasks from the `k`-th on.
pub open spec fn task_findings(path: Seq<char>, text: Seq<char>, tasks: Seq<Json>, k: int) -> Seq<FindingView>
    decreases tasks.len() - k,
{
    if k < 0 || k >= tasks.len() {
        Seq::empty()
    } else {
        (if runs_on_open(tasks[k]) { seq![task_finding(path, text, tasks[k])] } else { Seq::empty() })
            + task_findings(path, text, tasks, k + 1)
    }
}

/// The findings of a `tasks.json`.
pub open spec fn tasks_verdict(path: Seq<char>, text: Seq<char>, value: Json) -> Seq<FindingView> {
    match get(value, "tasks"@) {
        Some(Json::Array(tasks)) => task_findings(path, text, tasks@, 0),
        _ => Seq::empty(),
    }
}

fn is_text(value: Option<&Json>, expected: &str) -> (r: bool)
    ensures
        r == (string_of(opt_json(value)) == Some(expected@)),
{
    match as_text(value) {
        Some(s) => str_eq(s.as_str(), expected),
        None => false,
    }
}

/// Reports VS Code tasks that run when the folder opens.
pub fn analyze_tasks(path: &str, text: &str, value: &Json) -> (r: MetadataAnalysis)
    ensures
        findings_view(r.findings@) == tasks_verdict(path@, text@, *value),
        r.incomplete_reasons@.len() == 0,
        r.dependencies@.len() == 0,
{
    let mut findings: Vec<Finding> = Vec::new();
    let ghost goal = tasks_verdict(path@, text@, *value);
    let tv = chars_of(text);
    match member(value, "tasks") {
        Some(Json::Array(tasks)) => {
            let mut k: usize = 0;
            assert(findings_view(findings@) + task_findings(path@, text@, tasks@, 0) =~= goal);
            while k < tasks.len()
                invariant
                    k <= tasks@.len(),
                    tv@ == text@,
                    findings_view(findings@) + task_findings(path@, text@, tasks@, k as int) == goal,
                decreases tasks.len() - k,
            {
                let task = &tasks[k];
                let ghost before = findings_view(findings@);
                if is_text(member_in(member(task, "runOptions"), "runOn"), "folderOpen") {
                    let command = command_text(member(task, "command"));
                    let dangerous = match &command { Some(c) => download_or_shell_chain(c.as_str()), None => false };
                    let hidden = is_text(member_in(member(task, "presentation"), "reveal"), "never");
                    let label = match as_text(member(task, "label")) { Some(l) => l.clone(), None => owned("unnamed task") };
                    let mut evidence: Vec<String> = Vec::new();
                    let mut first = owned("task: ");
                    push_str(&mut first, label.as_str());
                    evidence.push(first);
                    evidence.push(owned("runOn: folderOpen"));
                    match &command {
                        Some(c) => {
                            let mut e = owned("command: ");
                            let b = bounded(c.as_str());
                            push_str(&mut e, b.as_str());
                            evidence.push(e);
                        },
                        None => {},
                    }
                    if hidden {
                        evidence.push(owned("terminal reveal: never"));
                    }
                    let f = Finding {
                        id: if dangerous { owned("IDE-FOLDER-OPEN-DOWNLOAD-EXECUTE") } else { owned("IDE-FOLDER-OPEN-TASK") },
                        severity: if dangerous { Severity::Critical } else { Severity::High },
                        confidence: Confidence::VeryHigh,
                        score: if dangerous { 97 } else { 85 },
                        title: if dangerous {
                            owned("Repository downloads or executes content when opened")
                        } else {
                            owned("Repository task runs automatically when opened")
                        },
                        message: owned("A VS Code folder-open task can execute repository-controlled commands before the developer intentionally runs the project."),
                        file: Some(owned(path)),
                        line: line_of(&tv, "folderOpen"),
                        evidence,
                    };
                    assert(strings_view(f.evidence@) =~= task_finding(path@, text@, *task).evidence);
                    assert(f@ == task_finding(path@, text@, *task));
                    findings.push(f);
                    assert(findings_view(findings@) =~= before.push(task_finding(path@, text@, *task)));
                }
                assert(findings_view(findings@) + task_findings(path@, text@, tasks@, k + 1) =~= goal);
                k = k + 1;
            }
        },
        _ => {},
    }
    assert(findings_view(findings@) =~= goal);
    MetadataAnalysis { findings, dependencies: Vec::new(), incomplete_reasons: Vec::new() }
}


// ---------------------------------------------------------------------------
// settings.json

/// The finding for a workspace that lets tasks run automatically.
pub open spec fn automatic_tasks_finding(path: Seq<char>, text: Seq<char>) -> FindingView {
    FindingView {
        id: "IDE-AUTOMATIC-TASKS"@,
        severity: Severity::High,
        confidence: Confidence::VeryHigh,
        score: 80,
        title: "Repository enables automatic tasks"@,
        message: "Workspace settings allow tasks to run automatically."@,
        file: Some(path),
        line: line_number(lines(text), "task.allowAutomaticTasks"@),
        evidence: seq!["task.allowAutomaticTasks: on"@],
    }
}

/// The finding for an exclusion that hides configuration.
pub open spec fn hidden_files_finding(path: Seq<char>, text: Seq<char>, section: Seq<char>, pattern: Seq<char>) -> FindingView {
    FindingView {
        id: "IDE-HIDDEN-SECURITY-FILES"@,
        severity: Severity::High,
        confidence: Confidence::High,
        score: 75,
        title: "Workspace settings hide security-relevant files"@,
        message: "Explorer or search exclusions conceal developer-tool or configuration files."@,
        file: Some(path),
        line: line_number(lines(text), pattern),
        evidence: seq![section + ": "@ + pattern],
    }
}

/// The findings for the enabled exclusions from the `k`-th on.
pub open spec fn exclusion_findings(path: Seq<char>, text: Seq<char>, section: Seq<char>, entries: Seq<(String, Json)>, k: int) -> Seq<FindingView>
    decreases entries.len() - k,
{
    if k < 0 || k >= entries.len() {
        Seq::empty()
    } else {
        (if entries[k].1 == Json::Bool(true) && hides_security(entries[k].0@) {
            seq![hidden_files_finding(path, text, section, entries[k].0@)]
        } else {
            Seq::empty()
        }) + exclusion_findings(path, text, section, entries, k + 1)
    }
}

/// The findings for one exclusion section.
pub open spec fn section_findings(path: Seq<char>, text: Seq<char>, value: Json, section: Seq<char>) -> Seq<FindingView> {
    match get(value, section) {
        Some(Json::Object(entries)) => exclusion_findings(path, text, section, entries@, 0),
        _ => Seq::empty(),
    }
}

/// The findings of a `settings.json`.
pub open spec fn settings_verdict(path: Seq<char>, text: Seq<char>, value: Json) -> Seq<FindingView> {
    (if string_of(get(value, "task.allowAutomaticTasks"@)) == Some("on"@) {
        seq![automatic_tasks_finding(path, text)]
    } else {
        Seq::empty()
    }) + section_findings(path, text, value, "files.exclude"@) + section_findings(path, text, value, "search.exclude"@)
}

fn push_section(findings: &mut Vec<Finding>, path: &str, text: &str, tv: &[char], value: &Json, section: &str)
    requires
        tv@ == text@,
    ensures
        findings_view(final(findings)@) == findings_view(old(findings)@) + section_findings(path@, text@, *value, section@),
{
    let ghost goal = findings_view(findings@) + section_findings(path@, text@, *value, section@);
    match member(value, section) {
        Some(Json::Object(entries)) => {
            let mut k: usize = 0;
            assert(findings_view(findings@) + exclusion_findings(path@, text@, section@, entries@, 0) =~= goal);
            while k < entries.len()
                invariant
                    k <= entries@.len(),
                    tv@ == text@,
                    findings_view(findings@) + exclusion_findings(path@, text@, section@, entries@, k as int) == goal,
                decreases entries.len() - k,
            {
                let ghost before = findings_view(findings@);
                let pattern = &entries[k].0;
                let enabled = match &entries[k].1 { Json::Bool(b) => *b, _ => false };
                if enabled && hides_security_path(pattern.as_str()) {
                    let mut e = owned(section);
                    push_str(&mut e, ": ");
                    push_str(&mut e, pattern.as_str());
                    let f = Finding {
                        id: owned("IDE-HIDDEN-SECURITY-FILES"),
                        severity: Severity::High,
                        confidence: Confidence::High,
                        score: 75,
                        title: owned("Workspace settings hide security-relevant files"),
                        message: owned("Explorer or search exclusions conceal developer-tool or configuration files."),
                        file: Some(owned(path)),
                        line: line_of(tv, pattern.as_str()),
                        evidence: vec![e],
                    };
                    assert(strings_view(f.evidence@) =~= hidden_files_finding(path@, text@, section@, pattern@).evidence);
                    assert(f@ == hidden_files_finding(path@, text@, section@, pattern@));
                    findings.push(f);
                    assert(findings_view(findings@) =~= before.push(hidden_files_finding(path@, text@, section@, pattern@)));
                }
                assert(findings_view(findings@) + exclusion_findings(path@, text@, section@, entries@, k + 1) =~= goal);
                k = k + 1;
            }
            assert(findings_view(findings@) =~= goal);
        },
        _ => {
            assert(findings_view(findings@) =~= goal);
        },
    }
}

/// Reports workspace settings that run tasks automatically or hide configuration.
pub fn analyze_settings(path: &str, text: &str, value: &Json) -> (r: MetadataAnalysis)
    ensures
        findings_view(r.findings@) == settings_verdict(path@, text@, *value),
        r.incomplete_reasons@.len() == 0,
        r.dependencies@.len() == 0,
{
    let tv = chars_of(text);
    let mut findings: Vec<Finding> = Vec::new();
    if is_text(member(value, "task.allowAutomaticTasks"), "on") {
        let f = Finding {
            id: owned("IDE-AUTOMATIC-TASKS"),
            severity: Severity::High,
            confidence: Confidence::VeryHigh,
            score: 80,
            title: owned("Repository enables automatic tasks"),
            message: owned("Workspace settings allow tasks to run automatically."),
            file: Some(owned(path)),
            line: line_of(&tv, "task.allowAutomaticTasks"),
            evidence: vec![owned("task.allowAutomaticTasks: on")],
        };
        assert(strings_view(f.evidence@) =~= automatic_tasks_finding(path@, text@).evidence);
        findings.push(f);
    }
    let ghost first = findings_view(findings@);
    assert(first =~= (if string_of(get(*value, "task.allowAutomaticTasks"@)) == Some("on"@) {
        seq![automatic_tasks_finding(path@, text@)]
    } else {
        Seq::empty()
    }));
    push_section(&mut findings, path, text, &tv, value, "files.exclude");
    push_section(&mut findings, path, text, &tv, value, "search.exclude");
    MetadataAnalysis { findings, dependencies: Vec::new(), incomplete_reasons: Vec::new() }
}

// ---------------------------------------------------------------------------
// launch.json

pub open spec fn prelaunch_finding(path: Seq<char>, text: Seq<char>, task: Seq<char>) -> FindingView {
    FindingView {
        id: "IDE-PRELAUNCH-TASK"@,
        severity: Severity::Informational,
        confidence: Confidence::VeryHigh,
        score: 10,
        title: "Debug configuration invokes a repository task"@,
        message: "Starting this debug configuration triggers a named workspace task."@,
        file: Some(path),
        line: line_number(lines(text), "preLaunchTask"@),
        evidence: seq!["preLaunchTask: "@ + task],
    }
}

/// The findings for the configurations from the `k`-th on.
pub open spec fn launch_findings(path: Seq<char>, text: Seq<char>, configurations: Seq<Json>, k: int) -> Seq<FindingView>
    decreases configurations.len() - k,
{
    if k < 0 || k >= configurations.len() {
        Seq::empty()
    } else {
        (match string_of(get(configurations[k], "preLaunchTask"@)) {
            Some(t) => seq![prelaunch_finding(path, text, t)],
            None => Seq::empty(),
        }) + launch_findings(path, text, configurations, k + 1)
    }
}

/// The findings of a `launch.json`.
pub open spec fn launch_verdict(path: Seq<char>, text: Seq<char>, value: Json) -> Seq<FindingView> {
    match get(value, "configurations"@) {
        Some(Json::Array(configurations)) => launch_findings(path, text, configurations@, 0),
        _ => Seq::empty(),
    }
}

/// Reports debug configurations that start a workspace task.
pub fn analyze_launch(path: &str, text: &str, value: &Json) -> (r: MetadataAnalysis)
    ensures
        findings_view(r.findings@) == launch_verdict(path@, text@, *value),
        r.incomplete_reasons@.len() == 0,
        r.dependencies@.len() == 0,
{
    let tv = chars_of(text);
    let mut findings: Vec<Finding> = Vec::new();
    let ghost goal = launch_verdict(path@, text@, *value);
    match member(value, "configurations") {
        Some(Json::Array(configurations)) => {
            let mut k: usize = 0;
            assert(findings_view(findings@) + launch_findings(path@, text@, configurations@, 0) =~= goal);
            while k < configurations.len()
                invariant
                    k <= configurations@.len(),
                    tv@ == text@,
                    findings_view(findings@) + launch_findings(path@, text@, configurations@, k as int) == goal,
                decreases configurations.len() - k,
            {
                let ghost before = findings_view(findings@);
                match as_text(member(&configurations[k], "preLaunchTask")) {
                    Some(task) => {
                        let mut e = owned("preLaunchTask: ");
                        push_str(&mut e, task.as_str());
                        let f = Finding {
                            id: owned("IDE-PRELAUNCH-TASK"),
                            severity: Severity::Informational,
                            confidence: Confidence::VeryHigh,
                            score: 10,
                            title: owned("Debug configuration invokes a repository task"),
                            message: owned("Starting this debug configuration triggers a named workspace task."),
                            file: Some(owned(path)),
                            line: line_of(&tv, "preLaunchTask"),
                            evidence: vec![e],
                        };
                        assert(strings_view(f.evidence@) =~= prelaunch_finding(path@, text@, task@).evidence);
                        assert(f@ == prelaunch_finding(path@, text@, task@));
                        findings.push(f);
                        assert(findings_view(findings@) =~= before.push(prelaunch_finding(path@, text@, task@)));
                    },
                    None => {},
                }
                assert(findings_view(findings@) + launch_findings(path@, text@, configurations@, k + 1) =~= goal);
                k = k + 1;
            }
        },
        _ => {},
    }
    assert(findings_view(findings@) =~= goal);
    MetadataAnalysis { findings, dependencies: Vec::new(), incomplete_reasons: Vec::new() }
}

// ---------------------------------------------------------------------------
// devcontainer.json

/// Devcontainer properties that run commands.
pub open spec fn hook_keys() -> Seq<Seq<char>> {
    seq!["initializeCommand"@, "onCreateCommand"@, "updateContentCommand"@, "postCreateCommand"@,
        "postStartCommand"@, "postAttachCommand"@]
}

pub open spec fn hook_finding(path: Seq<char>, text: Seq<char>, key: Seq<char>, command: Seq<char>) -> FindingView {
    FindingView {
        id: "DEVCONTAINER-EXECUTION-HOOK"@,
        severity: Severity::High,
        confidence: Confidence::VeryHigh,
        score: 75,
        title: "Devcontainer configuration contains an execution hook"@,
        message: "Opening or creating the development container can execute repository-controlled commands."@,
        file: Some(path),
        line: line_number(lines(text), key),
        evidence: seq![key + ": "@ + bounded_text(command)],
    }
}

/// The findings for the hook keys from the `k`-th on.
pub open spec fn hook_findings(path: Seq<char>, text: Seq<char>, value: Json, k: int) -> Seq<FindingView>
    decreases hook_keys().len() - k,
{
    if k < 0 || k >= hook_keys().len() {
        Seq::empty()
    } else {
        (match command_of(get(value, hook_keys()[k])) {
            Some(c) => seq![hook_finding(path, text, hook_keys()[k], c)],
            None => Seq::empty(),
        }) + hook_findings(path, text, value, k + 1)
    }
}

/// Reports devcontainer hooks that run commands.
pub fn analyze_devcontainer(path: &str, text: &str, value: &Json) -> (r: MetadataAnalysis)
    ensures
        findings_view(r.findings@) == hook_findings(path@, text@, *value, 0),
        r.incomplete_reasons@.len() == 0,
        r.dependencies@.len() == 0,
{
    let tv = chars_of(text);
    let keys = ["initializeCommand", "onCreateCommand", "updateContentCommand", "postCreateCommand",
        "postStartCommand", "postAttachCommand"];
    assert(strs_view(keys@) =~= hook_keys());
    let mut findings: Vec<Finding> = Vec::new();
    let ghost goal = hook_findings(path@, text@, *value, 0);
    let mut k: usize = 0;
    assert(findings_view(findings@) + hook_findings(path@, text@, *value, 0) =~= goal);
    while k < 6
        invariant
            k <= 6,
            tv@ == text@,
            strs_view(keys@) == hook_keys(),
            findings_view(findings@) + hook_findings(path@, text@, *value, k as int) == goal,
        decreases 6 - k,
    {
        let ghost before = findings_view(findings@);
        let key = keys[k];
        assert(hook_keys()[k as int] == key@);
        match command_text(member(value, key)) {
            Some(c) => {
                let mut e = owned(key);
                push_str(&mut e, ": ");
                let b = bounded(c.as_str());
                push_str(&mut e, b.as_str());
                let f = Finding {
                    id: owned("DEVCONTAINER-EXECUTION-HOOK"),
                    severity: Severity::High,
                    confidence: Confidence::VeryHigh,
                    score: 75,
                    title: owned("Devcontainer configuration contains an execution hook"),
                    message: owned("Opening or creating the development container can execute repository-controlled commands."),
                    file: Some(owned(path)),
                    line: line_of(&tv, key),
                    evidence: vec![e],
                };
                assert(strings_view(f.evidence@) =~= hook_finding(path@, text@, key@, c@).evidence);
                assert(f@ == hook_finding(path@, text@, key@, c@));
                findings.push(f);
                assert(findings_view(findings@) =~= before.push(hook_finding(path@, text@, key@, c@)));
            },
            None => {},
        }
        assert(findings_view(findings@) + hook_findings(path@, text@, *value, k + 1) =~= goal);
        k = k + 1;
    }
    assert(findings_view(findings@) =~= goal);
    MetadataAnalysis { findings, dependencies: Vec::new(), incomplete_reasons: Vec::new() }
}

// ---------------------------------------------------------------------------
// Dispatch

/// The analysis of a developer-tool file, given the file as parsed.
pub open spec fn ide_verdict(path: Seq<char>, name: Seq<char>, text: Seq<char>, parsed: Result<Json, Seq<char>>) -> (Seq<FindingView>, Seq<Seq<char>>) {
    match parsed {
        Err(e) => (
            seq![FindingView {
                id: "CONFIG-PARSE-FAILED"@,
                severity: Severity::Medium,
                confidence: Confidence::VeryHigh,
                score: 45,
                title: "Developer-tool configuration could not be parsed"@,
                message: "A security-relevant IDE or devcontainer file is malformed or unsupported."@,
                file: Some(path),
                line: None,
                evidence: seq![e],
            }],
            seq!["could not parse developer-tool configuration "@ + path + ": "@ + e],
        ),
        Ok(v) => (
            if name == "tasks.json"@ {
                tasks_verdict(path, text, v)
            } else if name == "settings.json"@ {
                settings_verdict(path, text, v)
            } else if name == "launch.json"@ {
                launch_verdict(path, text, v)
            } else if name == "devcontainer.json"@ {
                hook_findings(path, text, v, 0)
            } else {
                Seq::empty()
            },
            Seq::empty(),
        ),
    }
}

/// Analyses a developer-tool configuration file.
pub fn analyze(path: &str, name: &[char], text: &str, parsed: &Result<Json, String>) -> (r: MetadataAnalysis)
    ensures
        (findings_view(r.findings@), strings_view(r.incomplete_reasons@))
            == ide_verdict(path@, name@, text@, parsed_view(*parsed)),
        r.dependencies@.len() == 0,
{
    let value = match parsed {
        Err(error) => {
            let f = Finding {
                id: owned("CONFIG-PARSE-FAILED"),
                severity: Severity::Medium,
                confidence: Confidence::VeryHigh,
                score: 45,
                title: owned("Developer-tool configuration could not be parsed"),
                message: owned("A security-relevant IDE or devcontainer file is malformed or unsupported."),
                file: Some(owned(path)),
                line: None,
                evidence: vec![error.clone()],
            };
            let mut reason = owned("could not parse developer-tool configuration ");
            push_str(&mut reason, path);
            push_str(&mut reason, ": ");
            push_str(&mut reason, error.as_str());
            assert(strings_view(f.evidence@) =~= seq![error@]);
            let r = MetadataAnalysis { findings: vec![f], dependencies: Vec::new(), incomplete_reasons: vec![reason] };
            assert(findings_view(r.findings@) =~= ide_verdict(path@, name@, text@, parsed_view(*parsed)).0);
            assert(strings_view(r.incomplete_reasons@) =~= ide_verdict(path@, name@, text@, parsed_view(*parsed)).1);
            return r;
        },
        Ok(v) => v,
    };
    let r = if chars_eq_str(name, "tasks.json") {
        analyze_tasks(path, text, value)
    } else if chars_eq_str(name, "settings.json") {
        analyze_settings(path, text, value)
    } else if chars_eq_str(name, "launch.json") {
        analyze_launch(path, text, value)
    } else if chars_eq_str(name, "devcontainer.json") {
        analyze_devcontainer(path, text, value)
    } else {
        MetadataAnalysis::default()
    };
    assert(strings_view(r.incomplete_reasons@) =~= Seq::<Seq<char>>::empty());
    assert(findings_view(r.findings@) =~= ide_verdict(path@, name@, text@, parsed_view(*parsed)).0);
    r
}

} // verus!
