//! Execution roots in npm package manifests.
use vstd::prelude::*;
use crate::json::{Json, get, member};
use crate::model::{Confidence, Finding, FindingView, Severity, findings_view, strings_view};
use crate::scanner::analyzers::{MetadataAnalysis, bounded, bounded_text, parsed_view};
use crate::text::{chars_of, chars_start_with_str, find_line, is_one_of, line_number, lines, owned, push_str, seq_starts_with, strs_view};

verus! {

/// Scripts that npm runs while installing a package.
pub open spec fn lifecycle_names() -> Seq<Seq<char>> {
    seq!["preinstall"@, "install"@, "postinstall"@, "prepare"@]
}

/// Scripts that developers commonly run.
pub open spec fn common_names() -> Seq<Seq<char>> {
    seq!["start"@, "dev"@, "build"@, "test"@]
}

/// A script that runs on its own or through a common command.
pub open spec fn execution_root(name: Seq<char>) -> bool {
    lifecycle_names().contains(name) || common_names().contains(name)
        || seq_starts_with(name, "pre"@) || seq_starts_with(name, "post"@)
}

/// The finding for one execution-root script.
pub open spec fn script_finding(path: Seq<char>, text: Seq<char>, name: Seq<char>, command: Seq<char>, with_lines: bool) -> FindingView {
    let lifecycle = lifecycle_names().contains(name);
    FindingView {
        id: if lifecycle { "NPM-LIFECYCLE-SCRIPT"@ } else { "NPM-EXECUTION-SCRIPT"@ },
        severity: if lifecycle { Severity::Medium } else { Severity::Informational },
        confidence: Confidence::VeryHigh,
        score: if lifecycle { 35 } else { 10 },
        title: if lifecycle { "Package lifecycle script can execute during installation"@ } else { "Package script is an execution root"@ },
        message: "The npm script '"@ + name + "' can execute repository-controlled commands."@,
        file: Some(path),
        line: if with_lines { line_number(lines(text), "\""@ + name + "\""@) } else { None },
        evidence: seq![name + ": "@ + bounded_text(command)],
    }
}

/// The findings for the scripts from the `k`-th on.
pub open spec fn script_findings(path: Seq<char>, text: Seq<char>, entries: Seq<(String, Json)>, with_lines: bool, k: int) -> Seq<FindingView>
    decreases entries.len() - k,
{
    if k < 0 || k >= entries.len() {
        Seq::empty()
    } else {
        (match entries[k].1 {
            Json::Str(c) => if execution_root(entries[k].0@) {
                seq![script_finding(path, text, entries[k].0@, c@, with_lines)]
            } else {
                Seq::empty()
            },
            _ => Seq::empty(),
        }) + script_findings(path, text, entries, with_lines, k + 1)
    }
}

/// The analysis of a package manifest, given the manifest as parsed.
pub open spec fn npm_verdict(path: Seq<char>, text: Seq<char>, parsed: Result<Json, Seq<char>>) -> (Seq<FindingView>, Seq<Seq<char>>) {
    match parsed {
        Err(e) => (
            seq![FindingView {
                id: "CONFIG-PARSE-FAILED"@,
                severity: Severity::Medium,
                confidence: Confidence::VeryHigh,
                score: 45,
                title: "Security-relevant configuration could not be parsed"@,
                message: "The package manifest is malformed, so execution-root analysis is incomplete."@,
                file: Some(path),
                line: None,
                evidence: seq![e],
            }],
            seq!["could not parse package manifest "@ + path + ": "@ + e],
        ),
        Ok(v) => (
            match get(v, "scripts"@) {
                Some(Json::Object(entries)) => script_findings(path, text, entries@, entries@.len() <= 64, 0),
                _ => Seq::empty(),
            },
            Seq::empty(),
        ),
    }
}

proof fn lemma_script_findings_has(path: Seq<char>, text: Seq<char>, entries: Seq<(String, Json)>, with_lines: bool,
    i: int, k: int)
    requires
        0 <= i <= k < entries.len(),
        entries[k].1 is Str,
        execution_root(entries[k].0@),
    ensures
        exists|j: int| 0 <= j < script_findings(path, text, entries, with_lines, i).len()
            && #[trigger] script_findings(path, text, entries, with_lines, i)[j]
                == script_finding(path, text, entries[k].0@, entries[k].1->Str_0@, with_lines),
    decreases k - i,
{
    let here = match entries[i].1 {
        Json::Str(c) => if execution_root(entries[i].0@) {
            seq![script_finding(path, text, entries[i].0@, c@, with_lines)]
        } else {
            Seq::<FindingView>::empty()
        },
        _ => Seq::<FindingView>::empty(),
    };
    let rest = script_findings(path, text, entries, with_lines, i + 1);
    assert(script_findings(path, text, entries, with_lines, i) == here + rest);
    if i < k {
        lemma_script_findings_has(path, text, entries, with_lines, i + 1, k);
        let j = choose|j: int| 0 <= j < rest.len() && #[trigger] rest[j]
            == script_finding(path, text, entries[k].0@, entries[k].1->Str_0@, with_lines);
        assert((here + rest)[here.len() + j] == rest[j]);
    } else {
        assert((here + rest)[0] == here[0]);
    }
}

/// Every string-valued script of the manifest's `scripts` object named
/// `preinstall`, `install`, `postinstall` or `prepare` is reported as a
/// lifecycle script that runs during installation: a medium-severity finding
/// scored 35 whose evidence is the script's name and command.
pub proof fn lemma_lifecycle_scripts_reported(path: Seq<char>, text: Seq<char>, v: Json, entries: Vec<(String, Json)>, k: int)
    requires
        get(v, "scripts"@) == Some(Json::Object(entries)),
        0 <= k < entries@.len(),
        entries@[k].1 is Str,
        entries@[k].0@ == "preinstall"@ || entries@[k].0@ == "install"@ || entries@[k].0@ == "postinstall"@
            || entries@[k].0@ == "prepare"@,
    ensures
        exists|j: int| 0 <= j < npm_verdict(path, text, Ok(v)).0.len() && ({
            let f = #[trigger] npm_verdict(path, text, Ok(v)).0[j];
            &&& f.id == "NPM-LIFECYCLE-SCRIPT"@
            &&& f.severity == Severity::Medium
            &&& f.score == 35
            &&& f.evidence == seq![entries@[k].0@ + ": "@ + bounded_text(entries@[k].1->Str_0@)]
        }),
{
    let name = entries@[k].0@;
    let l = lifecycle_names();
    assert(l[0] == "preinstall"@ && l[1] == "install"@ && l[2] == "postinstall"@ && l[3] == "prepare"@);
    assert(l.contains(name)) by {
        if name == "preinstall"@ { assert(l[0] == name); }
        else if name == "install"@ { assert(l[1] == name); }
        else if name == "postinstall"@ { assert(l[2] == name); }
        else { assert(l[3] == name); }
    }
    lemma_script_findings_has(path, text, entries@, entries@.len() <= 64, 0, k);
    let fs = npm_verdict(path, text, Ok(v)).0;
    assert(fs == script_findings(path, text, entries@, entries@.len() <= 64, 0));
    let j = choose|j: int| 0 <= j < fs.len()
        && #[trigger] fs[j] == script_finding(path, text, name, entries@[k].1->Str_0@, entries@.len() <= 64);
    assert(fs[j].id == "NPM-LIFECYCLE-SCRIPT"@ && fs[j].severity == Severity::Medium && fs[j].score == 35);
    assert(fs[j].evidence == seq![name + ": "@ + bounded_text(entries@[k].1->Str_0@)]);
}

/// Every other string-valued script that runs as a common command (`start`,
/// `dev`, `build`, `test`) or as a `pre`/`post` hook is reported as an
/// execution root: an informational finding scored 10 whose evidence is the
/// script's name and command.
pub proof fn lemma_execution_scripts_reported(path: Seq<char>, text: Seq<char>, v: Json, entries: Vec<(String, Json)>, k: int)
    requires
        get(v, "scripts"@) == Some(Json::Object(entries)),
        0 <= k < entries@.len(),
        entries@[k].1 is Str,
        entries@[k].0@ != "preinstall"@ && entries@[k].0@ != "install"@ && entries@[k].0@ != "postinstall"@
            && entries@[k].0@ != "prepare"@,
        entries@[k].0@ == "start"@ || entries@[k].0@ == "dev"@ || entries@[k].0@ == "build"@ || entries@[k].0@ == "test"@
            || seq_starts_with(entries@[k].0@, "pre"@) || seq_starts_with(entries@[k].0@, "post"@),
    ensures
        exists|j: int| 0 <= j < npm_verdict(path, text, Ok(v)).0.len() && ({
            let f = #[trigger] npm_verdict(path, text, Ok(v)).0[j];
            &&& f.id == "NPM-EXECUTION-SCRIPT"@
            &&& f.severity == Severity::Informational
            &&& f.score == 10
            &&& f.evidence == seq![entries@[k].0@ + ": "@ + bounded_text(entries@[k].1->Str_0@)]
        }),
{
    let name = entries@[k].0@;
    let l = lifecycle_names();
    let c = common_names();
    assert(l[0] == "preinstall"@ && l[1] == "install"@ && l[2] == "postinstall"@ && l[3] == "prepare"@ && l.len() == 4);
    assert(c[0] == "start"@ && c[1] == "dev"@ && c[2] == "build"@ && c[3] == "test"@);
    assert(!l.contains(name)) by {
        if l.contains(name) {
            let i = choose|i: int| 0 <= i < l.len() && l[i] == name;
            assert(i == 0 || i == 1 || i == 2 || i == 3);
        }
    }
    assert(execution_root(name)) by {
        if name == "start"@ { assert(c[0] == name); }
        else if name == "dev"@ { assert(c[1] == name); }
        else if name == "build"@ { assert(c[2] == name); }
        else if name == "test"@ { assert(c[3] == name); }
    }
    lemma_script_findings_has(path, text, entries@, entries@.len() <= 64, 0, k);
    let fs = npm_verdict(path, text, Ok(v)).0;
    assert(fs == script_findings(path, text, entries@, entries@.len() <= 64, 0));
    let j = choose|j: int| 0 <= j < fs.len()
        && #[trigger] fs[j] == script_finding(path, text, name, entries@[k].1->Str_0@, entries@.len() <= 64);
    assert(fs[j].id == "NPM-EXECUTION-SCRIPT"@ && fs[j].severity == Severity::Informational && fs[j].score == 10);
    assert(fs[j].evidence == seq![name + ": "@ + bounded_text(entries@[k].1->Str_0@)]);
}

/// Finds the manifest's scripts that run on install or as common commands.
pub fn analyze(path: &str, text: &str, parsed: &Result<Json, String>) -> (r: MetadataAnalysis)
    ensures
        (findings_view(r.findings@), strings_view(r.incomplete_reasons@)) == npm_verdict(path@, text@, parsed_view(*parsed)),
        r.dependencies@.len() == 0,
{
    let value = match parsed {
        Err(error) => {
            let f = Finding {
                id: owned("CONFIG-PARSE-FAILED"),
                severity: Severity::Medium,
                confidence: Confidence::VeryHigh,
                score: 45,
                title: owned("Security-relevant configuration could not be parsed"),
                message: owned("The package manifest is malformed, so execution-root analysis is incomplete."),
                file: Some(owned(path)),
                line: None,
                evidence: vec![error.clone()],
            };
            let mut reason = owned("could not parse package manifest ");
            push_str(&mut reason, path);
            push_str(&mut reason, ": ");
            push_str(&mut reason, error.as_str());
            assert(strings_view(f.evidence@) =~= seq![error@]);
            let r = MetadataAnalysis { findings: vec![f], dependencies: Vec::new(), incomplete_reasons: vec![reason] };
            assert(findings_view(r.findings@) =~= npm_verdict(path@, text@, parsed_view(*parsed)).0);
            assert(strings_view(r.incomplete_reasons@) =~= npm_verdict(path@, text@, parsed_view(*parsed)).1);
            return r;
        },
        Ok(v) => v,
    };
    let mut findings: Vec<Finding> = Vec::new();
    let ghost goal = npm_verdict(path@, text@, parsed_view(*parsed)).0;
    match member(value, "scripts") {
        Some(Json::Object(entries)) => {
            let with_lines = entries.len() <= 64;
            let tv = chars_of(text);
            let lifecycle = ["preinstall", "install", "postinstall", "prepare"];
            assert(strs_view(lifecycle@) =~= lifecycle_names());
            let common = ["start", "dev", "build", "test"];
            assert(strs_view(common@) =~= common_names());
            let mut k: usize = 0;
            assert(findings_view(findings@) + script_findings(path@, text@, entries@, with_lines, 0) =~= goal);
            while k < entries.len()
                invariant
                    k <= entries@.len(),
                    tv@ == text@,
                    with_lines == (entries@.len() <= 64),
                    strs_view(lifecycle@) == lifecycle_names(),
                    strs_view(common@) == common_names(),
                    findings_view(findings@) + script_findings(path@, text@, entries@, with_lines, k as int) == goal,
                decreases entries.len() - k,
            {
                let ghost before = findings_view(findings@);
                let name = &entries[k].0;
                match &entries[k].1 {
                    Json::Str(command) => {
                        let nv = chars_of(name.as_str());
                        let is_lifecycle = is_one_of(&nv, &lifecycle);
                        let root = is_lifecycle || is_one_of(&nv, &common) || chars_start_with_str(&nv, "pre")
                            || chars_start_with_str(&nv, "post");
                        if root {
                            let mut message = owned("The npm script '");
                            push_str(&mut message, name.as_str());
                            push_str(&mut message, "' can execute repository-controlled commands.");
                            let line = if with_lines {
                                let mut needle = owned("\"");
                                push_str(&mut needle, name.as_str());
                                push_str(&mut needle, "\"");
                                find_line(&tv, &chars_of(needle.as_str()))
                            } else {
                                None
                            };
                            let mut ev = name.clone();
                            push_str(&mut ev, ": ");
                            let b = bounded(command.as_str());
                            push_str(&mut ev, b.as_str());
                            let f = Finding {
                                id: if is_lifecycle { owned("NPM-LIFECYCLE-SCRIPT") } else { owned("NPM-EXECUTION-SCRIPT") },
                                severity: if is_lifecycle { Severity::Medium } else { Severity::Informational },
                                confidence: Confidence::VeryHigh,
                                score: if is_lifecycle { 35 } else { 10 },
                                title: if is_lifecycle {
                                    owned("Package lifecycle script can execute during installation")
                                } else {
                                    owned("Package script is an execution root")
                                },
                                message,
                                file: Some(owned(path)),
                                line,
                                evidence: vec![ev],
                            };
                            assert(strings_view(f.evidence@) =~= script_finding(path@, text@, name@, command@, with_lines).evidence);
                            assert(f@ == script_finding(path@, text@, name@, command@, with_lines));
                            findings.push(f);
                            assert(findings_view(findings@) =~= before.push(script_finding(path@, text@, name@, command@, with_lines)));
                        }
                    },
                    _ => {},
                }
                assert(findings_view(findings@) + script_findings(path@, text@, entries@, with_lines, k + 1) =~= goal);
                k = k + 1;
            }
        },
        _ => {
            assert(findings_view(findings@) =~= goal);
        },
    }
    let r = MetadataAnalysis { findings, dependencies: Vec::new(), incomplete_reasons: Vec::new() };
    assert(findings_view(r.findings@) =~= goal);
    assert(strings_view(r.incomplete_reasons@) =~= Seq::<Seq<char>>::empty());
    r
}

} // verus!
