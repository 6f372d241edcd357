//! Bounded remote-input and execution heuristics for non-JavaScript sources.
use vstd::prelude::*;
use vstd::string::*;
use vstd::utf8::encode_utf8;
use crate::model::{Confidence, Finding, FindingView, Severity, findings_view, opt_view, strings_view};
use crate::text::{
    basename, basename_of, chars_contain_str, chars_end_with_str, chars_eq_str, chars_of,
    chars_start_with_str, extension, extension_of, find_line, forward_slashes, is_one_of, join,
    line_number, line_spans, lines, lower, lowercase_chars, push_joined, push_str, seq_contains,
    seq_ends_with, seq_starts_with, skip_whitespace, span_views, strs_view, to_forward_slashes,
    trim_start, owned,
};

verus! {

pub const MAX_SOURCE_BYTES: usize = 16777216;

/// What the language heuristics report for one file.
pub struct Analysis {
    pub language: Option<String>,
    pub findings: Vec<Finding>,
    pub incomplete_reasons: Vec<String>,
}

/// The language that an extension names.
pub open spec fn language_of_extension(e: Seq<char>) -> Option<Seq<char>> {
    if seq!["sh"@, "bash"@, "zsh"@, "fish"@].contains(e) {
        Some("shell"@)
    } else if seq!["ps1"@, "psm1"@, "psd1"@].contains(e) {
        Some("powershell"@)
    } else if seq!["bat"@, "cmd"@].contains(e) {
        Some("batch"@)
    } else if seq!["py"@, "pyw"@].contains(e) {
        Some("python"@)
    } else if e == "rs"@ {
        Some("rust"@)
    } else if e == "go"@ {
        Some("go"@)
    } else if e == "php"@ {
        Some("php"@)
    } else if e == "rb"@ {
        Some("ruby"@)
    } else if seq!["java"@, "gradle"@, "kts"@].contains(e) {
        Some("java"@)
    } else if seq!["cs"@, "csproj"@, "props"@, "targets"@].contains(e) {
        Some("dotnet"@)
    } else {
        None
    }
}

/// The language whose heuristics apply to a path.
pub open spec fn language_of(path: Seq<char>) -> Option<Seq<char>> {
    let normalized = forward_slashes(path);
    let base = basename(normalized);
    if base == "setup.py"@ || base == "pyproject.toml"@ {
        Some("python"@)
    } else if base == "build.rs"@ || normalized == ".cargo/config"@ || normalized == ".cargo/config.toml"@ {
        Some("rust"@)
    } else if base == "extconf.rb"@ || seq_ends_with(base, ".gemspec"@) {
        Some("ruby"@)
    } else if base == "composer.json"@ {
        Some("php"@)
    } else if base == "pom.xml"@ {
        Some("java"@)
    } else {
        match extension(base) {
            Some(e) => language_of_extension(e),
            None => None,
        }
    }
}

fn language_for_extension(e: &[char]) -> (r: Option<&'static str>)
    ensures
        match r {
            Some(l) => language_of_extension(e@) == Some(l@),
            None => language_of_extension(e@) is None,
        },
{
    let shell = ["sh", "bash", "zsh", "fish"];
    assert(strs_view(shell@) =~= seq!["sh"@, "bash"@, "zsh"@, "fish"@]);
    let powershell = ["ps1", "psm1", "psd1"];
    assert(strs_view(powershell@) =~= seq!["ps1"@, "psm1"@, "psd1"@]);
    let batch = ["bat", "cmd"];
    assert(strs_view(batch@) =~= seq!["bat"@, "cmd"@]);
    let python = ["py", "pyw"];
    assert(strs_view(python@) =~= seq!["py"@, "pyw"@]);
    let java = ["java", "gradle", "kts"];
    assert(strs_view(java@) =~= seq!["java"@, "gradle"@, "kts"@]);
    let dotnet = ["cs", "csproj", "props", "targets"];
    assert(strs_view(dotnet@) =~= seq!["cs"@, "csproj"@, "props"@, "targets"@]);
    if is_one_of(e, &shell) {
        Some("shell")
    } else if is_one_of(e, &powershell) {
        Some("powershell")
    } else if is_one_of(e, &batch) {
        Some("batch")
    } else if is_one_of(e, &python) {
        Some("python")
    } else if chars_eq_str(e, "rs") {
        Some("rust")
    } else if chars_eq_str(e, "go") {
        Some("go")
    } else if chars_eq_str(e, "php") {
        Some("php")
    } else if chars_eq_str(e, "rb") {
        Some("ruby")
    } else if is_one_of(e, &java) {
        Some("java")
    } else if is_one_of(e, &dotnet) {
        Some("dotnet")
    } else {
        None
    }
}

/// The language whose heuristics apply to a path.
pub fn language(path: &str) -> (r: Option<&'static str>)
    ensures
        match r {
            Some(l) => language_of(path@) == Some(l@),
            None => language_of(path@) is None,
        },
{
    let chars = chars_of(path);
    let normalized = to_forward_slashes(chars.as_slice());
    let base = basename_of(normalized.as_slice());
    if chars_eq_str(base.as_slice(), "setup.py") || chars_eq_str(base.as_slice(), "pyproject.toml") {
        Some("python")
    } else if chars_eq_str(base.as_slice(), "build.rs") || chars_eq_str(normalized.as_slice(), ".cargo/config")
        || chars_eq_str(normalized.as_slice(), ".cargo/config.toml") {
        Some("rust")
    } else if chars_eq_str(base.as_slice(), "extconf.rb") || chars_end_with_str(base.as_slice(), ".gemspec") {
        Some("ruby")
    } else if chars_eq_str(base.as_slice(), "composer.json") {
        Some("php")
    } else if chars_eq_str(base.as_slice(), "pom.xml") {
        Some("java")
    } else {
        match extension_of(base.as_slice()) {
            Some(e) => language_for_extension(e.as_slice()),
            None => None,
        }
    }
}

/// Remote-input indicators of a language.
pub open spec fn source_patterns(language: Seq<char>) -> Seq<Seq<char>> {
    if language == "shell"@ {
        seq!["curl"@, "wget"@, "invoke-webrequest"@, "downloadstring"@]
    } else if language == "powershell"@ {
        seq!["invoke-webrequest"@, "downloadstring"@, "start-bitstransfer"@]
    } else if language == "batch"@ {
        seq!["certutil"@, "bitsadmin"@, "curl"@, "powershell -command"@]
    } else if language == "python"@ {
        seq!["requests.get"@, "urllib.request"@, "urlopen("@, "httpx.get"@]
    } else if language == "rust"@ {
        seq!["reqwest::get"@, "ureq::get"@, "hyper::client"@, "tcpstream::connect"@]
    } else if language == "go"@ {
        seq!["http.get("@, "http.newrequest"@, "client.do("@, "net.dial("@]
    } else if language == "php"@ {
        seq!["curl_exec("@, "file_get_contents("@, "fopen("@]
    } else if language == "ruby"@ {
        seq!["net::http"@, "open-uri"@, "http.get("@]
    } else if language == "java"@ {
        seq!["httpclient"@, "url.openconnection"@, "httpurlconnection"@]
    } else if language == "dotnet"@ {
        seq!["httpclient"@, "webclient"@, "downloadstring("@, "downloadfile("@]
    } else {
        Seq::empty()
    }
}

/// Execution indicators of a language.
pub open spec fn sink_patterns(language: Seq<char>) -> Seq<Seq<char>> {
    if language == "shell"@ {
        seq!["| sh"@, "| bash"@, "invoke-expression"@, "bash -c"@, "sh -c"@]
    } else if language == "powershell"@ {
        seq!["invoke-expression"@, "iex "@, "start-process"@, "scriptblock::create"@]
    } else if language == "batch"@ {
        seq!["start "@, "call "@, "cmd /c"@, "-encodedcommand"@]
    } else if language == "python"@ {
        seq!["exec("@, "eval("@, "subprocess."@, "os.system("@]
    } else if language == "rust"@ {
        seq!["process::command"@, "command::new"@, ".spawn("@, ".output("@]
    } else if language == "go"@ {
        seq!["exec.command("@, "commandcontext("@, ".start("@, ".run("@]
    } else if language == "php"@ {
        seq!["eval("@, "shell_exec("@, "proc_open("@, "system("@]
    } else if language == "ruby"@ {
        seq!["kernel.system"@, "system("@, "exec("@, "open3.capture"@]
    } else if language == "java"@ {
        seq!["processbuilder"@, "runtime.getruntime().exec"@, " .start("@]
    } else if language == "dotnet"@ {
        seq!["process.start("@, "powershell"@, "assembly.load("@]
    } else {
        Seq::empty()
    }
}

fn patterns(language: &str) -> (r: (Vec<&'static str>, Vec<&'static str>))
    ensures
        strs_view(r.0@) == source_patterns(language@),
        strs_view(r.1@) == sink_patterns(language@),
{
    let l = chars_of(language);
    let l = l.as_slice();
    let r = if chars_eq_str(l, "shell") {
        (vec!["curl", "wget", "invoke-webrequest", "downloadstring"],
         vec!["| sh", "| bash", "invoke-expression", "bash -c", "sh -c"])
    } else if chars_eq_str(l, "powershell") {
        (vec!["invoke-webrequest", "downloadstring", "start-bitstransfer"],
         vec!["invoke-expression", "iex ", "start-process", "scriptblock::create"])
    } else if chars_eq_str(l, "batch") {
        (vec!["certutil", "bitsadmin", "curl", "powershell -command"],
         vec!["start ", "call ", "cmd /c", "-encodedcommand"])
    } else if chars_eq_str(l, "python") {
        (vec!["requests.get", "urllib.request", "urlopen(", "httpx.get"],
         vec!["exec(", "eval(", "subprocess.", "os.system("])
    } else if chars_eq_str(l, "rust") {
        (vec!["reqwest::get", "ureq::get", "hyper::client", "tcpstream::connect"],
         vec!["process::command", "command::new", ".spawn(", ".output("])
    } else if chars_eq_str(l, "go") {
        (vec!["http.get(", "http.newrequest", "client.do(", "net.dial("],
         vec!["exec.command(", "commandcontext(", ".start(", ".run("])
    } else if chars_eq_str(l, "php") {
        (vec!["curl_exec(", "file_get_contents(", "fopen("],
         vec!["eval(", "shell_exec(", "proc_open(", "system("])
    } else if chars_eq_str(l, "ruby") {
        (vec!["net::http", "open-uri", "http.get("],
         vec!["kernel.system", "system(", "exec(", "open3.capture"])
    } else if chars_eq_str(l, "java") {
        (vec!["httpclient", "url.openconnection", "httpurlconnection"],
         vec!["processbuilder", "runtime.getruntime().exec", " .start("])
    } else if chars_eq_str(l, "dotnet") {
        (vec!["httpclient", "webclient", "downloadstring(", "downloadfile("],
         vec!["process.start(", "powershell", "assembly.load("])
    } else {
        (Vec::new(), Vec::new())
    };
    assert(strs_view(r.0@) =~= source_patterns(language@));
    assert(strs_view(r.1@) =~= sink_patterns(language@));
    r
}

/// The indicators among `patterns` that occur in `source`, in pattern order.
pub open spec fn matched(patterns: Seq<Seq<char>>, source: Seq<char>) -> Seq<Seq<char>>
    decreases patterns.len(),
{
    if patterns.len() == 0 {
        Seq::empty()
    } else {
        let rest = matched(patterns.drop_last(), source);
        if seq_contains(source, patterns.last()) {
            rest.push(patterns.last())
        } else {
            rest
        }
    }
}

fn matching(patterns: &Vec<&'static str>, source: &[char]) -> (r: Vec<&'static str>)
    ensures
        strs_view(r@) == matched(strs_view(patterns@), source@),
{
    let mut r: Vec<&'static str> = Vec::new();
    let mut i: usize = 0;
    while i < patterns.len()
        invariant
            i <= patterns@.len(),
            strs_view(r@) == matched(strs_view(patterns@.subrange(0, i as int)), source@),
        decreases patterns.len() - i,
    {
        assert(strs_view(patterns@.subrange(0, i + 1)).drop_last() =~= strs_view(patterns@.subrange(0, i as int)));
        assert(strs_view(patterns@.subrange(0, i + 1)).last() == patterns@[i as int]@);
        if chars_contain_str(source, patterns[i]) {
            r.push(patterns[i]);
            assert(strs_view(r@) =~= matched(strs_view(patterns@.subrange(0, i as int)), source@).push(patterns@[i as int]@));
        }
        i = i + 1;
    }
    assert(patterns@.subrange(0, patterns@.len() as int) =~= patterns@);
    r
}

/// A remote-input indicator and an execution indicator that are one pipeline.
pub open spec fn direct_pair(source: Seq<char>, sink: Seq<char>) -> bool {
    source == sink
        || (source == "downloadstring"@ && sink == "invoke-expression"@)
        || (source == "curl"@ && (sink == "| sh"@ || sink == "| bash"@))
}

pub open spec fn any_direct(sources: Seq<Seq<char>>, sinks: Seq<Seq<char>>) -> bool {
    exists|i: int, j: int| 0 <= i < sources.len() && 0 <= j < sinks.len() && direct_pair(sources[i], sinks[j])
}

fn is_direct(sources: &Vec<&'static str>, sinks: &Vec<&'static str>) -> (r: bool)
    ensures
        r == any_direct(strs_view(sources@), strs_view(sinks@)),
{
    let mut i: usize = 0;
    while i < sources.len()
        invariant
            i <= sources@.len(),
            forall|a: int, b: int| 0 <= a < i && 0 <= b < sinks@.len() ==> !direct_pair(sources@[a]@, sinks@[b]@),
        decreases sources.len() - i,
    {
        let s = chars_of(sources[i]);
        let mut j: usize = 0;
        while j < sinks.len()
            invariant
                i < sources@.len(),
                s@ == sources@[i as int]@,
                j <= sinks@.len(),
                forall|a: int, b: int| 0 <= a < i && 0 <= b < sinks@.len() ==> !direct_pair(sources@[a]@, sinks@[b]@),
                forall|b: int| 0 <= b < j ==> !direct_pair(sources@[i as int]@, sinks@[b]@),
            decreases sinks.len() - j,
        {
            let t = chars_of(sinks[j]);
            let hit = crate::text::eq_chars(s.as_slice(), t.as_slice())
                || (chars_eq_str(s.as_slice(), "downloadstring") && chars_eq_str(t.as_slice(), "invoke-expression"))
                || (chars_eq_str(s.as_slice(), "curl") && (chars_eq_str(t.as_slice(), "| sh") || chars_eq_str(t.as_slice(), "| bash")));
            if hit {
                assert(direct_pair(strs_view(sources@)[i as int], strs_view(sinks@)[j as int]));
                return true;
            }
            j = j + 1;
        }
        i = i + 1;
    }
    proof {
        if any_direct(strs_view(sources@), strs_view(sinks@)) {
            let (a, b) = choose|a: int, b: int| 0 <= a < strs_view(sources@).len() && 0 <= b < strs_view(sinks@).len()
                && direct_pair(strs_view(sources@)[a], strs_view(sinks@)[b]);
            assert(!direct_pair(sources@[a]@, sinks@[b]@));
        }
    }
    false
}

/// Does a line of `source` start, after leading whitespace, with `//go:generate`.
pub open spec fn has_go_generate(source: Seq<char>) -> bool {
    exists|k: int| 0 <= k < lines(source).len() && seq_starts_with(trim_start(lines(source)[k]), "//go:generate"@)
}

/// The path names a build or package hook that runs the source.
pub open spec fn execution_root(path: Seq<char>, language: Seq<char>, source: Seq<char>) -> bool {
    let base = basename(path);
    if language == "python"@ {
        base == "setup.py"@ || (base == "pyproject.toml"@ && seq_contains(source, "build-backend"@))
    } else if language == "rust"@ {
        base == "build.rs"@ || seq_contains(source, "rustc-wrapper"@) || seq_contains(source, "runner ="@)
    } else if language == "ruby"@ {
        base == "extconf.rb"@ || seq_ends_with(base, ".gemspec"@)
    } else if language == "php"@ {
        base == "composer.json"@ && seq_contains(source, "\"scripts\""@)
    } else if language == "java"@ {
        base == "build.gradle"@ || base == "build.gradle.kts"@ || base == "pom.xml"@
    } else if language == "go"@ {
        has_go_generate(source)
    } else if language == "dotnet"@ {
        (extension(base) == Some("csproj"@) || extension(base) == Some("props"@)
            || extension(base) == Some("targets"@)) && seq_contains(source, "<target"@)
    } else if language == "shell"@ {
        base == "install.sh"@ || base == "setup.sh"@ || base == "build.sh"@
    } else if language == "powershell"@ {
        base == "install.ps1"@ || base == "setup.ps1"@ || base == "build.ps1"@
    } else if language == "batch"@ {
        base == "install.bat"@ || base == "setup.cmd"@ || base == "build.cmd"@
    } else {
        false
    }
}

fn go_generate(source: &[char]) -> (r: bool)
    ensures
        r == has_go_generate(source@),
{
    let spans = line_spans(source);
    let mut k: usize = 0;
    while k < spans.len()
        invariant
            span_views(source@, spans@) == lines(source@),
            forall|q: int| 0 <= q < spans@.len() ==> (#[trigger] spans@[q]).0 <= spans@[q].1 <= source@.len(),
            k <= spans@.len(),
            forall|q: int| 0 <= q < k ==> !seq_starts_with(trim_start(lines(source@)[q]), "//go:generate"@),
        decreases spans.len() - k,
    {
        let (a, b) = spans[k];
        let line = crate::text::slice_chars(source, a, b);
        assert(line@ == lines(source@)[k as int]);
        let start = skip_whitespace(line.as_slice(), 0);
        assert(line@.subrange(0, line@.len() as int) =~= line@);
        let rest = crate::text::slice_chars(line.as_slice(), start, line.len());
        if chars_start_with_str(rest.as_slice(), "//go:generate") {
            return true;
        }
        k = k + 1;
    }
    false
}

fn execution_root_of(path: &str, language: &str, source: &[char]) -> (r: bool)
    ensures
        r == execution_root(path@, language@, source@),
{
    let p = chars_of(path);
    let base = basename_of(p.as_slice());
    let b = base.as_slice();
    let l = chars_of(language);
    let l = l.as_slice();
    if chars_eq_str(l, "python") {
        chars_eq_str(b, "setup.py") || (chars_eq_str(b, "pyproject.toml") && chars_contain_str(source, "build-backend"))
    } else if chars_eq_str(l, "rust") {
        chars_eq_str(b, "build.rs") || chars_contain_str(source, "rustc-wrapper") || chars_contain_str(source, "runner =")
    } else if chars_eq_str(l, "ruby") {
        chars_eq_str(b, "extconf.rb") || chars_end_with_str(b, ".gemspec")
    } else if chars_eq_str(l, "php") {
        chars_eq_str(b, "composer.json") && chars_contain_str(source, "\"scripts\"")
    } else if chars_eq_str(l, "java") {
        chars_eq_str(b, "build.gradle") || chars_eq_str(b, "build.gradle.kts") || chars_eq_str(b, "pom.xml")
    } else if chars_eq_str(l, "go") {
        go_generate(source)
    } else if chars_eq_str(l, "dotnet") {
        let ext = match extension_of(b) {
            Some(e) => chars_eq_str(e.as_slice(), "csproj") || chars_eq_str(e.as_slice(), "props")
                || chars_eq_str(e.as_slice(), "targets"),
            None => false,
        };
        ext && chars_contain_str(source, "<target")
    } else if chars_eq_str(l, "shell") {
        chars_eq_str(b, "install.sh") || chars_eq_str(b, "setup.sh") || chars_eq_str(b, "build.sh")
    } else if chars_eq_str(l, "powershell") {
        chars_eq_str(b, "install.ps1") || chars_eq_str(b, "setup.ps1") || chars_eq_str(b, "build.ps1")
    } else if chars_eq_str(l, "batch") {
        chars_eq_str(b, "install.bat") || chars_eq_str(b, "setup.cmd") || chars_eq_str(b, "build.cmd")
    } else {
        false
    }
}

/// The remote-input finding for a source file, when both kinds of indicator occur.
pub open spec fn remote_finding(path: Seq<char>, language: Seq<char>, text: Seq<char>) -> Option<FindingView> {
    let source = lower(text);
    let sources = matched(source_patterns(language), source);
    let sinks = matched(sink_patterns(language), source);
    if sources.len() == 0 || sinks.len() == 0 {
        None
    } else {
        let direct = any_direct(sources, sinks);
        Some(FindingView {
            id: if direct { "LANG-REMOTE-DOWNLOAD-EXECUTE"@ } else { "LANG-REMOTE-DATA-EXECUTION-CAPABILITY"@ },
            severity: if direct { Severity::High } else { Severity::Medium },
            confidence: if direct { Confidence::High } else { Confidence::Medium },
            score: if direct { 85 } else { 60 },
            title: if direct {
                "Remote content is directly piped or passed to execution"@
            } else {
                "Remote input and execution capabilities occur in one source file"@
            },
            message: "The "@ + language
                + " source contains both remote-input and execution indicators; this bounded text analysis does not prove runtime data flow."@,
            file: Some(path),
            line: line_number(lines(source), sources[0]),
            evidence: seq![
                "remote-input indicator: "@ + join(sources, ", "@),
                "execution indicator: "@ + join(sinks, ", "@),
            ],
        })
    }
}

proof fn lemma_matched_has(patterns: Seq<Seq<char>>, source: Seq<char>, k: int)
    requires
        0 <= k < patterns.len(),
        seq_contains(source, patterns[k]),
    ensures
        matched(patterns, source).contains(patterns[k]),
    decreases patterns.len(),
{
    let last = patterns.len() - 1;
    if k < last {
        assert(patterns.drop_last()[k] == patterns[k]);
        lemma_matched_has(patterns.drop_last(), source, k);
        let rest = matched(patterns.drop_last(), source);
        let i = choose|i: int| 0 <= i < rest.len() && rest[i] == patterns[k];
        if seq_contains(source, patterns.last()) {
            assert(rest.push(patterns.last())[i] == patterns[k]);
        }
    } else {
        let rest = matched(patterns.drop_last(), source);
        assert(rest.push(patterns.last())[rest.len() as int] == patterns[k]);
    }
}

/// A shell source in which a `curl` download meets a pipe into `sh` or
/// `bash` (in any letter case) is reported as remote content piped straight
/// to execution: a high-severity, high-confidence finding scored 85.
pub proof fn lemma_curl_piped_to_shell(path: Seq<char>, text: Seq<char>)
    requires
        seq_contains(lower(text), "curl"@),
        seq_contains(lower(text), "| sh"@) || seq_contains(lower(text), "| bash"@),
    ensures
        remote_finding(path, "shell"@, text) matches Some(f) && f.id == "LANG-REMOTE-DOWNLOAD-EXECUTE"@
            && f.severity == Severity::High && f.confidence == Confidence::High && f.score == 85,
{
    let source = lower(text);
    let sp = source_patterns("shell"@);
    let kp = sink_patterns("shell"@);
    assert(sp[0] == "curl"@);
    assert(kp[0] == "| sh"@ && kp[1] == "| bash"@);
    lemma_matched_has(sp, source, 0);
    let sources = matched(sp, source);
    let sinks = matched(kp, source);
    let i = choose|i: int| 0 <= i < sources.len() && sources[i] == "curl"@;
    if seq_contains(source, "| sh"@) {
        lemma_matched_has(kp, source, 0);
        let j = choose|j: int| 0 <= j < sinks.len() && sinks[j] == "| sh"@;
        assert(direct_pair(sources[i], sinks[j]));
    } else {
        lemma_matched_has(kp, source, 1);
        let j = choose|j: int| 0 <= j < sinks.len() && sinks[j] == "| bash"@;
        assert(direct_pair(sources[i], sinks[j]));
    }
    assert(any_direct(sources, sinks));
}

/// A shell or PowerShell source in which `downloadstring` meets
/// `invoke-expression` (in any letter case) is reported as remote content
/// passed straight to execution.
pub proof fn lemma_downloaded_string_invoked(path: Seq<char>, language: Seq<char>, text: Seq<char>)
    requires
        language == "shell"@ || language == "powershell"@,
        seq_contains(lower(text), "downloadstring"@),
        seq_contains(lower(text), "invoke-expression"@),
    ensures
        remote_finding(path, language, text) matches Some(f) && f.id == "LANG-REMOTE-DOWNLOAD-EXECUTE"@
            && f.severity == Severity::High && f.confidence == Confidence::High && f.score == 85,
{
    let source = lower(text);
    let sp = source_patterns(language);
    let kp = sink_patterns(language);
    if language == "shell"@ {
        assert(sp[3] == "downloadstring"@ && kp[2] == "invoke-expression"@);
        lemma_matched_has(sp, source, 3);
        lemma_matched_has(kp, source, 2);
    } else {
        assert(sp[1] == "downloadstring"@ && kp[0] == "invoke-expression"@);
        lemma_matched_has(sp, source, 1);
        lemma_matched_has(kp, source, 0);
    }
    let sources = matched(sp, source);
    let sinks = matched(kp, source);
    let i = choose|i: int| 0 <= i < sources.len() && sources[i] == "downloadstring"@;
    let j = choose|j: int| 0 <= j < sinks.len() && sinks[j] == "invoke-expression"@;
    assert(direct_pair(sources[i], sinks[j]));
    assert(any_direct(sources, sinks));
}

/// The execution-root finding for a source file.
pub open spec fn root_finding(path: Seq<char>, language: Seq<char>) -> FindingView {
    FindingView {
        id: "LANG-EXECUTION-ROOT"@,
        severity: Severity::Informational,
        confidence: Confidence::High,
        score: 10,
        title: language + " build or package hook is an execution root"@,
        message: "The file can run automatically during build, packaging, or developer-tool startup."@,
        file: Some(path),
        line: None,
        evidence: seq!["recognized execution-root path: "@ + path],
    }
}

/// The findings for a decodable source file within the size limit.
pub open spec fn language_findings(path: Seq<char>, language: Seq<char>, text: Seq<char>) -> Seq<FindingView> {
    let remote = match remote_finding(path, language, text) {
        Some(f) => seq![f],
        None => Seq::empty(),
    };
    if execution_root(path, language, lower(text)) {
        remote.push(root_finding(path, language))
    } else {
        remote
    }
}

/// The heuristics read a source without regard to letter case: two texts
/// that differ only in the case of their letters give the same findings.
pub proof fn lemma_findings_ignore_case(path: Seq<char>, language: Seq<char>, a: Seq<char>, b: Seq<char>)
    requires
        lower(a) == lower(b),
    ensures
        language_findings(path, language, a) == language_findings(path, language, b),
{
}

/// A character in ASCII upper case.
pub open spec fn ascii_upper_char(c: char) -> char {
    if 'a' <= c && c <= 'z' { ((c as u32) - 32) as char } else { c }
}

/// A text in ASCII upper case.
pub open spec fn ascii_upper(t: Seq<char>) -> Seq<char> {
    t.map_values(|c: char| ascii_upper_char(c))
}

proof fn lemma_upper_utf8_len(t: Seq<char>)
    ensures
        encode_utf8(ascii_upper(t)).len() == encode_utf8(t).len(),
    decreases t.len(),
{
    if t.len() > 0 {
        assert(ascii_upper(t).drop_first() =~= ascii_upper(t.drop_first()));
        lemma_upper_utf8_len(t.drop_first());
        let c = t[0];
        if 'a' <= c && c <= 'z' {
            assert(ascii_upper(t)[0] == ((c as u32) - 32) as char);
            assert((ascii_upper(t)[0] as u32) <= 0x7f);
        }
    }
}

/// The language heuristics do not depend on the case of ASCII letters:
/// a text in upper case gets the same language, findings and reasons.
pub proof fn lemma_verdict_ignores_case(path: Seq<char>, t: Seq<char>)
    ensures
        language_verdict(path, Some(ascii_upper(t))) == language_verdict(path, Some(t)),
{
    assert(crate::text::lower(ascii_upper(t)) =~= crate::text::lower(t));
    lemma_upper_utf8_len(t);
    match language_of(path) {
        Some(lang) => lemma_findings_ignore_case(path, lang, ascii_upper(t), t),
        None => {},
    }
}

/// What the language heuristics report for one file: its language, its
/// findings and why its analysis is incomplete.
pub open spec fn language_verdict(path: Seq<char>, text: Option<Seq<char>>) -> (Option<Seq<char>>, Seq<FindingView>, Seq<Seq<char>>) {
    match language_of(path) {
        None => (None, Seq::empty(), Seq::empty()),
        Some(lang) => match text {
            None => (Some(lang), Seq::empty(), seq!["cannot decode "@ + lang + " source: "@ + path]),
            Some(t) => if (encode_utf8(t).len() as usize) > MAX_SOURCE_BYTES {
                (Some(lang), Seq::empty(), seq![lang + " source exceeds 16777216 byte analysis limit: "@ + path])
            } else {
                (Some(lang), language_findings(path, lang, t), Seq::empty())
            },
        },
    }
}

/// Runs the language heuristics on one file.
pub fn analyze(path: &str, text: Option<&str>) -> (r: Analysis)
    ensures
        (opt_view(r.language), findings_view(r.findings@), strings_view(r.incomplete_reasons@))
            == language_verdict(path@, crate::scanner::raw::opt_str_view(text)),
        opt_view(r.language) == language_of(path@),
        match language_of(path@) {
            None => r.findings@.len() == 0 && r.incomplete_reasons@.len() == 0,
            Some(lang) => match text {
                None => r.findings@.len() == 0
                    && strings_view(r.incomplete_reasons@) == seq!["cannot decode "@ + lang + " source: "@ + path@],
                Some(t) => if t.len() > MAX_SOURCE_BYTES {
                    r.findings@.len() == 0
                        && strings_view(r.incomplete_reasons@) == seq![lang + " source exceeds 16777216 byte analysis limit: "@ + path@]
                } else {
                    r.incomplete_reasons@.len() == 0
                        && findings_view(r.findings@) == language_findings(path@, lang, t@)
                },
            },
        },
{
    let language = language(path);
    let mut result = Analysis {
        language: match language {
            Some(l) => Some(owned(l)),
            None => None,
        },
        findings: Vec::new(),
        incomplete_reasons: Vec::new(),
    };
    assert(findings_view(result.findings@) =~= Seq::<FindingView>::empty());
    assert(strings_view(result.incomplete_reasons@) =~= Seq::<Seq<char>>::empty());
    let language = match language {
        Some(l) => l,
        None => {
            return result;
        },
    };
    let text = match text {
        Some(t) => t,
        None => {
            let mut reason = String::new();
            push_str(&mut reason, "cannot decode ");
            push_str(&mut reason, language);
            push_str(&mut reason, " source: ");
            push_str(&mut reason, path);
            result.incomplete_reasons.push(reason);
            assert(strings_view(result.incomplete_reasons@) =~= seq!["cannot decode "@ + language@ + " source: "@ + path@]);
            return result;
        },
    };
    if text.len() > MAX_SOURCE_BYTES {
        let mut reason = String::new();
        push_str(&mut reason, language);
        push_str(&mut reason, " source exceeds 16777216 byte analysis limit: ");
        push_str(&mut reason, path);
        result.incomplete_reasons.push(reason);
        assert(strings_view(result.incomplete_reasons@) =~= seq![language@ + " source exceeds 16777216 byte analysis limit: "@ + path@]);
        return result;
    }
    let text_chars = chars_of(text);
    let source = lowercase_chars(text_chars.as_slice());
    let (source_list, sink_list) = patterns(language);
    let matched_sources = matching(&source_list, source.as_slice());
    let matched_sinks = matching(&sink_list, source.as_slice());
    let ghost remote = remote_finding(path@, language@, text@);
    if matched_sources.len() > 0 && matched_sinks.len() > 0 {
        let direct = is_direct(&matched_sources, &matched_sinks);
        let first = chars_of(matched_sources[0]);
        let line = find_line(source.as_slice(), first.as_slice());
        let mut message = String::new();
        push_str(&mut message, "The ");
        push_str(&mut message, language);
        push_str(&mut message, " source contains both remote-input and execution indicators; this bounded text analysis does not prove runtime data flow.");
        let mut sources_evidence = String::new();
        push_str(&mut sources_evidence, "remote-input indicator: ");
        push_joined(&mut sources_evidence, matched_sources.as_slice(), ", ");
        let mut sinks_evidence = String::new();
        push_str(&mut sinks_evidence, "execution indicator: ");
        push_joined(&mut sinks_evidence, matched_sinks.as_slice(), ", ");
        let finding = Finding {
            id: owned(if direct { "LANG-REMOTE-DOWNLOAD-EXECUTE" } else { "LANG-REMOTE-DATA-EXECUTION-CAPABILITY" }),
            severity: if direct { Severity::High } else { Severity::Medium },
            confidence: if direct { Confidence::High } else { Confidence::Medium },
            score: if direct { 85 } else { 60 },
            title: owned(if direct {
                "Remote content is directly piped or passed to execution"
            } else {
                "Remote input and execution capabilities occur in one source file"
            }),
            message,
            file: Some(owned(path)),
            line,
            evidence: vec![sources_evidence, sinks_evidence],
        };
        assert(strings_view(finding.evidence@) =~= remote.unwrap().evidence);
        assert(finding@ == remote.unwrap());
        result.findings.push(finding);
    }
    assert(findings_view(result.findings@) =~= (match remote { Some(f) => seq![f], None => Seq::empty() }));
    if execution_root_of(path, language, source.as_slice()) {
        let mut title = String::new();
        push_str(&mut title, language);
        push_str(&mut title, " build or package hook is an execution root");
        let mut evidence = String::new();
        push_str(&mut evidence, "recognized execution-root path: ");
        push_str(&mut evidence, path);
        let finding = Finding {
            id: owned("LANG-EXECUTION-ROOT"),
            severity: Severity::Informational,
            confidence: Confidence::High,
            score: 10,
            title,
            message: owned("The file can run automatically during build, packaging, or developer-tool startup."),
            file: Some(owned(path)),
            line: None,
            evidence: vec![evidence],
        };
        assert(strings_view(finding.evidence@) =~= root_finding(path@, language@).evidence);
        let ghost before = findings_view(result.findings@);
        result.findings.push(finding);
        assert(findings_view(result.findings@) =~= before.push(root_finding(path@, language@)));
    }
    result
}

} // verus!
