//! Analyses of security-relevant configuration: package manifests and
//! developer-tool settings that can run commands.
use vstd::prelude::*;
use crate::json::Json;
use crate::model::{DependencyRecord, Finding, FindingView, findings_view, strings_view};
use crate::text::{basename, basename_of, chars_of, chars_start_with_str, chars_eq_str, is_one_of, push_str, owned, seq_starts_with, strs_view, utf8_len, utf8_len_within, push_char, string_from_range};

pub mod ide;
pub mod npm;

verus! {

/// The largest configuration text that is parsed, in bytes.
pub const MAX_CONFIG_BYTES: usize = 4194304;

/// What the analysis of one configuration file yields.
pub struct MetadataAnalysis {
    pub findings: Vec<Finding>,
    pub dependencies: Vec<DependencyRecord>,
    pub incomplete_reasons: Vec<String>,
}

impl Default for MetadataAnalysis {
    fn default() -> (r: Self)
        ensures
            r.findings@.len() == 0,
            r.dependencies@.len() == 0,
            r.incomplete_reasons@.len() == 0,
    {
        MetadataAnalysis { findings: Vec::new(), dependencies: Vec::new(), incomplete_reasons: Vec::new() }
    }
}

/// Text cut to its first 512 characters, with an ellipsis when cut.
pub open spec fn bounded_text(v: Seq<char>) -> Seq<char> {
    if v.len() > 512 { v.take(512).push('…') } else { v }
}

/// The text cut to its first 512 characters, with an ellipsis when cut.
pub fn bounded(value: &str) -> (r: String)
    ensures
        r@ == bounded_text(value@),
{
    let v = chars_of(value);
    if v.len() > 512 {
        let mut s = string_from_range(&v, 0, 512);
        push_char(&mut s, '…');
        assert(s@ =~= bounded_text(value@));
        s
    } else {
        owned(value)
    }
}

/// Names of npm manifests and lockfiles.
pub open spec fn npm_names() -> Seq<Seq<char>> {
    seq!["package.json"@, "package-lock.json"@, "npm-shrinkwrap.json"@, "yarn.lock"@, "pnpm-lock.yaml"@]
}

/// A developer-tool configuration path.
pub open spec fn ide_path(path: Seq<char>) -> bool {
    seq_starts_with(path, ".vscode/"@) || path == ".devcontainer/devcontainer.json"@
}

/// The text format a configuration file is parsed in.
#[derive(Clone, Copy, Debug, PartialEq, Eq, Structural)]
pub enum ConfigFormat {
    /// Strict JSON, as npm manifests are.
    Json,
    /// JSON5, as editor settings may be.
    Json5,
}

/// The format in which the analysis reads a file, if it reads it: npm
/// files as JSON and developer-tool files as JSON5, when within the size limit.
pub open spec fn config_format_of(path: Seq<char>, text: Seq<char>) -> Option<ConfigFormat> {
    let npm = npm_names().contains(basename(path));
    let ide = ide_path(path);
    if !(npm || ide) || utf8_len(text) > MAX_CONFIG_BYTES {
        None
    } else if npm {
        Some(ConfigFormat::Json)
    } else {
        Some(ConfigFormat::Json5)
    }
}

fn kinds(path: &str) -> (r: (bool, bool, Vec<char>))
    ensures
        r.0 == npm_names().contains(basename(path@)),
        r.1 == ide_path(path@),
        r.2@ == basename(path@),
{
    let p = chars_of(path);
    let name = basename_of(&p);
    let names = ["package.json", "package-lock.json", "npm-shrinkwrap.json", "yarn.lock", "pnpm-lock.yaml"];
    assert(strs_view(names@) =~= npm_names());
    let npm = is_one_of(&name, &names);
    let ide = chars_start_with_str(&p, ".vscode/") || chars_eq_str(&p, ".devcontainer/devcontainer.json");
    (npm, ide, name)
}

/// The format in which the analysis reads a file, if it reads it.
pub fn config_format(path: &str, text: &str) -> (r: Option<ConfigFormat>)
    ensures
        r == config_format_of(path@, text@),
{
    let (npm, ide, _name) = kinds(path);
    if !(npm || ide) || !utf8_len_within(&chars_of(text), MAX_CONFIG_BYTES) {
        None
    } else if npm {
        Some(ConfigFormat::Json)
    } else {
        Some(ConfigFormat::Json5)
    }
}

/// The deepest nesting of arrays and objects handed to the JSON5 parser,
/// which descends once per level.
pub const MAX_JSON5_NESTING: usize = 128;

/// Where a JSON5 text is read: in code, just after a `/`, in a string with
/// its quote, just after a backslash in such a string, or in a comment.
#[derive(Clone, Copy, Debug, PartialEq, Eq, Structural)]
pub enum Json5Lexeme {
    Code,
    Slash,
    Text(char),
    Escape(char),
    LineComment,
    BlockComment,
    BlockStar,
}

/// A line terminator of JSON5.
pub open spec fn json5_line_end(c: char) -> bool {
    c == '\n' || c == '\r' || c == '\u{2028}' || c == '\u{2029}'
}

/// One character read in code, at nesting `depth`.
pub open spec fn json5_code_step(depth: nat, c: char) -> (Json5Lexeme, nat) {
    if c == '"' || c == '\'' {
        (Json5Lexeme::Text(c), depth)
    } else if c == '/' {
        (Json5Lexeme::Slash, depth)
    } else if c == '[' || c == '{' {
        (Json5Lexeme::Code, depth + 1)
    } else if c == ']' || c == '}' {
        (Json5Lexeme::Code, if depth > 0 { (depth - 1) as nat } else { 0 })
    } else {
        (Json5Lexeme::Code, depth)
    }
}

/// One character read in a given place, at nesting `depth`.
pub open spec fn json5_step(at: Json5Lexeme, depth: nat, c: char) -> (Json5Lexeme, nat) {
    match at {
        Json5Lexeme::Code => json5_code_step(depth, c),
        Json5Lexeme::Slash => if c == '/' {
            (Json5Lexeme::LineComment, depth)
        } else if c == '*' {
            (Json5Lexeme::BlockComment, depth)
        } else {
            json5_code_step(depth, c)
        },
        Json5Lexeme::Text(q) => if c == q {
            (Json5Lexeme::Code, depth)
        } else if c == '\\' {
            (Json5Lexeme::Escape(q), depth)
        } else {
            (Json5Lexeme::Text(q), depth)
        },
        Json5Lexeme::Escape(q) => (Json5Lexeme::Text(q), depth),
        Json5Lexeme::LineComment => if json5_line_end(c) { (Json5Lexeme::Code, depth) } else { (Json5Lexeme::LineComment, depth) },
        Json5Lexeme::BlockComment => if c == '*' { (Json5Lexeme::BlockStar, depth) } else { (Json5Lexeme::BlockComment, depth) },
        Json5Lexeme::BlockStar => if c == '/' {
            (Json5Lexeme::Code, depth)
        } else if c == '*' {
            (Json5Lexeme::BlockStar, depth)
        } else {
            (Json5Lexeme::BlockComment, depth)
        },
    }
}

/// Where the first `i` characters of a JSON5 text leave the reading, and
/// how many arrays and objects are open there.
pub open spec fn json5_scan(t: Seq<char>, i: int) -> (Json5Lexeme, nat)
    decreases i,
{
    if i <= 0 {
        (Json5Lexeme::Code, 0)
    } else {
        let (at, depth) = json5_scan(t, i - 1);
        json5_step(at, depth, t[i - 1])
    }
}

/// Some prefix of the text opens more arrays and objects than the limit.
pub open spec fn json5_too_deep(t: Seq<char>) -> bool {
    exists|i: int| 0 <= i <= t.len() && json5_scan(t, i).1 > MAX_JSON5_NESTING
}

fn json5_code_char(depth: usize, c: char) -> (r: (Json5Lexeme, usize))
    requires
        depth <= MAX_JSON5_NESTING,
    ensures
        (r.0, r.1 as nat) == json5_code_step(depth as nat, c),
{
    if c == '"' || c == '\'' {
        (Json5Lexeme::Text(c), depth)
    } else if c == '/' {
        (Json5Lexeme::Slash, depth)
    } else if c == '[' || c == '{' {
        (Json5Lexeme::Code, depth + 1)
    } else if c == ']' || c == '}' {
        (Json5Lexeme::Code, if depth > 0 { depth - 1 } else { 0 })
    } else {
        (Json5Lexeme::Code, depth)
    }
}

/// Whether the text nests its arrays and objects within the limit.
pub fn json5_nesting_within(text: &str) -> (r: bool)
    ensures
        r == !json5_too_deep(text@),
{
    let t = chars_of(text);
    let mut at = Json5Lexeme::Code;
    let mut depth: usize = 0;
    let mut i: usize = 0;
    while i < t.len()
        invariant
            i <= t@.len(),
            t@ == text@,
            (at, depth as nat) == json5_scan(t@, i as int),
            forall|j: int| 0 <= j <= i ==> json5_scan(t@, j).1 <= MAX_JSON5_NESTING,
        decreases t.len() - i,
    {
        let c = t[i];
        let next: (Json5Lexeme, usize) = match at {
            Json5Lexeme::Code => json5_code_char(depth, c),
            Json5Lexeme::Slash => if c == '/' {
                (Json5Lexeme::LineComment, depth)
            } else if c == '*' {
                (Json5Lexeme::BlockComment, depth)
            } else {
                json5_code_char(depth, c)
            },
            Json5Lexeme::Text(q) => if c == q {
                (Json5Lexeme::Code, depth)
            } else if c == '\\' {
                (Json5Lexeme::Escape(q), depth)
            } else {
                (Json5Lexeme::Text(q), depth)
            },
            Json5Lexeme::Escape(q) => (Json5Lexeme::Text(q), depth),
            Json5Lexeme::LineComment => if c == '\n' || c == '\r' || c == '\u{2028}' || c == '\u{2029}' {
                (Json5Lexeme::Code, depth)
            } else {
                (Json5Lexeme::LineComment, depth)
            },
            Json5Lexeme::BlockComment => if c == '*' { (Json5Lexeme::BlockStar, depth) } else { (Json5Lexeme::BlockComment, depth) },
            Json5Lexeme::BlockStar => if c == '/' {
                (Json5Lexeme::Code, depth)
            } else if c == '*' {
                (Json5Lexeme::BlockStar, depth)
            } else {
                (Json5Lexeme::BlockComment, depth)
            },
        };
        assert((next.0, next.1 as nat) == json5_scan(t@, i + 1));
        if next.1 > MAX_JSON5_NESTING {
            return false;
        }
        at = next.0;
        depth = next.1;
        i = i + 1;
    }
    true
}

/// `serde_json::Value`, the value that both parsers produce.
#[verifier::external_type_specification]
#[verifier::external_body]
pub struct ExJsonValue(serde_json::Value);

/// What `serde_json::from_str` makes of a text: the value as a `Json`, or
/// the parser's error message.
pub uninterp spec fn json_parsed(text: Seq<char>) -> Result<Json, Seq<char>>;

/// What `json5::from_str` makes of a text: the value as a `Json`, or the
/// parser's error message.
pub uninterp spec fn json5_parsed(text: Seq<char>) -> Result<Json, Seq<char>>;

/// A `serde_json::Value` as a `Json`, variant for variant; numbers keep the
/// text that `serde_json` writes for them.
#[verifier::external_body]
fn json_of_value(value: &serde_json::Value) -> Json {
    match value {
        serde_json::Value::Null => Json::Null,
        serde_json::Value::Bool(b) => Json::Bool(*b),
        serde_json::Value::Number(n) => Json::Number(n.to_string()),
        serde_json::Value::String(t) => Json::Str(t.clone()),
        serde_json::Value::Array(items) => Json::Array(items.iter().map(json_of_value).collect()),
        serde_json::Value::Object(entries) => Json::Object(entries.iter().map(|(k, v)| (k.clone(), json_of_value(v))).collect()),
    }
}

/// `serde_json::from_str` parses the text as strict JSON; the result is
/// the value it gives, or its error's message.
#[verifier::external_body]
fn parse_json(text: &str) -> (r: Result<Json, String>)
    ensures
        parsed_view(r) == json_parsed(text@),
{
    serde_json::from_str::<serde_json::Value>(text).map(|v| json_of_value(&v)).map_err(|e| e.to_string())
}

/// `json5::from_str` parses the text as JSON5; the result is the value it
/// gives, or its error's message. Its parser descends once per array or
/// object, with no limit of its own, so the text must nest within
/// `MAX_JSON5_NESTING`.
#[verifier::external_body]
fn parse_json5(text: &str) -> (r: Result<Json, String>)
    requires
        !json5_too_deep(text@),
    ensures
        parsed_view(r) == json5_parsed(text@),
{
    json5::from_str::<serde_json::Value>(text).map(|v| json_of_value(&v)).map_err(|e| e.to_string())
}

/// How a file is parsed for the analysis: strict JSON for npm manifests,
/// JSON5 for developer-tool settings, and an error for other files and for
/// files that are not text.
pub open spec fn config_parse_verdict(path: Seq<char>, text: Option<Seq<char>>) -> Result<Json, Seq<char>> {
    match text {
        None => Err("file is not text"@),
        Some(t) => match config_format_of(path, t) {
            Some(ConfigFormat::Json) => json_parsed(t),
            Some(ConfigFormat::Json5) => if json5_too_deep(t) {
                Err("configuration nesting limit of 128 exceeded"@)
            } else {
                json5_parsed(t)
            },
            None => Err("file is not a configuration file"@),
        },
    }
}

/// Parses a configuration file in the format `config_format` names for it.
pub fn parse_config(path: &str, text: Option<&str>) -> (r: Result<Json, String>)
    ensures
        parsed_view(r) == config_parse_verdict(path@, opt_text(text)),
{
    match text {
        None => Err(owned("file is not text")),
        Some(t) => match config_format(path, t) {
            Some(ConfigFormat::Json) => parse_json(t),
            Some(ConfigFormat::Json5) => if json5_nesting_within(t) {
                parse_json5(t)
            } else {
                Err(owned("configuration nesting limit of 128 exceeded"))
            },
            None => Err(owned("file is not a configuration file")),
        },
    }
}

/// The analysis of a configuration file, given its text and that text as
/// parsed in the format `config_format` names (or the parser's error).
pub open spec fn metadata_verdict(path: Seq<char>, text: Option<Seq<char>>, parsed: Result<Json, Seq<char>>) -> (Seq<FindingView>, Seq<Seq<char>>) {
    match text {
        None => (Seq::empty(), Seq::empty()),
        Some(t) => {
            let name = basename(path);
            let npm = npm_names().contains(name);
            let ide = ide_path(path);
            if (npm || ide) && utf8_len(t) > MAX_CONFIG_BYTES {
                (Seq::empty(), seq!["security-relevant configuration exceeds 4194304 byte parse limit: "@ + path])
            } else if npm {
                npm::npm_verdict(path, t, parsed)
            } else if ide {
                ide::ide_verdict(path, name, t, parsed)
            } else {
                (Seq::empty(), Seq::empty())
            }
        },
    }
}

pub open spec fn parsed_view(p: Result<Json, String>) -> Result<Json, Seq<char>> {
    match p {
        Ok(v) => Ok(v),
        Err(e) => Err(e@),
    }
}

pub open spec fn opt_text(t: Option<&str>) -> Option<Seq<char>> {
    match t {
        Some(t) => Some(t@),
        None => None,
    }
}

/// Analyses a security-relevant configuration file.
pub fn analyze(path: &str, text: Option<&str>, parsed: &Result<Json, String>) -> (r: MetadataAnalysis)
    ensures
        (findings_view(r.findings@), strings_view(r.incomplete_reasons@)) == metadata_verdict(path@, opt_text(text), parsed_view(*parsed)),
        r.dependencies@.len() == 0,
{
    let t = match text {
        None => {
            let r = MetadataAnalysis::default();
            assert(findings_view(r.findings@) =~= Seq::<FindingView>::empty());
            assert(strings_view(r.incomplete_reasons@) =~= Seq::<Seq<char>>::empty());
            return r;
        },
        Some(t) => t,
    };
    let (npm, ide, name) = kinds(path);
    if (npm || ide) && !utf8_len_within(&chars_of(t), MAX_CONFIG_BYTES) {
        let mut reason = owned("security-relevant configuration exceeds 4194304 byte parse limit: ");
        push_str(&mut reason, path);
        let r = MetadataAnalysis { findings: Vec::new(), dependencies: Vec::new(), incomplete_reasons: vec![reason] };
        assert(findings_view(r.findings@) =~= Seq::<FindingView>::empty());
        assert(strings_view(r.incomplete_reasons@) =~= seq![reason@]);
        return r;
    }
    if npm {
        return npm::analyze(path, t, parsed);
    }
    if ide {
        return ide::analyze(path, &name, t, parsed);
    }
    let r = MetadataAnalysis::default();
    assert(findings_view(r.findings@) =~= Seq::<FindingView>::empty());
    assert(strings_view(r.incomplete_reasons@) =~= Seq::<Seq<char>>::empty());
    r
}

} // verus!
