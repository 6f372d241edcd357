//! JavaScript and TypeScript analysis: the facts that a parsed module yields,
//! the data-flow evaluator that runs over them, the text handling that
//! finds scripts inside documents, and the decisions around parsing.
//! Parsing itself is the caller's: it hands each outcome back.
use vstd::prelude::*;
use vstd::string::StringSliceAdditionalSpecFns;
use crate::model::{Confidence, Finding, FindingView, Severity, findings_view, strings_view};
use crate::scanner::classifier::{executable_text, looks_like_executable_text};
use crate::scanner::js::flow::ModuleFlow;
use crate::scanner::js::semantic::{ImportFact, MAX_FACTS_PER_FILE};
use crate::text::{
    basename, basename_of, chars_of, chars_eq_str, decimal, extension, extension_of, is_one_of, owned,
    push_decimal, push_str, seq_starts_with, string_from_chars, strs_view,
};

pub mod flow;
pub mod semantic;
pub mod extract;

pub use flow::analyze_flows;
pub use semantic::{Capability, ModuleFacts};

verus! {

/// The largest source that is parsed, in bytes.
pub const MAX_PARSE_BYTES: usize = 4194304;
/// The deepest bracket nesting that is parsed.
pub const MAX_NESTING: usize = 256;

/// An inline script of an HTML document, which the browser runs.
#[derive(Clone, Debug)]
pub struct EmbeddedRoot {
    pub module_id: String,
    pub line: u64,
}

/// What the JavaScript analysis of one file yields.
pub struct JsAnalysis {
    pub language: Option<String>,
    pub findings: Vec<Finding>,
    pub incomplete_reasons: Vec<String>,
    pub modules: Vec<ModuleFacts>,
    pub embedded_roots: Vec<EmbeddedRoot>,
}

/// The grammar a source is parsed with.
#[derive(Clone, Debug, PartialEq, Eq)]
pub enum SourceKind {
    /// Plain JavaScript.
    Default,
    Jsx,
    Ts,
    Tsx,
    /// As the file's path names it by its extension.
    FromPath,
}

/// The source is TypeScript, for a file with `extension`.
pub open spec fn typescript(kind: SourceKind, extension: Option<Seq<char>>) -> bool {
    match kind {
        SourceKind::Ts | SourceKind::Tsx => true,
        SourceKind::FromPath => match extension {
            Some(e) => seq!["ts"@, "cts"@, "mts"@, "tsx"@].contains(e),
            None => false,
        },
        _ => false,
    }
}

/// The extension of the file that a path names.
pub open spec fn path_extension(path: Seq<char>) -> Option<Seq<char>> {
    extension(basename(path))
}

/// The extensions that name JavaScript or TypeScript sources.
pub open spec fn supported_extension(ext: Option<Seq<char>>) -> bool {
    match ext {
        Some(e) => seq!["js"@, "cjs"@, "mjs"@, "jsx"@, "ts"@, "cts"@, "mts"@, "tsx"@].contains(e),
        None => false,
    }
}

/// Documents that hold scripts: (HTML, Markdown) by extension.
pub open spec fn document_kind_of(ext: Option<Seq<char>>) -> Option<(bool, bool)> {
    match ext {
        Some(e) => if seq!["html"@, "htm"@, "xhtml"@].contains(e) {
            Some((true, false))
        } else if seq!["vue"@, "svg"@].contains(e) {
            Some((false, false))
        } else if seq!["md"@, "mdx"@].contains(e) {
            Some((false, true))
        } else {
            None
        },
        None => None,
    }
}

fn path_ext(path: &str) -> (r: Option<Vec<char>>)
    ensures
        match r {
            Some(v) => path_extension(path@) == Some(v@),
            None => path_extension(path@).is_none(),
        },
{
    extension_of(&basename_of(&chars_of(path)))
}

fn ext_in(ext: &Option<Vec<char>>, options: &[&str]) -> (r: bool)
    ensures
        r == match ext {
            Some(e) => strs_view(options@).contains(e@),
            None => false,
        },
{
    match ext {
        Some(e) => is_one_of(e, options),
        None => false,
    }
}

/// Whether a path names a JavaScript or TypeScript source, and what kind
/// of document holds scripts.
pub fn document_kind(path: &str) -> (r: Option<(bool, bool)>)
    ensures
        r == document_kind_of(path_extension(path@)),
{
    let ext = path_ext(path);
    proof {
        reveal_strlit("html"); reveal_strlit("htm"); reveal_strlit("xhtml");
        reveal_strlit("vue"); reveal_strlit("svg"); reveal_strlit("md"); reveal_strlit("mdx");
    }
    let html = ["html", "htm", "xhtml"];
    let other = ["vue", "svg"];
    let markdown = ["md", "mdx"];
    assert(strs_view(html@) =~= seq!["html"@, "htm"@, "xhtml"@]);
    assert(strs_view(other@) =~= seq!["vue"@, "svg"@]);
    assert(strs_view(markdown@) =~= seq!["md"@, "mdx"@]);
    if ext_in(&ext, &html) {
        Some((true, false))
    } else if ext_in(&ext, &other) {
        Some((false, false))
    } else if ext_in(&ext, &markdown) {
        Some((false, true))
    } else {
        None
    }
}

/// Whether the path names a JavaScript or TypeScript source.
pub fn is_supported(path: &str) -> (r: bool)
    ensures
        r == supported_extension(path_extension(path@)),
{
    let ext = path_ext(path);
    let names = ["js", "cjs", "mjs", "jsx", "ts", "cts", "mts", "tsx"];
    assert(strs_view(names@) =~= seq!["js"@, "cjs"@, "mjs"@, "jsx"@, "ts"@, "cts"@, "mts"@, "tsx"@]);
    ext_in(&ext, &names)
}

/// Whether a source is TypeScript.
pub fn is_typescript(kind: &SourceKind, path: &str) -> (r: bool)
    ensures
        r == typescript(*kind, path_extension(path@)),
{
    match kind {
        SourceKind::Ts | SourceKind::Tsx => true,
        SourceKind::FromPath => {
            let ext = path_ext(path);
            let names = ["ts", "cts", "mts", "tsx"];
            assert(strs_view(names@) =~= seq!["ts"@, "cts"@, "mts"@, "tsx"@]);
            ext_in(&ext, &names)
        },
        _ => false,
    }
}

/// The bracket nesting of the bytes reaches past the limit somewhere.
pub open spec fn nesting_exceeded(b: Seq<u8>) -> bool {
    exists|i: int| 0 <= i <= b.len() && nesting_at(b, i) > MAX_NESTING
}

/// The bracket nesting after the first `i` bytes, never below zero.
pub open spec fn nesting_at(b: Seq<u8>, i: int) -> nat
    decreases i,
{
    if i <= 0 {
        0
    } else {
        let n = nesting_at(b, i - 1);
        let c = b[i - 1];
        if c == 0x28u8 || c == 0x5bu8 || c == 0x7bu8 {
            n + 1
        } else if c == 0x29u8 || c == 0x5du8 || c == 0x7du8 {
            if n > 0 { (n - 1) as nat } else { 0 }
        } else {
            n
        }
    }
}

/// Why a source is not handed to the parser: too large, or too deeply nested.
pub open spec fn parse_guard_verdict(source: Seq<u8>) -> Option<Seq<char>> {
    if source.len() > MAX_PARSE_BYTES {
        Some("JS/TS parse limit of 4194304 bytes exceeded"@)
    } else if nesting_exceeded(source) {
        Some("JS/TS nesting limit of 256 exceeded"@)
    } else {
        None
    }
}

/// Refuses a source that is too large or too deeply nested to parse.
pub fn parse_guard(source: &str) -> (r: Result<(), String>)
    ensures
        match r {
            Ok(()) => parse_guard_verdict(source.spec_bytes()).is_none(),
            Err(e) => parse_guard_verdict(source.spec_bytes()) == Some(e@),
        },
{
    let bytes = source.as_bytes();
    if bytes.len() > MAX_PARSE_BYTES {
        return Err(owned("JS/TS parse limit of 4194304 bytes exceeded"));
    }
    let mut nesting: usize = 0;
    let mut i: usize = 0;
    while i < bytes.len()
        invariant
            i <= bytes@.len(),
            bytes@ == source.spec_bytes(),
            bytes@.len() <= MAX_PARSE_BYTES,
            nesting as nat == nesting_at(bytes@, i as int),
            forall|j: int| 0 <= j <= i ==> nesting_at(bytes@, j) <= MAX_NESTING,
        decreases bytes.len() - i,
    {
        let c = bytes[i];
        if c == 0x28u8 || c == 0x5bu8 || c == 0x7bu8 {
            nesting = nesting + 1;
        } else if c == 0x29u8 || c == 0x5du8 || c == 0x7du8 {
            if nesting > 0 {
                nesting = nesting - 1;
            }
        }
        if nesting > MAX_NESTING {
            assert(nesting_at(bytes@, i + 1) > MAX_NESTING);
            assert(nesting_exceeded(bytes@));
            return Err(owned("JS/TS nesting limit of 256 exceeded"));
        }
        i = i + 1;
    }
    assert(!nesting_exceeded(bytes@));
    Ok(())
}

/// The first position at or after `pos` that is not whitespace.
pub open spec fn ws_end(t: Seq<char>, pos: int) -> int
    decreases t.len() - pos,
{
    if 0 <= pos < t.len() && crate::text::is_whitespace(t[pos]) { ws_end(t, pos + 1) } else { pos }
}

pub proof fn lemma_ws_end(t: Seq<char>, pos: int)
    requires
        0 <= pos <= t.len(),
    ensures
        pos <= ws_end(t, pos) <= t.len(),
    decreases t.len() - pos,
{
    if 0 <= pos < t.len() && crate::text::is_whitespace(t[pos]) {
        lemma_ws_end(t, pos + 1);
    }
}

/// Where the code of a text begins after `pos`: past whitespace and past
/// leading `//` and `/* */` comments.
#[verifier::opaque]
pub open spec fn code_start(t: Seq<char>, pos: int) -> int
    decreases t.len() - pos,
    when 0 <= pos <= t.len()
{
    let p = ws_end(t, pos);
    proof { lemma_ws_end(t, pos); }
    if crate::text::occurs_at(t, "//"@, p) {
        match crate::text::first_occurrence(t, seq!['\n'], p + 2) {
            Some(e) => if p + 2 <= e < t.len() { code_start(t, e + 1) } else { t.len() as int },
            None => t.len() as int,
        }
    } else if crate::text::occurs_at(t, "/*"@, p) {
        match crate::text::first_occurrence(t, "*/"@, p + 2) {
            Some(e) => if p + 2 <= e && e + 2 <= t.len() { code_start(t, e + 2) } else { t.len() as int },
            None => t.len() as int,
        }
    } else {
        p
    }
}

/// Texts that begin like code.
pub open spec fn code_openings() -> Seq<Seq<char>> {
    seq!["#!"@, "const "@, "let "@, "var "@, "function "@, "async "@, "await "@, "class "@, "import "@,
        "export "@, "if "@, "if("@, "for "@, "for("@, "while "@, "try "@, "switch "@, "throw "@, "new "@,
        "module."@, "exports."@, "require("@, "eval("@, "new Function"@, "global"@, "process."@, "fetch("@,
        "axios"@, "http."@, "https."@, "WebSocket"@, "console."@, "setTimeout("@, "setInterval("@, "(()"@,
        "(function "@, "(async "@, "\"use strict\""@, "'use strict'"@]
}

/// Openings that, under an asset extension, mark code on their own.
pub open spec fn asset_code_openings() -> Seq<Seq<char>> {
    seq!["eval("@, "require("@, "module.exports"@, "const "@, "function "@]
}

pub open spec fn starts_with_any(s: Seq<char>, options: Seq<Seq<char>>) -> bool {
    exists|k: int| 0 <= k < options.len() && seq_starts_with(s, #[trigger] options[k])
}

/// The first line runs a shell interpreter other than Node.
pub open spec fn shell_shebang(t: Seq<char>) -> bool {
    let ls = crate::text::lines(t);
    ls.len() > 0 && seq_starts_with(ls[0], "#!"@)
        && !crate::text::seq_contains(crate::text::lower(ls[0].subrange(2, ls[0].len() as int)), "node"@)
}

/// Text that is worth handing to the parser though its extension does
/// not name a script.
pub open spec fn suspicious_text(t: Seq<char>, ext: Option<Seq<char>>) -> bool {
    let rest = t.subrange(code_start(t, 0), t.len() as int);
    &&& !shell_shebang(t)
    &&& starts_with_any(rest, code_openings())
    &&& (executable_text(t) || (match ext {
            Some(e) => seq!["svg"@, "woff"@, "woff2"@, "png"@, "jpg"@, "gif"@].contains(e),
            None => false,
        } && starts_with_any(rest, asset_code_openings())))
}

fn starts_with_one_of(s: &[char], options: &[&str]) -> (r: bool)
    ensures
        r == starts_with_any(s@, strs_view(options@)),
{
    let mut k: usize = 0;
    while k < options.len()
        invariant
            k <= options@.len(),
            forall|j: int| 0 <= j < k ==> !seq_starts_with(s@, #[trigger] strs_view(options@)[j]),
        decreases options.len() - k,
    {
        if crate::text::chars_start_with_str(s, options[k]) {
            assert(seq_starts_with(s@, strs_view(options@)[k as int]));
            return true;
        }
        k = k + 1;
    }
    false
}


proof fn lemma_code_start_line(t: Seq<char>, pos: int, p: int, e: int)
    requires
        0 <= pos <= t.len(),
        p == ws_end(t, pos),
        crate::text::occurs_at(t, "//"@, p),
        crate::text::first_occurrence(t, seq!['\n'], p + 2) == Some(e),
        p + 2 <= e < t.len(),
    ensures
        code_start(t, pos) == code_start(t, e + 1),
{
    reveal(code_start);
}

proof fn lemma_code_start_block(t: Seq<char>, pos: int, p: int, e: int)
    requires
        0 <= pos <= t.len(),
        p == ws_end(t, pos),
        !crate::text::occurs_at(t, "//"@, p),
        crate::text::occurs_at(t, "/*"@, p),
        crate::text::first_occurrence(t, "*/"@, p + 2) == Some(e),
        p + 2 <= e && e + 2 <= t.len(),
    ensures
        code_start(t, pos) == code_start(t, e + 2),
{
    reveal(code_start);
}

proof fn lemma_code_start_end(t: Seq<char>, pos: int, p: int)
    requires
        0 <= pos <= t.len(),
        p == ws_end(t, pos),
        (crate::text::occurs_at(t, "//"@, p) && crate::text::first_occurrence(t, seq!['\n'], p + 2) is None)
        || (!crate::text::occurs_at(t, "//"@, p) && crate::text::occurs_at(t, "/*"@, p)
            && crate::text::first_occurrence(t, "*/"@, p + 2) is None),
    ensures
        code_start(t, pos) == t.len(),
{
    reveal(code_start);
}

proof fn lemma_code_start_here(t: Seq<char>, pos: int, p: int)
    requires
        0 <= pos <= t.len(),
        p == ws_end(t, pos),
        !crate::text::occurs_at(t, "//"@, p),
        !crate::text::occurs_at(t, "/*"@, p),
    ensures
        code_start(t, pos) == p,
{
    reveal(code_start);
}

fn find_code_start(t: &[char]) -> (r: usize)
    ensures
        r as int == code_start(t@, 0),
        r <= t@.len(),
{
    let mut pos: usize = 0;
    loop
        invariant
            pos <= t@.len(),
            code_start(t@, 0) == code_start(t@, pos as int),
        decreases t@.len() - pos,
    {
        let p = crate::text::skip_whitespace(t, pos);
        proof {
            lemma_ws_end(t@, pos as int);
            lemma_ws_end_trim(t@, pos as int);
            lemma_suffix_start(t@, pos as int, p as int);
        }
        assert(p as int == ws_end(t@, pos as int));
        let slash2 = ['/', '/'];
        let slashstar = ['/', '*'];
        let star_slash = ['*', '/'];
        let newline = ['\n'];
        proof {
            reveal_strlit("//");
            reveal_strlit("/*");
            reveal_strlit("*/");
        }
        assert(slash2@ =~= "//"@);
        assert(slashstar@ =~= "/*"@);
        assert(star_slash@ =~= "*/"@);
        assert(newline@ =~= seq!['\n']);
        if crate::text::chars_at(t, &slash2, p) {
            assert(p + 2 <= t.len());
            match crate::text::find_chars(t, &newline, p + 2) {
                Some(e) => {
                    assert(e + 1 <= t.len());
                    proof {
                        crate::text::lemma_first_occurrence_is(t@, seq!['\n'], (p + 2) as int, e as int);
                        lemma_code_start_line(t@, pos as int, p as int, e as int);
                    }
                    pos = e + 1;
                },
                None => {
                    proof {
                        crate::text::lemma_first_occurrence_none(t@, seq!['\n'], (p + 2) as int);
                        lemma_code_start_end(t@, pos as int, p as int);
                    }
                    return t.len();
                },
            }
        } else if crate::text::chars_at(t, &slashstar, p) {
            assert(p + 2 <= t.len());
            match crate::text::find_chars(t, &star_slash, p + 2) {
                Some(e) => {
                    assert(e + 2 <= t.len());
                    proof {
                        crate::text::lemma_first_occurrence_is(t@, "*/"@, (p + 2) as int, e as int);
                        lemma_code_start_block(t@, pos as int, p as int, e as int);
                    }
                    pos = e + 2;
                },
                None => {
                    proof {
                        crate::text::lemma_first_occurrence_none(t@, "*/"@, (p + 2) as int);
                        lemma_code_start_end(t@, pos as int, p as int);
                    }
                    return t.len();
                },
            }
        } else {
            proof { lemma_code_start_here(t@, pos as int, p as int); }
            return p;
        }
    }
}

proof fn lemma_suffix_start(t: Seq<char>, pos: int, p: int)
    requires
        0 <= pos <= t.len(),
        pos <= p <= t.len(),
        pos <= ws_end(t, pos) <= t.len(),
        t.subrange(ws_end(t, pos), t.len() as int) == t.subrange(p, t.len() as int),
    ensures
        p == ws_end(t, pos),
{
    assert(t.subrange(ws_end(t, pos), t.len() as int).len() == t.len() - ws_end(t, pos));
}

proof fn lemma_ws_end_trim(t: Seq<char>, pos: int)
    requires
        0 <= pos <= t.len(),
    ensures
        crate::text::trim_start(t.subrange(pos, t.len() as int)) == t.subrange(ws_end(t, pos), t.len() as int),
    decreases t.len() - pos,
{
    if pos < t.len() && crate::text::is_whitespace(t[pos]) {
        assert(t.subrange(pos, t.len() as int).drop_first() =~= t.subrange(pos + 1, t.len() as int));
        lemma_ws_end_trim(t, pos + 1);
    }
}

/// Whether text under a non-script extension is worth parsing.
#[verifier::rlimit(60)]
pub fn is_suspicious(text: &str, path: &str) -> (r: bool)
    ensures
        r == suspicious_text(text@, path_extension(path@)),
{
    let t = chars_of(text);
    let spans = crate::text::line_spans(&t);
    let shebang = if spans.len() > 0 {
        let (lo, hi) = spans[0];
        let first = crate::text::slice_chars(&t, lo, hi);
        assert(first@ == crate::text::lines(t@)[0]);
        proof { reveal_strlit("#!"); }
        if crate::text::chars_start_with_str(&first, "#!") {
            let rest = crate::text::slice_chars(&first, 2, first.len());
            !crate::text::contains_chars(&crate::text::lowercase_chars(&rest), &chars_of("node"))
        } else {
            false
        }
    } else {
        false
    };
    assert(shebang == shell_shebang(t@));
    if shebang {
        return false;
    }
    let start = find_code_start(&t);
    let rest = crate::text::slice_chars(&t, start, t.len());
    let openings = ["#!", "const ", "let ", "var ", "function ", "async ", "await ", "class ", "import ",
        "export ", "if ", "if(", "for ", "for(", "while ", "try ", "switch ", "throw ", "new ",
        "module.", "exports.", "require(", "eval(", "new Function", "global", "process.", "fetch(",
        "axios", "http.", "https.", "WebSocket", "console.", "setTimeout(", "setInterval(", "(()",
        "(function ", "(async ", "\"use strict\"", "'use strict'"];
    assert(strs_view(openings@) =~= code_openings());
    if !starts_with_one_of(&rest, &openings) {
        return false;
    }
    if looks_like_executable_text(text) {
        return true;
    }
    let ext = path_ext(path);
    let assets = ["svg", "woff", "woff2", "png", "jpg", "gif"];
    assert(strs_view(assets@) =~= seq!["svg"@, "woff"@, "woff2"@, "png"@, "jpg"@, "gif"@]);
    let asset_openings = ["eval(", "require(", "module.exports", "const ", "function "];
    assert(strs_view(asset_openings@) =~= asset_code_openings());
    ext_in(&ext, &assets) && starts_with_one_of(&rest, &asset_openings)
}

/// An analysis that found nothing.
pub fn nothing() -> (r: JsAnalysis)
    ensures
        r.language.is_none() && r.findings@.len() == 0 && r.incomplete_reasons@.len() == 0,
        r.modules@.len() == 0 && r.embedded_roots@.len() == 0,
{
    JsAnalysis { language: None, findings: Vec::new(), incomplete_reasons: Vec::new(), modules: Vec::new(), embedded_roots: Vec::new() }
}

/// The analysis of a file whose text could not be decoded: incomplete when
/// it names a script.
pub fn undecodable(path: &str) -> (r: JsAnalysis)
    ensures
        r.language.is_none() && r.findings@.len() == 0 && r.modules@.len() == 0 && r.embedded_roots@.len() == 0,
        strings_view(r.incomplete_reasons@) == if supported_extension(path_extension(path@)) {
            seq!["cannot decode JS/TS source: "@ + path@]
        } else {
            Seq::<Seq<char>>::empty()
        },
{
    let mut r = nothing();
    if is_supported(path) {
        let mut note = owned("cannot decode JS/TS source: ");
        push_str(&mut note, path);
        r.incomplete_reasons.push(note);
        assert(strings_view(r.incomplete_reasons@) =~= seq![note@]);
    } else {
        assert(strings_view(r.incomplete_reasons@) =~= Seq::<Seq<char>>::empty());
    }
    r
}

/// How a whole file is parsed, if it is: by its extension when it names a
/// script, as plain JavaScript when its text is suspicious, not at all
/// otherwise.
pub fn whole_file_kind(path: &str, text: &str) -> (r: Option<SourceKind>)
    ensures
        r == if supported_extension(path_extension(path@)) {
            Some(SourceKind::FromPath)
        } else if suspicious_text(text@, path_extension(path@)) {
            Some(SourceKind::Default)
        } else {
            None::<SourceKind>
        },
{
    if is_supported(path) {
        Some(SourceKind::FromPath)
    } else if is_suspicious(text, path) {
        Some(SourceKind::Default)
    } else {
        None
    }
}

pub open spec fn language_name(ts: bool) -> Seq<char> {
    if ts { "typescript"@ } else { "javascript"@ }
}

/// The finding for JavaScript that parses under a non-code extension.
pub open spec fn parseable_finding(path: Seq<char>) -> FindingView {
    FindingView {
        id: "FILE-PARSEABLE-JAVASCRIPT"@,
        severity: Severity::Medium,
        confidence: Confidence::High,
        score: 45,
        title: "JavaScript parses under a non-code extension"@,
        message: "Oxc parsed executable-looking text as JavaScript. No execution path is established by this finding alone."@,
        file: Some(path),
        line: None,
        evidence: seq!["extension: ."@ + match path_extension(path) { Some(e) => e, None => "(none)"@ }],
    }
}

/// The analysis of a whole file, given how it was parsed and what parsing
/// yielded: the module, nothing for an empty program, or why it failed.
pub fn whole_file_result(path: &str, kind: SourceKind, outcome: Result<Option<ModuleFacts>, String>) -> (r: JsAnalysis)
    ensures
        r.embedded_roots@.len() == 0,
        match outcome {
            Err(reason) => r.language.is_none() && r.findings@.len() == 0 && r.modules@.len() == 0
                && strings_view(r.incomplete_reasons@) == seq![reason@ + ": "@ + path@],
            Ok(None) => r.language.is_none() && r.findings@.len() == 0 && r.modules@.len() == 0
                && r.incomplete_reasons@.len() == 0,
            Ok(Some(m)) => r.modules@ == seq![m] && r.incomplete_reasons@.len() == 0
                && crate::model::opt_view(r.language) == Some(language_name(typescript(kind, path_extension(path@))))
                && findings_view(r.findings@) == if supported_extension(path_extension(path@)) {
                    Seq::<FindingView>::empty()
                } else {
                    seq![parseable_finding(path@)]
                },
        },
{
    let mut r = nothing();
    match outcome {
        Err(reason) => {
            let mut note = reason;
            push_str(&mut note, ": ");
            push_str(&mut note, path);
            r.incomplete_reasons.push(note);
            assert(strings_view(r.incomplete_reasons@) =~= seq![note@]);
        },
        Ok(None) => {},
        Ok(Some(m)) => {
            let ts = is_typescript(&kind, path);
            r.language = Some(owned(if ts { "typescript" } else { "javascript" }));
            r.modules.push(m);
            assert(r.modules@ =~= seq![m]);
            if !is_supported(path) {
                let mut note = owned("extension: .");
                match path_ext(path) {
                    Some(e) => push_str(&mut note, string_from_chars(&e).as_str()),
                    None => push_str(&mut note, "(none)"),
                }
                let f = Finding {
                    id: owned("FILE-PARSEABLE-JAVASCRIPT"),
                    severity: Severity::Medium,
                    confidence: Confidence::High,
                    score: 45,
                    title: owned("JavaScript parses under a non-code extension"),
                    message: owned("Oxc parsed executable-looking text as JavaScript. No execution path is established by this finding alone."),
                    file: Some(owned(path)),
                    line: None,
                    evidence: vec![note],
                };
                assert(f@.evidence =~= parseable_finding(path@).evidence);
                r.findings.push(f);
                assert(findings_view(r.findings@) =~= seq![parseable_finding(path@)]);
            } else {
                assert(findings_view(r.findings@) =~= Seq::<FindingView>::empty());
            }
        },
    }
    r
}

/// The analysis of the scripts of one document, block by block.
pub struct EmbeddedScan {
    pub path: String,
    pub is_html: bool,
    pub flow_enabled: bool,
    /// Imports and calls of the modules kept so far.
    pub fact_count: usize,
    pub result: JsAnalysis,
}

/// The identity of the `index`-th script of a document.
pub open spec fn embedded_id(path: Seq<char>, index: nat) -> Seq<char> {
    path + "#embedded-script-"@ + decimal(index)
}

/// The notes of an extraction, each with the document's path.
pub open spec fn noted_paths(notes: Seq<Seq<char>>, path: Seq<char>) -> Seq<Seq<char>> {
    notes.map_values(|n: Seq<char>| n + ": "@ + path)
}

impl EmbeddedScan {
    /// The scan of a document's scripts, starting from what the extraction
    /// left incomplete.
    pub fn new(path: &str, is_html: bool, markdown: bool, extraction_notes: &Vec<String>) -> (r: EmbeddedScan)
        ensures
            r.path@ == path@,
            r.is_html == is_html,
            r.flow_enabled == !markdown,
            r.fact_count == 0,
            strings_view(r.result.incomplete_reasons@) == noted_paths(strings_view(extraction_notes@), path@),
            r.result.language.is_none() && r.result.findings@.len() == 0,
            r.result.modules@.len() == 0 && r.result.embedded_roots@.len() == 0,
    {
        let mut result = nothing();
        let ghost f = |n: Seq<char>| n + ": "@ + path@;
        let mut k: usize = 0;
        while k < extraction_notes.len()
            invariant
                k <= extraction_notes@.len(),
                f == (|n: Seq<char>| n + ": "@ + path@),
                strings_view(result.incomplete_reasons@) == strings_view(extraction_notes@).subrange(0, k as int).map_values(f),
                result.language.is_none() && result.findings@.len() == 0,
                result.modules@.len() == 0 && result.embedded_roots@.len() == 0,
            decreases extraction_notes.len() - k,
        {
            let mut note = owned(extraction_notes[k].as_str());
            push_str(&mut note, ": ");
            push_str(&mut note, path);
            let ghost before = strings_view(result.incomplete_reasons@);
            result.incomplete_reasons.push(note);
            assert(strings_view(result.incomplete_reasons@) =~= before.push(note@));
            assert(strings_view(extraction_notes@).subrange(0, k + 1).map_values(f)
                =~= strings_view(extraction_notes@).subrange(0, k as int).map_values(f).push(f(strings_view(extraction_notes@)[k as int])));
            k = k + 1;
        }
        assert(strings_view(extraction_notes@).subrange(0, extraction_notes@.len() as int) =~= strings_view(extraction_notes@));
        EmbeddedScan { path: owned(path), is_html, flow_enabled: !markdown, fact_count: 0, result }
    }

    /// The identity of the `index`-th script.
    pub fn module_id(&self, index: usize) -> (r: String)
        ensures
            r@ == embedded_id(self.path@, index as nat),
    {
        let mut id = owned(self.path.as_str());
        push_str(&mut id, "#embedded-script-");
        push_decimal(&mut id, index as u64);
        id
    }

    /// How many more facts the document's modules may hold; when none, that
    /// is recorded and the scan of the document stops.
    pub fn fact_room(&mut self) -> (r: usize)
        ensures
            r == MAX_FACTS_PER_FILE - min_facts(old(self).fact_count),
            r == 0 ==> strings_view(final(self).result.incomplete_reasons@)
                == strings_view(old(self).result.incomplete_reasons@).push("JS/TS fact limit of 50000 reached: "@ + old(self).path@),
            r > 0 ==> final(self).result.incomplete_reasons == old(self).result.incomplete_reasons,
            final(self).result.modules == old(self).result.modules,
            final(self).result.embedded_roots == old(self).result.embedded_roots,
            final(self).result.language == old(self).result.language,
            final(self).result.findings == old(self).result.findings,
            final(self).fact_count == old(self).fact_count,
            final(self).path == old(self).path,
            final(self).is_html == old(self).is_html,
            final(self).flow_enabled == old(self).flow_enabled,
    {
        let room = MAX_FACTS_PER_FILE.saturating_sub(self.fact_count);
        if room == 0 {
            let mut note = owned("JS/TS fact limit of 50000 reached: ");
            push_str(&mut note, self.path.as_str());
            let ghost before = strings_view(self.result.incomplete_reasons@);
            self.result.incomplete_reasons.push(note);
            assert(strings_view(self.result.incomplete_reasons@) =~= before.push(note@));
        }
        room
    }

    fn keep(&mut self, module: ModuleFacts, line_offset: u64, kind: &SourceKind)
        requires
            line_offset < u64::MAX,
        ensures
            final(self).result.modules@ == old(self).result.modules@.push(module),
            final(self).fact_count == old(self).fact_count.saturating_add(module.imports@.len() as usize).saturating_add(module.calls@.len() as usize),
            old(self).is_html ==> final(self).result.embedded_roots@.len() == old(self).result.embedded_roots@.len() + 1
                && final(self).result.embedded_roots@.drop_last() == old(self).result.embedded_roots@
                && final(self).result.embedded_roots@.last().module_id@ == module.id@
                && final(self).result.embedded_roots@.last().line == line_offset + 1,
            !old(self).is_html ==> final(self).result.embedded_roots == old(self).result.embedded_roots,
            crate::model::opt_view(final(self).result.language) == match old(self).result.language {
                Some(l) => Some(l@),
                None => Some(language_name(typescript(*kind, path_extension(old(self).path@)))),
            },
            final(self).result.incomplete_reasons == old(self).result.incomplete_reasons,
            final(self).result.findings == old(self).result.findings,
            final(self).path == old(self).path,
            final(self).is_html == old(self).is_html,
            final(self).flow_enabled == old(self).flow_enabled,
    {
        if self.is_html {
            let root = EmbeddedRoot { module_id: owned(module.id.as_str()), line: line_offset + 1 };
            self.result.embedded_roots.push(root);
        }
        self.fact_count = self.fact_count.saturating_add(module.imports.len()).saturating_add(module.calls.len());
        if self.result.language.is_none() {
            let ts = is_typescript(kind, self.path.as_str());
            self.result.language = Some(owned(if ts { "typescript" } else { "javascript" }));
        }
        self.result.modules.push(module);
    }

    /// Keeps a script that names its source by `src`: a module that only
    /// imports it.
    pub fn external(&mut self, index: usize, line_offset: u64, kind: &SourceKind, specifier: String)
        requires
            line_offset < u64::MAX,
        ensures
            final(self).result.modules@.len() == old(self).result.modules@.len() + 1,
            final(self).result.modules@.drop_last() == old(self).result.modules@,
            ({
                let m = final(self).result.modules@.last();
                &&& m.id@ == embedded_id(old(self).path@, index as nat)
                &&& m.path@ == old(self).path@
                &&& m.flow_enabled == old(self).flow_enabled
                &&& m.source_bytes == 0
                &&& m.imports@.len() == 1 && m.imports@[0].specifier == specifier && m.imports@[0].line == line_offset + 1
                &&& m.calls@.len() == 0
            }),
            final(self).result.incomplete_reasons == old(self).result.incomplete_reasons,
            final(self).result.findings == old(self).result.findings,
    {
        let module = ModuleFacts {
            id: self.module_id(index),
            path: owned(self.path.as_str()),
            flow_enabled: self.flow_enabled,
            source_bytes: 0,
            imports: vec![ImportFact { specifier, line: line_offset + 1 }],
            calls: Vec::new(),
            flow: ModuleFlow { imports: Vec::new(), exports: Vec::new(), reexports: Vec::new(), functions: Vec::new(), body: Vec::new() },
        };
        self.keep(module, line_offset, kind);
    }

    /// Takes what parsing a script yielded: a module is kept; an empty
    /// program is passed over; a failure is recorded with its line.
    pub fn parsed(&mut self, line_offset: u64, kind: &SourceKind, outcome: Result<Option<ModuleFacts>, String>)
        requires
            line_offset < u64::MAX,
        ensures
            match outcome {
                Ok(Some(m)) => final(self).result.modules@ == old(self).result.modules@.push(m)
                    && final(self).result.incomplete_reasons == old(self).result.incomplete_reasons,
                Ok(None) => final(self).result.modules == old(self).result.modules
                    && final(self).result.incomplete_reasons == old(self).result.incomplete_reasons,
                Err(reason) => final(self).result.modules == old(self).result.modules
                    && strings_view(final(self).result.incomplete_reasons@) == strings_view(old(self).result.incomplete_reasons@)
                        .push(reason@ + " at line "@ + decimal((line_offset + 1) as nat) + ": "@ + old(self).path@),
            },
            final(self).result.findings == old(self).result.findings,
    {
        match outcome {
            Ok(Some(m)) => self.keep(m, line_offset, kind),
            Ok(None) => {},
            Err(reason) => {
                let mut note = reason;
                push_str(&mut note, " at line ");
                push_decimal(&mut note, line_offset + 1);
                push_str(&mut note, ": ");
                push_str(&mut note, self.path.as_str());
                let ghost before = strings_view(self.result.incomplete_reasons@);
                self.result.incomplete_reasons.push(note);
                assert(strings_view(self.result.incomplete_reasons@) =~= before.push(note@));
            },
        }
    }

    /// The analysis of the document, unless it found neither a module nor a
    /// reason, in which case the whole file is looked at instead.
    pub fn finish(self) -> (r: Option<JsAnalysis>)
        ensures
            match r {
                Some(a) => a == self.result && (a.modules@.len() > 0 || a.incomplete_reasons@.len() > 0),
                None => self.result.modules@.len() == 0 && self.result.incomplete_reasons@.len() == 0,
            },
    {
        if self.result.modules.len() > 0 || self.result.incomplete_reasons.len() > 0 {
            Some(self.result)
        } else {
            None
        }
    }
}

pub open spec fn min_facts(count: usize) -> usize {
    if count < MAX_FACTS_PER_FILE { count } else { MAX_FACTS_PER_FILE }
}

} // verus!
