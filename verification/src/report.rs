//! Rendering of scan results for people: terminal and Markdown text in
//! which untrusted strings cannot inject control sequences or markup.
use vstd::prelude::*;
use vstd::utf8::encode_utf8;
use crate::model::{Confidence, Finding, ScanReport, ScanStatus, Severity, severity_label};
use crate::text::{
    chars_of, escape_default, forward_slashes, is_control, push_char, push_escape_default,
    push_str, char_is_control, to_forward_slashes, string_from_chars, digit_char, decimal, push_decimal, owned, str_eq,
};

verus! {

/// Text with each control character replaced by its `escape_default` form.
pub open spec fn sanitized(s: Seq<char>) -> Seq<char>
    decreases s.len(),
{
    if s.len() == 0 {
        Seq::empty()
    } else {
        sanitized(s.drop_last()) + if is_control(s.last()) { escape_default(s.last()) } else { seq![s.last()] }
    }
}

/// The text with control characters escaped, safe to print on a terminal.
pub fn sanitize(value: &str) -> (r: String)
    ensures
        r@ == sanitized(value@),
{
    let v = chars_of(value);
    let mut out = String::new();
    let mut i: usize = 0;
    while i < v.len()
        invariant
            i <= v@.len(),
            v@ == value@,
            out@ == sanitized(v@.subrange(0, i as int)),
        decreases v.len() - i,
    {
        let c = v[i];
        if char_is_control(c) {
            push_escape_default(&mut out, c);
        } else {
            push_char(&mut out, c);
        }
        assert(v@.subrange(0, i + 1).drop_last() =~= v@.subrange(0, i as int));
        assert(out@ =~= sanitized(v@.subrange(0, i + 1)));
        i = i + 1;
    }
    assert(v@.subrange(0, v@.len() as int) =~= v@);
    out
}

/// What a character becomes in Markdown text.
pub open spec fn markdown_char(c: char) -> Seq<char> {
    if c == '\\' {
        seq!['\\', '\\']
    } else if c == '`' {
        seq!['\\', '`']
    } else if c == '|' {
        seq!['\\', '|']
    } else if c == '<' {
        "&lt;"@
    } else if c == '>' {
        "&gt;"@
    } else if is_control(c) {
        escape_default(c)
    } else {
        seq![c]
    }
}

/// Text with Markdown's active characters escaped.
pub open spec fn markdown_escaped(s: Seq<char>) -> Seq<char>
    decreases s.len(),
{
    if s.len() == 0 {
        Seq::empty()
    } else {
        markdown_escaped(s.drop_last()) + markdown_char(s.last())
    }
}

/// The text escaped for Markdown, so that it shows as written.
pub fn markdown_escape(value: &str) -> (r: String)
    ensures
        r@ == markdown_escaped(value@),
{
    let v = chars_of(value);
    let mut out = String::new();
    let mut i: usize = 0;
    while i < v.len()
        invariant
            i <= v@.len(),
            v@ == value@,
            out@ == markdown_escaped(v@.subrange(0, i as int)),
        decreases v.len() - i,
    {
        let c = v[i];
        let ghost before = out@;
        if c == '\\' {
            push_str(&mut out, "\\\\");
            proof { reveal_strlit("\\\\"); }
            assert(out@ =~= before + seq!['\\', '\\']);
        } else if c == '`' {
            push_str(&mut out, "\\`");
            proof { reveal_strlit("\\`"); }
            assert(out@ =~= before + seq!['\\', '`']);
        } else if c == '|' {
            push_str(&mut out, "\\|");
            proof { reveal_strlit("\\|"); }
            assert(out@ =~= before + seq!['\\', '|']);
        } else if c == '<' {
            push_str(&mut out, "&lt;");
        } else if c == '>' {
            push_str(&mut out, "&gt;");
        } else if char_is_control(c) {
            push_escape_default(&mut out, c);
        } else {
            push_char(&mut out, c);
        }
        assert(v@.subrange(0, i + 1).drop_last() =~= v@.subrange(0, i as int));
        assert(out@ =~= markdown_escaped(v@.subrange(0, i + 1)));
        i = i + 1;
    }
    assert(v@.subrange(0, v@.len() as int) =~= v@);
    out
}

/// An upper-case hexadecimal digit.
pub open spec fn upper_hex_digit(d: nat) -> char {
    if d < 10 { digit_char(d) }
    else if d == 10 { 'A' }
    else if d == 11 { 'B' }
    else if d == 12 { 'C' }
    else if d == 13 { 'D' }
    else if d == 14 { 'E' }
    else { 'F' }
}

fn upper_hex(d: u8) -> (c: char)
    requires
        d < 16,
    ensures
        c == upper_hex_digit(d as nat),
{
    if d == 0 { '0' } else if d == 1 { '1' } else if d == 2 { '2' } else if d == 3 { '3' }
    else if d == 4 { '4' } else if d == 5 { '5' } else if d == 6 { '6' } else if d == 7 { '7' }
    else if d == 8 { '8' } else if d == 9 { '9' } else if d == 10 { 'A' } else if d == 11 { 'B' }
    else if d == 12 { 'C' } else if d == 13 { 'D' } else if d == 14 { 'E' } else { 'F' }
}

/// A byte that a SARIF URI keeps as it is.
pub open spec fn uri_safe(b: u8) -> bool {
    (0x30 <= b && b <= 0x39) || (0x41 <= b && b <= 0x5a) || (0x61 <= b && b <= 0x7a)
        || b == 0x2f || b == 0x2d || b == 0x5f || b == 0x2e || b == 0x7e
}

/// What a byte becomes in a SARIF URI.
pub open spec fn uri_byte(b: u8) -> Seq<char> {
    if uri_safe(b) {
        seq![b as char]
    } else {
        seq!['%', upper_hex_digit((b / 16) as nat), upper_hex_digit((b % 16) as nat)]
    }
}

/// Bytes as a percent-encoded URI path.
pub open spec fn uri_encoded(bytes: Seq<u8>) -> Seq<char>
    decreases bytes.len(),
{
    if bytes.len() == 0 {
        Seq::empty()
    } else {
        uri_encoded(bytes.drop_last()) + uri_byte(bytes.last())
    }
}

/// A repository path as a relative SARIF URI: forward slashes, and every
/// byte other than ASCII letters, digits and `/-_.~` percent-encoded.
pub fn sarif_uri(path: &str) -> (r: String)
    ensures
        r@ == uri_encoded(encode_utf8(forward_slashes(path@))),
{
    let normalized = string_from_chars(&to_forward_slashes(&chars_of(path)));
    let bytes = normalized.as_str().as_bytes();
    let mut out = String::new();
    let mut i: usize = 0;
    while i < bytes.len()
        invariant
            i <= bytes@.len(),
            bytes@ == encode_utf8(forward_slashes(path@)),
            out@ == uri_encoded(bytes@.subrange(0, i as int)),
        decreases bytes.len() - i,
    {
        let b = bytes[i];
        let safe = (0x30 <= b && b <= 0x39) || (0x41 <= b && b <= 0x5a) || (0x61 <= b && b <= 0x7a)
            || b == 0x2f || b == 0x2d || b == 0x5f || b == 0x2e || b == 0x7e;
        if safe {
            push_char(&mut out, b as char);
        } else {
            push_char(&mut out, '%');
            push_char(&mut out, upper_hex(b / 16));
            push_char(&mut out, upper_hex(b % 16));
        }
        assert(bytes@.subrange(0, i + 1).drop_last() =~= bytes@.subrange(0, i as int));
        assert(out@ =~= uri_encoded(bytes@.subrange(0, i + 1)));
        i = i + 1;
    }
    assert(bytes@.subrange(0, bytes@.len() as int) =~= bytes@);
    out
}

/// The SARIF level of a severity.
pub open spec fn sarif_level_of(s: Severity) -> Seq<char> {
    match s {
        Severity::Critical | Severity::High => "error"@,
        Severity::Medium => "warning"@,
        Severity::Low => "note"@,
        Severity::Informational => "none"@,
    }
}

/// The SARIF level of a severity.
pub fn sarif_level(severity: Severity) -> (r: &'static str)
    ensures
        r@ == sarif_level_of(severity),
{
    match severity {
        Severity::Critical | Severity::High => "error",
        Severity::Medium => "warning",
        Severity::Low => "note",
        Severity::Informational => "none",
    }
}

/// The label of a scan status.
pub open spec fn status_label_of(s: ScanStatus) -> Seq<char> {
    match s {
        ScanStatus::Complete => "COMPLETE"@,
        ScanStatus::Incomplete => "INCOMPLETE"@,
    }
}

/// The label of a scan status.
pub fn status_label(status: ScanStatus) -> (r: &'static str)
    ensures
        r@ == status_label_of(status),
{
    match status {
        ScanStatus::Complete => "COMPLETE",
        ScanStatus::Incomplete => "INCOMPLETE",
    }
}

/// The name of a confidence level.
pub open spec fn confidence_name_of(c: Confidence) -> Seq<char> {
    match c {
        Confidence::Low => "Low"@,
        Confidence::Medium => "Medium"@,
        Confidence::High => "High"@,
        Confidence::VeryHigh => "VeryHigh"@,
    }
}

/// The name of a confidence level.
pub fn confidence_name(c: Confidence) -> (r: &'static str)
    ensures
        r@ == confidence_name_of(c),
{
    match c {
        Confidence::Low => "Low",
        Confidence::Medium => "Medium",
        Confidence::High => "High",
        Confidence::VeryHigh => "VeryHigh",
    }
}

/// A line of text.
pub open spec fn line(s: Seq<char>) -> Seq<char> {
    s + seq!['\n']
}

/// Each text after `prefix` on a line of its own, control characters escaped.
pub open spec fn sanitized_lines(prefix: Seq<char>, items: Seq<String>) -> Seq<char>
    decreases items.len(),
{
    if items.len() == 0 {
        Seq::empty()
    } else {
        sanitized_lines(prefix, items.drop_last()) + line(prefix + sanitized(items.last()@))
    }
}

fn push_sanitized_lines(out: &mut String, prefix: &str, items: &Vec<String>)
    ensures
        final(out)@ == old(out)@ + sanitized_lines(prefix@, items@),
{
    let ghost start = out@;
    let mut i: usize = 0;
    while i < items.len()
        invariant
            i <= items@.len(),
            out@ == start + sanitized_lines(prefix@, items@.subrange(0, i as int)),
        decreases items.len() - i,
    {
        let ghost before = out@;
        push_str(out, prefix);
        push_str(out, sanitize(items[i].as_str()).as_str());
        push_char(out, '\n');
        assert(items@.subrange(0, i + 1).drop_last() =~= items@.subrange(0, i as int));
        assert(out@ =~= before + line(prefix@ + sanitized(items@[i as int]@)));
        i = i + 1;
    }
    assert(items@.subrange(0, items@.len() as int) =~= items@);
}

/// Where a finding is, on a terminal: its file, and its line after a colon.
pub open spec fn terminal_location(f: Finding) -> Seq<char> {
    match f.file {
        Some(p) => line(match f.line {
            Some(l) => sanitized(p@) + seq![':'] + decimal(l as nat),
            None => sanitized(p@),
        }),
        None => Seq::empty(),
    }
}

/// A finding on a terminal.
pub open spec fn terminal_finding(f: Finding) -> Seq<char> {
    line(severity_label(f.severity) + "  "@ + sanitized(f.id@))
        + line(sanitized(f.title@))
        + terminal_location(f)
        + line(sanitized(f.message@))
        + sanitized_lines("  "@, f.evidence@)
        + line("Confidence: "@ + confidence_name_of(f.confidence) + "  Risk: "@ + decimal(f.score as nat) + "/100"@)
}

fn render_finding(out: &mut String, f: &Finding)
    ensures
        final(out)@ == old(out)@ + terminal_finding(*f),
{
    let ghost start = out@;
    push_str(out, f.severity.label());
    push_str(out, "  ");
    push_str(out, sanitize(f.id.as_str()).as_str());
    push_char(out, '\n');
    let ghost a = out@;
    assert(a =~= start + line(severity_label(f.severity) + "  "@ + sanitized(f.id@)));
    push_str(out, sanitize(f.title.as_str()).as_str());
    push_char(out, '\n');
    let ghost b = out@;
    match &f.file {
        Some(p) => {
            push_str(out, sanitize(p.as_str()).as_str());
            match f.line {
                Some(l) => {
                    push_char(out, ':');
                    push_decimal(out, l);
                },
                None => {},
            }
            push_char(out, '\n');
        },
        None => {},
    }
    assert(out@ =~= b + terminal_location(*f));
    let ghost c = out@;
    push_str(out, sanitize(f.message.as_str()).as_str());
    push_char(out, '\n');
    push_sanitized_lines(out, "  ", &f.evidence);
    let ghost d = out@;
    push_str(out, "Confidence: ");
    push_str(out, confidence_name(f.confidence));
    push_str(out, "  Risk: ");
    push_decimal(out, f.score as u64);
    push_str(out, "/100");
    push_char(out, '\n');
    assert(out@ =~= d + line("Confidence: "@ + confidence_name_of(f.confidence) + "  Risk: "@ + decimal(f.score as nat) + "/100"@));
    assert(out@ =~= start + terminal_finding(*f));
}

/// The findings on a terminal, each after an empty line.
pub open spec fn terminal_findings(fs: Seq<Finding>) -> Seq<char>
    decreases fs.len(),
{
    if fs.len() == 0 {
        Seq::empty()
    } else {
        terminal_findings(fs.drop_last()) + seq!['\n'] + terminal_finding(fs.last())
    }
}

/// The head of a terminal report: the scanner, target, profile and counts.
pub open spec fn terminal_head(r: ScanReport) -> Seq<char> {
    line("preflightx "@ + r.scanner_version@)
        + line("Scanning: "@ + sanitized(r.target@))
        + line("Profile: "@ + sanitized(r.profile@))
        + seq!['\n']
        + line("Files        "@ + decimal(r.summary.files as nat))
        + line("Directories  "@ + decimal(r.summary.directories as nat))
        + line("Symlinks     "@ + decimal(r.summary.symlinks as nat))
        + line("Content      "@ + decimal(r.summary.content_bytes as nat) + " bytes"@)
}

/// The risk and status lines of a terminal report.
pub open spec fn terminal_risk(r: ScanReport) -> Seq<char> {
    seq!['\n']
        + line("Repository risk: "@ + severity_label(r.risk.severity) + " \u{2014} "@ + decimal(r.risk.score as nat) + "/100"@)
        + line("Scan status: "@ + status_label_of(r.status))
}

/// Why the scan is incomplete, or that nothing was found.
pub open spec fn terminal_outcome(r: ScanReport) -> Seq<char> {
    if r.status == ScanStatus::Incomplete {
        seq!['\n'] + line("SCAN INCOMPLETE"@) + sanitized_lines("  - "@, r.incomplete_reasons@)
    } else if r.findings@.len() == 0 {
        seq!['\n'] + line("No significant malicious indicators were identified by this version of preflightx."@)
    } else {
        Seq::empty()
    }
}

/// The execution edges that could not be resolved, when there are any.
pub open spec fn terminal_edges(r: ScanReport) -> Seq<char> {
    if r.unresolved_edges@.len() > 0 {
        seq!['\n'] + line("Unresolved execution edges:"@) + sanitized_lines("  - "@, r.unresolved_edges@)
    } else {
        Seq::empty()
    }
}

/// The closing lines: that no code was run, and the network access.
pub open spec fn terminal_closing(r: ScanReport) -> Seq<char> {
    seq!['\n']
        + line("No repository code was executed during this scan."@)
        + line("Network access: "@ + r.network_access@)
}

/// The tail of a terminal report: the risk, the status and why the scan is
/// incomplete, the unresolved edges, and what the scan did not do.
pub open spec fn terminal_tail(r: ScanReport) -> Seq<char> {
    terminal_risk(r) + terminal_outcome(r) + terminal_edges(r) + terminal_closing(r)
}

/// A report as text for a terminal.
pub open spec fn terminal_text(r: ScanReport) -> Seq<char> {
    terminal_head(r) + terminal_findings(r.findings@) + terminal_tail(r)
}

fn push_terminal_head(out: &mut String, r: &ScanReport)
    ensures
        final(out)@ == old(out)@ + terminal_head(*r),
{
    let ghost start = out@;
    push_str(out, "preflightx ");
    push_str(out, r.scanner_version.as_str());
    push_char(out, '\n');
    push_str(out, "Scanning: ");
    push_str(out, sanitize(r.target.as_str()).as_str());
    push_char(out, '\n');
    push_str(out, "Profile: ");
    push_str(out, sanitize(r.profile.as_str()).as_str());
    push_char(out, '\n');
    push_char(out, '\n');
    let ghost a = out@;
    assert(a =~= start + line("preflightx "@ + r.scanner_version@)
        + line("Scanning: "@ + sanitized(r.target@))
        + line("Profile: "@ + sanitized(r.profile@))
        + seq!['\n']);
    push_str(out, "Files        ");
    push_decimal(out, r.summary.files);
    push_char(out, '\n');
    push_str(out, "Directories  ");
    push_decimal(out, r.summary.directories);
    push_char(out, '\n');
    push_str(out, "Symlinks     ");
    push_decimal(out, r.summary.symlinks);
    push_char(out, '\n');
    push_str(out, "Content      ");
    push_decimal(out, r.summary.content_bytes);
    push_str(out, " bytes");
    push_char(out, '\n');
    assert(out@ =~= a + line("Files        "@ + decimal(r.summary.files as nat))
        + line("Directories  "@ + decimal(r.summary.directories as nat))
        + line("Symlinks     "@ + decimal(r.summary.symlinks as nat))
        + line("Content      "@ + decimal(r.summary.content_bytes as nat) + " bytes"@));
    assert(out@ =~= start + terminal_head(*r));
}

fn push_terminal_risk(out: &mut String, r: &ScanReport)
    ensures
        final(out)@ == old(out)@ + terminal_risk(*r),
{
    let ghost start = out@;
    push_char(out, '\n');
    push_str(out, "Repository risk: ");
    push_str(out, r.risk.severity.label());
    push_str(out, " \u{2014} ");
    push_decimal(out, r.risk.score as u64);
    push_str(out, "/100");
    push_char(out, '\n');
    push_str(out, "Scan status: ");
    push_str(out, status_label(r.status));
    push_char(out, '\n');
    assert(out@ =~= start + terminal_risk(*r));
}

fn push_terminal_outcome(out: &mut String, r: &ScanReport)
    ensures
        final(out)@ == old(out)@ + terminal_outcome(*r),
{
    let ghost start = out@;
    if r.status == ScanStatus::Incomplete {
        push_char(out, '\n');
        push_str(out, "SCAN INCOMPLETE");
        push_char(out, '\n');
        push_sanitized_lines(out, "  - ", &r.incomplete_reasons);
    } else if r.findings.len() == 0 {
        push_char(out, '\n');
        push_str(out, "No significant malicious indicators were identified by this version of preflightx.");
        push_char(out, '\n');
    }
    assert(out@ =~= start + terminal_outcome(*r));
}

fn push_terminal_edges(out: &mut String, r: &ScanReport)
    ensures
        final(out)@ == old(out)@ + terminal_edges(*r),
{
    let ghost start = out@;
    if r.unresolved_edges.len() > 0 {
        push_char(out, '\n');
        push_str(out, "Unresolved execution edges:");
        push_char(out, '\n');
        push_sanitized_lines(out, "  - ", &r.unresolved_edges);
    }
    assert(out@ =~= start + terminal_edges(*r));
}

fn push_terminal_closing(out: &mut String, r: &ScanReport)
    ensures
        final(out)@ == old(out)@ + terminal_closing(*r),
{
    let ghost start = out@;
    push_char(out, '\n');
    push_str(out, "No repository code was executed during this scan.");
    push_char(out, '\n');
    push_str(out, "Network access: ");
    push_str(out, r.network_access.as_str());
    push_char(out, '\n');
    assert(out@ =~= start + terminal_closing(*r));
}

/// The report as text for a terminal: the scanner, target, profile and
/// counts; each finding; the risk and status, why the scan is incomplete or
/// that nothing was found; unresolved execution edges; and that no code was
/// run. Untrusted text has its control characters escaped.
pub fn terminal(report: &ScanReport) -> (r: String)
    ensures
        r@ == terminal_text(*report),
{
    let mut out = String::new();
    push_terminal_head(&mut out, report);
    let ghost head = out@;
    let mut i: usize = 0;
    while i < report.findings.len()
        invariant
            i <= report.findings@.len(),
            out@ == head + terminal_findings(report.findings@.subrange(0, i as int)),
        decreases report.findings.len() - i,
    {
        let ghost before = out@;
        push_char(&mut out, '\n');
        render_finding(&mut out, &report.findings[i]);
        assert(report.findings@.subrange(0, i + 1).drop_last() =~= report.findings@.subrange(0, i as int));
        assert(out@ =~= head + terminal_findings(report.findings@.subrange(0, i + 1)));
        i = i + 1;
    }
    assert(report.findings@.subrange(0, report.findings@.len() as int) =~= report.findings@);
    let ghost body = out@;
    push_terminal_risk(&mut out, report);
    push_terminal_outcome(&mut out, report);
    push_terminal_edges(&mut out, report);
    push_terminal_closing(&mut out, report);
    assert(out@ =~= body + terminal_tail(*report));
    out
}

/// The head of a Markdown report: its version comment, title, target,
/// profile, status, file count, risk and network access, and that nothing
/// was found when the scan is complete without findings.
pub open spec fn markdown_head(r: ScanReport) -> Seq<char> {
    "<!-- PreflightX Markdown v2 -->\n\n# PreflightX "@ + markdown_escaped(r.scanner_version@)
        + "\n\n- **Target:** `"@ + markdown_escaped(r.target@)
        + "`\n- **Profile:** "@ + markdown_escaped(r.profile@)
        + "\n- **Status:** "@ + status_label_of(r.status)
        + "\n- **Files:** "@ + decimal(r.summary.files as nat)
        + "\n- **Risk:** "@ + severity_label(r.risk.severity) + " ("@ + decimal(r.risk.score as nat)
        + "/100)\n- **Network:** "@ + markdown_escaped(r.network_access@) + "\n\n"@
        + (if r.findings@.len() == 0 && r.status == ScanStatus::Complete {
            "No significant malicious indicators were identified by this version of PreflightX.\n"@
        } else {
            Seq::empty()
        })
}

/// Where a finding is, in Markdown.
pub open spec fn markdown_location(f: Finding) -> Seq<char> {
    match f.file {
        Some(p) => "**Location:** `"@ + markdown_escaped(match f.line {
            Some(l) => p@ + seq![':'] + decimal(l as nat),
            None => p@,
        }) + "`\n\n"@,
        None => Seq::empty(),
    }
}

/// A finding's evidence as a Markdown list.
pub open spec fn markdown_evidence(items: Seq<String>) -> Seq<char>
    decreases items.len(),
{
    if items.len() == 0 {
        Seq::empty()
    } else {
        markdown_evidence(items.drop_last()) + "\n- `"@ + markdown_escaped(items.last()@) + seq!['`']
    }
}

/// A finding in Markdown.
pub open spec fn markdown_finding(f: Finding) -> Seq<char> {
    "## "@ + severity_label(f.severity) + " \u{2014} "@ + markdown_escaped(f.title@) + "\n\n"@
        + markdown_escaped(f.message@) + "\n\n"@
        + markdown_location(f)
        + "**Rule:** `"@ + markdown_escaped(f.id@) + "`  \n**Confidence:** "@ + confidence_name_of(f.confidence)
        + "  \n**Risk:** "@ + decimal(f.score as nat) + "/100\n"@
        + markdown_evidence(f.evidence@)
        + "\n\n"@
}

/// The findings in Markdown.
pub open spec fn markdown_findings(fs: Seq<Finding>) -> Seq<char>
    decreases fs.len(),
{
    if fs.len() == 0 {
        Seq::empty()
    } else {
        markdown_findings(fs.drop_last()) + markdown_finding(fs.last())
    }
}

/// Reasons as a Markdown list.
pub open spec fn markdown_reasons(items: Seq<String>) -> Seq<char>
    decreases items.len(),
{
    if items.len() == 0 {
        Seq::empty()
    } else {
        markdown_reasons(items.drop_last()) + "- "@ + markdown_escaped(items.last()@) + seq!['\n']
    }
}

/// Why the scan is incomplete, when it is.
pub open spec fn markdown_incomplete(r: ScanReport) -> Seq<char> {
    if r.status == ScanStatus::Incomplete {
        "## Scan incomplete\n\n"@ + markdown_reasons(r.incomplete_reasons@) + seq!['\n']
    } else {
        Seq::empty()
    }
}

/// A report as Markdown.
pub open spec fn markdown_text(r: ScanReport) -> Seq<char> {
    markdown_head(r) + markdown_findings(r.findings@) + markdown_incomplete(r)
        + "No repository code was executed during this scan.\n"@
}

fn push_markdown_head(out: &mut String, r: &ScanReport)
    ensures
        final(out)@ == old(out)@ + markdown_head(*r),
{
    let ghost start = out@;
    push_str(out, "<!-- PreflightX Markdown v2 -->\n\n# PreflightX ");
    push_str(out, markdown_escape(r.scanner_version.as_str()).as_str());
    push_str(out, "\n\n- **Target:** `");
    push_str(out, markdown_escape(r.target.as_str()).as_str());
    push_str(out, "`\n- **Profile:** ");
    push_str(out, markdown_escape(r.profile.as_str()).as_str());
    push_str(out, "\n- **Status:** ");
    push_str(out, status_label(r.status));
    push_str(out, "\n- **Files:** ");
    push_decimal(out, r.summary.files);
    push_str(out, "\n- **Risk:** ");
    push_str(out, r.risk.severity.label());
    push_str(out, " (");
    push_decimal(out, r.risk.score as u64);
    push_str(out, "/100)\n- **Network:** ");
    push_str(out, markdown_escape(r.network_access.as_str()).as_str());
    push_str(out, "\n\n");
    if r.findings.len() == 0 && r.status == ScanStatus::Complete {
        push_str(out, "No significant malicious indicators were identified by this version of PreflightX.\n");
    }
    assert(out@ =~= start + markdown_head(*r));
}

fn push_markdown_list(out: &mut String, items: &Vec<String>, bullet: bool)
    ensures
        bullet ==> final(out)@ == old(out)@ + markdown_reasons(items@),
        !bullet ==> final(out)@ == old(out)@ + markdown_evidence(items@),
{
    let ghost start = out@;
    let mut i: usize = 0;
    while i < items.len()
        invariant
            i <= items@.len(),
            bullet ==> out@ == start + markdown_reasons(items@.subrange(0, i as int)),
            !bullet ==> out@ == start + markdown_evidence(items@.subrange(0, i as int)),
        decreases items.len() - i,
    {
        let ghost before = out@;
        if bullet {
            push_str(out, "- ");
            push_str(out, markdown_escape(items[i].as_str()).as_str());
            push_char(out, '\n');
        } else {
            push_str(out, "\n- `");
            push_str(out, markdown_escape(items[i].as_str()).as_str());
            push_char(out, '`');
        }
        assert(items@.subrange(0, i + 1).drop_last() =~= items@.subrange(0, i as int));
        assert(bullet ==> out@ =~= start + markdown_reasons(items@.subrange(0, i + 1)));
        assert(!bullet ==> out@ =~= start + markdown_evidence(items@.subrange(0, i + 1)));
        i = i + 1;
    }
    assert(items@.subrange(0, items@.len() as int) =~= items@);
}

fn push_markdown_location(out: &mut String, f: &Finding)
    ensures
        final(out)@ == old(out)@ + markdown_location(*f),
{
    let ghost start = out@;
    match &f.file {
        Some(p) => {
            let mut location = owned(p.as_str());
            match f.line {
                Some(l) => {
                    push_char(&mut location, ':');
                    push_decimal(&mut location, l);
                    assert(location@ =~= p@ + seq![':'] + decimal(l as nat));
                },
                None => {},
            }
            push_str(out, "**Location:** `");
            push_str(out, markdown_escape(location.as_str()).as_str());
            push_str(out, "`\n\n");
        },
        None => {},
    }
    assert(out@ =~= start + markdown_location(*f));
}

fn push_markdown_finding(out: &mut String, f: &Finding)
    ensures
        final(out)@ == old(out)@ + markdown_finding(*f),
{
    let ghost start = out@;
    push_str(out, "## ");
    push_str(out, f.severity.label());
    push_str(out, " \u{2014} ");
    push_str(out, markdown_escape(f.title.as_str()).as_str());
    push_str(out, "\n\n");
    push_str(out, markdown_escape(f.message.as_str()).as_str());
    push_str(out, "\n\n");
    let ghost a = out@;
    push_markdown_location(out, f);
    let ghost b = out@;
    push_str(out, "**Rule:** `");
    push_str(out, markdown_escape(f.id.as_str()).as_str());
    push_str(out, "`  \n**Confidence:** ");
    push_str(out, confidence_name(f.confidence));
    push_str(out, "  \n**Risk:** ");
    push_decimal(out, f.score as u64);
    push_str(out, "/100\n");
    let ghost c = out@;
    push_markdown_list(out, &f.evidence, false);
    push_str(out, "\n\n");
    assert(a =~= start + "## "@ + severity_label(f.severity) + " \u{2014} "@ + markdown_escaped(f.title@) + "\n\n"@
        + markdown_escaped(f.message@) + "\n\n"@);
    assert(c =~= b + "**Rule:** `"@ + markdown_escaped(f.id@) + "`  \n**Confidence:** "@ + confidence_name_of(f.confidence)
        + "  \n**Risk:** "@ + decimal(f.score as nat) + "/100\n"@);
    assert(out@ =~= c + markdown_evidence(f.evidence@) + "\n\n"@);
    assert(out@ =~= start + markdown_finding(*f));
}

/// The report as Markdown: a versioned header with the target, profile,
/// status, file count, risk and network access; each finding with its
/// location, rule, confidence, risk and evidence; why the scan is
/// incomplete; and that no code was run. Untrusted text is escaped.
pub fn markdown(report: &ScanReport) -> (r: String)
    ensures
        r@ == markdown_text(*report),
{
    let mut out = String::new();
    push_markdown_head(&mut out, report);
    let ghost head = out@;
    let mut i: usize = 0;
    while i < report.findings.len()
        invariant
            i <= report.findings@.len(),
            out@ == head + markdown_findings(report.findings@.subrange(0, i as int)),
        decreases report.findings.len() - i,
    {
        push_markdown_finding(&mut out, &report.findings[i]);
        assert(report.findings@.subrange(0, i + 1).drop_last() =~= report.findings@.subrange(0, i as int));
        assert(out@ =~= head + markdown_findings(report.findings@.subrange(0, i + 1)));
        i = i + 1;
    }
    assert(report.findings@.subrange(0, report.findings@.len() as int) =~= report.findings@);
    let ghost body = out@;
    if report.status == ScanStatus::Incomplete {
        push_str(&mut out, "## Scan incomplete\n\n");
        push_markdown_list(&mut out, &report.incomplete_reasons, true);
        push_char(&mut out, '\n');
    }
    assert(out@ =~= body + markdown_incomplete(*report));
    let ghost tail = out@;
    push_str(&mut out, "No repository code was executed during this scan.\n");
    assert(out@ =~= tail + "No repository code was executed during this scan.\n"@);
    out
}

/// A SARIF rule: one for each finding id.
pub struct SarifRule {
    pub id: String,
    pub title: String,
    pub level: String,
}

/// A SARIF result: one for each finding.
pub struct SarifResult {
    pub rule_id: String,
    pub rule_index: usize,
    pub level: String,
    pub message: String,
    pub confidence: String,
    pub risk_score: u8,
    pub uri: Option<String>,
    pub line: Option<u64>,
    pub evidence: Vec<String>,
}

/// What a SARIF log of a report says: the SARIF version, the scanner's version, the rules and
/// results, the scan status, network access and profile.
pub struct SarifRun {
    pub sarif_version: String,
    pub version: String,
    pub rules: Vec<SarifRule>,
    pub results: Vec<SarifResult>,
    pub status: String,
    pub network_access: String,
    pub profile: String,
}

/// The name of a confidence level in lower case.
pub open spec fn confidence_lower_of(c: Confidence) -> Seq<char> {
    match c {
        Confidence::Low => "low"@,
        Confidence::Medium => "medium"@,
        Confidence::High => "high"@,
        Confidence::VeryHigh => "veryhigh"@,
    }
}

fn confidence_lower(c: Confidence) -> (r: &'static str)
    ensures
        r@ == confidence_lower_of(c),
{
    match c {
        Confidence::Low => "low",
        Confidence::Medium => "medium",
        Confidence::High => "high",
        Confidence::VeryHigh => "veryhigh",
    }
}

/// The name of a scan status in lower case.
pub open spec fn status_lower_of(s: ScanStatus) -> Seq<char> {
    match s {
        ScanStatus::Complete => "complete"@,
        ScanStatus::Incomplete => "incomplete"@,
    }
}

/// The ids of the findings.
pub open spec fn finding_ids(fs: Seq<Finding>) -> Seq<Seq<char>> {
    fs.map_values(|f: Finding| f.id@)
}

/// The first finding from the `k`-th on that has the id.
pub open spec fn first_with_id(fs: Seq<Finding>, id: Seq<char>, k: int) -> int
    decreases fs.len() - k,
{
    if k < 0 || k >= fs.len() {
        -1
    } else if fs[k].id@ == id {
        k
    } else {
        first_with_id(fs, id, k + 1)
    }
}

proof fn lemma_first_with_id(fs: Seq<Finding>, id: Seq<char>, k: int)
    requires
        0 <= k,
    ensures
        first_with_id(fs, id, k) == -1 || (k <= first_with_id(fs, id, k) < fs.len()
            && fs[first_with_id(fs, id, k)].id@ == id),
        (exists|j: int| k <= j < fs.len() && fs[j].id@ == id) ==> first_with_id(fs, id, k) != -1,
    decreases fs.len() - k,
{
    if k < fs.len() && fs[k].id@ != id {
        lemma_first_with_id(fs, id, k + 1);
        if exists|j: int| k <= j < fs.len() && fs[j].id@ == id {
            let j = choose|j: int| k <= j < fs.len() && fs[j].id@ == id;
            assert(j != k);
        }
    }
}

/// The ids of SARIF rules.
pub open spec fn rule_ids(rules: Seq<SarifRule>) -> Seq<Seq<char>> {
    rules.map_values(|r: SarifRule| r.id@)
}

/// The rules of a SARIF log: the findings' ids in order, each once, each
/// with the title and level of the first finding that has it.
pub open spec fn sarif_rules_ok(rules: Seq<SarifRule>, fs: Seq<Finding>) -> bool {
    &&& crate::text::strictly_sorted(rule_ids(rules))
    &&& forall|x: Seq<char>| rule_ids(rules).contains(x) <==> finding_ids(fs).contains(x)
    &&& forall|k: int| 0 <= k < rules.len() ==> {
        let j = first_with_id(fs, (#[trigger] rules[k]).id@, 0);
        &&& 0 <= j < fs.len()
        &&& rules[k].title@ == fs[j].title@
        &&& rules[k].level@ == sarif_level_of(fs[j].severity)
    }
}

/// A SARIF result of a finding, given the rules.
pub open spec fn sarif_result_ok(r: SarifResult, f: Finding, rules: Seq<SarifRule>) -> bool {
    &&& r.rule_id@ == f.id@
    &&& r.rule_index < rules.len() && rules[r.rule_index as int].id@ == f.id@
    &&& r.level@ == sarif_level_of(f.severity)
    &&& r.message@ == f.message@
    &&& r.confidence@ == confidence_lower_of(f.confidence)
    &&& r.risk_score == f.score
    &&& match f.file {
        Some(p) => r.uri is Some && r.uri->Some_0@ == uri_encoded(encode_utf8(forward_slashes(p@))) && r.line == f.line,
        None => r.uri is None && r.line is None,
    }
    &&& crate::model::strings_view(r.evidence@) == crate::model::strings_view(f.evidence@)
}

fn sarif_rules(findings: &Vec<Finding>) -> (r: Vec<SarifRule>)
    ensures
        sarif_rules_ok(r@, findings@),
{
    let mut ids: Vec<String> = Vec::new();
    let mut i: usize = 0;
    while i < findings.len()
        invariant
            i <= findings@.len(),
            crate::model::strings_view(ids@) == finding_ids(findings@).subrange(0, i as int),
        decreases findings.len() - i,
    {
        let ghost before = ids@;
        let id = owned(findings[i].id.as_str());
        ids.push(id);
        assert(ids@ == before.push(id));
        assert(crate::model::strings_view(ids@) =~= crate::model::strings_view(before).push(findings@[i as int].id@));
        assert(crate::model::strings_view(ids@) =~= finding_ids(findings@).subrange(0, i + 1));
        i = i + 1;
    }
    assert(finding_ids(findings@).subrange(0, findings@.len() as int) =~= finding_ids(findings@));
    let unique = crate::text::sorted_unique(&ids);
    let mut rules: Vec<SarifRule> = Vec::new();
    let mut k: usize = 0;
    while k < unique.len()
        invariant
            k <= unique@.len(),
            rules@.len() == k,
            forall|m: int| 0 <= m < k ==> (#[trigger] rules@[m]).id@ == unique@[m]@,
            forall|x: Seq<char>| crate::model::strings_view(unique@).contains(x) <==> finding_ids(findings@).contains(x),
            forall|m: int| 0 <= m < k ==> {
                let j = first_with_id(findings@, (#[trigger] rules@[m]).id@, 0);
                &&& 0 <= j < findings@.len()
                &&& rules@[m].title@ == findings@[j].title@
                &&& rules@[m].level@ == sarif_level_of(findings@[j].severity)
            },
        decreases unique.len() - k,
    {
        let id = &unique[k];
        assert(crate::model::strings_view(unique@)[k as int] == id@);
        assert(finding_ids(findings@).contains(id@));
        let ghost w = choose|w: int| 0 <= w < findings@.len() && finding_ids(findings@)[w] == id@;
        proof { lemma_first_with_id(findings@, id@, 0); }
        let mut j: usize = 0;
        while !str_eq(findings[j].id.as_str(), id.as_str())
            invariant
                j <= w,
                0 <= w < findings.len(),
                findings@[w].id@ == id@,
                forall|m: int| 0 <= m < j ==> findings@[m].id@ != id@,
                first_with_id(findings@, id@, 0) == first_with_id(findings@, id@, j as int),
            decreases w - j,
        {
            assert(findings@[j as int].id@ != id@);
            assert(j < w);
            j = j + 1;
        }
        let f = &findings[j];
        rules.push(SarifRule {
            id: owned(id.as_str()),
            title: owned(f.title.as_str()),
            level: owned(sarif_level(f.severity)),
        });
        k = k + 1;
    }
    assert(rule_ids(rules@) =~= crate::model::strings_view(unique@));
    rules
}

fn sarif_result(f: &Finding, rules: &Vec<SarifRule>) -> (r: SarifResult)
    requires
        exists|k: int| 0 <= k < rules@.len() && (#[trigger] rules@[k]).id@ == f.id@,
    ensures
        sarif_result_ok(r, *f, rules@),
{
    let ghost w = choose|k: int| 0 <= k < rules@.len() && (#[trigger] rules@[k]).id@ == f.id@;
    let mut index: usize = 0;
    while !str_eq(rules[index].id.as_str(), f.id.as_str())
        invariant
            index <= w,
            0 <= w < rules.len(),
            rules@[w].id@ == f.id@,
        decreases w - index,
    {
        assert(rules@[index as int].id@ != f.id@);
        assert(index < w);
        index = index + 1;
    }
    let (uri, line) = match &f.file {
        Some(p) => (Some(sarif_uri(p.as_str())), f.line),
        None => (None, None),
    };
    SarifResult {
        rule_id: owned(f.id.as_str()),
        rule_index: index,
        level: owned(sarif_level(f.severity)),
        message: owned(f.message.as_str()),
        confidence: owned(confidence_lower(f.confidence)),
        risk_score: f.score,
        uri,
        line,
        evidence: crate::text::clone_strings(&f.evidence),
    }
}

/// What the SARIF log of a report holds: SARIF version 2.1.0; the scanner's version; a rule for
/// each finding id, in id order, with the title and level of the first
/// finding that has it; a result for each finding, in order, with the index
/// of its rule, its level, message, confidence, risk score, percent-encoded
/// location and evidence; the status in lower case, the network access and
/// the profile.
pub fn sarif_run(report: &ScanReport) -> (r: SarifRun)
    ensures
        r.sarif_version@ == "2.1.0"@,
        r.version@ == report.scanner_version@,
        sarif_rules_ok(r.rules@, report.findings@),
        r.results@.len() == report.findings@.len(),
        forall|i: int| 0 <= i < r.results@.len()
            ==> sarif_result_ok(#[trigger] r.results@[i], report.findings@[i], r.rules@),
        r.status@ == status_lower_of(report.status),
        r.network_access@ == report.network_access@,
        r.profile@ == report.profile@,
{
    let rules = sarif_rules(&report.findings);
    let mut results: Vec<SarifResult> = Vec::new();
    let mut i: usize = 0;
    while i < report.findings.len()
        invariant
            i <= report.findings@.len(),
            sarif_rules_ok(rules@, report.findings@),
            results@.len() == i,
            forall|m: int| 0 <= m < i ==> sarif_result_ok(#[trigger] results@[m], report.findings@[m], rules@),
        decreases report.findings.len() - i,
    {
        let f = &report.findings[i];
        assert(finding_ids(report.findings@)[i as int] == f.id@);
        assert(finding_ids(report.findings@).contains(f.id@));
        assert(rule_ids(rules@).contains(f.id@));
        let ghost ids = rule_ids(rules@);
        let ghost k = choose|k: int| 0 <= k < ids.len() && #[trigger] ids[k] == f.id@;
        assert(rules@[k].id@ == f.id@);
        results.push(sarif_result(f, &rules));
        i = i + 1;
    }
    SarifRun {
        sarif_version: owned("2.1.0"),
        version: owned(report.scanner_version.as_str()),
        rules,
        results,
        status: owned(match report.status {
            ScanStatus::Complete => "complete",
            ScanStatus::Incomplete => "incomplete",
        }),
        network_access: owned(report.network_access.as_str()),
        profile: owned(report.profile.as_str()),
    }
}

proof fn lemma_hex_printable(n: nat)
    ensures
        forall|i: int| 0 <= i < crate::text::hex(n).len() ==> !is_control(#[trigger] crate::text::hex(n)[i]),
    decreases n,
{
    if n >= 16 {
        lemma_hex_printable(n / 16);
        let h = crate::text::hex(n / 16);
        assert forall|i: int| 0 <= i < crate::text::hex(n).len() implies !is_control(#[trigger] crate::text::hex(n)[i]) by {
            if i < h.len() {
                assert(crate::text::hex(n)[i] == h[i]);
            }
        }
    }
}

/// Terminal text holds no control character, whatever the text it shows.
pub proof fn lemma_sanitized_has_no_controls(s: Seq<char>)
    ensures
        forall|i: int| 0 <= i < sanitized(s).len() ==> !is_control(#[trigger] sanitized(s)[i]),
    decreases s.len(),
{
    if s.len() > 0 {
        let d = s.drop_last();
        let c = s.last();
        lemma_sanitized_has_no_controls(d);
        let head = sanitized(d);
        let piece = if is_control(c) { escape_default(c) } else { seq![c] };
        assert(sanitized(s) == head + piece);
        if is_control(c) && !(c == '\t' || c == '\r' || c == '\n') {
            lemma_hex_printable(c as u32 as nat);
        }
        assert forall|i: int| 0 <= i < piece.len() implies !is_control(#[trigger] piece[i]) by {
            if is_control(c) && !(c == '\t' || c == '\r' || c == '\n') {
                let h = crate::text::hex(c as u32 as nat);
                assert(piece == seq!['\\', 'u', '{'] + h + seq!['}']);
                if 3 <= i < 3 + h.len() {
                    assert(piece[i] == h[i - 3]);
                }
            }
        }
        assert forall|i: int| 0 <= i < sanitized(s).len() implies !is_control(#[trigger] sanitized(s)[i]) by {
            if i < head.len() {
                assert(sanitized(s)[i] == head[i]);
            } else {
                assert(sanitized(s)[i] == piece[i - head.len()]);
            }
        }
    }
}

/// A character that a SARIF URI may hold: an ASCII letter or digit, one of
/// `/-_.~`, or the `%` of an escape.
pub open spec fn uri_char(c: char) -> bool {
    ('0' <= c && c <= '9') || ('A' <= c && c <= 'Z') || ('a' <= c && c <= 'z')
        || c == '/' || c == '-' || c == '_' || c == '.' || c == '~' || c == '%'
}

/// A SARIF URI holds nothing but ASCII letters, digits, `/-_.~` and `%`
/// escapes, whatever the path.
pub proof fn lemma_uri_chars(bytes: Seq<u8>)
    ensures
        forall|i: int| 0 <= i < uri_encoded(bytes).len() ==> uri_char(#[trigger] uri_encoded(bytes)[i]),
    decreases bytes.len(),
{
    if bytes.len() > 0 {
        let d = bytes.drop_last();
        let b = bytes.last();
        lemma_uri_chars(d);
        let head = uri_encoded(d);
        let piece = uri_byte(b);
        assert(uri_encoded(bytes) == head + piece);
        assert forall|i: int| 0 <= i < piece.len() implies uri_char(#[trigger] piece[i]) by {
            if uri_safe(b) {
                assert(piece[i] == b as char);
            }
        }
        assert forall|i: int| 0 <= i < uri_encoded(bytes).len() implies uri_char(#[trigger] uri_encoded(bytes)[i]) by {
            if i < head.len() {
                assert(uri_encoded(bytes)[i] == head[i]);
            } else {
                assert(uri_encoded(bytes)[i] == piece[i - head.len()]);
            }
        }
    }
}

} // verus!
