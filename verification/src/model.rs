//! The report data model: severities, findings, dependency records and
//! the verdicts that a set of findings yields.
use vstd::prelude::*;
use crate::text::str_eq;

verus! {

/// How severe a finding is, in increasing order.
#[derive(Clone, Copy, Debug, PartialEq, Eq, Structural, PartialOrd, Ord, Hash)]
pub enum Severity {
    Informational,
    Low,
    Medium,
    High,
    Critical,
}

impl Default for Severity {
    fn default() -> (r: Self)
        ensures
            r == Severity::Informational,
    {
        Severity::Informational
    }
}

/// The position of a severity in its order.
pub open spec fn severity_rank(s: Severity) -> nat {
    match s {
        Severity::Informational => 0,
        Severity::Low => 1,
        Severity::Medium => 2,
        Severity::High => 3,
        Severity::Critical => 4,
    }
}

/// The severity that a command-line name denotes.
pub open spec fn severity_named(value: Seq<char>) -> Option<Severity> {
    if value == "info"@ || value == "informational"@ {
        Some(Severity::Informational)
    } else if value == "low"@ {
        Some(Severity::Low)
    } else if value == "medium"@ {
        Some(Severity::Medium)
    } else if value == "high"@ {
        Some(Severity::High)
    } else if value == "critical"@ {
        Some(Severity::Critical)
    } else {
        None
    }
}

pub open spec fn severity_label(s: Severity) -> Seq<char> {
    match s {
        Severity::Informational => "INFORMATIONAL"@,
        Severity::Low => "LOW"@,
        Severity::Medium => "MEDIUM"@,
        Severity::High => "HIGH"@,
        Severity::Critical => "CRITICAL"@,
    }
}

/// A severity's label, in lower case, parses back to that severity.
pub proof fn lemma_lowercase_label_parses(s: Severity)
    ensures
        severity_named(crate::text::lower(severity_label(s))) == Some(s),
{
    reveal_strlit("INFORMATIONAL");
    reveal_strlit("informational");
    reveal_strlit("info");
    reveal_strlit("LOW");
    reveal_strlit("low");
    reveal_strlit("MEDIUM");
    reveal_strlit("medium");
    reveal_strlit("HIGH");
    reveal_strlit("high");
    reveal_strlit("CRITICAL");
    reveal_strlit("critical");
    match s {
        Severity::Informational => {
            assert(crate::text::lower("INFORMATIONAL"@) =~= "informational"@);
            assert("informational"@.len() != "info"@.len());
        },
        Severity::Low => {
            assert(crate::text::lower("LOW"@) =~= "low"@);
            assert("low"@.len() != "info"@.len() && "low"@.len() != "informational"@.len());
        },
        Severity::Medium => {
            assert(crate::text::lower("MEDIUM"@) =~= "medium"@);
            assert("medium"@[0] != "low"@[0] && "medium"@.len() != "info"@.len());
        },
        Severity::High => {
            assert(crate::text::lower("HIGH"@) =~= "high"@);
            assert("high"@[0] != "info"@[0] && "high"@.len() != "low"@.len() && "high"@.len() != "medium"@.len());
        },
        Severity::Critical => {
            assert(crate::text::lower("CRITICAL"@) =~= "critical"@);
            assert("critical"@.len() != "info"@.len() && "critical"@.len() != "low"@.len()
                && "critical"@.len() != "medium"@.len() && "critical"@.len() != "high"@.len());
        },
    }
}

impl Severity {
    pub fn parse(value: &str) -> (r: Option<Self>)
        ensures
            r == severity_named(value@),
    {
        if str_eq(value, "info") || str_eq(value, "informational") {
            Some(Severity::Informational)
        } else if str_eq(value, "low") {
            Some(Severity::Low)
        } else if str_eq(value, "medium") {
            Some(Severity::Medium)
        } else if str_eq(value, "high") {
            Some(Severity::High)
        } else if str_eq(value, "critical") {
            Some(Severity::Critical)
        } else {
            None
        }
    }

    pub fn label(self) -> (r: &'static str)
        ensures
            r@ == severity_label(self),
    {
        match self {
            Severity::Informational => "INFORMATIONAL",
            Severity::Low => "LOW",
            Severity::Medium => "MEDIUM",
            Severity::High => "HIGH",
            Severity::Critical => "CRITICAL",
        }
    }

    pub fn rank(self) -> (r: u8)
        ensures
            r as nat == severity_rank(self),
    {
        match self {
            Severity::Informational => 0,
            Severity::Low => 1,
            Severity::Medium => 2,
            Severity::High => 3,
            Severity::Critical => 4,
        }
    }

    /// Is this severity at least as high as `other`.
    pub fn at_least(self, other: Severity) -> (r: bool)
        ensures
            r == (severity_rank(self) >= severity_rank(other)),
    {
        self.rank() >= other.rank()
    }
}

#[derive(Clone, Copy, Debug, PartialEq, Eq, Structural)]
pub enum Confidence {
    Low,
    Medium,
    High,
    VeryHigh,
}

#[derive(Clone, Copy, Debug, PartialEq, Eq, Structural)]
pub enum ScanStatus {
    Complete,
    Incomplete,
}

#[derive(Clone, Copy, Debug, PartialEq, Eq, Structural)]
pub enum FileKind {
    File,
    Directory,
    Symlink,
    Special,
}

/// A dependency named by a manifest or lockfile.
#[derive(Clone, Debug)]
pub struct DependencyRecord {
    pub ecosystem: String,
    pub name: String,
    pub version: Option<String>,
    pub integrity: Option<String>,
    pub resolved: Option<String>,
    pub source_file: String,
}

/// One scanner finding.
#[derive(Clone, Debug)]
pub struct Finding {
    pub id: String,
    pub severity: Severity,
    pub confidence: Confidence,
    pub score: u8,
    pub title: String,
    pub message: String,
    pub file: Option<String>,
    pub line: Option<u64>,
    pub evidence: Vec<String>,
}

#[derive(Clone, Debug)]
pub struct ScanSummary {
    pub entries: u64,
    pub files: u64,
    pub directories: u64,
    pub symlinks: u64,
    pub special_files: u64,
    pub content_bytes: u64,
    pub dependencies: u64,
    pub findings: u64,
}

impl Default for ScanSummary {
    fn default() -> (r: Self)
        ensures
            r.entries == 0 && r.files == 0 && r.directories == 0 && r.symlinks == 0
                && r.special_files == 0 && r.content_bytes == 0 && r.dependencies == 0
                && r.findings == 0,
    {
        ScanSummary {
            entries: 0,
            files: 0,
            directories: 0,
            symlinks: 0,
            special_files: 0,
            content_bytes: 0,
            dependencies: 0,
            findings: 0,
        }
    }
}

/// The repository-level risk: the highest severity and score among findings.
#[derive(Clone, Debug)]
pub struct Risk {
    pub severity: Severity,
    pub score: u8,
}

/// What the scan records of one file. Entropy, a floating-point measure,
/// is not held here.
#[derive(Clone, Debug)]
pub struct FileRecord {
    pub path: String,
    pub kind: FileKind,
    pub size: u64,
    pub readonly: bool,
    pub mode: Option<u32>,
    pub sha256: Option<String>,
    pub extension: Option<String>,
    pub detected_mime: Option<String>,
    pub encoding: Option<String>,
    pub line_count: Option<u64>,
    pub max_line_length: Option<u64>,
    pub symlink_target: Option<String>,
    pub roles: Vec<String>,
    pub raw_signals: Vec<String>,
    pub content_scanned: bool,
    pub parsed_language: Option<String>,
}

/// The report of one scan.
#[derive(Clone, Debug)]
pub struct ScanReport {
    pub schema_version: u32,
    pub scanner: String,
    pub scanner_version: String,
    pub target: String,
    pub profile: String,
    pub status: ScanStatus,
    pub network_access: String,
    pub risk: Risk,
    pub summary: ScanSummary,
    pub files: Vec<FileRecord>,
    pub dependencies: Vec<DependencyRecord>,
    pub findings: Vec<Finding>,
    pub unresolved_edges: Vec<String>,
    pub incomplete_reasons: Vec<String>,
}

impl ScanReport {
    /// Some finding of the report has at least the given severity.
    pub fn failed_policy(&self, threshold: Severity) -> (r: bool)
        ensures
            r == any_at_least(self.findings@, threshold),
    {
        crate::model::failed_policy(self.findings.as_slice(), threshold)
    }
}

/// Some finding has at least the given severity.
pub open spec fn any_at_least(findings: Seq<Finding>, threshold: Severity) -> bool {
    exists|i: int| 0 <= i < findings.len() && severity_rank(findings[i].severity) >= severity_rank(threshold)
}

/// The scan fails the policy threshold when some finding reaches it.
pub fn failed_policy(findings: &[Finding], threshold: Severity) -> (r: bool)
    ensures
        r == any_at_least(findings@, threshold),
{
    let mut i: usize = 0;
    while i < findings.len()
        invariant
            i <= findings@.len(),
            forall|j: int| 0 <= j < i ==> severity_rank(findings@[j].severity) < severity_rank(threshold),
        decreases findings.len() - i,
    {
        if findings[i].severity.at_least(threshold) {
            return true;
        }
        i = i + 1;
    }
    false
}

/// The highest score among findings, 0 when there are none.
pub open spec fn max_score(findings: Seq<Finding>) -> nat
    decreases findings.len(),
{
    if findings.len() == 0 {
        0
    } else {
        let rest = max_score(findings.drop_last());
        if findings.last().score as nat > rest { findings.last().score as nat } else { rest }
    }
}

/// The highest severity rank among findings, 0 when there are none.
pub open spec fn max_rank(findings: Seq<Finding>) -> nat
    decreases findings.len(),
{
    if findings.len() == 0 {
        0
    } else {
        let rest = max_rank(findings.drop_last());
        let r = severity_rank(findings.last().severity);
        if r > rest { r } else { rest }
    }
}

/// Some finding reaches a threshold exactly when there are findings and the
/// highest severity among them reaches it.
pub proof fn lemma_policy_by_risk(findings: Seq<Finding>, threshold: Severity)
    ensures
        any_at_least(findings, threshold)
            <==> (findings.len() > 0 && max_rank(findings) >= severity_rank(threshold)),
    decreases findings.len(),
{
    if findings.len() > 0 {
        let d = findings.drop_last();
        lemma_policy_by_risk(d, threshold);
        if any_at_least(d, threshold) {
            let i = choose|i: int| 0 <= i < d.len() && severity_rank(d[i].severity) >= severity_rank(threshold);
            assert(findings[i] == d[i]);
            assert(severity_rank(findings[i].severity) >= severity_rank(threshold));
            assert(any_at_least(findings, threshold));
        }
        if any_at_least(findings, threshold) {
            let i = choose|i: int| 0 <= i < findings.len() && severity_rank(findings[i].severity) >= severity_rank(threshold);
            if i < d.len() {
                assert(d[i] == findings[i]);
                assert(severity_rank(d[i].severity) >= severity_rank(threshold));
                assert(any_at_least(d, threshold));
            } else {
                assert(findings[i] == findings.last());
            }
        }
        if max_rank(findings) >= severity_rank(threshold) {
            if d.len() == 0 {
                assert(max_rank(d) == 0);
            }
            if severity_rank(findings.last().severity) >= severity_rank(threshold) {
                assert(findings[findings.len() - 1] == findings.last());
                assert(any_at_least(findings, threshold));
            }
        }
    } else {
        assert(!any_at_least(findings, threshold));
    }
}

/// The repository risk that a list of findings yields.
pub fn overall_risk(findings: &[Finding]) -> (r: Risk)
    ensures
        r.score as nat == max_score(findings@),
        severity_rank(r.severity) == max_rank(findings@),
{
    let mut score: u8 = 0;
    let mut severity = Severity::Informational;
    let mut i: usize = 0;
    while i < findings.len()
        invariant
            i <= findings@.len(),
            score as nat == max_score(findings@.subrange(0, i as int)),
            severity_rank(severity) == max_rank(findings@.subrange(0, i as int)),
        decreases findings.len() - i,
    {
        assert(findings@.subrange(0, i + 1).drop_last() =~= findings@.subrange(0, i as int));
        if findings[i].score > score {
            score = findings[i].score;
        }
        if findings[i].severity.rank() > severity.rank() {
            severity = findings[i].severity;
        }
        i = i + 1;
    }
    assert(findings@.subrange(0, findings@.len() as int) =~= findings@);
    Risk { severity, score }
}

/// The mathematical content of a finding.
pub struct FindingView {
    pub id: Seq<char>,
    pub severity: Severity,
    pub confidence: Confidence,
    pub score: u8,
    pub title: Seq<char>,
    pub message: Seq<char>,
    pub file: Option<Seq<char>>,
    pub line: Option<u64>,
    pub evidence: Seq<Seq<char>>,
}

/// The view of an optional string.
pub open spec fn opt_view(o: Option<String>) -> Option<Seq<char>> {
    match o {
        Some(s) => Some(s@),
        None => None,
    }
}

/// The views of a sequence of strings.
pub open spec fn strings_view(v: Seq<String>) -> Seq<Seq<char>> {
    v.map_values(|s: String| s@)
}

impl View for Finding {
    type V = FindingView;

    open spec fn view(&self) -> FindingView {
        FindingView {
            id: self.id@,
            severity: self.severity,
            confidence: self.confidence,
            score: self.score,
            title: self.title@,
            message: self.message@,
            file: opt_view(self.file),
            line: self.line,
            evidence: strings_view(self.evidence@),
        }
    }
}

/// The views of a sequence of findings.
pub open spec fn findings_view(v: Seq<Finding>) -> Seq<FindingView> {
    v.map_values(|f: Finding| f@)
}

pub struct DependencyView {
    pub ecosystem: Seq<char>,
    pub name: Seq<char>,
    pub version: Option<Seq<char>>,
    pub integrity: Option<Seq<char>>,
    pub resolved: Option<Seq<char>>,
    pub source_file: Seq<char>,
}

impl View for DependencyRecord {
    type V = DependencyView;

    open spec fn view(&self) -> DependencyView {
        DependencyView {
            ecosystem: self.ecosystem@,
            name: self.name@,
            version: opt_view(self.version),
            integrity: opt_view(self.integrity),
            resolved: opt_view(self.resolved),
            source_file: self.source_file@,
        }
    }
}

} // verus!
