//! What the walk of the scanned tree records of each entry, and when it
//! stops at a limit. Reading the file system is left to the caller.
use vstd::prelude::*;
use crate::model::{Confidence, FileKind, FileRecord, Finding, FindingView, Severity, findings_view, strings_view};
use crate::scanner::classifier::{file_extension, file_extension_of, opt_string_view};
use crate::scanner::limits::ScanLimits;
use crate::text::{decimal, owned, push_decimal, push_str};
use crate::threat_db::contains_string;

verus! {

/// What the walk of the scanned tree found besides regular files.
pub struct WalkResult {
    /// The scan root as the file system names it.
    pub root: String,
    pub other_records: Vec<FileRecord>,
    pub findings: Vec<Finding>,
    pub incomplete_reasons: Vec<String>,
    pub entries: u64,
    pub files: u64,
    pub directories: u64,
    pub symlinks: u64,
    pub special_files: u64,
    pub content_bytes: u64,
}

/// `reasons` with `reason` added unless it is there already.
pub open spec fn noted(reasons: Seq<Seq<char>>, reason: Seq<char>) -> Seq<Seq<char>> {
    if reasons.contains(reason) { reasons } else { reasons.push(reason) }
}

pub open spec fn entry_limit_message(limit: u64) -> Seq<char> {
    "maximum entry count "@ + decimal(limit as nat) + " reached"@
}

pub open spec fn depth_limit_message(limit: usize, at: Seq<char>) -> Seq<char> {
    "maximum directory depth "@ + decimal(limit as nat) + " reached at "@ + at
}

pub open spec fn path_escape_finding(relative: Seq<char>) -> FindingView {
    FindingView {
        id: "FS-PATH-ESCAPE"@,
        severity: Severity::High,
        confidence: Confidence::High,
        score: 80,
        title: "Path escaped repository root"@,
        message: "A repository entry resolved outside the scan root and was not read."@,
        file: Some(relative),
        line: None,
        evidence: Seq::empty(),
    }
}

pub open spec fn symlink_finding(relative: Seq<char>, target: Seq<char>, escapes: bool, absolute: bool) -> Seq<FindingView> {
    if escapes {
        seq![FindingView {
            id: "FS-SYMLINK-ESCAPE"@,
            severity: Severity::High,
            confidence: Confidence::VeryHigh,
            score: 80,
            title: "Symlink escapes repository root"@,
            message: "The symlink target is outside the repository and was not read."@,
            file: Some(relative),
            line: None,
            evidence: seq!["target: "@ + target],
        }]
    } else if absolute {
        seq![FindingView {
            id: "FS-ABSOLUTE-SYMLINK"@,
            severity: Severity::Medium,
            confidence: Confidence::VeryHigh,
            score: 40,
            title: "Repository contains an absolute symlink"@,
            message: "Absolute symlinks are not followed during scanning."@,
            file: Some(relative),
            line: None,
            evidence: seq!["target: "@ + target],
        }]
    } else {
        Seq::empty()
    }
}

pub open spec fn special_file_finding(relative: Seq<char>) -> FindingView {
    FindingView {
        id: "FS-SPECIAL-FILE"@,
        severity: Severity::Medium,
        confidence: Confidence::VeryHigh,
        score: 45,
        title: "Repository contains a special file"@,
        message: "Devices, FIFOs, and sockets are never opened by the scanner."@,
        file: Some(relative),
        line: None,
        evidence: Seq::empty(),
    }
}

/// The record of an entry whose content is not read.
pub open spec fn unread_record(r: FileRecord, relative: Seq<char>, kind: FileKind, target: Option<Seq<char>>) -> bool {
    &&& r.path@ == relative
    &&& r.kind == kind
    &&& r.size == 0
    &&& !r.readonly
    &&& r.mode.is_none()
    &&& r.sha256.is_none()
    &&& opt_string_view(r.extension) == file_extension_of(relative)
    &&& r.detected_mime.is_none()
    &&& r.encoding.is_none()
    &&& r.line_count.is_none()
    &&& r.max_line_length.is_none()
    &&& opt_string_view(r.symlink_target) == target
    &&& r.roles@.len() == 0
    &&& r.raw_signals@.len() == 0
    &&& !r.content_scanned
    &&& r.parsed_language.is_none()
}

fn unread(relative: &str, kind: FileKind, target: Option<String>) -> (r: FileRecord)
    ensures
        unread_record(r, relative@, kind, opt_string_view(target)),
{
    FileRecord {
        path: owned(relative),
        kind,
        size: 0,
        readonly: false,
        mode: None,
        sha256: None,
        extension: file_extension(relative),
        detected_mime: None,
        encoding: None,
        line_count: None,
        max_line_length: None,
        symlink_target: target,
        roles: Vec::new(),
        raw_signals: Vec::new(),
        content_scanned: false,
        parsed_language: None,
    }
}

impl WalkResult {
    /// A walk of `root` with nothing seen yet.
    pub fn new(root: String) -> (r: WalkResult)
        ensures
            r.root == root,
            r.other_records@.len() == 0 && r.findings@.len() == 0 && r.incomplete_reasons@.len() == 0,
            r.entries == 0 && r.files == 0 && r.directories == 0 && r.symlinks == 0,
            r.special_files == 0 && r.content_bytes == 0,
    {
        WalkResult {
            root,
            other_records: Vec::new(),
            findings: Vec::new(),
            incomplete_reasons: Vec::new(),
            entries: 0,
            files: 0,
            directories: 0,
            symlinks: 0,
            special_files: 0,
            content_bytes: 0,
        }
    }

    /// Records why the walk is incomplete, once.
    pub fn incomplete(&mut self, reason: String)
        ensures
            strings_view(final(self).incomplete_reasons@) == noted(strings_view(old(self).incomplete_reasons@), reason@),
            final(self).other_records == old(self).other_records,
            final(self).findings == old(self).findings,
            final(self).root == old(self).root,
            final(self).entries == old(self).entries,
            final(self).files == old(self).files,
            final(self).directories == old(self).directories,
            final(self).symlinks == old(self).symlinks,
            final(self).special_files == old(self).special_files,
            final(self).content_bytes == old(self).content_bytes,
    {
        if !contains_string(&self.incomplete_reasons, reason.as_str()) {
            let ghost before = strings_view(self.incomplete_reasons@);
            self.incomplete_reasons.push(reason);
            assert(strings_view(self.incomplete_reasons@) =~= before.push(reason@));
        }
    }

    /// Counts the next entry of a directory, unless the entry limit is
    /// reached, which is recorded instead; says whether the entry counts.
    pub fn next_entry(&mut self, limits: &ScanLimits) -> (r: bool)
        ensures
            r == (old(self).entries < limits.max_entries),
            r ==> final(self).entries == old(self).entries + 1
                && final(self).incomplete_reasons == old(self).incomplete_reasons,
            !r ==> final(self).entries == old(self).entries
                && strings_view(final(self).incomplete_reasons@)
                    == noted(strings_view(old(self).incomplete_reasons@), entry_limit_message(limits.max_entries)),
            final(self).files == old(self).files && final(self).findings == old(self).findings,
            final(self).other_records == old(self).other_records,
    {
        if self.entries >= limits.max_entries {
            let mut note = owned("maximum entry count ");
            push_decimal(&mut note, limits.max_entries);
            push_str(&mut note, " reached");
            self.incomplete(note);
            false
        } else {
            self.entries = self.entries + 1;
            true
        }
    }

    /// Records that the depth limit stops the walk at `at`.
    pub fn depth_reached(&mut self, limits: &ScanLimits, at: &str)
        ensures
            strings_view(final(self).incomplete_reasons@)
                == noted(strings_view(old(self).incomplete_reasons@), depth_limit_message(limits.max_depth, at@)),
            final(self).entries == old(self).entries,
            final(self).findings == old(self).findings,
            final(self).directories == old(self).directories,
            final(self).files == old(self).files,
            final(self).content_bytes == old(self).content_bytes,
            final(self).other_records == old(self).other_records,
    {
        let mut note = owned("maximum directory depth ");
        push_decimal(&mut note, limits.max_depth as u64);
        push_str(&mut note, " reached at ");
        push_str(&mut note, at);
        self.incomplete(note);
    }

    /// Counts a directory found at `depth`; says whether the walk descends
    /// into it, which it does above the depth limit.
    pub fn enter_directory(&mut self, limits: &ScanLimits, depth: usize, at: &str) -> (r: bool)
        ensures
            r == (depth != limits.max_depth),
            final(self).directories == old(self).directories.saturating_add(1),
            r ==> final(self).incomplete_reasons == old(self).incomplete_reasons,
            !r ==> strings_view(final(self).incomplete_reasons@)
                == noted(strings_view(old(self).incomplete_reasons@), depth_limit_message(limits.max_depth, at@)),
    {
        self.directories = self.directories.saturating_add(1);
        if depth == limits.max_depth {
            self.depth_reached(limits, at);
            false
        } else {
            true
        }
    }

    /// Counts a regular file of `size` bytes; says whether its content is
    /// to be read, which it is within the file and total byte limits.
    pub fn admit_file(&mut self, limits: &ScanLimits, relative: &str, size: u64) -> (r: bool)
        ensures
            final(self).files == old(self).files.saturating_add(1),
            r == (size <= limits.max_file_bytes && old(self).content_bytes.saturating_add(size) <= limits.max_total_bytes),
            r ==> final(self).incomplete_reasons == old(self).incomplete_reasons,
            !r && size > limits.max_file_bytes ==> strings_view(final(self).incomplete_reasons@)
                == noted(strings_view(old(self).incomplete_reasons@),
                    "file exceeds "@ + decimal(limits.max_file_bytes as nat) + " byte limit: "@ + relative@),
            !r && size <= limits.max_file_bytes ==> strings_view(final(self).incomplete_reasons@)
                == noted(strings_view(old(self).incomplete_reasons@),
                    "total content byte limit "@ + decimal(limits.max_total_bytes as nat) + " reached before "@ + relative@),
            final(self).content_bytes == old(self).content_bytes,
            final(self).findings == old(self).findings,
    {
        self.files = self.files.saturating_add(1);
        if size > limits.max_file_bytes {
            let mut note = owned("file exceeds ");
            push_decimal(&mut note, limits.max_file_bytes);
            push_str(&mut note, " byte limit: ");
            push_str(&mut note, relative);
            self.incomplete(note);
            false
        } else if self.content_bytes.saturating_add(size) > limits.max_total_bytes {
            let mut note = owned("total content byte limit ");
            push_decimal(&mut note, limits.max_total_bytes);
            push_str(&mut note, " reached before ");
            push_str(&mut note, relative);
            self.incomplete(note);
            false
        } else {
            true
        }
    }

    /// Records a file that resolved outside the scan root and was not read.
    pub fn path_escaped(&mut self, relative: &str)
        ensures
            strings_view(final(self).incomplete_reasons@) == noted(strings_view(old(self).incomplete_reasons@),
                "path escaped scan root while opening "@ + relative@),
            findings_view(final(self).findings@) == findings_view(old(self).findings@).push(path_escape_finding(relative@)),
            final(self).other_records == old(self).other_records,
            final(self).content_bytes == old(self).content_bytes,
    {
        let mut note = owned("path escaped scan root while opening ");
        push_str(&mut note, relative);
        self.incomplete(note);
        let f = Finding {
            id: owned("FS-PATH-ESCAPE"),
            severity: Severity::High,
            confidence: Confidence::High,
            score: 80,
            title: owned("Path escaped repository root"),
            message: owned("A repository entry resolved outside the scan root and was not read."),
            file: Some(owned(relative)),
            line: None,
            evidence: Vec::new(),
        };
        assert(f@.evidence =~= Seq::<Seq<char>>::empty());
        let ghost before = findings_view(self.findings@);
        self.findings.push(f);
        assert(findings_view(self.findings@) =~= before.push(f@));
    }

    /// Takes the content of a file that was read, `len` bytes, when it still
    /// keeps to the limits; says whether it does.
    pub fn accept_content(&mut self, limits: &ScanLimits, relative: &str, len: u64) -> (r: bool)
        ensures
            r == (len <= limits.max_file_bytes && old(self).content_bytes.saturating_add(len) <= limits.max_total_bytes),
            r ==> final(self).content_bytes == old(self).content_bytes.saturating_add(len)
                && final(self).incomplete_reasons == old(self).incomplete_reasons,
            !r ==> final(self).content_bytes == old(self).content_bytes
                && strings_view(final(self).incomplete_reasons@) == noted(strings_view(old(self).incomplete_reasons@),
                    "file growth exceeded a content byte limit while scanning "@ + relative@),
            final(self).findings == old(self).findings,
    {
        if len <= limits.max_file_bytes && self.content_bytes.saturating_add(len) <= limits.max_total_bytes {
            self.content_bytes = self.content_bytes.saturating_add(len);
            true
        } else {
            let mut note = owned("file growth exceeded a content byte limit while scanning ");
            push_str(&mut note, relative);
            self.incomplete(note);
            false
        }
    }

    /// Records a symlink, which is never followed: its target, and a
    /// finding when it leaves the tree or is absolute.
    pub fn record_symlink(&mut self, relative: &str, target: &str, escapes: bool, absolute: bool)
        ensures
            final(self).symlinks == old(self).symlinks.saturating_add(1),
            final(self).other_records@.len() == old(self).other_records@.len() + 1,
            final(self).other_records@.drop_last() == old(self).other_records@,
            unread_record(final(self).other_records@.last(), relative@, FileKind::Symlink, Some(target@)),
            findings_view(final(self).findings@) == findings_view(old(self).findings@)
                + symlink_finding(relative@, target@, escapes, absolute),
            final(self).incomplete_reasons == old(self).incomplete_reasons,
    {
        self.symlinks = self.symlinks.saturating_add(1);
        let record = unread(relative, FileKind::Symlink, Some(owned(target)));
        self.other_records.push(record);
        let ghost before = findings_view(self.findings@);
        if escapes || absolute {
            let mut note = owned("target: ");
            push_str(&mut note, target);
            let f = if escapes {
                Finding {
                    id: owned("FS-SYMLINK-ESCAPE"),
                    severity: Severity::High,
                    confidence: Confidence::VeryHigh,
                    score: 80,
                    title: owned("Symlink escapes repository root"),
                    message: owned("The symlink target is outside the repository and was not read."),
                    file: Some(owned(relative)),
                    line: None,
                    evidence: vec![note],
                }
            } else {
                Finding {
                    id: owned("FS-ABSOLUTE-SYMLINK"),
                    severity: Severity::Medium,
                    confidence: Confidence::VeryHigh,
                    score: 40,
                    title: owned("Repository contains an absolute symlink"),
                    message: owned("Absolute symlinks are not followed during scanning."),
                    file: Some(owned(relative)),
                    line: None,
                    evidence: vec![note],
                }
            };
            assert(f@.evidence =~= seq!["target: "@ + target@]);
            self.findings.push(f);
            assert(findings_view(self.findings@) =~= before + symlink_finding(relative@, target@, escapes, absolute));
        } else {
            assert(findings_view(self.findings@) =~= before + symlink_finding(relative@, target@, escapes, absolute));
        }
    }

    /// Records a device, FIFO or socket, which is never opened.
    pub fn record_special(&mut self, relative: &str)
        ensures
            final(self).special_files == old(self).special_files.saturating_add(1),
            strings_view(final(self).incomplete_reasons@) == noted(strings_view(old(self).incomplete_reasons@),
                "special file was not read: "@ + relative@),
            final(self).other_records@.len() == old(self).other_records@.len() + 1,
            final(self).other_records@.drop_last() == old(self).other_records@,
            unread_record(final(self).other_records@.last(), relative@, FileKind::Special, None),
            findings_view(final(self).findings@) == findings_view(old(self).findings@).push(special_file_finding(relative@)),
    {
        self.special_files = self.special_files.saturating_add(1);
        let mut note = owned("special file was not read: ");
        push_str(&mut note, relative);
        self.incomplete(note);
        let record = unread(relative, FileKind::Special, None);
        self.other_records.push(record);
        let f = Finding {
            id: owned("FS-SPECIAL-FILE"),
            severity: Severity::Medium,
            confidence: Confidence::VeryHigh,
            score: 45,
            title: owned("Repository contains a special file"),
            message: owned("Devices, FIFOs, and sockets are never opened by the scanner."),
            file: Some(owned(relative)),
            line: None,
            evidence: Vec::new(),
        };
        assert(f@.evidence =~= Seq::<Seq<char>>::empty());
        let ghost before = findings_view(self.findings@);
        self.findings.push(f);
        assert(findings_view(self.findings@) =~= before.push(f@));
    }
}

} // verus!
