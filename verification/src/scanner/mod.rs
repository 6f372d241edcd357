//! The scanner's analyses, each a function of a file's path and contents,
//! and the scan that gathers their results into one report.
use vstd::prelude::*;
use crate::json::Json;
use crate::model::{
    DependencyRecord, FileKind, FileRecord, Finding, FindingView, Risk, ScanReport, ScanStatus, ScanSummary,
    findings_view, max_rank, max_score, opt_view, overall_risk, severity_rank, strings_view,
};
use crate::scanner::graph::{GraphResult, graph_built};
use crate::scanner::js::flow::{FlowResult, flows_reported};
use crate::scanner::limits::profile_name_of;
use crate::scanner::order::{files_in_order, findings_in_order, order_files, order_findings};
use crate::scanner::walker::WalkResult;
use crate::text::{chars_of, forward_slashes, string_from_chars, strictly_sorted, to_forward_slashes, decimal, push_decimal, vecs_view};
use crate::threat_db::{package_finding, package_verdict};
use crate::scanner::analyzers::{metadata_verdict, parsed_view, opt_text};
use crate::scanner::classifier::{Classification, opt_string_view};
use crate::scanner::graph::{
    Root, RootAnalysis, MAX_EXECUTION_ROOTS, declared_roots, root_view, roots_view,
};
use crate::scanner::js::{EmbeddedRoot, JsAnalysis, ModuleFacts};
use crate::scanner::languages::language_verdict;
use crate::scanner::limits::{ScanLimits, ScanOptions, bounded_limits, profile_limits};
use crate::threat_db::{Database, hash_finding, hash_verdict};
use crate::text::{owned, push_str, str_eq};

pub mod languages;
pub mod raw;
pub mod js;
pub mod graph;
pub mod dependencies;
pub mod classifier;
pub mod analyzers;
pub mod limits;
pub mod order;
pub mod walker;
pub mod archives;
pub mod yara;

verus! {

/// The most JavaScript modules that one scan keeps for the global analyses.
pub const MAX_SEMANTIC_MODULES: usize = 20000;
/// The most JavaScript source bytes that one scan keeps for the global analyses.
pub const MAX_SEMANTIC_BYTES: u64 = 67108864;

/// How many more items fit under `limit` after `len` of them.
pub open spec fn room(len: nat, limit: usize) -> nat {
    if len < limit { (limit - len) as nat } else { 0 }
}

/// `target` extended by as much of `source` as fits under `limit`.
pub open spec fn limited<T>(target: Seq<T>, source: Seq<T>, limit: usize) -> Seq<T> {
    if source.len() > room(target.len(), limit) {
        target + source.take(room(target.len(), limit) as int)
    } else {
        target + source
    }
}

/// Adding within the limit keeps a sequence within it, and never shortens it.
pub proof fn lemma_limited_within<T>(target: Seq<T>, source: Seq<T>, limit: usize)
    ensures
        target.len() <= limit ==> limited(target, source, limit).len() <= limit,
        limited(target, source, limit).len() >= target.len(),
{
}

/// The note that `append_limited` leaves when `source` does not fit.
pub open spec fn limit_note(target_len: nat, source_len: nat, limit: usize, reason: Seq<char>) -> Seq<Seq<char>> {
    if source_len > room(target_len, limit) { seq![reason] } else { Seq::empty() }
}

/// Appends as much of `source` as fits under `limit`, and records `reason`
/// when some of it does not fit.
pub fn append_limited<T>(target: &mut Vec<T>, source: Vec<T>, limit: usize, reason: &str, incomplete: &mut Vec<String>)
    ensures
        final(target)@ == limited(old(target)@, source@, limit),
        strings_view(final(incomplete)@) == strings_view(old(incomplete)@)
            + limit_note(old(target)@.len(), source@.len(), limit, reason@),
{
    let available = limit.saturating_sub(target.len());
    let mut source = source;
    let ghost before = strings_view(incomplete@);
    if source.len() > available {
        let note = owned(reason);
        incomplete.push(note);
        assert(strings_view(incomplete@) =~= before + seq![reason@]);
    } else {
        assert(strings_view(incomplete@) =~= before + Seq::<Seq<char>>::empty());
    }
    let ghost whole = source@;
    source.truncate(available);
    target.append(&mut source);
    assert(whole.len() <= available ==> whole.take(whole.len() as int) =~= whole);
}

/// The findings whose id is not `id`, in their order.
pub open spec fn drop_id(v: Seq<FindingView>, id: Seq<char>) -> Seq<FindingView>
    decreases v.len(),
{
    if v.len() == 0 {
        v
    } else if v.last().id == id {
        drop_id(v.drop_last(), id)
    } else {
        drop_id(v.drop_last(), id).push(v.last())
    }
}

/// The findings whose id is not `id`, in their order.
pub fn without_id(findings: Vec<Finding>, id: &str) -> (r: Vec<Finding>)
    ensures
        findings_view(r@) == drop_id(findings_view(findings@), id@),
{
    let ghost all = findings@;
    let ghost av = findings_view(all);
    let mut rest = findings;
    let mut stack: Vec<Finding> = Vec::new();
    while rest.len() > 0
        invariant
            all == rest@ + stack@.reverse(),
        decreases rest.len(),
    {
        let ghost r0 = rest@;
        let ghost s0 = stack@;
        let x = rest.pop().unwrap();
        stack.push(x);
        assert(stack@.reverse() =~= seq![x] + s0.reverse());
        assert(r0 =~= rest@.push(x));
        assert(all =~= rest@ + stack@.reverse());
    }
    assert(all =~= stack@.reverse());
    assert(all.subrange(0, all.len() as int) =~= all);
    let mut out: Vec<Finding> = Vec::new();
    assert(av.take(0) =~= Seq::<FindingView>::empty());
    assert(findings_view(out@) =~= Seq::<FindingView>::empty());
    while stack.len() > 0
        invariant
            stack@.len() <= all.len(),
            av == findings_view(all),
            all.subrange(all.len() - stack@.len(), all.len() as int) == stack@.reverse(),
            findings_view(out@) == drop_id(av.take(all.len() - stack@.len()), id@),
        decreases stack.len(),
    {
        let ghost k = all.len() - stack@.len();
        let ghost s0 = stack@;
        let x = stack.pop().unwrap();
        assert(s0.reverse() =~= seq![x] + stack@.reverse());
        assert(all.subrange(k, all.len() as int)[0] == all[k]);
        assert(all[k] == x);
        assert(all.subrange(k + 1, all.len() as int) =~= all.subrange(k, all.len() as int).drop_first());
        assert(av.take(k + 1).drop_last() =~= av.take(k));
        assert(av.take(k + 1).last() == x@);
        let ghost before = out@;
        if !str_eq(x.id.as_str(), id) {
            out.push(x);
            assert(findings_view(out@) =~= findings_view(before).push(x@));
        }
    }
    assert(av.take(all.len() as int) =~= av);
    out
}

/// Where a scanned file comes from: the scanned tree itself, a member of an
/// archive in the tree, a package downloaded from the registry, or a member
/// of such a package. The messages for the last three say "archive".
#[derive(Clone, Copy, Debug, PartialEq, Eq, Structural)]
pub enum Origin {
    Tree,
    Member,
    Artifact,
    ArtifactMember,
}

pub open spec fn root_extraction_message(path: Seq<char>) -> Seq<char> {
    "JS/TS execution root extraction limit reached: "@ + path
}

pub open spec fn root_limit_message(origin: Origin) -> Seq<char> {
    match origin {
        Origin::Tree => "JS/TS global execution root limit of 10000 reached; remaining roots omitted"@,
        _ => "JS/TS global execution root limit of 10000 reached; archive roots omitted"@,
    }
}

pub open spec fn embedded_limit_message(origin: Origin) -> Seq<char> {
    match origin {
        Origin::Tree => "JS/TS global execution root limit of 10000 reached; embedded scripts omitted"@,
        _ => "JS/TS global execution root limit of 10000 reached; embedded archive scripts omitted"@,
    }
}

pub open spec fn embedded_trigger(origin: Origin, path: Seq<char>) -> Seq<char> {
    match origin {
        Origin::Tree => "inline script in HTML document "@ + path,
        _ => "inline script in archive document "@ + path,
    }
}

pub open spec fn semantic_limit_message(origin: Origin, path: Seq<char>) -> Seq<char> {
    "JS/TS global semantic analysis limit of 20000 modules or 67108864 source bytes reached before "@
        + match origin {
            Origin::Tree => path,
            _ => "archive member "@ + path,
        } + "; additional modules were omitted"@
}

/// The roots after a file's declared roots are added, and the notes left.
/// A file of the tree is looked at only while roots remain to be filled.
pub open spec fn declared_step(origin: Origin, path: Seq<char>, held: Seq<(Seq<char>, Seq<char>, Option<u64>)>, ra: Seq<(Seq<char>, Seq<char>, Option<u64>)>, extraction_cut: bool) -> (Seq<(Seq<char>, Seq<char>, Option<u64>)>, Seq<Seq<char>>) {
    let avail = room(held.len(), MAX_EXECUTION_ROOTS);
    if origin == Origin::Tree && avail == 0 {
        (held, Seq::empty())
    } else {
        let cut_note = if extraction_cut { seq![root_extraction_message(path)] } else { Seq::empty() };
        let over = match origin {
            Origin::Tree => ra.len() >= avail,
            _ => ra.len() > avail,
        };
        let limit_note = if over { seq![root_limit_message(origin)] } else { Seq::empty() };
        (held + ra.take(if ra.len() > avail { avail as int } else { ra.len() as int }), cut_note + limit_note)
    }
}

/// The root for an inline script.
pub open spec fn embedded_view(origin: Origin, path: Seq<char>, e: EmbeddedRoot) -> (Seq<char>, Seq<char>, Option<u64>) {
    (e.module_id@, embedded_trigger(origin, path), Some(e.line))
}

/// The roots after a file's inline scripts are added, and the notes left.
pub open spec fn embedded_step(origin: Origin, path: Seq<char>, held: Seq<(Seq<char>, Seq<char>, Option<u64>)>, embedded: Seq<EmbeddedRoot>) -> (Seq<(Seq<char>, Seq<char>, Option<u64>)>, Seq<Seq<char>>) {
    let avail = room(held.len(), MAX_EXECUTION_ROOTS);
    let added = embedded.take(if embedded.len() > avail { avail as int } else { embedded.len() as int });
    (
        held + added.map_values(|e: EmbeddedRoot| embedded_view(origin, path, e)),
        if embedded.len() > avail { seq![embedded_limit_message(origin)] } else { Seq::empty() },
    )
}

/// The modules kept of `ms`, given how many modules and source bytes are
/// already kept, the source bytes kept after them, and whether some module
/// was left out.
pub open spec fn semantic_fold(count: nat, bytes: nat, ms: Seq<ModuleFacts>) -> (Seq<ModuleFacts>, nat, bool)
    decreases ms.len(),
{
    if ms.len() == 0 {
        (Seq::empty(), bytes, false)
    } else {
        let (kept, b, cut) = semantic_fold(count, bytes, ms.drop_last());
        let m = ms.last();
        if count + kept.len() >= MAX_SEMANTIC_MODULES || b + m.source_bytes > MAX_SEMANTIC_BYTES {
            (kept, b, true)
        } else {
            (kept.push(m), (b + m.source_bytes) as nat, cut)
        }
    }
}

fn add_declared_roots(roots: &mut Vec<Root>, incomplete: &mut Vec<String>, origin: Origin, path: &str, ra: RootAnalysis)
    ensures
        ({
            let (held, notes) = declared_step(origin, path@, roots_view(old(roots)@), roots_view(ra.roots@), ra.incomplete);
            &&& roots_view(final(roots)@) == held
            &&& strings_view(final(incomplete)@) == strings_view(old(incomplete)@) + notes
        }),
{
    let available = MAX_EXECUTION_ROOTS.saturating_sub(roots.len());
    let ghost held0 = roots_view(roots@);
    let ghost rav = roots_view(ra.roots@);
    let ghost notes0 = strings_view(incomplete@);
    if origin == Origin::Tree && available == 0 {
        return;
    }
    if ra.incomplete {
        let mut note = owned("JS/TS execution root extraction limit reached: ");
        push_str(&mut note, path);
        incomplete.push(note);
    }
    let ghost mid = strings_view(incomplete@);
    let over = match origin {
        Origin::Tree => ra.roots.len() >= available,
        _ => ra.roots.len() > available,
    };
    if over {
        let note = match origin {
            Origin::Tree => owned("JS/TS global execution root limit of 10000 reached; remaining roots omitted"),
            _ => owned("JS/TS global execution root limit of 10000 reached; archive roots omitted"),
        };
        incomplete.push(note);
    }
    let mut list = ra.roots;
    list.truncate(available);
    let ghost taken = list@;
    roots.append(&mut list);
    proof {
        let (held, notes) = declared_step(origin, path@, held0, rav, ra.incomplete);
        assert(roots_view(roots@) =~= held0 + roots_view(taken));
        assert(roots_view(taken) =~= rav.take(if rav.len() > available { available as int } else { rav.len() as int }));
        assert(strings_view(incomplete@) =~= notes0 + notes);
    }
}

fn add_embedded_roots(roots: &mut Vec<Root>, incomplete: &mut Vec<String>, origin: Origin, path: &str, embedded: Vec<EmbeddedRoot>)
    ensures
        ({
            let (held, notes) = embedded_step(origin, path@, roots_view(old(roots)@), embedded@);
            &&& roots_view(final(roots)@) == held
            &&& strings_view(final(incomplete)@) == strings_view(old(incomplete)@) + notes
        }),
{
    let ghost held0 = roots_view(roots@);
    let ghost notes0 = strings_view(incomplete@);
    let ghost f = |e: EmbeddedRoot| embedded_view(origin, path@, e);
    let avail = MAX_EXECUTION_ROOTS.saturating_sub(roots.len());
    let n = if embedded.len() > avail { avail } else { embedded.len() };
    assert(held0.len() == roots@.len());
    let mut k: usize = 0;
    while k < n
        invariant
            k <= n,
            n <= embedded@.len(),
            f == (|e: EmbeddedRoot| embedded_view(origin, path@, e)),
            roots_view(roots@) == held0 + embedded@.take(k as int).map_values(f),
            strings_view(incomplete@) == notes0,
        decreases n - k,
    {
        let e = &embedded[k];
        let mut trigger = match origin {
            Origin::Tree => owned("inline script in HTML document "),
            _ => owned("inline script in archive document "),
        };
        push_str(&mut trigger, path);
        let root = Root { file: owned(e.module_id.as_str()), trigger, line: Some(e.line) };
        let ghost before = roots@;
        roots.push(root);
        proof {
            assert(root_view(root) == f(embedded@[k as int]));
            assert(embedded@.take(k + 1) =~= embedded@.take(k as int).push(embedded@[k as int]));
            assert(roots_view(roots@) =~= roots_view(before).push(root_view(root)));
            assert(embedded@.take(k + 1).map_values(f) =~= embedded@.take(k as int).map_values(f).push(f(embedded@[k as int])));
        }
        k = k + 1;
    }
    if embedded.len() > avail {
        let note = match origin {
            Origin::Tree => owned("JS/TS global execution root limit of 10000 reached; embedded scripts omitted"),
            _ => owned("JS/TS global execution root limit of 10000 reached; embedded archive scripts omitted"),
        };
        assert(note@ == embedded_limit_message(origin));
        incomplete.push(note);
    }
    proof {
        let (held, notes) = embedded_step(origin, path@, held0, embedded@);
        assert(roots_view(roots@) =~= held);
        assert(strings_view(incomplete@) =~= notes0 + notes);
    }
}

fn add_modules(modules: &mut Vec<ModuleFacts>, bytes: &mut u64, reported: &mut bool, incomplete: &mut Vec<String>, origin: Origin, path: &str, found: Vec<ModuleFacts>)
    ensures
        ({
            let (kept, b, cut) = semantic_fold(old(modules)@.len(), *old(bytes) as nat, found@);
            &&& final(modules)@ == old(modules)@ + kept
            &&& *final(bytes) as nat == b
            &&& *final(reported) == (*old(reported) || cut)
            &&& strings_view(final(incomplete)@) == strings_view(old(incomplete)@)
                + if cut && !*old(reported) { seq![semantic_limit_message(origin, path@)] } else { Seq::empty() }
        }),
{
    let ghost m0 = modules@;
    let ghost b0 = *bytes as nat;
    let ghost r0 = *reported;
    let ghost notes0 = strings_view(incomplete@);
    let ghost all = found@;
    let mut rest = found;
    let mut stack: Vec<ModuleFacts> = Vec::new();
    while rest.len() > 0
        invariant
            all == rest@ + stack@.reverse(),
        decreases rest.len(),
    {
        let ghost r1 = rest@;
        let ghost s1 = stack@;
        let x = rest.pop().unwrap();
        stack.push(x);
        assert(stack@.reverse() =~= seq![x] + s1.reverse());
        assert(r1 =~= rest@.push(x));
    }
    assert(all =~= stack@.reverse());
    assert(all.subrange(0, all.len() as int) =~= all);
    while stack.len() > 0
        invariant
            stack@.len() <= all.len(),
            all.subrange(all.len() - stack@.len(), all.len() as int) == stack@.reverse(),
            ({
                let (kept, b, cut) = semantic_fold(m0.len(), b0, all.take(all.len() - stack@.len()));
                &&& modules@ == m0 + kept
                &&& *bytes as nat == b
                &&& *reported == (r0 || cut)
                &&& strings_view(incomplete@) == notes0
                    + if cut && !r0 { seq![semantic_limit_message(origin, path@)] } else { Seq::empty() }
            }),
        decreases stack.len(),
    {
        let ghost k = all.len() - stack@.len();
        let ghost s1 = stack@;
        let m = stack.pop().unwrap();
        assert(s1.reverse() =~= seq![m] + stack@.reverse());
        assert(all.subrange(k, all.len() as int)[0] == all[k]);
        assert(all[k] == m);
        assert(all.subrange(k + 1, all.len() as int) =~= all.subrange(k, all.len() as int).drop_first());
        assert(all.take(k + 1).drop_last() =~= all.take(k));
        let ghost (kept0, bb0, cut0) = semantic_fold(m0.len(), b0, all.take(k));
        if modules.len() >= MAX_SEMANTIC_MODULES || bytes.saturating_add(m.source_bytes) > MAX_SEMANTIC_BYTES {
            if !*reported {
                let mut note = owned("JS/TS global semantic analysis limit of 20000 modules or 67108864 source bytes reached before ");
                match origin {
                    Origin::Tree => {},
                    _ => push_str(&mut note, "archive member "),
                }
                push_str(&mut note, path);
                push_str(&mut note, "; additional modules were omitted");
                assert(note@ =~= semantic_limit_message(origin, path@));
                let ghost before = strings_view(incomplete@);
                incomplete.push(note);
                assert(strings_view(incomplete@) =~= before.push(note@));
                *reported = true;
            }
            proof {
                let tail: Seq<Seq<char>> = if cut0 && !r0 { seq![semantic_limit_message(origin, path@)] } else { Seq::empty() };
                assert(semantic_fold(m0.len(), b0, all.take(k + 1)) == (kept0, bb0, true));
                if !r0 && !cut0 {
                    assert(strings_view(incomplete@) =~= notes0 + seq![semantic_limit_message(origin, path@)]);
                }
            }
        } else {
            *bytes = *bytes + m.source_bytes;
            modules.push(m);
            proof {
                assert(semantic_fold(m0.len(), b0, all.take(k + 1)) == (kept0.push(m), (bb0 + m.source_bytes) as nat, cut0));
                assert(modules@ =~= m0 + kept0.push(m));
            }
        }
    }
    assert(all.take(all.len() as int) =~= all);
}

/// `limited` commutes with taking views.
pub proof fn lemma_limited_views(target: Seq<Finding>, source: Seq<Finding>, limit: usize)
    ensures
        findings_view(limited(target, source, limit))
            == limited(findings_view(target), findings_view(source), limit),
{
    let n = room(target.len(), limit);
    if source.len() > n {
        assert(findings_view(target + source.take(n as int))
            =~= findings_view(target) + findings_view(source).take(n as int));
    } else {
        assert(findings_view(target + source) =~= findings_view(target) + findings_view(source));
    }
}

/// What the threat database says of a file's hash: its finding, or the
/// reason the database could not be used.
pub open spec fn threat_part(db: Result<Database, String>, path: Seq<char>, sha256: Seq<char>) -> (Seq<FindingView>, Seq<Seq<char>>) {
    match db {
        Ok(d) => (match hash_verdict(d, path, sha256) {
            Some(f) => seq![f],
            None => Seq::empty(),
        }, Seq::empty()),
        Err(e) => (Seq::empty(), seq![e@]),
    }
}

pub open spec fn finding_limit_reason() -> Seq<char> {
    "finding limit reached"@
}

/// The state of a scan while its files are absorbed one by one.
pub struct ScanState {
    /// The limits of the scan, as its profile bounds them.
    pub limits: ScanLimits,
    pub options: ScanOptions,
    /// The threat database, or why it could not be used.
    pub database: Result<Database, String>,
    pub files: Vec<FileRecord>,
    pub dependencies: Vec<DependencyRecord>,
    pub findings: Vec<Finding>,
    pub incomplete: Vec<String>,
    pub modules: Vec<ModuleFacts>,
    pub roots: Vec<Root>,
    pub semantic_bytes: u64,
    pub semantic_limit_reported: bool,
    /// Members of archives of the tree, and their bytes.
    pub archive_files: u64,
    pub archive_bytes: u64,
    /// Members of downloaded packages, and their bytes.
    pub online_files: u64,
    pub online_bytes: u64,
}

/// The content of a record, as far as `absorb` fills it from a file.
pub open spec fn scanned_record(r: FileRecord, path: Seq<char>, size: u64, readonly: bool, mode: Option<u32>, c: Classification, language: Option<Seq<char>>) -> bool {
    &&& r.path@ == path
    &&& r.kind == FileKind::File
    &&& r.size == size
    &&& r.readonly == readonly
    &&& r.mode == mode
    &&& r.sha256 == Some(c.sha256)
    &&& r.extension == c.extension
    &&& r.detected_mime == c.detected_mime
    &&& r.encoding == c.encoding
    &&& r.line_count == Some(c.line_count)
    &&& r.max_line_length == Some(c.max_line_length)
    &&& r.symlink_target.is_none()
    &&& r.roles == c.roles
    &&& r.raw_signals == c.raw_signals
    &&& r.content_scanned
    &&& opt_view(r.parsed_language) == language
}

fn lookup_hash(database: &Result<Database, String>, own: &mut Vec<Finding>, incomplete: &mut Vec<String>, path: &str, sha256: &str)
    ensures
        ({
            let (threat, notes) = threat_part(*database, path@, sha256@);
            &&& findings_view(final(own)@) == findings_view(old(own)@) + threat
            &&& strings_view(final(incomplete)@) == strings_view(old(incomplete)@) + notes
        }),
{
    let ghost o0 = own@;
    let ghost i0 = incomplete@;
    match database {
        Ok(db) => {
            match hash_finding(db, path, sha256) {
                Some(f) => {
                    own.push(f);
                    assert(findings_view(own@) =~= findings_view(o0) + seq![f@]);
                },
                None => {
                    assert(findings_view(own@) =~= findings_view(o0) + Seq::<FindingView>::empty());
                },
            }
            assert(strings_view(incomplete@) =~= strings_view(i0) + Seq::<Seq<char>>::empty());
        },
        Err(e) => {
            incomplete.push(e.clone());
            assert(strings_view(incomplete@) =~= strings_view(i0) + seq![e@]);
            assert(findings_view(own@) =~= findings_view(o0) + Seq::<FindingView>::empty());
        },
    }
}

fn append_findings(findings: &mut Vec<Finding>, incomplete: &mut Vec<String>, lim: usize,
    a: Vec<Finding>, b: Vec<Finding>, c: Vec<Finding>, d: Vec<Finding>)
    ensures
        ({
            let f0 = findings_view(old(findings)@);
            let f1 = limited(f0, findings_view(a@), lim);
            let f2 = limited(f1, findings_view(b@), lim);
            let f3 = limited(f2, findings_view(c@), lim);
            &&& findings_view(final(findings)@) == limited(f3, findings_view(d@), lim)
            &&& strings_view(final(incomplete)@) == strings_view(old(incomplete)@)
                + limit_note(f0.len(), a@.len(), lim, finding_limit_reason())
                + limit_note(f1.len(), b@.len(), lim, finding_limit_reason())
                + limit_note(f2.len(), c@.len(), lim, finding_limit_reason())
                + limit_note(f3.len(), d@.len(), lim, finding_limit_reason())
        }),
        old(findings)@.len() <= lim ==> final(findings)@.len() <= lim,
{
    let ghost n0 = strings_view(incomplete@);
    let ghost f0 = findings_view(findings@);
    let ghost fa = findings_view(a@);
    let ghost fb = findings_view(b@);
    let ghost fc = findings_view(c@);
    let ghost fd = findings_view(d@);
    proof {
        let g1 = limited(f0, fa, lim);
        let g2 = limited(g1, fb, lim);
        let g3 = limited(g2, fc, lim);
        lemma_limited_within(f0, fa, lim);
        lemma_limited_within(g1, fb, lim);
        lemma_limited_within(g2, fc, lim);
        lemma_limited_within(g3, fd, lim);
    }
    proof { lemma_limited_views(findings@, a@, lim); }
    let ghost la = limit_note(findings@.len(), a@.len(), lim, finding_limit_reason());
    append_limited(findings, a, lim, "finding limit reached", incomplete);
    let ghost f1 = findings_view(findings@);
    proof { lemma_limited_views(findings@, b@, lim); }
    let ghost lb = limit_note(findings@.len(), b@.len(), lim, finding_limit_reason());
    append_limited(findings, b, lim, "finding limit reached", incomplete);
    let ghost f2 = findings_view(findings@);
    proof { lemma_limited_views(findings@, c@, lim); }
    let ghost lc = limit_note(findings@.len(), c@.len(), lim, finding_limit_reason());
    append_limited(findings, c, lim, "finding limit reached", incomplete);
    proof { lemma_limited_views(findings@, d@, lim); }
    let ghost ld = limit_note(findings@.len(), d@.len(), lim, finding_limit_reason());
    append_limited(findings, d, lim, "finding limit reached", incomplete);
    assert(strings_view(incomplete@) =~= n0 + la + lb + lc + ld);
}

impl ScanState {
    /// A scan with nothing absorbed yet, under the limits that its profile
    /// bounds.
    pub fn new(limits: &ScanLimits, options: &ScanOptions, database: Result<Database, String>) -> (r: ScanState)
        ensures
            r.limits == profile_limits(*limits, *options),
            r.options == *options,
            r.database == database,
            r.files@.len() == 0 && r.dependencies@.len() == 0 && r.findings@.len() == 0,
            r.incomplete@.len() == 0 && r.modules@.len() == 0 && r.roots@.len() == 0,
            r.semantic_bytes == 0 && !r.semantic_limit_reported,
            r.archive_files == 0 && r.archive_bytes == 0 && r.online_files == 0 && r.online_bytes == 0,
    {
        ScanState {
            limits: bounded_limits(limits, options),
            options: *options,
            database,
            files: Vec::new(),
            dependencies: Vec::new(),
            findings: Vec::new(),
            incomplete: Vec::new(),
            modules: Vec::new(),
            roots: Vec::new(),
            semantic_bytes: 0,
            semantic_limit_reported: false,
            archive_files: 0,
            archive_bytes: 0,
            online_files: 0,
            online_bytes: 0,
        }
    }

    /// Absorbs one scanned file: its classification, its configuration and
    /// language analyses, its execution roots, its JavaScript modules and
    /// its threat-database match, each within the scan's limits.
    /// `parsed` is the file's text parsed as JSON for an npm manifest and as
    /// JSON5 for developer-tool settings (or the parser's error), and
    /// `javascript` what the JavaScript analysis found in it.
    #[verifier::rlimit(50)]
    pub fn absorb(&mut self, origin: Origin, path: &str, size: u64, readonly: bool, mode: Option<u32>,
        classification: Classification, parsed: &Result<Json, String>, javascript: JsAnalysis)
        ensures
            ({
                let text = opt_string_view(classification.text);
                let (lang, lang_findings, lang_notes) = language_verdict(path@, text);
                let (meta_findings, meta_notes) = metadata_verdict(path@, text, parsed_view(*parsed));
                let (threat, threat_notes) = threat_part(old(self).database, path@, classification.sha256@);
                let own = findings_view(classification.findings@) + threat;
                let kept = if javascript.findings@.len() > 0 {
                    drop_id(own, "FILE-EXECUTABLE-CONTENT"@)
                } else {
                    own
                };
                let lim = old(self).limits.max_findings;
                let jsf = findings_view(javascript.findings@);
                let f0 = findings_view(old(self).findings@);
                let f1 = limited(f0, kept, lim);
                let f2 = limited(f1, meta_findings, lim);
                let f3 = limited(f2, jsf, lim);
                let declared = declared_roots(path@, text, parsed_view(*parsed), strings_view(classification.roles@));
                let cut_roots = declared.len() > MAX_EXECUTION_ROOTS;
                let ra = if cut_roots { declared.take(MAX_EXECUTION_ROOTS as int) } else { declared };
                let (held1, root_notes) = declared_step(origin, path@, roots_view(old(self).roots@), ra, cut_roots);
                let (held2, embedded_notes) = embedded_step(origin, path@, held1, javascript.embedded_roots@);
                let (kept_modules, bytes, cut) = semantic_fold(old(self).modules@.len(), old(self).semantic_bytes as nat, javascript.modules@);
                let semantic_note: Seq<Seq<char>> = if cut && !old(self).semantic_limit_reported {
                    seq![semantic_limit_message(origin, path@)]
                } else {
                    Seq::empty()
                };
                let language = match javascript.language {
                    Some(l) => Some(l@),
                    None => lang,
                };
                &&& findings_view(final(self).findings@) == limited(f3, lang_findings, lim)
                &&& strings_view(final(self).incomplete@) == strings_view(old(self).incomplete@)
                    + threat_notes + root_notes + embedded_notes + semantic_note
                    + limit_note(f0.len(), kept.len(), lim, finding_limit_reason())
                    + limit_note(f1.len(), meta_findings.len(), lim, finding_limit_reason())
                    + limit_note(f2.len(), jsf.len(), lim, finding_limit_reason())
                    + limit_note(f3.len(), lang_findings.len(), lim, finding_limit_reason())
                    + meta_notes + strings_view(javascript.incomplete_reasons@) + lang_notes
                &&& roots_view(final(self).roots@) == held2
                &&& final(self).modules@ == old(self).modules@ + kept_modules
                &&& final(self).semantic_bytes as nat == bytes
                &&& final(self).semantic_limit_reported == (old(self).semantic_limit_reported || cut)
                &&& final(self).dependencies@ == old(self).dependencies@
                &&& final(self).files@.len() == old(self).files@.len() + 1
                &&& final(self).files@.drop_last() == old(self).files@
                &&& scanned_record(final(self).files@.last(), path@, size, readonly, mode, classification, language)
                &&& final(self).archive_files == if origin == Origin::Member { old(self).archive_files.saturating_add(1) } else { old(self).archive_files }
                &&& final(self).archive_bytes == if origin == Origin::Member { old(self).archive_bytes.saturating_add(size) } else { old(self).archive_bytes }
                &&& final(self).online_files == if origin == Origin::ArtifactMember { old(self).online_files.saturating_add(1) } else { old(self).online_files }
                &&& final(self).online_bytes == if origin == Origin::ArtifactMember { old(self).online_bytes.saturating_add(size) } else { old(self).online_bytes }
                &&& final(self).limits == old(self).limits
                &&& final(self).options == old(self).options
                &&& final(self).database == old(self).database
            }),
            old(self).findings@.len() <= old(self).limits.max_findings
                ==> final(self).findings@.len() <= final(self).limits.max_findings,
    {
        let Classification {
            findings: own_findings, text, encoding, extension, detected_mime, sha256,
            line_count, max_line_length, roles, raw_signals,
        } = classification;
        let text_ref: Option<&str> = match &text { Some(t) => Some(t.as_str()), None => None };
        assert(opt_text(text_ref) == opt_string_view(text));
        assert(crate::scanner::raw::opt_str_view(text_ref) == opt_string_view(text));
        let mut own_findings = own_findings;
        let ghost own0 = findings_view(own_findings@);
        let ghost n0 = strings_view(self.incomplete@);
        lookup_hash(&self.database, &mut own_findings, &mut self.incomplete, path, sha256.as_str());
        let ghost n1 = strings_view(self.incomplete@);
        let metadata = crate::scanner::analyzers::analyze(path, text_ref, parsed);
        let language = crate::scanner::languages::analyze(path, text_ref);
        let declared = crate::scanner::graph::roots(path, text_ref, parsed, roles.as_slice());
        add_declared_roots(&mut self.roots, &mut self.incomplete, origin, path, declared);
        let ghost n2 = strings_view(self.incomplete@);
        let JsAnalysis { language: js_language, findings: js_findings, incomplete_reasons: js_notes, modules: js_modules, embedded_roots } = javascript;
        add_embedded_roots(&mut self.roots, &mut self.incomplete, origin, path, embedded_roots);
        let ghost n3 = strings_view(self.incomplete@);
        add_modules(&mut self.modules, &mut self.semantic_bytes, &mut self.semantic_limit_reported,
            &mut self.incomplete, origin, path, js_modules);
        let ghost n4 = strings_view(self.incomplete@);
        let parsed_language = match js_language {
            Some(l) => Some(l),
            None => language.language,
        };
        let kept = if js_findings.len() > 0 {
            without_id(own_findings, "FILE-EXECUTABLE-CONTENT")
        } else {
            own_findings
        };
        append_findings(&mut self.findings, &mut self.incomplete, self.limits.max_findings,
            kept, metadata.findings, js_findings, language.findings);
        let ghost deps0 = self.dependencies@;
        let ghost n5a = strings_view(self.incomplete@);
        append_limited(&mut self.dependencies, metadata.dependencies, self.limits.max_dependencies, "dependency record limit reached", &mut self.incomplete);
        assert(self.dependencies@ =~= deps0);
        let ghost n5 = strings_view(self.incomplete@);
        assert(n5 =~= n5a);
        let mut meta_notes = metadata.incomplete_reasons;
        let mut js_notes = js_notes;
        let mut lang_notes = language.incomplete_reasons;
        let ghost ms = meta_notes@;
        let ghost js = js_notes@;
        let ghost ls = lang_notes@;
        let ghost i5 = self.incomplete@;
        self.incomplete.append(&mut meta_notes);
        self.incomplete.append(&mut js_notes);
        self.incomplete.append(&mut lang_notes);
        assert(strings_view(self.incomplete@) =~= n5 + strings_view(ms) + strings_view(js) + strings_view(ls)) by {
            assert(self.incomplete@ =~= i5 + ms + js + ls);
        }
        let record = FileRecord {
            path: owned(path),
            kind: FileKind::File,
            size,
            readonly,
            mode,
            sha256: Some(sha256),
            extension,
            detected_mime,
            encoding,
            line_count: Some(line_count),
            max_line_length: Some(max_line_length),
            symlink_target: None,
            roles,
            raw_signals,
            content_scanned: true,
            parsed_language,
        };
        self.files.push(record);
        match origin {
            Origin::Member => {
                self.archive_files = self.archive_files.saturating_add(1);
                self.archive_bytes = self.archive_bytes.saturating_add(size);
            },
            Origin::ArtifactMember => {
                self.online_files = self.online_files.saturating_add(1);
                self.online_bytes = self.online_bytes.saturating_add(size);
            },
            _ => {},
        }
    }
}

/// Appends the notes of `more` to `notes`.
fn append_notes(notes: &mut Vec<String>, more: Vec<String>)
    ensures
        strings_view(final(notes)@) == strings_view(old(notes)@) + strings_view(more@),
{
    let ghost a = notes@;
    let mut more = more;
    let ghost b = more@;
    notes.append(&mut more);
    assert(strings_view(notes@) =~= strings_view(a) + strings_view(b));
}

/// What the threat database says of each dependency: the findings, and the
/// reason the database could not be used, once per dependency.
pub open spec fn threat_findings(db: Result<Database, String>, deps: Seq<DependencyRecord>) -> (Seq<FindingView>, Seq<Seq<char>>)
    decreases deps.len(),
{
    if deps.len() == 0 {
        (Seq::empty(), Seq::empty())
    } else {
        let (f, n) = threat_findings(db, deps.drop_last());
        match db {
            Ok(d) => (f + match package_verdict(d, deps.last()) {
                Some(x) => seq![x],
                None => Seq::empty(),
            }, n),
            Err(e) => (f, n.push(e@)),
        }
    }
}

fn dependency_threats(db: &Result<Database, String>, deps: &Vec<DependencyRecord>, incomplete: &mut Vec<String>) -> (r: Vec<Finding>)
    ensures
        ({
            let (f, n) = threat_findings(*db, deps@);
            &&& findings_view(r@) == f
            &&& strings_view(final(incomplete)@) == strings_view(old(incomplete)@) + n
        }),
{
    let mut out: Vec<Finding> = Vec::new();
    let ghost n0 = strings_view(incomplete@);
    let mut k: usize = 0;
    while k < deps.len()
        invariant
            k <= deps@.len(),
            ({
                let (f, n) = threat_findings(*db, deps@.take(k as int));
                &&& findings_view(out@) == f
                &&& strings_view(incomplete@) == n0 + n
            }),
        decreases deps.len() - k,
    {
        assert(deps@.take(k + 1).drop_last() =~= deps@.take(k as int));
        let ghost o = findings_view(out@);
        let ghost i = strings_view(incomplete@);
        match db {
            Ok(d) => {
                match package_finding(d, &deps[k]) {
                    Some(f) => {
                        out.push(f);
                        assert(findings_view(out@) =~= o + seq![f@]);
                    },
                    None => {
                        assert(findings_view(out@) =~= o + Seq::<FindingView>::empty());
                    },
                }
            },
            Err(e) => {
                incomplete.push(e.clone());
                assert(strings_view(incomplete@) =~= i.push(e@));
            },
        }
        k = k + 1;
    }
    assert(deps@.take(deps@.len() as int) =~= deps@);
    out
}

pub open spec fn history_failure_message(error: Seq<char>) -> Seq<char> {
    "Git history analysis failed: "@ + error
}

pub open spec fn network_access_text(options: ScanOptions) -> Seq<char> {
    if options.online { "enabled for HTTPS npm registry artifact downloads"@ } else { "disabled"@ }
}

/// The version of the scanner that writes reports.
pub fn scanner_version() -> (r: &'static str)
    ensures
        r@ == "0.1.0"@,
{
    "0.1.0"
}

/// The findings a report gathers, before they are put in order: the
/// state's, then the import graph's, the data-flow analysis's, the walk's,
/// the dependency threats and the history's, each as far as the limit lets.
pub open spec fn concluded_findings(s: ScanState, walk: WalkResult, graph: GraphResult, flows: FlowResult,
    history: Option<Result<(Vec<Finding>, Vec<String>), String>>) -> Seq<FindingView> {
    let lim = s.limits.max_findings;
    let c0 = findings_view(s.findings@);
    let c1 = limited(c0, findings_view(graph.findings@), lim);
    let c2 = limited(c1, findings_view(flows.findings@), lim);
    let c3 = limited(c2, findings_view(walk.findings@), lim);
    let c4 = limited(c3, threat_findings(s.database, s.dependencies@).0, lim);
    match history {
        Some(Ok((f, n))) => limited(c4, findings_view(f@), lim),
        _ => c4,
    }
}

/// Why a report is incomplete, before the reasons are sorted and each kept
/// once: the walk's, the state's, the finding limit wherever it was reached,
/// the import graph's, the data-flow analysis's, the dependency database's,
/// and the history's.
pub open spec fn concluded_reasons(s: ScanState, walk: WalkResult, graph: GraphResult, flows: FlowResult,
    history: Option<Result<(Vec<Finding>, Vec<String>), String>>) -> Seq<Seq<char>> {
    let lim = s.limits.max_findings;
    let c0 = findings_view(s.findings@);
    let c1 = limited(c0, findings_view(graph.findings@), lim);
    let c2 = limited(c1, findings_view(flows.findings@), lim);
    let c3 = limited(c2, findings_view(walk.findings@), lim);
    let (threats, threat_notes) = threat_findings(s.database, s.dependencies@);
    let c4 = limited(c3, threats, lim);
    let history_notes = match history {
        Some(Ok((f, n))) => limit_note(c4.len(), f@.len(), lim, finding_limit_reason()) + strings_view(n@),
        Some(Err(e)) => seq![history_failure_message(e@)],
        None => Seq::empty(),
    };
    strings_view(walk.incomplete_reasons@) + strings_view(s.incomplete@)
        + limit_note(c0.len(), graph.findings@.len(), lim, finding_limit_reason())
        + strings_view(graph.incomplete_reasons@)
        + limit_note(c1.len(), flows.findings@.len(), lim, finding_limit_reason())
        + strings_view(flows.incomplete_reasons@)
        + limit_note(c2.len(), walk.findings@.len(), lim, finding_limit_reason())
        + threat_notes
        + limit_note(c3.len(), threats.len(), lim, finding_limit_reason())
        + history_notes
}

/// What a scan's report holds, given the state after every file was
/// absorbed, the walk, the import graph and data-flow results, and the
/// history analysis when one was asked for.
pub open spec fn concluded(s: ScanState, walk: WalkResult, graph: GraphResult, flows: FlowResult,
    history: Option<Result<(Vec<Finding>, Vec<String>), String>>, r: ScanReport) -> bool {
    let reasons = concluded_reasons(s, walk, graph, flows, history);
    &&& r.schema_version == 2
    &&& r.scanner@ == "preflightx"@
    &&& r.scanner_version@ == "0.1.0"@
    &&& r.target@ == forward_slashes(walk.root@)
    &&& r.profile@ == profile_name_of(s.options)
    &&& r.network_access@ == network_access_text(s.options)
    &&& r.files@ == files_in_order(s.files@ + walk.other_records@)
    &&& r.dependencies@ == s.dependencies@
    &&& findings_view(r.findings@) == findings_in_order(concluded_findings(s, walk, graph, flows, history))
    &&& r.unresolved_edges == graph.unresolved
    &&& strictly_sorted(strings_view(r.incomplete_reasons@))
    &&& forall|x: Seq<char>| strings_view(r.incomplete_reasons@).contains(x) <==> reasons.contains(x)
    &&& (r.status == ScanStatus::Complete) == (r.incomplete_reasons@.len() == 0)
    &&& r.risk.score as nat == max_score(r.findings@)
    &&& severity_rank(r.risk.severity) == max_rank(r.findings@)
    &&& r.summary.entries == walk.entries.saturating_add(s.archive_files).saturating_add(s.online_files)
    &&& r.summary.files == walk.files.saturating_add(s.archive_files).saturating_add(s.online_files)
    &&& r.summary.directories == walk.directories
    &&& r.summary.symlinks == walk.symlinks
    &&& r.summary.special_files == walk.special_files
    &&& r.summary.content_bytes == walk.content_bytes.saturating_add(s.archive_bytes).saturating_add(s.online_bytes)
    &&& r.summary.dependencies == r.dependencies@.len()
    &&& r.summary.findings == r.findings@.len()
}

impl ScanState {
    /// Records a file whose content was not read.
    pub fn unscanned(&mut self, path: &str, size: u64, readonly: bool, mode: Option<u32>)
        ensures
            final(self).files@.len() == old(self).files@.len() + 1,
            final(self).files@.drop_last() == old(self).files@,
            crate::scanner::classifier::unscanned(final(self).files@.last(), path@, size, readonly, mode),
            final(self).findings == old(self).findings,
            final(self).incomplete == old(self).incomplete,
            final(self).dependencies == old(self).dependencies,
            final(self).limits == old(self).limits,
    {
        let record = crate::scanner::classifier::unscanned_record(path, size, readonly, mode);
        self.files.push(record);
    }

    /// Records why the scan is incomplete.
    pub fn note(&mut self, reason: String)
        ensures
            final(self).incomplete@ == old(self).incomplete@.push(reason),
            final(self).findings == old(self).findings,
            final(self).files == old(self).files,
            final(self).dependencies == old(self).dependencies,
            final(self).limits == old(self).limits,
            final(self).options == old(self).options,
    {
        self.incomplete.push(reason);
    }

    /// Keeps each dependency once, in order.
    pub fn deduplicate(&mut self)
        ensures
            final(self).dependencies@ == crate::scanner::order::unique_dependencies(old(self).dependencies@),
            final(self).findings == old(self).findings,
            final(self).files == old(self).files,
            final(self).incomplete == old(self).incomplete,
            final(self).limits == old(self).limits,
            final(self).options == old(self).options,
    {
        let mut deps: Vec<DependencyRecord> = Vec::new();
        std::mem::swap(&mut deps, &mut self.dependencies);
        self.dependencies = crate::scanner::order::deduplicate_dependencies(deps);
    }

    /// The report, from the state after every file was absorbed, the walk,
    /// the import graph and data-flow results, and the history analysis when
    /// one was asked for.
    #[verifier::rlimit(50)]
    pub fn conclude(self, walk: WalkResult, graph: GraphResult, flows: FlowResult,
        history: Option<Result<(Vec<Finding>, Vec<String>), String>>) -> (r: ScanReport)
        ensures
            concluded(self, walk, graph, flows, history, r),
    {
        let ghost s0 = self;
        let ghost w0 = walk;
        let ghost g0 = graph;
        let ghost fl0 = flows;
        let ghost h0 = history;
        let ScanState {
            limits, options, database, files, dependencies, findings, incomplete,
            modules: _, roots: _, semantic_bytes: _, semantic_limit_reported: _,
            archive_files, archive_bytes, online_files, online_bytes,
        } = self;
        let WalkResult {
            root, other_records, findings: walk_findings, incomplete_reasons: walk_notes,
            entries, files: walk_files, directories, symlinks, special_files, content_bytes,
        } = walk;
        let GraphResult { findings: graph_findings, unresolved, incomplete_reasons: graph_notes, reachable: _ } = graph;
        let FlowResult { findings: flow_findings, incomplete_reasons: flow_notes } = flows;
        let lim = limits.max_findings;
        let mut files = files;
        let mut other_records = other_records;
        files.append(&mut other_records);
        let mut findings = findings;
        let mut notes = walk_notes;
        append_notes(&mut notes, incomplete);
        let ghost n0 = strings_view(notes@);
        let ghost c0 = findings_view(findings@);
        proof { lemma_limited_views(findings@, graph_findings@, lim); }
        append_limited(&mut findings, graph_findings, lim, "finding limit reached", &mut notes);
        append_notes(&mut notes, graph_notes);
        let ghost n1 = strings_view(notes@);
        assert(n1 == n0 + limit_note(c0.len(), g0.findings@.len(), lim, finding_limit_reason())
            + strings_view(g0.incomplete_reasons@));
        let ghost c1 = findings_view(findings@);
        proof { lemma_limited_views(findings@, flow_findings@, lim); }
        append_limited(&mut findings, flow_findings, lim, "finding limit reached", &mut notes);
        append_notes(&mut notes, flow_notes);
        let ghost c2 = findings_view(findings@);
        proof { lemma_limited_views(findings@, walk_findings@, lim); }
        append_limited(&mut findings, walk_findings, lim, "finding limit reached", &mut notes);
        let ghost c3 = findings_view(findings@);
        let ghost n3 = strings_view(notes@);
        assert(n3 == n1 + limit_note(c1.len(), fl0.findings@.len(), lim, finding_limit_reason())
            + strings_view(fl0.incomplete_reasons@)
            + limit_note(c2.len(), w0.findings@.len(), lim, finding_limit_reason()));
        let threats = dependency_threats(&database, &dependencies, &mut notes);
        proof { lemma_limited_views(findings@, threats@, lim); }
        append_limited(&mut findings, threats, lim, "finding limit reached", &mut notes);
        let ghost c4 = findings_view(findings@);
        let ghost n4 = strings_view(notes@);
        match history {
            Some(Ok((history_findings, history_notes))) => {
                proof { lemma_limited_views(findings@, history_findings@, lim); }
                append_limited(&mut findings, history_findings, lim, "finding limit reached", &mut notes);
                append_notes(&mut notes, history_notes);
            },
            Some(Err(e)) => {
                let mut note = owned("Git history analysis failed: ");
                push_str(&mut note, e.as_str());
                notes.push(note);
                assert(strings_view(notes@) =~= n4 + seq![history_failure_message(e@)]);
            },
            None => {
                assert(strings_view(notes@) =~= n4 + Seq::<Seq<char>>::empty());
            },
        }
        proof {
            let (threats_v, threat_notes) = threat_findings(s0.database, s0.dependencies@);
            let history_notes = match h0 {
                Some(Ok((f, n))) => limit_note(c4.len(), f@.len(), lim, finding_limit_reason()) + strings_view(n@),
                Some(Err(e)) => seq![history_failure_message(e@)],
                None => Seq::empty(),
            };
            assert(n4 == n3 + threat_notes + limit_note(c3.len(), threats_v.len(), lim, finding_limit_reason()));
            assert(strings_view(notes@) == n4 + history_notes);
            assert(strings_view(notes@) =~= strings_view(w0.incomplete_reasons@) + strings_view(s0.incomplete@)
                + limit_note(c0.len(), g0.findings@.len(), lim, finding_limit_reason())
                + strings_view(g0.incomplete_reasons@)
                + limit_note(c1.len(), fl0.findings@.len(), lim, finding_limit_reason())
                + strings_view(fl0.incomplete_reasons@)
                + limit_note(c2.len(), w0.findings@.len(), lim, finding_limit_reason())
                + threat_notes
                + limit_note(c3.len(), threats_v.len(), lim, finding_limit_reason())
                + history_notes);
        }
        let reasons = crate::text::sorted_unique(&notes);
        let findings = order_findings(findings);
        let files = order_files(files);
        let risk = overall_risk(findings.as_slice());
        let status = if reasons.len() == 0 { ScanStatus::Complete } else { ScanStatus::Incomplete };
        let summary = ScanSummary {
            entries: entries.saturating_add(archive_files).saturating_add(online_files),
            files: walk_files.saturating_add(archive_files).saturating_add(online_files),
            directories,
            symlinks,
            special_files,
            content_bytes: content_bytes.saturating_add(archive_bytes).saturating_add(online_bytes),
            dependencies: dependencies.len() as u64,
            findings: findings.len() as u64,
        };
        let target = string_from_chars(&to_forward_slashes(&chars_of(root.as_str())));
        let profile = owned(crate::scanner::limits::profile_name(&options));
        let network_access = if options.online {
            owned("enabled for HTTPS npm registry artifact downloads")
        } else {
            owned("disabled")
        };
        proof {
            assert(strings_view(reasons@).len() == 0 ==> reasons@.len() == 0);
        }
        ScanReport {
            schema_version: 2,
            scanner: owned("preflightx"),
            scanner_version: owned(scanner_version()),
            target,
            profile,
            status,
            network_access,
            risk,
            summary,
            files,
            dependencies,
            findings,
            unresolved_edges: unresolved,
            incomplete_reasons: reasons,
        }
    }
}

impl ScanState {
    /// The report: builds the import graph of the absorbed modules from
    /// their roots, runs the data-flow analysis over the reachable modules,
    /// and concludes with the walk and the history analysis.
    pub fn finish(self, walk: WalkResult, history: Option<Result<(Vec<Finding>, Vec<String>), String>>) -> (r: ScanReport)
        ensures
            exists|g: GraphResult, fl: FlowResult| graph_built(self.modules@, self.roots@, g)
                && crate::scanner::js::flow::flows_analyzed(self.modules@, fl)
                && crate::scanner::js::flow::direct_flows_reported(self.modules@, g.reachable@, fl)
                && #[trigger] concluded(self, walk, g, fl, history, r),
            self.findings@.len() <= self.limits.max_findings ==> r.findings@.len() <= self.limits.max_findings,
    {
        let ghost s0 = self;
        let ghost w0 = walk;
        let ghost h0 = history;
        let graph = crate::scanner::graph::build(self.modules.as_slice(), self.roots.as_slice());
        let flows = crate::scanner::js::analyze_flows(self.modules.as_slice(), &graph.reachable);
        let ghost g0 = graph;
        let ghost fl0 = flows;
        let r = self.conclude(walk, graph, flows, history);
        assert(concluded(s0, w0, g0, fl0, h0, r));
        proof {
            if s0.findings@.len() <= s0.limits.max_findings {
                lemma_report_findings_bounded(s0, w0, g0, fl0, h0, r);
            }
        }
        r
    }
}

/// A scan that any of its parts left short (the walk, a file, the import
/// graph, the data-flow analysis, or a history that could not be read) is
/// reported incomplete, and exits with code 2 whatever its findings.
pub proof fn lemma_short_scan_is_incomplete(s: ScanState, walk: WalkResult, graph: GraphResult, flows: FlowResult,
    history: Option<Result<(Vec<Finding>, Vec<String>), String>>, r: ScanReport, fail_on: crate::model::Severity)
    requires
        concluded(s, walk, graph, flows, history, r),
        walk.incomplete_reasons@.len() > 0 || s.incomplete@.len() > 0 || graph.incomplete_reasons@.len() > 0
            || flows.incomplete_reasons@.len() > 0 || history is Some && history->Some_0 is Err,
    ensures
        r.status == ScanStatus::Incomplete,
        crate::cli::exit_code_of(r.status, r.findings@, fail_on) == 2,
{
    let lim = s.limits.max_findings;
    let c0 = findings_view(s.findings@);
    let c1 = limited(c0, findings_view(graph.findings@), lim);
    let c2 = limited(c1, findings_view(flows.findings@), lim);
    let c3 = limited(c2, findings_view(walk.findings@), lim);
    let (threats, threat_notes) = threat_findings(s.database, s.dependencies@);
    let c4 = limited(c3, threats, lim);
    let history_notes = match history {
        Some(Ok((f, n))) => limit_note(c4.len(), f@.len(), lim, finding_limit_reason()) + strings_view(n@),
        Some(Err(e)) => seq![history_failure_message(e@)],
        None => Seq::empty(),
    };
    let a = strings_view(walk.incomplete_reasons@);
    let b = strings_view(s.incomplete@);
    let n1 = limit_note(c0.len(), graph.findings@.len(), lim, finding_limit_reason());
    let g = strings_view(graph.incomplete_reasons@);
    let n2 = limit_note(c1.len(), flows.findings@.len(), lim, finding_limit_reason());
    let f = strings_view(flows.incomplete_reasons@);
    let n3 = limit_note(c2.len(), walk.findings@.len(), lim, finding_limit_reason());
    let n4 = limit_note(c3.len(), threats.len(), lim, finding_limit_reason());
    let reasons = concluded_reasons(s, walk, graph, flows, history);
    assert(reasons == a + b + n1 + g + n2 + f + n3 + threat_notes + n4 + history_notes);
    let x: Seq<char> = if a.len() > 0 {
        assert(reasons[0] == a[0]);
        a[0]
    } else if b.len() > 0 {
        assert(reasons[a.len() as int] == b[0]);
        b[0]
    } else if g.len() > 0 {
        assert(reasons[(a.len() + b.len() + n1.len()) as int] == g[0]);
        g[0]
    } else if f.len() > 0 {
        assert(reasons[(a.len() + b.len() + n1.len() + g.len() + n2.len()) as int] == f[0]);
        f[0]
    } else {
        let k = (a.len() + b.len() + n1.len() + g.len() + n2.len() + f.len() + n3.len() + threat_notes.len() + n4.len()) as int;
        assert(history_notes[0] == history_failure_message(history->Some_0->Err_0@));
        assert(reasons[k] == history_notes[0]);
        history_notes[0]
    };
    assert(reasons.contains(x));
    assert(strings_view(r.incomplete_reasons@).contains(x));
    assert(r.incomplete_reasons@.len() > 0);
}

/// The findings that a part of the scan offered, whether or not the limit
/// let them into the report.
pub open spec fn offered_findings(s: ScanState, walk: WalkResult, graph: GraphResult, flows: FlowResult,
    history: Option<Result<(Vec<Finding>, Vec<String>), String>>) -> nat {
    s.findings@.len() + graph.findings@.len() + flows.findings@.len() + walk.findings@.len()
        + threat_findings(s.database, s.dependencies@).0.len()
        + match history {
            Some(Ok((f, n))) => f@.len(),
            _ => 0,
        }
}

/// A scan whose report leaves out findings for the finding limit is
/// reported incomplete, and exits with code 2.
pub proof fn lemma_dropped_findings_make_incomplete(s: ScanState, walk: WalkResult, graph: GraphResult, flows: FlowResult,
    history: Option<Result<(Vec<Finding>, Vec<String>), String>>, r: ScanReport, fail_on: crate::model::Severity)
    requires
        concluded(s, walk, graph, flows, history, r),
        concluded_findings(s, walk, graph, flows, history).len() < offered_findings(s, walk, graph, flows, history),
    ensures
        r.status == ScanStatus::Incomplete,
        strings_view(r.incomplete_reasons@).contains(finding_limit_reason()),
        crate::cli::exit_code_of(r.status, r.findings@, fail_on) == 2,
{
    let lim = s.limits.max_findings;
    let c0 = findings_view(s.findings@);
    let c1 = limited(c0, findings_view(graph.findings@), lim);
    let c2 = limited(c1, findings_view(flows.findings@), lim);
    let c3 = limited(c2, findings_view(walk.findings@), lim);
    let (threats, threat_notes) = threat_findings(s.database, s.dependencies@);
    let c4 = limited(c3, threats, lim);
    let history_notes = match history {
        Some(Ok((f, n))) => limit_note(c4.len(), f@.len(), lim, finding_limit_reason()) + strings_view(n@),
        Some(Err(e)) => seq![history_failure_message(e@)],
        None => Seq::empty(),
    };
    let a = strings_view(walk.incomplete_reasons@);
    let b = strings_view(s.incomplete@);
    let n1 = limit_note(c0.len(), graph.findings@.len(), lim, finding_limit_reason());
    let g = strings_view(graph.incomplete_reasons@);
    let n2 = limit_note(c1.len(), flows.findings@.len(), lim, finding_limit_reason());
    let f = strings_view(flows.incomplete_reasons@);
    let n3 = limit_note(c2.len(), walk.findings@.len(), lim, finding_limit_reason());
    let n4 = limit_note(c3.len(), threats.len(), lim, finding_limit_reason());
    let reasons = concluded_reasons(s, walk, graph, flows, history);
    assert(reasons == a + b + n1 + g + n2 + f + n3 + threat_notes + n4 + history_notes);
    assert(c0.len() == s.findings@.len());
    let x = finding_limit_reason();
    if n1.len() > 0 {
        assert(reasons[(a.len() + b.len()) as int] == x);
    } else if n2.len() > 0 {
        assert(reasons[(a.len() + b.len() + n1.len() + g.len()) as int] == x);
    } else if n3.len() > 0 {
        assert(reasons[(a.len() + b.len() + n1.len() + g.len() + n2.len() + f.len()) as int] == x);
    } else if n4.len() > 0 {
        assert(reasons[(a.len() + b.len() + n1.len() + g.len() + n2.len() + f.len() + n3.len() + threat_notes.len()) as int] == x);
    } else {
        match history {
            Some(Ok((fh, nh))) => {
                assert(limit_note(c4.len(), fh@.len(), lim, finding_limit_reason()).len() > 0);
                let k = (a.len() + b.len() + n1.len() + g.len() + n2.len() + f.len() + n3.len() + threat_notes.len() + n4.len()) as int;
                assert(history_notes[0] == x);
                assert(reasons[k] == x);
            },
            _ => {
                assert(false);
            },
        }
    }
    assert(reasons.contains(x));
    assert(strings_view(r.incomplete_reasons@).contains(x));
    assert(r.incomplete_reasons@.len() > 0);
}

/// A report holds no more findings than the scan's limit, when the state it
/// was concluded from held no more.
pub proof fn lemma_report_findings_bounded(s: ScanState, walk: WalkResult, graph: GraphResult, flows: FlowResult,
    history: Option<Result<(Vec<Finding>, Vec<String>), String>>, r: ScanReport)
    requires
        concluded(s, walk, graph, flows, history, r),
        s.findings@.len() <= s.limits.max_findings,
    ensures
        r.findings@.len() <= s.limits.max_findings,
{
    let c5 = concluded_findings(s, walk, graph, flows, history);
    assert(c5.len() <= s.limits.max_findings);
    crate::scanner::order::lemma_findings_in_order(c5);
    assert(findings_in_order(c5).len() == c5.len()) by {
        broadcast use vstd::seq_lib::group_to_multiset_ensures;
        assert(findings_in_order(c5).len() == findings_in_order(c5).to_multiset().len());
    }
    assert(findings_view(r.findings@).len() == r.findings@.len());
}

/// A complete scan fails the policy threshold exactly when it has findings
/// and the report's risk severity reaches the threshold.
pub proof fn lemma_policy_follows_risk(s: ScanState, walk: WalkResult, graph: GraphResult, flows: FlowResult,
    history: Option<Result<(Vec<Finding>, Vec<String>), String>>, r: ScanReport, fail_on: crate::model::Severity)
    requires
        concluded(s, walk, graph, flows, history, r),
    ensures
        (crate::cli::exit_code_of(r.status, r.findings@, fail_on) == 1) <==> (r.status == ScanStatus::Complete
            && r.findings@.len() > 0 && severity_rank(r.risk.severity) >= severity_rank(fail_on)),
{
    crate::model::lemma_policy_by_risk(r.findings@, fail_on);
}

/// A report is determined by what it is concluded from: two reports of the
/// same state, walk, import graph, data-flow results and history say the
/// same thing, field by field.
pub proof fn lemma_report_deterministic(s: ScanState, walk: WalkResult, graph: GraphResult, flows: FlowResult,
    history: Option<Result<(Vec<Finding>, Vec<String>), String>>, r1: ScanReport, r2: ScanReport)
    requires
        concluded(s, walk, graph, flows, history, r1),
        concluded(s, walk, graph, flows, history, r2),
    ensures
        r1.schema_version == r2.schema_version,
        r1.scanner@ == r2.scanner@,
        r1.scanner_version@ == r2.scanner_version@,
        r1.target@ == r2.target@,
        r1.profile@ == r2.profile@,
        r1.network_access@ == r2.network_access@,
        r1.status == r2.status,
        r1.risk == r2.risk,
        r1.summary == r2.summary,
        r1.files@ == r2.files@,
        r1.dependencies@ == r2.dependencies@,
        findings_view(r1.findings@) == findings_view(r2.findings@),
        r1.unresolved_edges == r2.unresolved_edges,
        strings_view(r1.incomplete_reasons@) == strings_view(r2.incomplete_reasons@),
{
    let reasons = concluded_reasons(s, walk, graph, flows, history);
    assert forall|x: Seq<char>| strings_view(r1.incomplete_reasons@).contains(x)
        <==> strings_view(r2.incomplete_reasons@).contains(x) by {
        assert(strings_view(r1.incomplete_reasons@).contains(x) <==> reasons.contains(x));
        assert(strings_view(r2.incomplete_reasons@).contains(x) <==> reasons.contains(x));
    }
    crate::text::lemma_strictly_sorted_unique(strings_view(r1.incomplete_reasons@), strings_view(r2.incomplete_reasons@));
    assert(findings_view(r1.findings@).len() == r1.findings@.len());
    assert(findings_view(r2.findings@).len() == r2.findings@.len());
    assert(strings_view(r1.incomplete_reasons@).len() == r1.incomplete_reasons@.len());
    assert(strings_view(r2.incomplete_reasons@).len() == r2.incomplete_reasons@.len());
    assert(max_score(r1.findings@) == max_score(r2.findings@)) by {
        lemma_max_views(r1.findings@, r2.findings@);
    }
    assert(max_rank(r1.findings@) == max_rank(r2.findings@)) by {
        lemma_max_views(r1.findings@, r2.findings@);
    }
}

/// The highest score and severity of findings depend on their views alone.
proof fn lemma_max_views(a: Seq<Finding>, b: Seq<Finding>)
    requires
        findings_view(a) == findings_view(b),
    ensures
        max_score(a) == max_score(b),
        max_rank(a) == max_rank(b),
    decreases a.len(),
{
    assert(findings_view(a).len() == a.len() && findings_view(b).len() == b.len());
    if a.len() > 0 {
        assert(findings_view(a.drop_last()) =~= findings_view(a).drop_last());
        assert(findings_view(b.drop_last()) =~= findings_view(b).drop_last());
        lemma_max_views(a.drop_last(), b.drop_last());
        assert(findings_view(a)[a.len() - 1] == a.last()@);
        assert(findings_view(b)[b.len() - 1] == b.last()@);
    }
}

/// The most packages a full scan downloads.
pub const MAX_ONLINE_PACKAGES: usize = 1000;
/// The most members a scan takes from downloaded packages.
pub const MAX_ONLINE_ARCHIVE_FILES: usize = 20000;
/// The most bytes a scan takes from downloaded packages.
pub const MAX_ONLINE_EXPANDED_BYTES: u64 = 536870912;

/// How long the archives of one scan may take to expand, by profile.
pub open spec fn archive_time_of(options: ScanOptions) -> u64 {
    if options.quick { 5000 } else if options.deep { 60000 } else { 30000 }
}

/// How long one scan may spend downloading packages, by profile.
pub open spec fn online_time_of(options: ScanOptions) -> u64 {
    if options.quick { 60000 } else { 300000 }
}

/// How many packages one scan downloads, by profile.
pub open spec fn online_budget_of(options: ScanOptions) -> usize {
    if options.quick { 50 } else { MAX_ONLINE_PACKAGES }
}

/// The limits for expanding an archive of the tree: by profile, less what
/// earlier archives of the scan took.
pub open spec fn archive_limits_of(options: ScanOptions, files: u64, bytes: u64, time_left_ms: u64) -> crate::scanner::archives::Limits {
    let members: usize = if options.quick { 5000 } else if options.deep { 50000 } else { 20000 };
    let total: u64 = if options.quick { 67108864 } else if options.deep { 536870912 } else { 268435456 };
    crate::scanner::archives::Limits {
        depth: if options.quick { 1 } else if options.deep { 6 } else { 3 },
        members: if (files as nat) < (members as nat) { (members - files) as usize } else { 0 },
        expanded_bytes: if bytes < total { (total - bytes) as u64 } else { 0 },
        member_bytes: if options.deep { 33554432 } else { 16777216 },
        time_limit_ms: time_left_ms,
    }
}

/// The limits for expanding a downloaded package, less what earlier
/// packages of the scan took.
pub open spec fn artifact_limits_of(files: u64, bytes: u64, time_left_ms: u64) -> crate::scanner::archives::Limits {
    crate::scanner::archives::Limits {
        depth: 4,
        members: if (files as nat) < (MAX_ONLINE_ARCHIVE_FILES as nat) { (MAX_ONLINE_ARCHIVE_FILES - files) as usize } else { 0 },
        expanded_bytes: if bytes < MAX_ONLINE_EXPANDED_BYTES { (MAX_ONLINE_EXPANDED_BYTES - bytes) as u64 } else { 0 },
        member_bytes: 16777216,
        time_limit_ms: time_left_ms,
    }
}

/// A character kept in an artifact's path component.
pub open spec fn component_char(c: char) -> bool {
    crate::text::is_ascii_alnum_char(c) || c == '@' || c == '.' || c == '_' || c == '-'
}

/// A name made safe as one path component: its first 128 characters, each
/// other than ASCII letters, digits, `@`, `.`, `_` and `-` made `_`;
/// `unknown` when that leaves nothing, `.` or `..`.
pub open spec fn safe_component(value: Seq<char>) -> Seq<char> {
    let taken = if value.len() > 128 { value.take(128) } else { value };
    let mapped = taken.map_values(|c: char| if component_char(c) { c } else { '_' });
    if mapped.len() == 0 || mapped == seq!['.'] || mapped == seq!['.', '.'] { "unknown"@ } else { mapped }
}

/// A name made safe as one path component.
pub fn safe_path_component(value: &[char]) -> (r: Vec<char>)
    ensures
        r@ == safe_component(value@),
{
    let n = if value.len() > 128 { 128 } else { value.len() };
    let ghost taken = if value@.len() > 128 { value@.take(128) } else { value@ };
    assert(taken =~= value@.subrange(0, n as int));
    let mut out: Vec<char> = Vec::new();
    let mut i: usize = 0;
    while i < n
        invariant
            i <= n <= value@.len(),
            taken == value@.subrange(0, n as int),
            out@ == taken.subrange(0, i as int).map_values(|c: char| if component_char(c) { c } else { '_' }),
        decreases n - i,
    {
        let c = value[i];
        let keep = (c >= 'a' && c <= 'z') || (c >= 'A' && c <= 'Z') || (c >= '0' && c <= '9')
            || c == '@' || c == '.' || c == '_' || c == '-';
        assert(keep == component_char(c));
        out.push(if keep { c } else { '_' });
        assert(taken.subrange(0, i + 1) =~= taken.subrange(0, i as int).push(c));
        i = i + 1;
    }
    assert(taken.subrange(0, n as int) =~= taken);
    if out.len() == 0 || (out.len() == 1 && out[0] == '.') || (out.len() == 2 && out[0] == '.' && out[1] == '.') {
        assert(out@.len() == 0 || out@ =~= seq!['.'] || out@ =~= seq!['.', '.']);
        return chars_of("unknown");
    }
    assert(!(out@ =~= seq!['.']) && !(out@ =~= seq!['.', '.']));
    out
}

/// The path under which a downloaded package is scanned.
pub open spec fn artifact_path_of(d: DependencyRecord) -> Seq<char> {
    "artifacts/npm/"@
        + crate::text::join(crate::scanner::raw::tokens(d.name@, crate::scanner::raw::Split::Slash)
            .map_values(|p: Seq<char>| safe_component(p)), seq!['/'])
        + "/"@
        + match d@.version { Some(v) => safe_component(v), None => "unknown"@ }
        + ".tgz"@
}

/// The path under which a downloaded package is scanned.
pub fn artifact_path(dependency: &DependencyRecord) -> (r: String)
    ensures
        r@ == artifact_path_of(*dependency),
{
    let name = chars_of(dependency.name.as_str());
    let spans = crate::scanner::raw::token_spans(&name, crate::scanner::raw::Split::Slash);
    let ghost parts = crate::scanner::raw::tokens(name@, crate::scanner::raw::Split::Slash);
    let ghost f = |p: Seq<char>| safe_component(p);
    let mut safe: Vec<Vec<char>> = Vec::new();
    let mut k: usize = 0;
    while k < spans.len()
        invariant
            k <= spans@.len(),
            crate::text::span_views(name@, spans@) == parts,
            forall|q: int| 0 <= q < spans@.len() ==> (#[trigger] spans@[q]).0 <= spans@[q].1 <= name@.len(),
            f == (|p: Seq<char>| safe_component(p)),
            vecs_view(safe@) == parts.subrange(0, k as int).map_values(f),
        decreases spans.len() - k,
    {
        let (lo, hi) = spans[k];
        let piece = crate::text::slice_chars(&name, lo, hi);
        assert(piece@ == parts[k as int]);
        let ghost before = safe@;
        safe.push(safe_path_component(&piece));
        assert(vecs_view(safe@) =~= vecs_view(before).push(f(parts[k as int])));
        assert(parts.subrange(0, k + 1).map_values(f) =~= parts.subrange(0, k as int).map_values(f).push(f(parts[k as int])));
        k = k + 1;
    }
    assert(parts.subrange(0, spans@.len() as int) =~= parts);
    assert(vecs_view(safe@) == parts.map_values(f));
    let mut sep: Vec<char> = Vec::new();
    sep.push('/');
    assert(sep@ =~= seq!['/']);
    let joined = crate::text::join_chars(&safe, sep.as_slice());
    assert(joined@ == crate::text::join(parts.map_values(f), seq!['/']));
    let mut path = owned("artifacts/npm/");
    push_str(&mut path, string_from_chars(&joined).as_str());
    push_str(&mut path, "/");
    match &dependency.version {
        Some(v) => {
            let c = safe_path_component(&chars_of(v.as_str()));
            push_str(&mut path, string_from_chars(&c).as_str());
        },
        None => push_str(&mut path, "unknown"),
    }
    push_str(&mut path, ".tgz");
    assert(path@ =~= artifact_path_of(*dependency));
    path
}

impl ScanState {
    /// How long the archives of this scan may take to expand, in milliseconds.
    pub fn archive_time_ms(&self) -> (r: u64)
        ensures
            r == archive_time_of(self.options),
    {
        if self.options.quick { 5000 } else if self.options.deep { 60000 } else { 30000 }
    }

    /// How long this scan may spend downloading packages, in milliseconds.
    pub fn online_time_ms(&self) -> (r: u64)
        ensures
            r == online_time_of(self.options),
    {
        if self.options.quick { 60000 } else { 300000 }
    }

    /// The limits for expanding the next archive of the tree.
    pub fn archive_limits(&self, time_left_ms: u64) -> (r: crate::scanner::archives::Limits)
        ensures
            r == archive_limits_of(self.options, self.archive_files, self.archive_bytes, time_left_ms),
    {
        let members: usize = if self.options.quick { 5000 } else if self.options.deep { 50000 } else { 20000 };
        let total: u64 = if self.options.quick { 67108864 } else if self.options.deep { 536870912 } else { 268435456 };
        crate::scanner::archives::Limits {
            depth: if self.options.quick { 1 } else if self.options.deep { 6 } else { 3 },
            members: if self.archive_files < members as u64 { members - self.archive_files as usize } else { 0 },
            expanded_bytes: if self.archive_bytes < total { total - self.archive_bytes } else { 0 },
            member_bytes: if self.options.deep { 33554432 } else { 16777216 },
            time_limit_ms: time_left_ms,
        }
    }

    /// The limits for expanding the next downloaded package.
    pub fn artifact_limits(&self, time_left_ms: u64) -> (r: crate::scanner::archives::Limits)
        ensures
            r == artifact_limits_of(self.online_files, self.online_bytes, time_left_ms),
    {
        crate::scanner::archives::Limits {
            depth: 4,
            members: if self.online_files < MAX_ONLINE_ARCHIVE_FILES as u64 { MAX_ONLINE_ARCHIVE_FILES - self.online_files as usize } else { 0 },
            expanded_bytes: if self.online_bytes < MAX_ONLINE_EXPANDED_BYTES { MAX_ONLINE_EXPANDED_BYTES - self.online_bytes } else { 0 },
            member_bytes: 16777216,
            time_limit_ms: time_left_ms,
        }
    }

    /// How many of the dependencies to download: all of them within the
    /// profile's budget; when there are more, the rest are left out and
    /// that is recorded.
    pub fn online_plan(&mut self) -> (r: usize)
        ensures
            r as nat == if old(self).dependencies@.len() > online_budget_of(old(self).options) {
                online_budget_of(old(self).options) as nat
            } else {
                old(self).dependencies@.len()
            },
            strings_view(final(self).incomplete@) == strings_view(old(self).incomplete@)
                + if old(self).dependencies@.len() > online_budget_of(old(self).options) {
                    seq!["online npm artifact limit of "@ + decimal(online_budget_of(old(self).options) as nat) + " reached"@]
                } else {
                    Seq::<Seq<char>>::empty()
                },
            final(self).dependencies == old(self).dependencies,
            final(self).findings == old(self).findings,
            final(self).files == old(self).files,
            final(self).options == old(self).options,
            final(self).limits == old(self).limits,
    {
        let budget: usize = if self.options.quick { 50 } else { MAX_ONLINE_PACKAGES };
        let ghost before = strings_view(self.incomplete@);
        if self.dependencies.len() > budget {
            let mut note = owned("online npm artifact limit of ");
            push_decimal(&mut note, budget as u64);
            push_str(&mut note, " reached");
            self.incomplete.push(note);
            assert(strings_view(self.incomplete@) =~= before.push(note@));
            budget
        } else {
            assert(strings_view(self.incomplete@) =~= before + Seq::<Seq<char>>::empty());
            self.dependencies.len()
        }
    }

    /// Records that the download time of the profile ran out.
    pub fn online_time_spent(&mut self)
        ensures
            strings_view(final(self).incomplete@) == strings_view(old(self).incomplete@).push(
                "online dependency time limit of "@ + decimal((online_time_of(old(self).options) / 1000) as nat) + " seconds reached"@),
            final(self).dependencies == old(self).dependencies,
            final(self).findings == old(self).findings,
            final(self).files == old(self).files,
            final(self).options == old(self).options,
            final(self).limits == old(self).limits,
    {
        let mut note = owned("online dependency time limit of ");
        push_decimal(&mut note, if self.options.quick { 60 } else { 300 });
        push_str(&mut note, " seconds reached");
        let ghost before = strings_view(self.incomplete@);
        self.incomplete.push(note);
        assert(strings_view(self.incomplete@) =~= before.push(note@));
    }
}

/// The findings of one file of a Git revision, and why its analysis is
/// incomplete: its classification's, configuration, JavaScript and
/// language findings, then its threat-database match.
pub fn blob_findings(path: &str, classification: Classification, parsed: &Result<Json, String>,
    javascript: JsAnalysis, database: &Result<Database, String>) -> (r: (Vec<Finding>, Vec<String>))
    ensures
        ({
            let text = opt_string_view(classification.text);
            let (lang, lang_findings, lang_notes) = language_verdict(path@, text);
            let (meta_findings, meta_notes) = metadata_verdict(path@, text, parsed_view(*parsed));
            let (threat, threat_notes) = threat_part(*database, path@, classification.sha256@);
            &&& findings_view(r.0@) == findings_view(classification.findings@) + meta_findings
                + findings_view(javascript.findings@) + lang_findings + threat
            &&& strings_view(r.1@) == threat_notes + meta_notes + strings_view(javascript.incomplete_reasons@) + lang_notes
        }),
{
    let Classification { findings, text, sha256, .. } = classification;
    let text_ref: Option<&str> = match &text { Some(t) => Some(t.as_str()), None => None };
    assert(opt_text(text_ref) == opt_string_view(text));
    assert(crate::scanner::raw::opt_str_view(text_ref) == opt_string_view(text));
    let metadata = crate::scanner::analyzers::analyze(path, text_ref, parsed);
    let language = crate::scanner::languages::analyze(path, text_ref);
    let mut findings = findings;
    let mut notes: Vec<String> = Vec::new();
    let ghost f0 = findings_view(findings@);
    let mut more = metadata.findings;
    let ghost m = findings_view(more@);
    findings.append(&mut more);
    let JsAnalysis { findings: js_findings, incomplete_reasons: js_notes, .. } = javascript;
    let mut more = js_findings;
    let ghost j = findings_view(more@);
    let ghost f1 = findings@;
    findings.append(&mut more);
    let mut more = language.findings;
    let ghost l = findings_view(more@);
    let ghost f2 = findings@;
    findings.append(&mut more);
    let ghost f3 = findings@;
    assert(findings_view(f3) =~= f0 + m + j + l);
    let mut own: Vec<Finding> = Vec::new();
    lookup_hash(database, &mut own, &mut notes, path, sha256.as_str());
    let ghost o = own@;
    findings.append(&mut own);
    assert(findings_view(findings@) =~= findings_view(f3) + findings_view(o));
    append_notes(&mut notes, metadata.incomplete_reasons);
    append_notes(&mut notes, js_notes);
    append_notes(&mut notes, language.incomplete_reasons);
    (findings, notes)
}

} // verus!
