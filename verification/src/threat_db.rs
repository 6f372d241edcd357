//! The local database of known-malicious packages and artifacts: its
//! validation, and the findings for dependencies and files it lists.
use vstd::prelude::*;
use std::io::Read;
use vstd::utf8::encode_utf8;
use crate::model::{Confidence, DependencyRecord, Finding, FindingView, Severity, strings_view};
use crate::text::{
    char_is_control, chars_of, decimal, eq_chars, is_control, join, lower, lowercase_chars, owned,
    push_decimal, push_str, seq_starts_with, str_starts_with, clone_strings,
};

verus! {

/// The most decompressed bytes a snapshot may hold.
pub const MAX_SNAPSHOT_BYTES: usize = 67108864;

/// One malicious package and its affected versions.
#[derive(Clone, Debug)]
pub struct PackageRecord {
    pub provider: String,
    pub record_id: String,
    pub ecosystem: String,
    pub name: String,
    pub versions: Vec<String>,
    pub record_modified: String,
    pub summary: String,
    pub provenance: String,
}

/// One malicious artifact by its SHA-256.
#[derive(Clone, Debug)]
pub struct HashRecord {
    pub provider: String,
    pub record_id: String,
    pub sha256: String,
    pub provenance: String,
}

/// A threat database snapshot.
#[derive(Clone, Debug)]
pub struct Database {
    pub format_version: u32,
    pub version: String,
    pub snapshot_date: String,
    pub sources: Vec<String>,
    pub records: Vec<PackageRecord>,
    pub hashes: Vec<HashRecord>,
    pub domains: Vec<String>,
    pub urls: Vec<String>,
}

/// Text that is present, at most `maximum` bytes long, and free of control characters.
pub open spec fn valid_text_spec(s: Seq<char>, maximum: nat) -> bool {
    &&& s.len() > 0
    &&& encode_utf8(s).len() <= maximum
    &&& forall|i: int| 0 <= i < s.len() ==> !is_control(#[trigger] s[i])
}

/// Whether the text is present, at most `maximum` bytes long, and free of
/// control characters.
pub fn valid_text(value: &str, maximum: usize) -> (r: bool)
    ensures
        r == valid_text_spec(value@, maximum as nat),
{
    let v = chars_of(value);
    if v.len() == 0 || !crate::text::utf8_len_within(&v, maximum) {
        return false;
    }
    let mut i: usize = 0;
    while i < v.len()
        invariant
            i <= v@.len(),
            v@ == value@,
            forall|j: int| 0 <= j < i ==> !is_control(#[trigger] v@[j]),
        decreases v.len() - i,
    {
        if char_is_control(v[i]) {
            return false;
        }
        i = i + 1;
    }
    true
}

pub open spec fn all_valid(v: Seq<String>, maximum: nat) -> bool {
    forall|i: int| 0 <= i < v.len() ==> valid_text_spec((#[trigger] v[i])@, maximum)
}

fn all_valid_text(v: &Vec<String>, maximum: usize) -> (r: bool)
    ensures
        r == all_valid(v@, maximum as nat),
{
    let mut i: usize = 0;
    while i < v.len()
        invariant
            i <= v@.len(),
            forall|j: int| 0 <= j < i ==> valid_text_spec((#[trigger] v@[j])@, maximum as nat),
        decreases v.len() - i,
    {
        if !valid_text(v[i].as_str(), maximum) {
            return false;
        }
        i = i + 1;
    }
    true
}

/// A package record that is well formed.
pub open spec fn record_ok(r: PackageRecord) -> bool {
    &&& valid_text_spec(r.provider@, 128)
    &&& valid_text_spec(r.record_id@, 128)
    &&& valid_text_spec(r.ecosystem@, 64)
    &&& valid_text_spec(r.name@, 256)
    &&& valid_text_spec(r.summary@, 512)
    &&& valid_text_spec(r.record_modified@, 32)
    &&& valid_text_spec(r.provenance@, 2048)
    &&& seq_starts_with(r.provenance@, "https://"@)
    &&& r.versions@.len() <= 10000
    &&& all_valid(r.versions@, 128)
}

pub open spec fn is_ascii_hex_byte(b: u8) -> bool {
    (0x30 <= b && b <= 0x39) || (0x41 <= b && b <= 0x46) || (0x61 <= b && b <= 0x66)
}

/// A hash record that is well formed: its digest is 64 hexadecimal digits.
pub open spec fn hash_ok(h: HashRecord) -> bool {
    &&& valid_text_spec(h.provider@, 128)
    &&& valid_text_spec(h.record_id@, 128)
    &&& encode_utf8(h.sha256@).len() == 64
    &&& forall|i: int| 0 <= i < encode_utf8(h.sha256@).len() ==> is_ascii_hex_byte(#[trigger] encode_utf8(h.sha256@)[i])
    &&& valid_text_spec(h.provenance@, 2048)
    &&& seq_starts_with(h.provenance@, "https://"@)
}

/// A header this version reads, with record counts it accepts.
pub open spec fn header_ok(db: Database) -> bool {
    &&& db.format_version == 1
    &&& db.records@.len() <= 1000000
    &&& db.hashes@.len() <= 1000000
    &&& db.domains@.len() + db.urls@.len() <= 1000000
}

/// Every text of the database is well formed.
pub open spec fn content_ok(db: Database) -> bool {
    &&& valid_text_spec(db.version@, 128)
    &&& valid_text_spec(db.snapshot_date@, 32)
    &&& db.sources@.len() <= 64
    &&& all_valid(db.sources@, 128)
    &&& forall|i: int| 0 <= i < db.records@.len() ==> record_ok(#[trigger] db.records@[i])
    &&& forall|i: int| 0 <= i < db.hashes@.len() ==> hash_ok(#[trigger] db.hashes@[i])
    &&& all_valid(db.domains@, 2048)
    &&& all_valid(db.urls@, 2048)
}

pub open spec fn unsupported_message() -> Seq<char> {
    "embedded threat database header or record count is unsupported"@
}

pub open spec fn invalid_message() -> Seq<char> {
    "embedded threat database contains an invalid record"@
}

/// The verdict on a parsed snapshot.
pub open spec fn database_verdict(db: Database) -> Result<(), Seq<char>> {
    if !header_ok(db) {
        Err(unsupported_message())
    } else if !content_ok(db) {
        Err(invalid_message())
    } else {
        Ok(())
    }
}

fn record_valid(r: &PackageRecord) -> (b: bool)
    ensures
        b == record_ok(*r),
{
    valid_text(r.provider.as_str(), 128) && valid_text(r.record_id.as_str(), 128)
        && valid_text(r.ecosystem.as_str(), 64) && valid_text(r.name.as_str(), 256)
        && valid_text(r.summary.as_str(), 512) && valid_text(r.record_modified.as_str(), 32)
        && valid_text(r.provenance.as_str(), 2048) && str_starts_with(r.provenance.as_str(), "https://")
        && r.versions.len() <= 10000 && all_valid_text(&r.versions, 128)
}

fn hash_valid(h: &HashRecord) -> (b: bool)
    ensures
        b == hash_ok(*h),
{
    if !(valid_text(h.provider.as_str(), 128) && valid_text(h.record_id.as_str(), 128)) {
        return false;
    }
    let bytes = h.sha256.as_str().as_bytes();
    if bytes.len() != 64 {
        return false;
    }
    let mut i: usize = 0;
    while i < 64
        invariant
            i <= 64,
            bytes@.len() == 64,
            bytes@ == encode_utf8(h.sha256@),
            forall|j: int| 0 <= j < i ==> is_ascii_hex_byte(#[trigger] bytes@[j]),
        decreases 64 - i,
    {
        let b = bytes[i];
        if !((0x30 <= b && b <= 0x39) || (0x41 <= b && b <= 0x46) || (0x61 <= b && b <= 0x66)) {
            return false;
        }
        i = i + 1;
    }
    valid_text(h.provenance.as_str(), 2048) && str_starts_with(h.provenance.as_str(), "https://")
}

/// Checks a parsed snapshot's header, counts and every text it holds.
pub fn check_database(db: &Database) -> (r: Result<(), String>)
    ensures
        match r {
            Ok(()) => database_verdict(*db) == Ok::<(), Seq<char>>(()),
            Err(e) => database_verdict(*db) == Err::<(), Seq<char>>(e@),
        },
{
    if db.format_version != 1 || db.records.len() > 1000000 || db.hashes.len() > 1000000
        || db.domains.len() > 1000000 || db.urls.len() > 1000000 - db.domains.len()
    {
        return Err(owned("embedded threat database header or record count is unsupported"));
    }
    if !valid_text(db.version.as_str(), 128) || !valid_text(db.snapshot_date.as_str(), 32)
        || db.sources.len() > 64 || !all_valid_text(&db.sources, 128)
    {
        return Err(owned("embedded threat database contains an invalid record"));
    }
    let mut i: usize = 0;
    while i < db.records.len()
        invariant
            header_ok(*db),
            valid_text_spec(db.version@, 128),
            valid_text_spec(db.snapshot_date@, 32),
            db.sources@.len() <= 64,
            all_valid(db.sources@, 128),
            i <= db.records@.len(),
            forall|j: int| 0 <= j < i ==> record_ok(#[trigger] db.records@[j]),
        decreases db.records.len() - i,
    {
        if !record_valid(&db.records[i]) {
            return Err(owned("embedded threat database contains an invalid record"));
        }
        i = i + 1;
    }
    let mut k: usize = 0;
    while k < db.hashes.len()
        invariant
            header_ok(*db),
            valid_text_spec(db.version@, 128),
            valid_text_spec(db.snapshot_date@, 32),
            db.sources@.len() <= 64,
            all_valid(db.sources@, 128),
            forall|j: int| 0 <= j < db.records@.len() ==> record_ok(#[trigger] db.records@[j]),
            k <= db.hashes@.len(),
            forall|j: int| 0 <= j < k ==> hash_ok(#[trigger] db.hashes@[j]),
        decreases db.hashes.len() - k,
    {
        if !hash_valid(&db.hashes[k]) {
            return Err(owned("embedded threat database contains an invalid record"));
        }
        k = k + 1;
    }
    if !all_valid_text(&db.domains, 2048) || !all_valid_text(&db.urls, 2048) {
        return Err(owned("embedded threat database contains an invalid record"));
    }
    Ok(())
}


/// What decompressing gzip data yields, read up to `limit` bytes, or the
/// error's text.
pub uninterp spec fn gunzip_result(data: Seq<u8>, limit: nat) -> Result<Seq<u8>, Seq<char>>;

/// `flate2::read::GzDecoder` read through `take(limit)` to its end: the
/// decompressed bytes, at most `limit` of them, or the I/O error's text.
#[verifier::external_body]
pub(crate) fn gunzip_limited(data: &[u8], limit: u64) -> (r: Result<Vec<u8>, String>)
    ensures
        match r {
            Ok(v) => gunzip_result(data@, limit as nat) == Ok::<Seq<u8>, Seq<char>>(v@) && v@.len() <= limit,
            Err(e) => gunzip_result(data@, limit as nat) == Err::<Seq<u8>, Seq<char>>(e@),
        },
{
    let mut content = Vec::new();
    flate2::read::GzDecoder::new(data).take(limit).read_to_end(&mut content).map(|_| content).map_err(|error| error.to_string())
}

/// The verdict on a compressed snapshot: its decompressed bytes, if they fit.
pub open spec fn snapshot_verdict(data: Seq<u8>) -> Result<Seq<u8>, Seq<char>> {
    match gunzip_result(data, (MAX_SNAPSHOT_BYTES + 1) as nat) {
        Err(e) => Err("cannot decompress embedded threat database: "@ + e),
        Ok(content) => if content.len() > MAX_SNAPSHOT_BYTES {
            Err("embedded threat database exceeds its 64 MiB limit"@)
        } else {
            Ok(content)
        },
    }
}

/// Decompresses a snapshot, refusing one larger than the limit.
pub fn decompress_snapshot(data: &[u8]) -> (r: Result<Vec<u8>, String>)
    ensures
        match r {
            Ok(v) => snapshot_verdict(data@) == Ok::<Seq<u8>, Seq<char>>(v@),
            Err(e) => snapshot_verdict(data@) == Err::<Seq<u8>, Seq<char>>(e@),
        },
{
    match gunzip_limited(data, (MAX_SNAPSHOT_BYTES + 1) as u64) {
        Err(error) => {
            let mut e = owned("cannot decompress embedded threat database: ");
            push_str(&mut e, error.as_str());
            Err(e)
        },
        Ok(content) => {
            if content.len() > MAX_SNAPSHOT_BYTES {
                Err(owned("embedded threat database exceeds its 64 MiB limit"))
            } else {
                Ok(content)
            }
        },
    }
}

/// The record lists the dependency's exact version under its ecosystem and
/// name, compared without ASCII case.
pub open spec fn record_matches(r: PackageRecord, ecosystem: Seq<char>, name: Seq<char>, version: Seq<char>) -> bool {
    lower(r.ecosystem@) == lower(ecosystem) && lower(r.name@) == lower(name)
        && strings_view(r.versions@).contains(version)
}

/// The first record from the `k`-th on that matches.
pub open spec fn first_match(records: Seq<PackageRecord>, ecosystem: Seq<char>, name: Seq<char>, version: Seq<char>, k: int) -> Option<PackageRecord>
    decreases records.len() - k,
{
    if k < 0 || k >= records.len() {
        None
    } else if record_matches(records[k], ecosystem, name, version) {
        Some(records[k])
    } else {
        first_match(records, ecosystem, name, version, k + 1)
    }
}

proof fn lemma_first_match_case(records: Seq<PackageRecord>, e1: Seq<char>, n1: Seq<char>, e2: Seq<char>, n2: Seq<char>,
    version: Seq<char>, k: int)
    requires
        lower(e1) == lower(e2),
        lower(n1) == lower(n2),
    ensures
        first_match(records, e1, n1, version, k) == first_match(records, e2, n2, version, k),
    decreases records.len() - k,
{
    if 0 <= k < records.len() {
        lemma_first_match_case(records, e1, n1, e2, n2, version, k + 1);
    }
}

/// Packages are matched without regard to the ASCII case of their
/// ecosystem and name (the version must match exactly): two dependencies
/// that differ only there match the same record, and one without a
/// version matches none.
pub proof fn lemma_package_match_ignores_case(db: Database, d1: DependencyRecord, d2: DependencyRecord)
    requires
        lower(d1.ecosystem@) == lower(d2.ecosystem@),
        lower(d1.name@) == lower(d2.name@),
        d1.version == d2.version,
    ensures
        package_verdict(db, d1).is_some() == package_verdict(db, d2).is_some(),
        d1.version is None ==> package_verdict(db, d1).is_none(),
{
    match d1.version {
        Some(v) => lemma_first_match_case(db.records@, d1.ecosystem@, d1.name@, d2.ecosystem@, d2.name@, v@, 0),
        None => {},
    }
}

/// The finding for a dependency whose exact version a record lists.
pub open spec fn package_finding_view(d: DependencyRecord, version: Seq<char>, r: PackageRecord) -> FindingView {
    FindingView {
        id: "THREAT-KNOWN-MALICIOUS-PACKAGE"@,
        severity: Severity::Critical,
        confidence: Confidence::VeryHigh,
        score: 100,
        title: "Exact dependency version is in the local malicious-package database"@,
        message: d.name@ + "@"@ + version + " matches an exact affected version from "@ + r.provider@ + "."@,
        file: Some(d.source_file@),
        line: None,
        evidence: seq![
            "ecosystem: "@ + r.ecosystem@,
            "record: "@ + r.record_id@,
            "affected version: "@ + version,
            "record modified: "@ + r.record_modified@,
            "summary: "@ + r.summary@,
            "provenance: "@ + r.provenance@,
        ],
    }
}

/// The finding for a dependency, if the database lists its exact version.
pub open spec fn package_verdict(db: Database, d: DependencyRecord) -> Option<FindingView> {
    match d.version {
        None => None,
        Some(v) => match first_match(db.records@, d.ecosystem@, d.name@, v@, 0) {
            Some(r) => Some(package_finding_view(d, v@, r)),
            None => None,
        },
    }
}

fn labelled(label: &str, value: &str) -> (r: String)
    ensures
        r@ == label@ + value@,
{
    let mut s = owned(label);
    push_str(&mut s, value);
    s
}

pub(crate) fn contains_string(v: &Vec<String>, x: &str) -> (r: bool)
    ensures
        r == strings_view(v@).contains(x@),
{
    let mut i: usize = 0;
    while i < v.len()
        invariant
            i <= v@.len(),
            forall|j: int| 0 <= j < i ==> strings_view(v@)[j] != x@,
        decreases v.len() - i,
    {
        if crate::text::str_eq(v[i].as_str(), x) {
            assert(strings_view(v@)[i as int] == x@);
            return true;
        }
        i = i + 1;
    }
    false
}

/// The finding for a dependency whose exact version the database lists.
pub fn package_finding(db: &Database, dependency: &DependencyRecord) -> (r: Option<Finding>)
    ensures
        crate::scanner::classifier::opt_finding_view(r) == package_verdict(*db, *dependency),
{
    let version = match &dependency.version {
        None => return None,
        Some(v) => v,
    };
    let eco = lowercase_chars(&chars_of(dependency.ecosystem.as_str()));
    let name = lowercase_chars(&chars_of(dependency.name.as_str()));
    let mut k: usize = 0;
    while k < db.records.len()
        invariant
            k <= db.records@.len(),
            eco@ == lower(dependency.ecosystem@),
            name@ == lower(dependency.name@),
            dependency.version == Some(*version),
            first_match(db.records@, dependency.ecosystem@, dependency.name@, version@, 0)
                == first_match(db.records@, dependency.ecosystem@, dependency.name@, version@, k as int),
        decreases db.records.len() - k,
    {
        let r = &db.records[k];
        let matched = eq_chars(&lowercase_chars(&chars_of(r.ecosystem.as_str())), &eco)
            && eq_chars(&lowercase_chars(&chars_of(r.name.as_str())), &name)
            && contains_string(&r.versions, version.as_str());
        if matched {
            let mut message = dependency.name.clone();
            push_str(&mut message, "@");
            push_str(&mut message, version.as_str());
            push_str(&mut message, " matches an exact affected version from ");
            push_str(&mut message, r.provider.as_str());
            push_str(&mut message, ".");
            let evidence = vec![
                labelled("ecosystem: ", r.ecosystem.as_str()),
                labelled("record: ", r.record_id.as_str()),
                labelled("affected version: ", version.as_str()),
                labelled("record modified: ", r.record_modified.as_str()),
                labelled("summary: ", r.summary.as_str()),
                labelled("provenance: ", r.provenance.as_str()),
            ];
            let f = Finding {
                id: owned("THREAT-KNOWN-MALICIOUS-PACKAGE"),
                severity: Severity::Critical,
                confidence: Confidence::VeryHigh,
                score: 100,
                title: owned("Exact dependency version is in the local malicious-package database"),
                message,
                file: Some(dependency.source_file.clone()),
                line: None,
                evidence,
            };
            assert(strings_view(f.evidence@) =~= package_finding_view(*dependency, version@, *r).evidence);
            assert(f@ == package_finding_view(*dependency, version@, *r));
            return Some(f);
        }
        k = k + 1;
    }
    None
}

/// The last hash record from before index `k` whose digest matches, compared
/// without ASCII case.
pub open spec fn last_hash(hashes: Seq<HashRecord>, sha256: Seq<char>, k: int) -> Option<HashRecord>
    decreases k,
{
    if k <= 0 || k > hashes.len() {
        None
    } else if lower(hashes[k - 1].sha256@) == lower(sha256) {
        Some(hashes[k - 1])
    } else {
        last_hash(hashes, sha256, k - 1)
    }
}

/// The finding for a file whose digest a hash record lists.
pub open spec fn hash_finding_view(path: Seq<char>, h: HashRecord) -> FindingView {
    FindingView {
        id: "THREAT-KNOWN-MALICIOUS-HASH"@,
        severity: Severity::Critical,
        confidence: Confidence::VeryHigh,
        score: 100,
        title: "File hash is in the local malicious-artifact database"@,
        message: "The SHA-256 matches a hash reported by "@ + h.provider@ + "."@,
        file: Some(path),
        line: None,
        evidence: seq!["record: "@ + h.record_id@, "SHA-256: "@ + h.sha256@, "provenance: "@ + h.provenance@],
    }
}

/// The finding for a file, if the database lists its digest.
pub open spec fn hash_verdict(db: Database, path: Seq<char>, sha256: Seq<char>) -> Option<FindingView> {
    match last_hash(db.hashes@, sha256, db.hashes@.len() as int) {
        Some(h) => Some(hash_finding_view(path, h)),
        None => None,
    }
}

/// The finding for a file whose SHA-256 the database lists.
pub fn hash_finding(db: &Database, path: &str, sha256: &str) -> (r: Option<Finding>)
    ensures
        crate::scanner::classifier::opt_finding_view(r) == hash_verdict(*db, path@, sha256@),
{
    let wanted = lowercase_chars(&chars_of(sha256));
    let mut k: usize = db.hashes.len();
    while k > 0
        invariant
            k <= db.hashes@.len(),
            wanted@ == lower(sha256@),
            last_hash(db.hashes@, sha256@, db.hashes@.len() as int) == last_hash(db.hashes@, sha256@, k as int),
        decreases k,
    {
        let h = &db.hashes[k - 1];
        if eq_chars(&lowercase_chars(&chars_of(h.sha256.as_str())), &wanted) {
            let mut message = owned("The SHA-256 matches a hash reported by ");
            push_str(&mut message, h.provider.as_str());
            push_str(&mut message, ".");
            let evidence = vec![
                labelled("record: ", h.record_id.as_str()),
                labelled("SHA-256: ", h.sha256.as_str()),
                labelled("provenance: ", h.provenance.as_str()),
            ];
            let f = Finding {
                id: owned("THREAT-KNOWN-MALICIOUS-HASH"),
                severity: Severity::Critical,
                confidence: Confidence::VeryHigh,
                score: 100,
                title: owned("File hash is in the local malicious-artifact database"),
                message,
                file: Some(owned(path)),
                line: None,
                evidence,
            };
            assert(strings_view(f.evidence@) =~= hash_finding_view(path@, *h).evidence);
            assert(f@ == hash_finding_view(path@, *h));
            return Some(f);
        }
        k = k - 1;
    }
    None
}

/// The summary of a database that `status` prints.
pub open spec fn status_text(db: Database) -> Seq<char> {
    "Threat database "@ + db.version@ + "\nSnapshot date: "@ + db.snapshot_date@
        + "\nRecords: "@ + decimal(db.records@.len()) + " package records, "@
        + decimal(db.hashes@.len()) + " hashes, "@ + decimal(db.domains@.len()) + " domains, "@
        + decimal(db.urls@.len()) + " URLs\nSources: "@ + join(strings_view(db.sources@), ", "@)
        + "\nVerification: embedded in this PreflightX build\nCoverage: seed snapshot; not a complete OpenSSF feed\n"@
}

/// A summary of the database: version, date, record counts and sources.
pub fn status(db: &Database) -> (r: String)
    ensures
        r@ == status_text(*db),
{
    let mut s = owned("Threat database ");
    push_str(&mut s, db.version.as_str());
    push_str(&mut s, "\nSnapshot date: ");
    push_str(&mut s, db.snapshot_date.as_str());
    push_str(&mut s, "\nRecords: ");
    push_decimal(&mut s, db.records.len() as u64);
    push_str(&mut s, " package records, ");
    push_decimal(&mut s, db.hashes.len() as u64);
    push_str(&mut s, " hashes, ");
    push_decimal(&mut s, db.domains.len() as u64);
    push_str(&mut s, " domains, ");
    push_decimal(&mut s, db.urls.len() as u64);
    push_str(&mut s, " URLs\nSources: ");
    let ghost start = s@;
    let mut i: usize = 0;
    while i < db.sources.len()
        invariant
            i <= db.sources@.len(),
            s@ == start + join(strings_view(db.sources@).subrange(0, i as int), ", "@),
        decreases db.sources.len() - i,
    {
        if i > 0 {
            push_str(&mut s, ", ");
        }
        push_str(&mut s, db.sources[i].as_str());
        let ghost sv = strings_view(db.sources@);
        assert(sv.subrange(0, i + 1).drop_last() =~= sv.subrange(0, i as int));
        assert(s@ =~= start + join(sv.subrange(0, i + 1), ", "@));
        i = i + 1;
    }
    assert(strings_view(db.sources@).subrange(0, db.sources@.len() as int) =~= strings_view(db.sources@));
    push_str(&mut s, "\nVerification: embedded in this PreflightX build\nCoverage: seed snapshot; not a complete OpenSSF feed\n");
    assert(s@ =~= status_text(*db));
    s
}

} // verus!
