//! Expansion of ZIP, TAR and gzip archives found in the scanned tree or
//! downloaded, within member, byte, depth and time limits.
use vstd::prelude::*;
use vstd::utf8::{decode_utf8, valid_utf8};
use crate::model::strings_view;
use crate::scanner::classifier::utf8_text;
use crate::scanner::graph::{components, path_components};
use crate::scanner::raw::{Split, tokens, token_spans};
use crate::text::{
    chars_of, decimal, owned, push_decimal, push_str, seq_ends_with, seq_starts_with, starts_with_bytes,
    string_from_chars, vecs_view, chars_end_with_str, slice_chars, str_starts_with,
};
use crate::threat_db::{gunzip_limited, gunzip_result};

verus! {

pub const MAX_MEMBER_BYTES: u64 = 33554432;
pub const MAX_EXPANDED_BYTES: u64 = 536870912;
pub const MAX_MEMBERS: usize = 50000;
pub const MAX_PATH_BYTES: usize = 4096;
pub const MAX_COMPRESSION_RATIO: u64 = 1000;

/// The bounds of one expansion.
#[derive(Clone, Copy, Debug)]
pub struct Limits {
    /// How many archives deep members are expanded.
    pub depth: usize,
    pub members: usize,
    pub expanded_bytes: u64,
    pub member_bytes: u64,
    /// How long the expansion may take, in milliseconds.
    pub time_limit_ms: u64,
}

/// A member of an archive, named by the archive's path, `!/` and its own.
pub struct VirtualFile {
    pub path: String,
    pub bytes: Vec<u8>,
}

/// The members an expansion yields and why it is incomplete.
pub struct ResultSet {
    pub files: Vec<VirtualFile>,
    pub incomplete_reasons: Vec<String>,
}

/// A control character: the general category Cc.
pub open spec fn is_control(c: char) -> bool {
    (c as u32) <= 0x1f || (0x7f <= (c as u32) && (c as u32) <= 0x9f)
}

/// A path with each backslash made a slash.
pub open spec fn slashed(s: Seq<char>) -> Seq<char> {
    s.map_values(|c: char| if c == '\\' { '/' } else { c })
}

/// A component that climbs or names a drive or stream.
pub open spec fn unsafe_component(part: Seq<char>) -> bool {
    part == seq!['.', '.'] || part.contains(':')
}

/// The verdict on an archive member's raw path: the path with slashes, or
/// why it is refused.
pub open spec fn member_path_verdict(raw: Seq<u8>) -> Result<Seq<char>, Seq<char>> {
    if raw.len() == 0 || raw.len() > MAX_PATH_BYTES {
        Err("archive member has an invalid path length"@)
    } else if !valid_utf8(raw) {
        Err("archive member path is not valid UTF-8"@)
    } else {
        let path = decode_utf8(raw);
        let normalized = slashed(path);
        if (normalized.len() > 0 && normalized[0] == '/')
            || (exists|i: int| 0 <= i < normalized.len() && is_control(#[trigger] normalized[i]))
            || (exists|i: int| 0 <= i < tokens(normalized, Split::Slash).len()
                && unsafe_component(#[trigger] tokens(normalized, Split::Slash)[i]))
        {
            Err("archive traversal path rejected: "@ + path)
        } else {
            Ok(normalized)
        }
    }
}

/// Whether `c` is a control character.
fn control(c: char) -> (r: bool)
    ensures
        r == is_control(c),
{
    let v = c as u32;
    v <= 0x1f || (0x7f <= v && v <= 0x9f)
}

/// Whether the characters of `v` from `lo` to `hi` are `..` or hold a colon.
fn unsafe_span(v: &[char], lo: usize, hi: usize) -> (r: bool)
    requires
        lo <= hi <= v@.len(),
    ensures
        r == unsafe_component(v@.subrange(lo as int, hi as int)),
{
    let ghost part = v@.subrange(lo as int, hi as int);
    if hi - lo == 2 && v[lo] == '.' && v[lo + 1] == '.' {
        assert(part =~= seq!['.', '.']);
        return true;
    }
    assert(part != seq!['.', '.']) by {
        if part =~= seq!['.', '.'] {
            assert(part[0] == v@[lo as int] && part[1] == v@[lo + 1]);
        }
    }
    let mut i: usize = lo;
    while i < hi
        invariant
            lo <= i <= hi <= v@.len(),
            part == v@.subrange(lo as int, hi as int),
            forall|j: int| 0 <= j < i - lo ==> part[j] != ':',
        decreases hi - i,
    {
        if v[i] == ':' {
            assert(part[i - lo] == ':');
            return true;
        }
        i = i + 1;
    }
    false
}

/// The member's path with slashes for backslashes, or why it is refused.
pub fn safe_member_path(raw: &[u8]) -> (r: Result<String, String>)
    ensures
        match r {
            Ok(p) => member_path_verdict(raw@) == Ok::<Seq<char>, Seq<char>>(p@),
            Err(e) => member_path_verdict(raw@) == Err::<Seq<char>, Seq<char>>(e@),
        },
{
    if raw.len() == 0 || raw.len() > MAX_PATH_BYTES {
        return Err(owned("archive member has an invalid path length"));
    }
    let path = match utf8_text(raw) {
        Some(p) => p,
        None => return Err(owned("archive member path is not valid UTF-8")),
    };
    let chars = chars_of(path.as_str());
    let mut normalized: Vec<char> = Vec::new();
    let mut i: usize = 0;
    while i < chars.len()
        invariant
            i <= chars@.len(),
            normalized@ == slashed(chars@.subrange(0, i as int)),
        decreases chars.len() - i,
    {
        let c = chars[i];
        normalized.push(if c == '\\' { '/' } else { c });
        assert(slashed(chars@.subrange(0, i + 1)) =~= slashed(chars@.subrange(0, i as int)).push(if c == '\\' { '/' } else { c }));
        i = i + 1;
    }
    assert(chars@.subrange(0, chars@.len() as int) =~= chars@);
    let ghost nv = normalized@;
    let mut bad = normalized.len() > 0 && normalized[0] == '/';
    let mut k: usize = 0;
    while k < normalized.len() && !bad
        invariant
            k <= nv.len(),
            nv == normalized@,
            !bad ==> forall|j: int| 0 <= j < k ==> !is_control(#[trigger] nv[j]),
            !bad ==> !(nv.len() > 0 && nv[0] == '/'),
            bad ==> (nv.len() > 0 && nv[0] == '/') || exists|j: int| 0 <= j < nv.len() && is_control(#[trigger] nv[j]),
        decreases nv.len() - k,
    {
        if control(normalized[k]) {
            bad = true;
        }
        k = k + 1;
    }
    if !bad {
        let spans = token_spans(&normalized, Split::Slash);
        let ghost parts = tokens(nv, Split::Slash);
        assert(parts.len() == spans@.len());
        let mut t: usize = 0;
        while t < spans.len() && !bad
            invariant
                t <= spans@.len(),
                nv == normalized@,
                crate::text::span_views(nv, spans@) == parts,
                forall|q: int| 0 <= q < spans@.len() ==> (#[trigger] spans@[q]).0 <= spans@[q].1 <= nv.len(),
                !bad ==> forall|q: int| 0 <= q < t ==> !unsafe_component(#[trigger] parts[q]),
                !bad ==> !(nv.len() > 0 && nv[0] == '/'),
                !bad ==> forall|j: int| 0 <= j < nv.len() ==> !is_control(#[trigger] nv[j]),
                bad ==> exists|q: int| 0 <= q < parts.len() && unsafe_component(#[trigger] parts[q]),
            decreases spans.len() - t,
        {
            let (lo, hi) = spans[t];
            assert(parts[t as int] == nv.subrange(lo as int, hi as int));
            if unsafe_span(&normalized, lo, hi) {
                bad = true;
            }
            t = t + 1;
        }
    }
    if bad {
        let mut e = owned("archive traversal path rejected: ");
        push_str(&mut e, path.as_str());
        return Err(e);
    }
    proof {
        assert(nv == slashed(decode_utf8(raw@)));
        assert(!(nv.len() > 0 && nv[0] == '/'));
        assert(forall|j: int| 0 <= j < nv.len() ==> !is_control(#[trigger] nv[j]));
        assert(forall|q: int| 0 <= q < tokens(nv, Split::Slash).len() ==> !unsafe_component(#[trigger] tokens(nv, Split::Slash)[q]));
    }
    Ok(string_from_chars(&normalized))
}

/// The decompressed size is over the ratio limit for the compressed size.
pub open spec fn over_ratio_spec(size: u64, compressed: u64) -> bool {
    (compressed == 0 && size > 0) || (compressed > 0 && size > compressed * MAX_COMPRESSION_RATIO)
}

/// Whether `size` bytes from `compressed` bytes exceed the ratio limit.
pub fn over_ratio(size: u64, compressed: u64) -> (r: bool)
    ensures
        r == over_ratio_spec(size, compressed),
{
    if compressed == 0 {
        size > 0
    } else if compressed > u64::MAX / MAX_COMPRESSION_RATIO {
        false
    } else {
        size > compressed * MAX_COMPRESSION_RATIO
    }
}

/// What the central directory of a ZIP archive says of one member.
pub struct ZipMember {
    pub name: Vec<u8>,
    pub is_dir: bool,
    pub is_symlink: bool,
    pub size: u64,
    pub compressed_size: u64,
}

/// How many members `zip::ZipArchive::new` finds in the bytes, or its error's text.
pub uninterp spec fn zip_count(bytes: Seq<u8>) -> Result<nat, Seq<char>>;

/// What `zip::ZipArchive::by_index` reports of the member at `index`: its
/// raw name, whether it is a directory and a symlink, its size and its
/// compressed size; or the error's text.
pub uninterp spec fn zip_member_of(bytes: Seq<u8>, index: nat) -> Result<(Seq<u8>, bool, bool, u64, u64), Seq<char>>;

/// The content of the member at `index`, as reading it to its end yields
/// it, or the error's text.
pub uninterp spec fn zip_content_of(bytes: Seq<u8>, index: nat) -> Result<Seq<u8>, Seq<char>>;

/// `zip::ZipArchive::new` over the bytes, then `len`.
#[verifier::external_body]
fn zip_open(bytes: &[u8]) -> (r: Result<usize, String>)
    ensures
        match r {
            Ok(n) => zip_count(bytes@) == Ok::<nat, Seq<char>>(n as nat),
            Err(e) => zip_count(bytes@) == Err::<nat, Seq<char>>(e@),
        },
{
    zip::ZipArchive::new(std::io::Cursor::new(bytes)).map(|archive| archive.len()).map_err(|error| error.to_string())
}

/// `zip::ZipArchive::by_index` on the archive over the bytes, and the
/// member's name, kind and sizes.
#[verifier::external_body]
fn zip_member(bytes: &[u8], index: usize) -> (r: Result<ZipMember, String>)
    ensures
        match r {
            Ok(m) => zip_member_of(bytes@, index as nat)
                == Ok::<(Seq<u8>, bool, bool, u64, u64), Seq<char>>((m.name@, m.is_dir, m.is_symlink, m.size, m.compressed_size)),
            Err(e) => zip_member_of(bytes@, index as nat) == Err::<(Seq<u8>, bool, bool, u64, u64), Seq<char>>(e@),
        },
{
    let mut archive = zip::ZipArchive::new(std::io::Cursor::new(bytes)).map_err(|error| error.to_string())?;
    let entry = archive.by_index(index).map_err(|error| error.to_string())?;
    Ok(ZipMember {
        name: entry.name_raw().to_vec(),
        is_dir: entry.is_dir(),
        is_symlink: entry.is_symlink(),
        size: entry.size(),
        compressed_size: entry.compressed_size(),
    })
}

/// The member at `index` of the archive over the bytes, read to its end.
#[verifier::external_body]
fn zip_content(bytes: &[u8], index: usize) -> (r: Result<Vec<u8>, String>)
    ensures
        match r {
            Ok(c) => zip_content_of(bytes@, index as nat) == Ok::<Seq<u8>, Seq<char>>(c@),
            Err(e) => zip_content_of(bytes@, index as nat) == Err::<Seq<u8>, Seq<char>>(e@),
        },
{
    let mut archive = zip::ZipArchive::new(std::io::Cursor::new(bytes)).map_err(|error| error.to_string())?;
    let mut entry = archive.by_index(index).map_err(|error| error.to_string())?;
    let mut content = Vec::new();
    std::io::Read::read_to_end(&mut entry, &mut content).map_err(|error| error.to_string())?;
    Ok(content)
}

/// The type of a TAR member, as its header names it.
#[derive(Clone, Copy, Debug, PartialEq, Eq, Structural)]
pub enum TarKind {
    Directory,
    Symlink,
    HardLink,
    Regular,
    Contiguous,
    Other,
}

/// What a TAR header says of one member.
pub struct TarMember {
    pub path: Vec<u8>,
    pub kind: TarKind,
    pub size: u64,
}

/// The member at `index` of a TAR archive as `tar::Archive::entries` yields
/// it: nothing past the end, the member's path, kind and size, or the
/// member's error; or the error of `entries` itself.
pub uninterp spec fn tar_member_of(bytes: Seq<u8>, index: nat) -> Result<Option<Result<(Seq<u8>, TarKind, u64), Seq<char>>>, Seq<char>>;

/// The content of the member at `index`, read to its end, or the error's text.
pub uninterp spec fn tar_content_of(bytes: Seq<u8>, index: nat) -> Result<Seq<u8>, Seq<char>>;

/// `tar::Archive::entries` over the bytes, then its `index`-th item: its
/// raw path, the entry type of its header (`Directory`, `Symlink`, `Link`,
/// `Regular` and `Continuous` each to its own kind, any other to `Other`)
/// and its size.
#[verifier::external_body]
fn tar_member(bytes: &[u8], index: usize) -> (r: Result<Option<Result<TarMember, String>>, String>)
    ensures
        match r {
            Err(e) => tar_member_of(bytes@, index as nat) == Err::<Option<Result<(Seq<u8>, TarKind, u64), Seq<char>>>, Seq<char>>(e@),
            Ok(None) => tar_member_of(bytes@, index as nat) == Ok::<Option<Result<(Seq<u8>, TarKind, u64), Seq<char>>>, Seq<char>>(None),
            Ok(Some(Err(e))) => tar_member_of(bytes@, index as nat)
                == Ok::<Option<Result<(Seq<u8>, TarKind, u64), Seq<char>>>, Seq<char>>(Some(Err(e@))),
            Ok(Some(Ok(m))) => tar_member_of(bytes@, index as nat)
                == Ok::<Option<Result<(Seq<u8>, TarKind, u64), Seq<char>>>, Seq<char>>(Some(Ok((m.path@, m.kind, m.size)))),
        },
{
    let mut archive = tar::Archive::new(std::io::Cursor::new(bytes));
    let mut entries = archive.entries().map_err(|error| error.to_string())?;
    Ok(entries.nth(index).map(|item| item.map_err(|error| error.to_string()).map(|entry| {
        let kind = match entry.header().entry_type() {
            tar::EntryType::Directory => TarKind::Directory,
            tar::EntryType::Symlink => TarKind::Symlink,
            tar::EntryType::Link => TarKind::HardLink,
            tar::EntryType::Regular => TarKind::Regular,
            tar::EntryType::Continuous => TarKind::Contiguous,
            _ => TarKind::Other,
        };
        TarMember { path: entry.path_bytes().to_vec(), kind, size: entry.size() }
    })))
}

/// The member at `index` of the TAR archive over the bytes, read to its end.
#[verifier::external_body]
fn tar_content(bytes: &[u8], index: usize) -> (r: Result<Vec<u8>, String>)
    ensures
        match r {
            Ok(c) => tar_content_of(bytes@, index as nat) == Ok::<Seq<u8>, Seq<char>>(c@),
            Err(e) => tar_content_of(bytes@, index as nat) == Err::<Seq<u8>, Seq<char>>(e@),
        },
{
    let mut archive = tar::Archive::new(std::io::Cursor::new(bytes));
    let mut entries = archive.entries().map_err(|error| error.to_string())?;
    let mut entry = entries.nth(index).ok_or_else(|| "missing TAR member".to_owned())?.map_err(|error| error.to_string())?;
    let mut content = Vec::new();
    std::io::Read::read_to_end(&mut entry, &mut content).map_err(|error| error.to_string())?;
    Ok(content)
}

#[verifier::external_type_specification]
#[verifier::external_body]
pub struct ExInstant(std::time::Instant);

/// `std::time::Instant::now`: a reading of the monotonic clock. Nothing is
/// stated of it.
#[verifier::external_body]
fn clock_now() -> (r: std::time::Instant) {
    std::time::Instant::now()
}

/// `std::time::Instant::elapsed` on a reading, in whole milliseconds and at
/// most `u64::MAX`. Nothing is stated of the result: it depends on the
/// clock.
#[verifier::external_body]
fn elapsed_ms(start: &std::time::Instant) -> (r: u64) {
    u64::try_from(start.elapsed().as_millis()).unwrap_or(u64::MAX)
}

pub open spec fn min_nat(a: nat, b: nat) -> nat {
    if a <= b { a } else { b }
}

/// The most members an expansion keeps, before the members of nested
/// archives that complete their parent.
pub open spec fn member_cap(l: Limits) -> nat {
    min_nat(l.members as nat, MAX_MEMBERS as nat)
}

/// The most bytes all kept members hold together.
pub open spec fn byte_cap(l: Limits) -> nat {
    min_nat(l.expanded_bytes as nat, MAX_EXPANDED_BYTES as nat)
}

/// The most bytes one kept member holds.
pub open spec fn size_cap(l: Limits) -> nat {
    min_nat(l.member_bytes as nat, MAX_MEMBER_BYTES as nat)
}

/// The bytes of all the members.
pub open spec fn total_bytes(files: Seq<VirtualFile>) -> nat
    decreases files.len(),
{
    if files.len() == 0 { 0 } else { total_bytes(files.drop_last()) + files.last().bytes@.len() }
}

/// Every member is within the size limit and is named under `top`.
pub open spec fn members_ok(files: Seq<VirtualFile>, l: Limits, top: Seq<char>) -> bool {
    forall|i: int| 0 <= i < files.len() ==> (#[trigger] files[i]).bytes@.len() <= size_cap(l)
        && seq_starts_with(files[i].path@, top + "!/"@)
}

/// A path is `top` itself or a member under it.
pub open spec fn under(path: Seq<char>, top: Seq<char>) -> bool {
    path == top || seq_starts_with(path, top + "!/"@)
}

/// The bytes begin like an archive the expansion reads: ZIP, gzip or TAR.
pub open spec fn archive_magic(b: Seq<u8>) -> bool {
    seq_starts_with(b, seq![0x50u8, 0x4bu8, 0x03u8, 0x04u8])
        || seq_starts_with(b, seq![0x50u8, 0x4bu8, 0x05u8, 0x06u8])
        || seq_starts_with(b, seq![0x1fu8, 0x8bu8])
        || (b.len() >= 512 && b.subrange(257, 262) == seq![0x75u8, 0x73u8, 0x74u8, 0x61u8, 0x72u8])
}

/// The bytes begin like a ZIP archive.
pub open spec fn zip_magic(b: Seq<u8>) -> bool {
    seq_starts_with(b, seq![0x50u8, 0x4bu8, 0x03u8, 0x04u8]) || seq_starts_with(b, seq![0x50u8, 0x4bu8, 0x05u8, 0x06u8])
}

/// The bytes begin like a gzip stream.
pub open spec fn gzip_magic(b: Seq<u8>) -> bool {
    seq_starts_with(b, seq![0x1fu8, 0x8bu8])
}

/// The bytes begin like a TAR archive.
pub open spec fn tar_magic(b: Seq<u8>) -> bool {
    b.len() >= 512 && b.subrange(257, 262) == seq![0x75u8, 0x73u8, 0x74u8, 0x61u8, 0x72u8]
}

/// The most bytes a gzip member may decompress to once `spent` bytes are
/// reserved.
pub open spec fn gzip_room(l: Limits, spent: nat) -> nat {
    min_nat(size_cap(l), if spent <= l.expanded_bytes { (l.expanded_bytes - spent) as nat } else { 0 })
}

/// The members of a ZIP archive that there is room for, after `kept` members.
pub open spec fn zip_room(l: Limits, kept: nat) -> nat {
    if kept < member_cap(l) { (member_cap(l) - kept) as nat } else { 0 }
}

/// The note of a ZIP archive with more members than there is room for.
pub open spec fn zip_count_notes(path: Seq<char>, l: Limits, count: nat, kept: nat) -> Seq<Seq<char>> {
    if count > zip_room(l, kept) {
        seq!["archive member limit of "@ + decimal(l.members as nat) + " reached at "@ + path]
    } else {
        seq![]
    }
}

/// The note of a spent time budget, when there is a member left to read.
pub open spec fn zip_time_notes(path: Seq<char>, l: Limits, count: nat, kept: nat) -> Seq<Seq<char>> {
    if count > 0 && zip_room(l, kept) > 0 {
        seq!["archive time limit reached at "@ + path]
    } else {
        seq![]
    }
}

struct Budget {
    limits: Limits,
    expanded: u64,
    started: std::time::Instant,
}

/// What an expansion keeps to while it runs.
spec fn kept(result: ResultSet, budget: Budget, l: Limits, top: Seq<char>, slack: nat) -> bool {
    &&& budget.limits == l
    &&& result.files@.len() <= member_cap(l) + slack
    &&& budget.expanded <= byte_cap(l)
    &&& total_bytes(result.files@) <= budget.expanded
    &&& members_ok(result.files@, l, top)
}

/// New members hold no more bytes than were newly reserved, and `extra`
/// reserved before.
spec fn covered(old_files: Seq<VirtualFile>, old_expanded: u64, files: Seq<VirtualFile>, expanded: u64, extra: nat) -> bool {
    &&& old_expanded <= expanded
    &&& total_bytes(files) + old_expanded <= total_bytes(old_files) + extra + expanded
}

proof fn lemma_total_push(files: Seq<VirtualFile>, f: VirtualFile)
    ensures
        total_bytes(files.push(f)) == total_bytes(files) + f.bytes@.len(),
{
    assert(files.push(f).drop_last() =~= files);
}

proof fn lemma_under_child(path: Seq<char>, top: Seq<char>, rest: Seq<char>)
    requires
        under(path, top),
    ensures
        seq_starts_with(path + "!/"@ + rest, top + "!/"@),
{
    let p = top + "!/"@;
    let c = path + "!/"@ + rest;
    if path == top {
        assert(c.subrange(0, p.len() as int) =~= p);
    } else {
        assert(c.subrange(0, p.len() as int) =~= path.subrange(0, p.len() as int));
    }
}

/// The reasons `b` begin with the reasons `a`: a reason once recorded stays.
pub open spec fn reasons_grow(a: Seq<String>, b: Seq<String>) -> bool {
    a.len() <= b.len() && forall|i: int| 0 <= i < a.len() ==> #[trigger] b[i] == a[i]
}

/// Some reason records that the time budget ran out.
pub open spec fn time_noted(reasons: Seq<String>) -> bool {
    exists|i: int| 0 <= i < reasons.len() && seq_starts_with((#[trigger] reasons[i])@, "archive time limit reached"@)
}

fn starts_with_time_note(reasons: &Vec<String>) -> (r: bool)
    ensures
        r == time_noted(reasons@),
{
    let mut i: usize = 0;
    while i < reasons.len()
        invariant
            i <= reasons@.len(),
            forall|j: int| 0 <= j < i ==> !seq_starts_with((#[trigger] reasons@[j])@, "archive time limit reached"@),
        decreases reasons.len() - i,
    {
        if str_starts_with(reasons[i].as_str(), "archive time limit reached") {
            return true;
        }
        i = i + 1;
    }
    false
}

/// The path and bytes of each member.
pub open spec fn files_view(files: Seq<VirtualFile>) -> Seq<(Seq<char>, Seq<u8>)> {
    files.map_values(|f: VirtualFile| (f.path@, f.bytes@))
}

/// What reading the ZIP member at `index` gives when `spent` bytes of the
/// budget are reserved and members are not expanded further: the member
/// kept, if any, and the bytes reserved after it. A member is kept when
/// its entry reads, its path is safe, it is a regular file within the
/// ratio and size limits whose bytes fit the budget, and its content reads
/// to the size the entry states; the bytes are reserved before the content
/// is read.
pub open spec fn zip_step(path: Seq<char>, bytes: Seq<u8>, l: Limits, spent: nat, index: nat)
    -> (Option<(Seq<char>, Seq<u8>)>, nat) {
    match zip_member_of(bytes, index) {
        Err(_) => (None, spent),
        Ok(entry) => match member_path_verdict(entry.0) {
            Err(_) => (None, spent),
            Ok(member) => if entry.1 || entry.2 || over_ratio_spec(entry.3, entry.4) || entry.3 > size_cap(l)
                || spent + entry.3 > byte_cap(l) {
                (None, spent)
            } else {
                match zip_content_of(bytes, index) {
                    Ok(c) => if c.len() == entry.3 {
                        (Some((path + "!/"@ + member, c)), spent + entry.3 as nat)
                    } else {
                        (None, spent + entry.3 as nat)
                    },
                    Err(_) => (None, spent + entry.3 as nat),
                }
            },
        },
    }
}

/// The members that reading the first `n` members of a ZIP archive keeps,
/// in order, and the bytes then reserved, from `spent` bytes reserved
/// before and with members not expanded further.
pub open spec fn zip_walk(path: Seq<char>, bytes: Seq<u8>, l: Limits, spent: nat, n: nat)
    -> (Seq<(Seq<char>, Seq<u8>)>, nat)
    decreases n,
{
    if n == 0 {
        (seq![], spent)
    } else {
        let prev = zip_walk(path, bytes, l, spent, (n - 1) as nat);
        let step = zip_step(path, bytes, l, prev.1, (n - 1) as nat);
        (match step.0 { Some(f) => prev.0.push(f), None => prev.0 }, step.1)
    }
}

proof fn lemma_walk_len(path: Seq<char>, bytes: Seq<u8>, l: Limits, spent: nat, n: nat)
    ensures
        zip_walk(path, bytes, l, spent, n).0.len() <= n,
    decreases n,
{
    if n > 0 {
        lemma_walk_len(path, bytes, l, spent, (n - 1) as nat);
    }
}

proof fn lemma_noted_grows(a: Seq<String>, b: Seq<String>)
    requires
        reasons_grow(a, b),
    ensures
        time_noted(a) ==> time_noted(b),
{
    if time_noted(a) {
        let i = choose|i: int| 0 <= i < a.len() && seq_starts_with((#[trigger] a[i])@, "archive time limit reached"@);
        assert(b[i] == a[i]);
    }
}

/// What reading the TAR entry at `index` gives when `spent` bytes of the
/// budget are reserved and members are not expanded further: the member
/// kept, if any, and the bytes reserved after it. A member is kept when its
/// entry reads, its path is safe, it is a regular file within the size limit
/// whose bytes fit the budget, and its content reads to the size the header
/// states; the bytes are reserved before the content is read.
pub open spec fn tar_step(path: Seq<char>, bytes: Seq<u8>, l: Limits, spent: nat, index: nat)
    -> (Option<(Seq<char>, Seq<u8>)>, nat) {
    match tar_member_of(bytes, index) {
        Ok(Some(Ok(entry))) => match member_path_verdict(entry.0) {
            Err(_) => (None, spent),
            Ok(member) => if !(entry.1 is Regular || entry.1 is Contiguous) || entry.2 > size_cap(l)
                || spent + entry.2 > byte_cap(l) {
                (None, spent)
            } else {
                match tar_content_of(bytes, index) {
                    Ok(c) => if c.len() == entry.2 {
                        (Some((path + "!/"@ + member, c)), spent + entry.2 as nat)
                    } else {
                        (None, spent + entry.2 as nat)
                    },
                    Err(_) => (None, spent + entry.2 as nat),
                }
            },
        },
        _ => (None, spent),
    }
}

/// The members that reading the first `n` entries of a TAR archive keeps,
/// in order, and the bytes then reserved, from `spent` bytes reserved
/// before and with members not expanded further.
pub open spec fn tar_walk(path: Seq<char>, bytes: Seq<u8>, l: Limits, spent: nat, n: nat)
    -> (Seq<(Seq<char>, Seq<u8>)>, nat)
    decreases n,
{
    if n == 0 {
        (seq![], spent)
    } else {
        let prev = tar_walk(path, bytes, l, spent, (n - 1) as nat);
        let step = tar_step(path, bytes, l, prev.1, (n - 1) as nat);
        (match step.0 { Some(f) => prev.0.push(f), None => prev.0 }, step.1)
    }
}

/// The entry, from the `i`-th on, at which reading a TAR archive stops: the
/// first that does not read as an entry (the archive's end or its error),
/// or at which `base` members and those kept before it fill the member
/// limit.
pub open spec fn tar_stop(path: Seq<char>, bytes: Seq<u8>, l: Limits, spent: nat, base: nat, i: nat) -> nat
    decreases usize::MAX - i,
{
    if i >= usize::MAX || !(tar_member_of(bytes, i) matches Ok(Some(_)))
        || base + tar_walk(path, bytes, l, spent, i).0.len() >= member_cap(l) {
        i
    } else {
        tar_stop(path, bytes, l, spent, base, i + 1)
    }
}

/// The kept members are not expanded further: the depth limit is reached,
/// or none of them is itself an archive.
pub open spec fn flat(l: Limits, depth: int, kept: Seq<(Seq<char>, Seq<u8>)>) -> bool {
    depth + 1 >= l.depth || forall|i: int| 0 <= i < kept.len() ==> !archive_magic(#[trigger] kept[i].1)
}

proof fn lemma_flat_prefix(l: Limits, depth: int, kept: Seq<(Seq<char>, Seq<u8>)>, m: (Seq<char>, Seq<u8>))
    requires
        flat(l, depth, kept.push(m)),
    ensures
        flat(l, depth, kept),
        depth + 1 >= l.depth || !archive_magic(m.1),
{
    if depth + 1 < l.depth {
        assert forall|i: int| 0 <= i < kept.len() implies !archive_magic(#[trigger] kept[i].1) by {
            assert(kept.push(m)[i] == kept[i]);
        }
        assert(kept.push(m)[kept.len() as int] == m);
    }
}

proof fn lemma_zip_flat_step(path: Seq<char>, bytes: Seq<u8>, l: Limits, spent: nat, n: nat, depth: int)
    ensures
        flat(l, depth, zip_walk(path, bytes, l, spent, n + 1).0) ==> flat(l, depth, zip_walk(path, bytes, l, spent, n).0),
{
    let w = zip_walk(path, bytes, l, spent, n);
    let step = zip_step(path, bytes, l, w.1, n);
    if step.0 is Some && flat(l, depth, zip_walk(path, bytes, l, spent, n + 1).0) {
        lemma_flat_prefix(l, depth, w.0, step.0->Some_0);
    }
}

proof fn lemma_tar_flat_step(path: Seq<char>, bytes: Seq<u8>, l: Limits, spent: nat, n: nat, depth: int)
    ensures
        flat(l, depth, tar_walk(path, bytes, l, spent, n + 1).0) ==> flat(l, depth, tar_walk(path, bytes, l, spent, n).0),
{
    let w = tar_walk(path, bytes, l, spent, n);
    let step = tar_step(path, bytes, l, w.1, n);
    if step.0 is Some && flat(l, depth, tar_walk(path, bytes, l, spent, n + 1).0) {
        lemma_flat_prefix(l, depth, w.0, step.0->Some_0);
    }
}

/// No member that reading the TAR archive from `spent` reserved bytes would
/// keep is expanded further: the depth limit is reached, or none of them is
/// itself an archive.
pub open spec fn tar_flat(path: Seq<char>, bytes: Seq<u8>, l: Limits, spent: nat, depth: int) -> bool {
    forall|n: nat| flat(l, depth, #[trigger] tar_walk(path, bytes, l, spent, n).0)
}

/// Whether the time budget is spent; records it once when it is.
fn time_limit_reached(path: &str, budget: &Budget, result: &mut ResultSet) -> (r: bool)
    ensures
        final(result).files == old(result).files,
        reasons_grow(old(result).incomplete_reasons@, final(result).incomplete_reasons@),
        !r ==> final(result).incomplete_reasons == old(result).incomplete_reasons,
        r && time_noted(old(result).incomplete_reasons@) ==> final(result).incomplete_reasons == old(result).incomplete_reasons,
        r && !time_noted(old(result).incomplete_reasons@) ==> strings_view(final(result).incomplete_reasons@)
            == strings_view(old(result).incomplete_reasons@).push("archive time limit reached at "@ + path@),
        r ==> time_noted(final(result).incomplete_reasons@),
        budget.limits.time_limit_ms == 0 ==> r,
{
    if elapsed_ms(&budget.started) < budget.limits.time_limit_ms {
        return false;
    }
    if !starts_with_time_note(&result.incomplete_reasons) {
        let mut note = owned("archive time limit reached at ");
        push_str(&mut note, path);
        let ghost before = result.incomplete_reasons@;
        result.incomplete_reasons.push(note);
        assert(strings_view(result.incomplete_reasons@) =~= strings_view(before).push(note@));
        proof {
            reveal_strlit("archive time limit reached at ");
            reveal_strlit("archive time limit reached");
            let k = (result.incomplete_reasons@.len() - 1) as int;
            assert(result.incomplete_reasons@[k] == note);
            assert(note@.subrange(0, 26) =~= "archive time limit reached"@);
        }
    }
    true
}

/// Reserves `size` bytes of the expansion budget for a member; says
/// whether they fit.
fn reserve(size: u64, path: &str, budget: &mut Budget, result: &mut ResultSet) -> (r: bool)
    ensures
        final(result).files == old(result).files,
        reasons_grow(old(result).incomplete_reasons@, final(result).incomplete_reasons@),
        final(budget).limits == old(budget).limits,
        final(budget).started == old(budget).started,
        r ==> final(budget).expanded == old(budget).expanded + size
            && final(budget).expanded <= byte_cap(old(budget).limits)
            && final(result).incomplete_reasons == old(result).incomplete_reasons,
        !r ==> final(budget).expanded == old(budget).expanded,
        !r ==> time_noted(final(result).incomplete_reasons@)
            || (old(budget).expanded + size > byte_cap(old(budget).limits)
                && strings_view(final(result).incomplete_reasons@) == strings_view(old(result).incomplete_reasons@)
                    .push("archive expanded byte limit reached before "@ + path@)),
{
    if time_limit_reached(path, budget, result) {
        return false;
    }
    let cap = if budget.limits.expanded_bytes < MAX_EXPANDED_BYTES { budget.limits.expanded_bytes } else { MAX_EXPANDED_BYTES };
    if budget.expanded.saturating_add(size) > cap {
        let mut note = owned("archive expanded byte limit reached before ");
        push_str(&mut note, path);
        let ghost before = result.incomplete_reasons@;
        result.incomplete_reasons.push(note);
        assert(strings_view(result.incomplete_reasons@) =~= strings_view(before).push(note@));
        return false;
    }
    budget.expanded = budget.expanded + size;
    true
}

fn child_path(path: &str, member: &str) -> (r: String)
    ensures
        r@ == path@ + "!/"@ + member@,
{
    let mut c = owned(path);
    push_str(&mut c, "!/");
    push_str(&mut c, member);
    c
}

/// Keeps a member and expands it when it is itself an archive.
fn push_file(path: String, bytes: Vec<u8>, depth: usize, budget: &mut Budget, result: &mut ResultSet,
    Ghost(l): Ghost<Limits>, Ghost(top): Ghost<Seq<char>>)
    requires
        depth < l.depth,
        kept(*old(result), *old(budget), l, top, (l.depth - depth) as nat),
        seq_starts_with(path@, top + "!/"@),
        bytes@.len() <= size_cap(l),
        total_bytes(old(result).files@) + bytes@.len() <= old(budget).expanded,
    ensures
        kept(*final(result), *final(budget), l, top, (l.depth - depth) as nat),
        covered(old(result).files@, old(budget).expanded, final(result).files@, final(budget).expanded, bytes@.len()),
        reasons_grow(old(result).incomplete_reasons@, final(result).incomplete_reasons@),
        final(budget).started == old(budget).started,
        old(result).files@.len() < member_cap(l) ==> final(result).files@.len() > 0
            && final(result).files@.last().path@ == path@ && final(result).files@.last().bytes@ == bytes@,
        old(result).files@.len() >= member_cap(l) ==> final(result).files == old(result).files
            && strings_view(final(result).incomplete_reasons@) == strings_view(old(result).incomplete_reasons@)
                .push("archive member limit reached at "@ + path@),
        (depth + 1 >= l.depth || !archive_magic(bytes@)) && old(result).files@.len() < member_cap(l)
            ==> final(budget).expanded == old(budget).expanded
            && files_view(final(result).files@) == files_view(old(result).files@).push((path@, bytes@)),
    decreases l.depth - depth, 0nat,
{
    let cap = if budget.limits.members < MAX_MEMBERS { budget.limits.members } else { MAX_MEMBERS };
    if result.files.len() >= cap {
        let mut note = owned("archive member limit reached at ");
        push_str(&mut note, path.as_str());
        let ghost before = result.incomplete_reasons@;
        result.incomplete_reasons.push(note);
        assert(strings_view(result.incomplete_reasons@) =~= strings_view(before).push(note@));
        return;
    }
    let ghost f0 = result.files@;
    let ghost e0 = budget.expanded;
    expand(path.as_str(), &bytes, depth + 1, budget, result, Ghost(l), Ghost(top));
    let ghost f1 = result.files@;
    let file = VirtualFile { path, bytes };
    result.files.push(file);
    proof {
        lemma_total_push(f1, file);
        assert(result.files@ =~= f1.push(file));
        assert(files_view(f1.push(file)) =~= files_view(f1).push((file.path@, file.bytes@)));
        assert forall|i: int| 0 <= i < result.files@.len() implies (#[trigger] result.files@[i]).bytes@.len() <= size_cap(l)
            && seq_starts_with(result.files@[i].path@, top + "!/"@) by {
            if i < f1.len() {
                assert(result.files@[i] == f1[i]);
            }
        }
    }
}

/// Whether the bytes begin like an archive that expansion reads.
pub fn looks_like_archive(bytes: &[u8]) -> (r: bool)
    ensures
        r == archive_magic(bytes@),
{
    let zip = starts_with_bytes(bytes, &[0x50u8, 0x4bu8, 0x03u8, 0x04u8]) || starts_with_bytes(bytes, &[0x50u8, 0x4bu8, 0x05u8, 0x06u8]);
    let gzip = starts_with_bytes(bytes, &[0x1fu8, 0x8bu8]);
    let tar = bytes.len() >= 512 && bytes[257] == 0x75u8 && bytes[258] == 0x73u8 && bytes[259] == 0x74u8
        && bytes[260] == 0x61u8 && bytes[261] == 0x72u8;
    assert(tar == (bytes@.len() >= 512 && bytes@.subrange(257, 262) == seq![0x75u8, 0x73u8, 0x74u8, 0x61u8, 0x72u8])) by {
        if bytes@.len() >= 512 && bytes@.subrange(257, 262) =~= seq![0x75u8, 0x73u8, 0x74u8, 0x61u8, 0x72u8] {
            assert(bytes@.subrange(257, 262)[0] == bytes@[257]);
            assert(bytes@.subrange(257, 262)[1] == bytes@[258]);
            assert(bytes@.subrange(257, 262)[2] == bytes@[259]);
            assert(bytes@.subrange(257, 262)[3] == bytes@[260]);
            assert(bytes@.subrange(257, 262)[4] == bytes@[261]);
        }
    }
    zip || gzip || tar
}

/// Expands the bytes of `path` when they are an archive.
fn expand(path: &str, bytes: &[u8], depth: usize, budget: &mut Budget, result: &mut ResultSet,
    Ghost(l): Ghost<Limits>, Ghost(top): Ghost<Seq<char>>)
    requires
        depth <= l.depth,
        kept(*old(result), *old(budget), l, top, (l.depth - depth) as nat),
        under(path@, top),
    ensures
        kept(*final(result), *final(budget), l, top, (l.depth - depth) as nat),
        covered(old(result).files@, old(budget).expanded, final(result).files@, final(budget).expanded, 0),
        reasons_grow(old(result).incomplete_reasons@, final(result).incomplete_reasons@),
        final(budget).started == old(budget).started,
        !archive_magic(bytes@) ==> final(result).files@ == old(result).files@
            && final(result).incomplete_reasons@ == old(result).incomplete_reasons@,
        !archive_magic(bytes@) || depth >= l.depth ==> final(budget).expanded == old(budget).expanded,
        zip_magic(bytes@) && depth < l.depth && zip_count(bytes@) is Ok && !time_noted(final(result).incomplete_reasons@)
            && flat(l, depth as int, zip_walk(path@, bytes@, l, old(budget).expanded as nat, min_nat(zip_count(bytes@)->Ok_0, zip_room(l, old(result).files@.len()))).0)
            ==> files_view(final(result).files@) == files_view(old(result).files@) + zip_walk(path@, bytes@, l, old(budget).expanded as nat, min_nat(zip_count(bytes@)->Ok_0, zip_room(l, old(result).files@.len()))).0,
        !zip_magic(bytes@) && gzip_magic(bytes@) && depth < l.depth
            && gunzip_result(bytes@, gzip_room(l, old(budget).expanded as nat) + 1) is Err
            && !time_noted(final(result).incomplete_reasons@) ==> final(result).files == old(result).files
            && strings_view(final(result).incomplete_reasons@) == strings_view(old(result).incomplete_reasons@)
                .push("cannot decompress gzip archive "@ + path@ + ": "@
                    + gunzip_result(bytes@, gzip_room(l, old(budget).expanded as nat) + 1)->Err_0),
        !zip_magic(bytes@) && gzip_magic(bytes@) && depth < l.depth && !time_noted(final(result).incomplete_reasons@)
            && old(result).files@.len() < member_cap(l)
            ==> (gunzip_result(bytes@, gzip_room(l, old(budget).expanded as nat) + 1) matches Ok(c)
            ==> (c.len() <= gzip_room(l, old(budget).expanded as nat) && !over_ratio_spec(c.len() as u64, bytes@.len() as u64)
            && old(budget).expanded + c.len() <= byte_cap(l) && (depth + 1 >= l.depth || !archive_magic(c))
            ==> files_view(final(result).files@) == files_view(old(result).files@).push((path@ + "!/"@ + gzip_member_name(path@), c)))),
        !zip_magic(bytes@) && !gzip_magic(bytes@) && tar_magic(bytes@) && depth < l.depth
            && tar_flat(path@, bytes@, l, old(budget).expanded as nat, depth as int)
            && !time_noted(final(result).incomplete_reasons@) ==> files_view(final(result).files@)
            == files_view(old(result).files@) + tar_walk(path@, bytes@, l, old(budget).expanded as nat,
                tar_stop(path@, bytes@, l, old(budget).expanded as nat, old(result).files@.len(), 0)).0,
        !zip_magic(bytes@) && !gzip_magic(bytes@) && tar_magic(bytes@) && depth < l.depth
            && tar_member_of(bytes@, 0) is Err ==> final(result).files == old(result).files
            && strings_view(final(result).incomplete_reasons@) == strings_view(old(result).incomplete_reasons@)
                .push("cannot read TAR archive "@ + path@ + ": "@ + tar_member_of(bytes@, 0)->Err_0),
        archive_magic(bytes@) && depth >= l.depth ==> final(result).files@ == old(result).files@
            && strings_view(final(result).incomplete_reasons@)
                == strings_view(old(result).incomplete_reasons@).push("archive recursion limit reached at "@ + path@),
        zip_magic(bytes@) && depth < l.depth && zip_count(bytes@) is Err ==> final(result).files@ == old(result).files@
            && strings_view(final(result).incomplete_reasons@) == strings_view(old(result).incomplete_reasons@)
                .push("cannot parse ZIP archive "@ + path@ + ": "@ + zip_count(bytes@)->Err_0),
        zip_magic(bytes@) && depth < l.depth && zip_count(bytes@) is Ok && l.time_limit_ms == 0
            && !time_noted(old(result).incomplete_reasons@)
            ==> final(result).files@ == old(result).files@
            && strings_view(final(result).incomplete_reasons@) == strings_view(old(result).incomplete_reasons@)
                + zip_count_notes(path@, l, zip_count(bytes@)->Ok_0, old(result).files@.len())
                + zip_time_notes(path@, l, zip_count(bytes@)->Ok_0, old(result).files@.len()),
        zip_magic(bytes@) && depth < l.depth && zip_count(bytes@) is Ok
            && zip_count(bytes@)->Ok_0 > zip_room(l, old(result).files@.len())
            ==> final(result).incomplete_reasons@.len() > old(result).incomplete_reasons@.len()
            && final(result).incomplete_reasons@[old(result).incomplete_reasons@.len() as int]@
                == "archive member limit of "@ + decimal(l.members as nat) + " reached at "@ + path@,
    decreases l.depth - depth, 2nat,
{
    let zip = starts_with_bytes(bytes, &[0x50u8, 0x4bu8, 0x03u8, 0x04u8]) || starts_with_bytes(bytes, &[0x50u8, 0x4bu8, 0x05u8, 0x06u8]);
    let gzip = starts_with_bytes(bytes, &[0x1fu8, 0x8bu8]);
    let tar = bytes.len() >= 512 && bytes[257] == 0x75u8 && bytes[258] == 0x73u8 && bytes[259] == 0x74u8
        && bytes[260] == 0x61u8 && bytes[261] == 0x72u8;
    assert(tar == (bytes@.len() >= 512 && bytes@.subrange(257, 262) == seq![0x75u8, 0x73u8, 0x74u8, 0x61u8, 0x72u8])) by {
        if bytes@.len() >= 512 && bytes@.subrange(257, 262) =~= seq![0x75u8, 0x73u8, 0x74u8, 0x61u8, 0x72u8] {
            assert(bytes@.subrange(257, 262)[0] == bytes@[257]);
            assert(bytes@.subrange(257, 262)[1] == bytes@[258]);
            assert(bytes@.subrange(257, 262)[2] == bytes@[259]);
            assert(bytes@.subrange(257, 262)[3] == bytes@[260]);
            assert(bytes@.subrange(257, 262)[4] == bytes@[261]);
        }
    }
    assert((zip || gzip || tar) == archive_magic(bytes@));
    assert(zip == zip_magic(bytes@));
    if !zip && !gzip && !tar {
        return;
    }
    if depth >= budget.limits.depth {
        let mut note = owned("archive recursion limit reached at ");
        push_str(&mut note, path);
        let ghost before = strings_view(result.incomplete_reasons@);
        result.incomplete_reasons.push(note);
        assert(strings_view(result.incomplete_reasons@) =~= before.push(note@));
        return;
    }
    if zip {
        expand_zip(path, bytes, depth, budget, result, Ghost(l), Ghost(top));
    } else if gzip {
        expand_gzip(path, bytes, depth, budget, result, Ghost(l), Ghost(top));
    } else {
        expand_tar(path, bytes, depth, budget, result, Ghost(l), Ghost(top));
    }
}

fn expand_zip(path: &str, bytes: &[u8], depth: usize, budget: &mut Budget, result: &mut ResultSet,
    Ghost(l): Ghost<Limits>, Ghost(top): Ghost<Seq<char>>)
    requires
        depth < l.depth,
        kept(*old(result), *old(budget), l, top, (l.depth - depth) as nat),
        under(path@, top),
    ensures
        kept(*final(result), *final(budget), l, top, (l.depth - depth) as nat),
        covered(old(result).files@, old(budget).expanded, final(result).files@, final(budget).expanded, 0),
        reasons_grow(old(result).incomplete_reasons@, final(result).incomplete_reasons@),
        final(budget).started == old(budget).started,
        zip_count(bytes@) is Err ==> final(result).files == old(result).files
            && strings_view(final(result).incomplete_reasons@) == strings_view(old(result).incomplete_reasons@)
                .push("cannot parse ZIP archive "@ + path@ + ": "@ + zip_count(bytes@)->Err_0),
        zip_count(bytes@) is Ok && l.time_limit_ms == 0 && !time_noted(old(result).incomplete_reasons@)
            ==> final(result).files@ == old(result).files@
            && strings_view(final(result).incomplete_reasons@) == strings_view(old(result).incomplete_reasons@)
                + zip_count_notes(path@, l, zip_count(bytes@)->Ok_0, old(result).files@.len())
                + zip_time_notes(path@, l, zip_count(bytes@)->Ok_0, old(result).files@.len()),
        zip_count(bytes@) is Ok && zip_count(bytes@)->Ok_0 > zip_room(l, old(result).files@.len())
            ==> final(result).incomplete_reasons@.len() > old(result).incomplete_reasons@.len()
            && final(result).incomplete_reasons@[old(result).incomplete_reasons@.len() as int]@
                == "archive member limit of "@ + decimal(l.members as nat) + " reached at "@ + path@,
        zip_count(bytes@) is Ok && !time_noted(final(result).incomplete_reasons@) && flat(l, depth as int, zip_walk(path@, bytes@, l, old(budget).expanded as nat, min_nat(zip_count(bytes@)->Ok_0, zip_room(l, old(result).files@.len()))).0)
            ==> files_view(final(result).files@) == files_view(old(result).files@) + zip_walk(path@, bytes@, l, old(budget).expanded as nat, min_nat(zip_count(bytes@)->Ok_0, zip_room(l, old(result).files@.len()))).0,
    decreases l.depth - depth, 1nat,
{
    let ghost r0 = result.incomplete_reasons@;
    let count = match zip_open(bytes) {
        Ok(n) => n,
        Err(error) => {
            let mut note = owned("cannot parse ZIP archive ");
            push_str(&mut note, path);
            push_str(&mut note, ": ");
            push_str(&mut note, error.as_str());
            let ghost before = result.incomplete_reasons@;
            result.incomplete_reasons.push(note);
            assert(strings_view(result.incomplete_reasons@) =~= strings_view(before).push(note@));
            return;
        },
    };
    let cap = if budget.limits.members < MAX_MEMBERS { budget.limits.members } else { MAX_MEMBERS };
    let room = cap.saturating_sub(result.files.len());
    assert(room as nat == zip_room(l, result.files@.len()));
    if count > room {
        let mut note = owned("archive member limit of ");
        push_decimal(&mut note, budget.limits.members as u64);
        push_str(&mut note, " reached at ");
        push_str(&mut note, path);
        let ghost before = result.incomplete_reasons@;
        result.incomplete_reasons.push(note);
        proof {
            assert(strings_view(result.incomplete_reasons@) =~= strings_view(before).push(note@));
            reveal_strlit("archive member limit of ");
            reveal_strlit("archive time limit reached");
            if !time_noted(before) && time_noted(result.incomplete_reasons@) {
                let i = choose|i: int| 0 <= i < result.incomplete_reasons@.len()
                    && seq_starts_with((#[trigger] result.incomplete_reasons@[i])@, "archive time limit reached"@);
                if i == before.len() {
                    assert(result.incomplete_reasons@[i] == note);
                    assert(note@[8] != "archive time limit reached"@[8]);
                    assert(note@.subrange(0, 26)[8] == note@[8]);
                    assert(false);
                } else {
                    assert(result.incomplete_reasons@[i] == before[i]);
                    assert(false);
                }
            }
        }
    }
    let ghost r1 = strings_view(result.incomplete_reasons@);
    let ghost rn = result.incomplete_reasons@;
    assert(count > room ==> rn.len() == r0.len() + 1 && rn[r0.len() as int]@
        == "archive member limit of "@ + decimal(l.members as nat) + " reached at "@ + path@) by {
        if count > room {
            assert(r1[r0.len() as int] == rn[r0.len() as int]@);
        }
    }
    assert(r1 == strings_view(r0) + zip_count_notes(path@, l, count as nat, result.files@.len())) by {
        if count > room {} else { assert(r1 =~= strings_view(r0) + Seq::<Seq<char>>::empty()); }
    }
    let n = if count < room { count } else { room };
    let ghost f0 = result.files@;
    let ghost e0 = budget.expanded;
    let size_limit = if budget.limits.member_bytes < MAX_MEMBER_BYTES { budget.limits.member_bytes } else { MAX_MEMBER_BYTES };
    let mut index: usize = 0;
    while index < n
        invariant
            depth < l.depth,
            under(path@, top),
            size_limit as nat == size_cap(l),
            kept(*result, *budget, l, top, (l.depth - depth) as nat),
            covered(f0, e0, result.files@, budget.expanded, 0),
            budget.started == old(budget).started,
            reasons_grow(old(result).incomplete_reasons@, result.incomplete_reasons@),
            n as nat == min_nat(count as nat, zip_room(l, f0.len())),
            index <= n,
            zip_count(bytes@) == Ok::<nat, Seq<char>>(count as nat),
            f0 == old(result).files@,
            e0 == old(budget).expanded,
            r0 == old(result).incomplete_reasons@,
            r1 == strings_view(r0) + zip_count_notes(path@, l, count as nat, f0.len()),
            reasons_grow(rn, result.incomplete_reasons@),
            count > room ==> rn.len() == r0.len() + 1 && rn[r0.len() as int]@
                == "archive member limit of "@ + decimal(l.members as nat) + " reached at "@ + path@,
            room as nat == zip_room(l, f0.len()),
            l.time_limit_ms == 0 && !time_noted(r0) ==> index == 0 && result.files@ == f0
                && strings_view(result.incomplete_reasons@) == r1 && !time_noted(result.incomplete_reasons@),
            flat(l, depth as int, zip_walk(path@, bytes@, l, e0 as nat, index as nat).0) && !time_noted(result.incomplete_reasons@) ==>
                files_view(result.files@) == files_view(f0) + zip_walk(path@, bytes@, l, e0 as nat, index as nat).0
                && budget.expanded as nat == zip_walk(path@, bytes@, l, e0 as nat, index as nat).1,
        decreases n - index,
    {
        let ghost w = zip_walk(path@, bytes@, l, e0 as nat, index as nat);
        let ghost fi = result.files@;
        let ghost ri = result.incomplete_reasons@;
        proof {
            lemma_walk_len(path@, bytes@, l, e0 as nat, index as nat);
            lemma_zip_flat_step(path@, bytes@, l, e0 as nat, index as nat, depth as int);
        }
        if time_limit_reached(path, budget, result) {
            proof {
                if l.time_limit_ms == 0 && !time_noted(r0) {
                    assert(zip_time_notes(path@, l, count as nat, f0.len()) == seq!["archive time limit reached at "@ + path@]);
                    assert(strings_view(result.incomplete_reasons@) =~= strings_view(r0)
                        + zip_count_notes(path@, l, count as nat, f0.len()) + zip_time_notes(path@, l, count as nat, f0.len()));
                }
            }
            return;
        }
        let entry = match zip_member(bytes, index) {
            Ok(entry) => entry,
            Err(error) => {
                let mut note = owned("cannot read ZIP member ");
                push_decimal(&mut note, index as u64);
                push_str(&mut note, " in ");
                push_str(&mut note, path);
                push_str(&mut note, ": ");
                push_str(&mut note, error.as_str());
                result.incomplete_reasons.push(note);
                proof { lemma_noted_grows(ri, result.incomplete_reasons@); }
                index = index + 1;
                continue;
            },
        };
        let member = match safe_member_path(entry.name.as_slice()) {
            Ok(member) => member,
            Err(reason) => {
                let mut note = reason;
                push_str(&mut note, " in ");
                push_str(&mut note, path);
                result.incomplete_reasons.push(note);
                proof { lemma_noted_grows(ri, result.incomplete_reasons@); }
                index = index + 1;
                continue;
            },
        };
        let child = child_path(path, member.as_str());
        proof { lemma_under_child(path@, top, member@); }
        if entry.is_dir {
            index = index + 1;
            continue;
        }
        if entry.is_symlink {
            let mut note = owned("ZIP symlink member skipped: ");
            push_str(&mut note, child.as_str());
            result.incomplete_reasons.push(note);
            proof { lemma_noted_grows(ri, result.incomplete_reasons@); }
            index = index + 1;
            continue;
        }
        if over_ratio(entry.size, entry.compressed_size) {
            let mut note = owned("ZIP compression ratio limit reached: ");
            push_str(&mut note, child.as_str());
            result.incomplete_reasons.push(note);
            proof { lemma_noted_grows(ri, result.incomplete_reasons@); }
            index = index + 1;
            continue;
        }
        if entry.size > size_limit {
            let mut note = owned("archive member exceeds byte limit: ");
            push_str(&mut note, child.as_str());
            result.incomplete_reasons.push(note);
            proof { lemma_noted_grows(ri, result.incomplete_reasons@); }
            index = index + 1;
            continue;
        }
        let ghost before = budget.expanded;
        if !reserve(entry.size, child.as_str(), budget, result) {
            proof {
                lemma_noted_grows(ri, result.incomplete_reasons@);

            }
            index = index + 1;
            continue;
        }
        let content = match zip_content(bytes, index) {
            Ok(content) => content,
            Err(error) => {
                let mut note = owned("cannot decompress ");
                push_str(&mut note, child.as_str());
                push_str(&mut note, ": ");
                push_str(&mut note, error.as_str());
                result.incomplete_reasons.push(note);
                proof { lemma_noted_grows(ri, result.incomplete_reasons@); }
                index = index + 1;
                continue;
            },
        };
        if content.len() as u64 != entry.size {
            let mut note = owned("ZIP member size mismatch: ");
            push_str(&mut note, child.as_str());
            result.incomplete_reasons.push(note);
            proof { lemma_noted_grows(ri, result.incomplete_reasons@); }
            index = index + 1;
            continue;
        }
        if time_limit_reached(child.as_str(), budget, result) {
            index = index + 1;
            continue;
        }
        push_file(child, content, depth, budget, result, Ghost(l), Ghost(top));
        proof {
            lemma_noted_grows(ri, result.incomplete_reasons@);
            let w1 = zip_walk(path@, bytes@, l, e0 as nat, (index + 1) as nat).0;
            if flat(l, depth as int, w1) && !time_noted(result.incomplete_reasons@) {
                assert(w1 == w.0.push((child@, content@)));
                lemma_flat_prefix(l, depth as int, w.0, (child@, content@));
                assert(files_view(result.files@) =~= files_view(f0) + w1);
            }
        }
        index = index + 1;
    }
    proof {
        if l.time_limit_ms == 0 && !time_noted(r0) {
            assert(strings_view(result.incomplete_reasons@) =~= strings_view(r0)
                + zip_count_notes(path@, l, count as nat, f0.len()) + zip_time_notes(path@, l, count as nat, f0.len()));
        }
    }
}

fn expand_tar(path: &str, bytes: &[u8], depth: usize, budget: &mut Budget, result: &mut ResultSet,
    Ghost(l): Ghost<Limits>, Ghost(top): Ghost<Seq<char>>)
    requires
        depth < l.depth,
        kept(*old(result), *old(budget), l, top, (l.depth - depth) as nat),
        under(path@, top),
    ensures
        kept(*final(result), *final(budget), l, top, (l.depth - depth) as nat),
        covered(old(result).files@, old(budget).expanded, final(result).files@, final(budget).expanded, 0),
        reasons_grow(old(result).incomplete_reasons@, final(result).incomplete_reasons@),
        final(budget).started == old(budget).started,
        tar_member_of(bytes@, 0) is Err ==> final(result).files == old(result).files
            && strings_view(final(result).incomplete_reasons@) == strings_view(old(result).incomplete_reasons@)
                .push("cannot read TAR archive "@ + path@ + ": "@ + tar_member_of(bytes@, 0)->Err_0),
        tar_member_of(bytes@, 0) == Ok::<Option<Result<(Seq<u8>, TarKind, u64), Seq<char>>>, Seq<char>>(None)
            ==> final(result).files == old(result).files && final(result).incomplete_reasons == old(result).incomplete_reasons,
        tar_flat(path@, bytes@, l, old(budget).expanded as nat, depth as int) && !time_noted(final(result).incomplete_reasons@)
            ==> files_view(final(result).files@)
            == files_view(old(result).files@) + tar_walk(path@, bytes@, l, old(budget).expanded as nat,
                tar_stop(path@, bytes@, l, old(budget).expanded as nat, old(result).files@.len(), 0)).0,
    decreases l.depth - depth, 1nat,
{
    let ghost f0 = result.files@;
    let ghost e0 = budget.expanded;
    let cap = if budget.limits.members < MAX_MEMBERS { budget.limits.members } else { MAX_MEMBERS };
    let size_limit = if budget.limits.member_bytes < MAX_MEMBER_BYTES { budget.limits.member_bytes } else { MAX_MEMBER_BYTES };
    let mut index: usize = 0;
    loop
        invariant
            depth < l.depth,
            under(path@, top),
            size_limit as nat == size_cap(l),
            cap as nat == member_cap(l),
            kept(*result, *budget, l, top, (l.depth - depth) as nat),
            covered(f0, e0, result.files@, budget.expanded, 0),
            budget.started == old(budget).started,
            reasons_grow(old(result).incomplete_reasons@, result.incomplete_reasons@),
            index == 0 ==> result.files == old(result).files && result.incomplete_reasons == old(result).incomplete_reasons,
            f0 == old(result).files@,
            e0 == old(budget).expanded,
            index > 0 ==> tar_member_of(bytes@, 0) is Ok
                && tar_member_of(bytes@, 0) != Ok::<Option<Result<(Seq<u8>, TarKind, u64), Seq<char>>>, Seq<char>>(None),
            tar_flat(path@, bytes@, l, e0 as nat, depth as int) && !time_noted(result.incomplete_reasons@) ==>
                files_view(result.files@) == files_view(f0) + tar_walk(path@, bytes@, l, e0 as nat, index as nat).0
                && budget.expanded as nat == tar_walk(path@, bytes@, l, e0 as nat, index as nat).1
                && tar_stop(path@, bytes@, l, e0 as nat, f0.len(), 0) == tar_stop(path@, bytes@, l, e0 as nat, f0.len(), index as nat),
        decreases usize::MAX - index,
    {
        let ghost ri = result.incomplete_reasons@;
        let item = match tar_member(bytes, index) {
            Ok(item) => item,
            Err(error) => {
                let mut note = owned("cannot read TAR archive ");
                push_str(&mut note, path);
                push_str(&mut note, ": ");
                push_str(&mut note, error.as_str());
                let ghost before = result.incomplete_reasons@;
                result.incomplete_reasons.push(note);
                proof { lemma_noted_grows(ri, result.incomplete_reasons@); }
                assert(strings_view(result.incomplete_reasons@) =~= strings_view(before).push(note@));
                return;
            },
        };
        let item = match item {
            Some(item) => item,
            None => return,
        };
        if time_limit_reached(path, budget, result) {
            return;
        }
        if result.files.len() >= cap {
            let mut note = owned("archive member limit of ");
            push_decimal(&mut note, budget.limits.members as u64);
            push_str(&mut note, " reached at ");
            push_str(&mut note, path);
            result.incomplete_reasons.push(note);
            proof { lemma_noted_grows(ri, result.incomplete_reasons@); }
            return;
        }
        if index == usize::MAX {
            return;
        }
        let next = index + 1;
        let entry = match item {
            Ok(entry) => entry,
            Err(error) => {
                let mut note = owned("cannot read TAR member ");
                push_decimal(&mut note, index as u64);
                push_str(&mut note, " in ");
                push_str(&mut note, path);
                push_str(&mut note, ": ");
                push_str(&mut note, error.as_str());
                result.incomplete_reasons.push(note);
                proof { lemma_noted_grows(ri, result.incomplete_reasons@); }
                index = next;
                continue;
            },
        };
        let member = match safe_member_path(entry.path.as_slice()) {
            Ok(member) => member,
            Err(reason) => {
                let mut note = reason;
                push_str(&mut note, " in ");
                push_str(&mut note, path);
                result.incomplete_reasons.push(note);
                proof { lemma_noted_grows(ri, result.incomplete_reasons@); }
                index = next;
                continue;
            },
        };
        let child = child_path(path, member.as_str());
        proof { lemma_under_child(path@, top, member@); }
        match entry.kind {
            TarKind::Directory => {
                index = next;
                continue;
            },
            TarKind::Symlink | TarKind::HardLink => {
                let mut note = owned("TAR link member skipped: ");
                push_str(&mut note, child.as_str());
                result.incomplete_reasons.push(note);
                proof { lemma_noted_grows(ri, result.incomplete_reasons@); }
                index = next;
                continue;
            },
            TarKind::Other => {
                let mut note = owned("unsupported TAR member skipped: ");
                push_str(&mut note, child.as_str());
                result.incomplete_reasons.push(note);
                proof { lemma_noted_grows(ri, result.incomplete_reasons@); }
                index = next;
                continue;
            },
            TarKind::Regular | TarKind::Contiguous => {},
        }
        if entry.size > size_limit {
            let mut note = owned("archive member exceeds byte limit: ");
            push_str(&mut note, child.as_str());
            result.incomplete_reasons.push(note);
            proof { lemma_noted_grows(ri, result.incomplete_reasons@); }
            index = next;
            continue;
        }
        if !reserve(entry.size, child.as_str(), budget, result) {
            proof { lemma_noted_grows(ri, result.incomplete_reasons@); }
            index = next;
            continue;
        }
        let content = match tar_content(bytes, index) {
            Ok(content) => content,
            Err(error) => {
                let mut note = owned("cannot read ");
                push_str(&mut note, child.as_str());
                push_str(&mut note, ": ");
                push_str(&mut note, error.as_str());
                result.incomplete_reasons.push(note);
                proof { lemma_noted_grows(ri, result.incomplete_reasons@); }
                index = next;
                continue;
            },
        };
        if content.len() as u64 != entry.size {
            let mut note = owned("TAR member size mismatch: ");
            push_str(&mut note, child.as_str());
            result.incomplete_reasons.push(note);
            proof { lemma_noted_grows(ri, result.incomplete_reasons@); }
            index = next;
            continue;
        }
        if time_limit_reached(child.as_str(), budget, result) {
            index = next;
            continue;
        }
        push_file(child, content, depth, budget, result, Ghost(l), Ghost(top));
        proof {
            lemma_noted_grows(ri, result.incomplete_reasons@);
            if tar_flat(path@, bytes@, l, e0 as nat, depth as int) && !time_noted(result.incomplete_reasons@) {
                let w0 = tar_walk(path@, bytes@, l, e0 as nat, index as nat).0;
                let w1 = tar_walk(path@, bytes@, l, e0 as nat, next as nat).0;
                assert(w1 == w0.push((child@, content@)));
                assert(flat(l, depth as int, w1));
                lemma_flat_prefix(l, depth as int, w0, (child@, content@));
                assert(files_view(result.files@) =~= files_view(f0) + w1);
            }
        }
        index = next;
    }
}

/// The name of the member inside a gzip file: the file's name without
/// `.gz`, or `content`.
pub open spec fn gzip_member_name(path: Seq<char>) -> Seq<char> {
    let parts = path_components(path);
    if parts.len() > 0 && parts.last() != seq!['.', '.'] && parts.last().len() > 3
        && seq_ends_with(parts.last(), ".gz"@) {
        parts.last().subrange(0, parts.last().len() - 3)
    } else {
        "content"@
    }
}

fn gzip_member(path: &str) -> (r: String)
    ensures
        r@ == gzip_member_name(path@),
{
    let parts = components(&chars_of(path));
    if parts.len() > 0 {
        let last = &parts[parts.len() - 1];
        let dots = last.len() == 2 && last[0] == '.' && last[1] == '.';
        assert(dots == (vecs_view(parts@).last() == seq!['.', '.'])) by {
            assert(vecs_view(parts@).last() == last@);
            if last@ =~= seq!['.', '.'] {
                assert(last@.len() == 2);
            }
        }
        if !dots && last.len() > 3 && chars_end_with_str(last, ".gz") {
            return string_from_chars(&slice_chars(last, 0, last.len() - 3));
        }
    }
    owned("content")
}

fn expand_gzip(path: &str, bytes: &[u8], depth: usize, budget: &mut Budget, result: &mut ResultSet,
    Ghost(l): Ghost<Limits>, Ghost(top): Ghost<Seq<char>>)
    requires
        depth < l.depth,
        kept(*old(result), *old(budget), l, top, (l.depth - depth) as nat),
        under(path@, top),
    ensures
        kept(*final(result), *final(budget), l, top, (l.depth - depth) as nat),
        covered(old(result).files@, old(budget).expanded, final(result).files@, final(budget).expanded, 0),
        reasons_grow(old(result).incomplete_reasons@, final(result).incomplete_reasons@),
        final(budget).started == old(budget).started,
        final(result).incomplete_reasons@.len() > old(result).incomplete_reasons@.len()
            || time_noted(final(result).incomplete_reasons@)
            || (final(result).files@.len() > 0
                && final(result).files@.last().path@ == path@ + "!/"@ + gzip_member_name(path@)),
        !time_noted(final(result).incomplete_reasons@) && old(result).files@.len() < member_cap(l)
            ==> (gunzip_result(bytes@, gzip_room(l, old(budget).expanded as nat) + 1) matches Ok(c)
            ==> (c.len() <= gzip_room(l, old(budget).expanded as nat) && !over_ratio_spec(c.len() as u64, bytes@.len() as u64)
            && old(budget).expanded + c.len() <= byte_cap(l) && (depth + 1 >= l.depth || !archive_magic(c))
            ==> files_view(final(result).files@) == files_view(old(result).files@).push((path@ + "!/"@ + gzip_member_name(path@), c)))),
        gunzip_result(bytes@, gzip_room(l, old(budget).expanded as nat) + 1) is Err
            && !time_noted(final(result).incomplete_reasons@) ==> final(result).files == old(result).files
            && strings_view(final(result).incomplete_reasons@) == strings_view(old(result).incomplete_reasons@)
                .push("cannot decompress gzip archive "@ + path@ + ": "@
                    + gunzip_result(bytes@, gzip_room(l, old(budget).expanded as nat) + 1)->Err_0),
    decreases l.depth - depth, 1nat,
{
    if time_limit_reached(path, budget, result) {
        return;
    }
    let name = gzip_member(path);
    let child = child_path(path, name.as_str());
    proof { lemma_under_child(path@, top, name@); }
    let size_limit = if budget.limits.member_bytes < MAX_MEMBER_BYTES { budget.limits.member_bytes } else { MAX_MEMBER_BYTES };
    let left = budget.limits.expanded_bytes.saturating_sub(budget.expanded);
    let maximum = if size_limit < left { size_limit } else { left };
    assert(maximum as nat == gzip_room(l, budget.expanded as nat));
    let content = match gunzip_limited(bytes, maximum.saturating_add(1)) {
        Ok(content) => content,
        Err(error) => {
            let mut note = owned("cannot decompress gzip archive ");
            push_str(&mut note, path);
            push_str(&mut note, ": ");
            push_str(&mut note, error.as_str());
            let ghost before = result.incomplete_reasons@;
            result.incomplete_reasons.push(note);
            assert(strings_view(result.incomplete_reasons@) =~= strings_view(before).push(note@));
            return;
        },
    };
    if content.len() as u64 > maximum {
        let mut note = owned("gzip member exceeds byte limit: ");
        push_str(&mut note, child.as_str());
        result.incomplete_reasons.push(note);
        return;
    }
    if over_ratio(content.len() as u64, bytes.len() as u64) {
        let mut note = owned("gzip compression ratio limit reached: ");
        push_str(&mut note, child.as_str());
        result.incomplete_reasons.push(note);
        return;
    }
    if time_limit_reached(child.as_str(), budget, result) {
        return;
    }
    let ghost r0 = result.incomplete_reasons@;
    if !reserve(content.len() as u64, child.as_str(), budget, result) {
        assert(strings_view(result.incomplete_reasons@).len() == result.incomplete_reasons@.len());
        assert(strings_view(r0).len() == r0.len());
        return;
    }
    let ghost r1 = result.incomplete_reasons@;
    push_file(child, content, depth, budget, result, Ghost(l), Ghost(top));
    assert(strings_view(result.incomplete_reasons@).len() == result.incomplete_reasons@.len());
    assert(strings_view(r1).len() == r1.len());
}

/// Expands an archive's members, and the members of archives inside it,
/// within the limits. Members are named by the archive's path, `!/` and
/// their own path; every member is counted, sized and named within bounds
/// whatever the archive holds and however long its reading takes. Read one
/// level deep, or when none of the members it keeps is itself an archive,
/// an archive keeps exactly the members that its entries, the safety checks
/// and the limits admit, in order, unless the time budget ran out, which a
/// reason then records.
pub fn extract(path: &str, bytes: &[u8], limits: Limits) -> (r: ResultSet)
    ensures
        r.files@.len() <= member_cap(limits) + limits.depth,
        total_bytes(r.files@) <= byte_cap(limits),
        members_ok(r.files@, limits, path@),
        !archive_magic(bytes@) ==> r.files@.len() == 0 && r.incomplete_reasons@.len() == 0,
        archive_magic(bytes@) && limits.depth == 0 ==> r.files@.len() == 0
            && strings_view(r.incomplete_reasons@) == seq!["archive recursion limit reached at "@ + path@],
        zip_magic(bytes@) && limits.depth > 0 && zip_count(bytes@) is Err ==> r.files@.len() == 0
            && strings_view(r.incomplete_reasons@) == seq!["cannot parse ZIP archive "@ + path@ + ": "@ + zip_count(bytes@)->Err_0],
        zip_magic(bytes@) && limits.depth > 0 && zip_count(bytes@) is Ok && limits.time_limit_ms == 0 ==> r.files@.len() == 0
            && strings_view(r.incomplete_reasons@) == zip_count_notes(path@, limits, zip_count(bytes@)->Ok_0, 0)
                + zip_time_notes(path@, limits, zip_count(bytes@)->Ok_0, 0),
        zip_magic(bytes@) && limits.depth > 0 && zip_count(bytes@) is Ok && zip_count(bytes@)->Ok_0 > member_cap(limits)
            ==> r.incomplete_reasons@.len() > 0
            && r.incomplete_reasons@[0]@ == "archive member limit of "@ + decimal(limits.members as nat) + " reached at "@ + path@,
        !zip_magic(bytes@) && gzip_magic(bytes@) && limits.depth > 0 && gunzip_result(bytes@, gzip_room(limits, 0) + 1) is Err
            && !time_noted(r.incomplete_reasons@) ==> r.files@.len() == 0 && strings_view(r.incomplete_reasons@)
                == seq!["cannot decompress gzip archive "@ + path@ + ": "@ + gunzip_result(bytes@, gzip_room(limits, 0) + 1)->Err_0],
        !zip_magic(bytes@) && gzip_magic(bytes@) && limits.depth > 0 && member_cap(limits) > 0
            && !time_noted(r.incomplete_reasons@) ==> (gunzip_result(bytes@, gzip_room(limits, 0) + 1) matches Ok(c)
            ==> (c.len() <= gzip_room(limits, 0) && !over_ratio_spec(c.len() as u64, bytes@.len() as u64)
            && c.len() <= byte_cap(limits) && (limits.depth == 1 || !archive_magic(c)) ==> files_view(r.files@) == seq![(path@ + "!/"@ + gzip_member_name(path@), c)])),
        !zip_magic(bytes@) && !gzip_magic(bytes@) && tar_magic(bytes@) && limits.depth > 0 && tar_member_of(bytes@, 0) is Err
            ==> r.files@.len() == 0 && strings_view(r.incomplete_reasons@)
                == seq!["cannot read TAR archive "@ + path@ + ": "@ + tar_member_of(bytes@, 0)->Err_0],
        !zip_magic(bytes@) && !gzip_magic(bytes@) && tar_magic(bytes@) && limits.depth > 0 && tar_flat(path@, bytes@, limits, 0, 0)
            && !time_noted(r.incomplete_reasons@)
            ==> files_view(r.files@) == tar_walk(path@, bytes@, limits, 0, tar_stop(path@, bytes@, limits, 0, 0, 0)).0,
        zip_magic(bytes@) && limits.depth > 0 && zip_count(bytes@) is Ok && !time_noted(r.incomplete_reasons@)
            && flat(limits, 0, zip_walk(path@, bytes@, limits, 0, min_nat(zip_count(bytes@)->Ok_0, member_cap(limits))).0)
            ==> files_view(r.files@) == zip_walk(path@, bytes@, limits, 0, min_nat(zip_count(bytes@)->Ok_0, member_cap(limits))).0,
{
    let started = clock_now();
    let mut result = ResultSet { files: Vec::new(), incomplete_reasons: Vec::new() };
    let mut budget = Budget { limits, expanded: 0, started };
    proof {
        assert(strings_view(result.incomplete_reasons@) =~= Seq::<Seq<char>>::empty());
        assert(!time_noted(result.incomplete_reasons@));
    }
    let ghost f0 = result.files@;
    expand(path, bytes, 0, &mut budget, &mut result, Ghost(limits), Ghost(path@));
    proof {
        assert(zip_room(limits, 0) == member_cap(limits));
        assert(files_view(f0) + tar_walk(path@, bytes@, limits, 0, tar_stop(path@, bytes@, limits, 0, 0, 0)).0
            =~= tar_walk(path@, bytes@, limits, 0, tar_stop(path@, bytes@, limits, 0, 0, 0)).0);
        assert(files_view(f0) =~= Seq::<(Seq<char>, Seq<u8>)>::empty());
        assert(files_view(f0).push((path@ + "!/"@ + gzip_member_name(path@), gunzip_result(bytes@, gzip_room(limits, 0) + 1)->Ok_0))
            =~= seq![(path@ + "!/"@ + gzip_member_name(path@), gunzip_result(bytes@, gzip_room(limits, 0) + 1)->Ok_0)]);
        assert(files_view(f0) + zip_walk(path@, bytes@, limits, 0, min_nat(zip_count(bytes@)->Ok_0, member_cap(limits))).0
            =~= zip_walk(path@, bytes@, limits, 0, min_nat(zip_count(bytes@)->Ok_0, member_cap(limits))).0);
        assert(Seq::<Seq<char>>::empty() + zip_count_notes(path@, limits, zip_count(bytes@)->Ok_0, 0)
            =~= zip_count_notes(path@, limits, zip_count(bytes@)->Ok_0, 0));
        assert(Seq::<Seq<char>>::empty().push("cannot parse ZIP archive "@ + path@ + ": "@ + zip_count(bytes@)->Err_0)
            =~= seq!["cannot parse ZIP archive "@ + path@ + ": "@ + zip_count(bytes@)->Err_0]);
        assert(Seq::<Seq<char>>::empty().push("cannot decompress gzip archive "@ + path@ + ": "@
            + gunzip_result(bytes@, gzip_room(limits, 0) + 1)->Err_0)
            =~= seq!["cannot decompress gzip archive "@ + path@ + ": "@ + gunzip_result(bytes@, gzip_room(limits, 0) + 1)->Err_0]);
        assert(Seq::<Seq<char>>::empty().push("cannot read TAR archive "@ + path@ + ": "@ + tar_member_of(bytes@, 0)->Err_0)
            =~= seq!["cannot read TAR archive "@ + path@ + ": "@ + tar_member_of(bytes@, 0)->Err_0]);
    }
    result
}

} // verus!
