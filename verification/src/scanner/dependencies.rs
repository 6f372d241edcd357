//! Locked dependency artifacts: which registry URLs may be fetched, and
//! whether fetched bytes match the lockfile's integrity value.
use vstd::prelude::*;
use base64::Engine;
use sha2::Digest;
use crate::model::DependencyRecord;
use crate::scanner::graph::{ascii_words, words};
use crate::text::{
    chars_of, chars_start_with_str, char_is_control, is_control, owned, push_decimal, push_str,
    seq_starts_with, slice_chars, string_from_chars,
};

verus! {

/// The largest artifact that is inspected, in bytes.
pub const MAX_ARTIFACT_BYTES: usize = 67108864;

/// The registry prefix that artifact URLs must start with.
pub open spec fn registry_prefix() -> Seq<char> {
    "https://registry.npmjs.org/"@
}

/// A URL that may be fetched: on the HTTPS npm registry, with no query,
/// fragment or backslash, and no control character.
pub open spec fn allowed_registry_url(url: Seq<char>) -> bool {
    &&& seq_starts_with(url, registry_prefix())
    &&& !url.contains('?')
    &&& !url.contains('#')
    &&& !url.contains('\\')
    &&& forall|i: int| 0 <= i < url.len() ==> !is_control(#[trigger] url[i])
}

/// Whether the URL may be fetched.
pub fn is_allowed_registry_url(url: &str) -> (r: bool)
    ensures
        r == allowed_registry_url(url@),
{
    let v = chars_of(url);
    if !chars_start_with_str(&v, "https://registry.npmjs.org/") {
        return false;
    }
    let mut i: usize = 0;
    while i < v.len()
        invariant
            i <= v@.len(),
            v@ == url@,
            forall|j: int| 0 <= j < i ==> v@[j] != '?' && v@[j] != '#' && v@[j] != '\\' && !is_control(#[trigger] v@[j]),
        decreases v.len() - i,
    {
        let c = v[i];
        if c == '?' || c == '#' || c == '\\' || char_is_control(c) {
            assert(url@[i as int] == c);
            return false;
        }
        i = i + 1;
    }
    true
}

/// The SHA-512 digest of the bytes.
pub uninterp spec fn sha512_of(bytes: Seq<u8>) -> Seq<u8>;

/// The bytes that standard, padded base64 text decodes to, if it decodes.
pub uninterp spec fn base64_decoded(text: Seq<char>) -> Option<Seq<u8>>;

/// `sha2::Sha512::digest`: the 64-byte SHA-512 digest of the bytes.
#[verifier::external_body]
fn sha512_digest(bytes: &[u8]) -> (r: Vec<u8>)
    ensures
        r@ == sha512_of(bytes@),
        r@.len() == 64,
{
    sha2::Sha512::digest(bytes).to_vec()
}

/// `base64::engine::general_purpose::STANDARD.decode`: the decoded bytes,
/// or `None` where the text is not valid standard base64.
#[verifier::external_body]
fn decode_base64(text: &str) -> (r: Option<Vec<u8>>)
    ensures
        match r {
            Some(v) => base64_decoded(text@) == Some(v@),
            None => base64_decoded(text@).is_none(),
        },
{
    base64::engine::general_purpose::STANDARD.decode(text).ok()
}

/// The base64 parts of the `sha512-` tokens, in order.
pub open spec fn sha512_candidates(tokens: Seq<Seq<char>>) -> Seq<Seq<char>>
    decreases tokens.len(),
{
    if tokens.len() == 0 {
        Seq::empty()
    } else {
        let rest = sha512_candidates(tokens.drop_last());
        if seq_starts_with(tokens.last(), "sha512-"@) {
            rest.push(tokens.last().skip(7))
        } else {
            rest
        }
    }
}

pub open spec fn no_token_message() -> Seq<char> {
    "lockfile has no supported sha512 integrity token"@
}

pub open spec fn malformed_message() -> Seq<char> {
    "malformed sha512 integrity token"@
}

pub open spec fn mismatch_message() -> Seq<char> {
    "downloaded bytes do not match any sha512 integrity token"@
}

/// The verdict on the candidates from the `k`-th on: a candidate with `?` is
/// skipped, one that does not decode fails, one that equals the digest passes.
pub open spec fn check_candidates(cands: Seq<Seq<char>>, digest: Seq<u8>, k: int) -> Result<(), Seq<char>>
    decreases cands.len() - k,
{
    if k < 0 || k >= cands.len() {
        Err(mismatch_message())
    } else if cands[k].contains('?') {
        check_candidates(cands, digest, k + 1)
    } else {
        match base64_decoded(cands[k]) {
            None => Err(malformed_message()),
            Some(expected) => if expected == digest { Ok(()) } else { check_candidates(cands, digest, k + 1) },
        }
    }
}

/// The verdict on the bytes against the lockfile's integrity value.
pub open spec fn integrity_verdict(bytes: Seq<u8>, integrity: Seq<char>) -> Result<(), Seq<char>> {
    let cands = sha512_candidates(ascii_words(integrity));
    if cands.len() == 0 {
        Err(no_token_message())
    } else {
        check_candidates(cands, sha512_of(bytes), 0)
    }
}

pub open spec fn result_view(r: Result<(), String>) -> Result<(), Seq<char>> {
    match r {
        Ok(()) => Ok(()),
        Err(e) => Err(e@),
    }
}

/// Checks the bytes against the lockfile's integrity value.
pub fn verify_integrity(bytes: &[u8], integrity: &str) -> (r: Result<(), String>)
    ensures
        result_view(r) == integrity_verdict(bytes@, integrity@),
{
    let text = chars_of(integrity);
    let tokens = words(&text);
    let ghost tv = crate::text::vecs_view(tokens@);
    let mut cands: Vec<Vec<char>> = Vec::new();
    let mut i: usize = 0;
    while i < tokens.len()
        invariant
            i <= tokens@.len(),
            tv == crate::text::vecs_view(tokens@),
            crate::text::vecs_view(cands@) == sha512_candidates(tv.subrange(0, i as int)),
        decreases tokens.len() - i,
    {
        assert(tv.subrange(0, i + 1).drop_last() =~= tv.subrange(0, i as int));
        assert(tv[i as int] == tokens@[i as int]@);
        if chars_start_with_str(&tokens[i], "sha512-") {
            proof { reveal_strlit("sha512-"); }
            let c = slice_chars(&tokens[i], 7, tokens[i].len());
            let ghost before = cands@;
            cands.push(c);
            assert(crate::text::vecs_view(cands@) =~= crate::text::vecs_view(before).push(tv[i as int].skip(7)));
        }
        i = i + 1;
    }
    assert(tv.subrange(0, tokens@.len() as int) =~= tv);
    if cands.len() == 0 {
        return Err(owned("lockfile has no supported sha512 integrity token"));
    }
    let digest = sha512_digest(bytes);
    let ghost cv = crate::text::vecs_view(cands@);
    let mut k: usize = 0;
    while k < cands.len()
        invariant
            k <= cands@.len(),
            cv == crate::text::vecs_view(cands@),
            digest@ == sha512_of(bytes@),
            integrity_verdict(bytes@, integrity@) == check_candidates(cv, digest@, k as int),
        decreases cands.len() - k,
    {
        let c = &cands[k];
        assert(cv[k as int] == c@);
        let mut query = false;
        let mut q: usize = 0;
        while q < c.len()
            invariant
                q <= c@.len(),
                query == exists|j: int| 0 <= j < q && c@[j] == '?',
            decreases c.len() - q,
        {
            if c[q] == '?' {
                query = true;
            }
            q = q + 1;
        }
        if !query {
            let s = string_from_chars(c);
            match decode_base64(s.as_str()) {
                None => {
                    return Err(owned("malformed sha512 integrity token"));
                },
                Some(expected) => {
                    if crate::text::bytes_equal(&expected, &digest) {
                        return Ok(());
                    }
                },
            }
        }
        k = k + 1;
    }
    Err(owned("downloaded bytes do not match any sha512 integrity token"))
}


/// What fetching a dependency's artifact needs: its URL and integrity value,
/// or why it is not fetched.
pub open spec fn request_verdict(d: DependencyRecord) -> Result<(Seq<char>, Seq<char>), Seq<char>> {
    if d.ecosystem@ != "npm"@ {
        Err("online artifact inspection supports npm only; skipped "@ + d.name@ + " ("@ + d.ecosystem@ + ")"@)
    } else {
        match d.resolved {
            None => Err(d.name@ + " has no exact resolved artifact URL"@),
            Some(url) => if !allowed_registry_url(url@) {
                Err(d.name@ + " resolved URL is outside the HTTPS npm registry allowlist"@)
            } else {
                match d.integrity {
                    None => Err(d.name@ + " has no lockfile integrity value"@),
                    Some(integrity) => Ok((url@, integrity@)),
                }
            },
        }
    }
}

/// The URL and integrity value to fetch a dependency's artifact with.
pub fn download_request(dependency: &DependencyRecord) -> (r: Result<(String, String), String>)
    ensures
        match r {
            Ok((url, integrity)) => request_verdict(*dependency) == Ok::<(Seq<char>, Seq<char>), Seq<char>>((url@, integrity@)),
            Err(e) => request_verdict(*dependency) == Err::<(Seq<char>, Seq<char>), Seq<char>>(e@),
        },
{
    if !crate::text::str_eq(dependency.ecosystem.as_str(), "npm") {
        let mut e = owned("online artifact inspection supports npm only; skipped ");
        push_str(&mut e, dependency.name.as_str());
        push_str(&mut e, " (");
        push_str(&mut e, dependency.ecosystem.as_str());
        push_str(&mut e, ")");
        return Err(e);
    }
    let url = match &dependency.resolved {
        None => {
            let mut e = dependency.name.clone();
            push_str(&mut e, " has no exact resolved artifact URL");
            return Err(e);
        },
        Some(url) => url,
    };
    if !is_allowed_registry_url(url.as_str()) {
        let mut e = dependency.name.clone();
        push_str(&mut e, " resolved URL is outside the HTTPS npm registry allowlist");
        return Err(e);
    }
    match &dependency.integrity {
        None => {
            let mut e = dependency.name.clone();
            push_str(&mut e, " has no lockfile integrity value");
            Err(e)
        },
        Some(integrity) => Ok((url.clone(), integrity.clone())),
    }
}

/// The verdict on fetched bytes: within the size limit and matching the
/// integrity value.
pub open spec fn artifact_verdict(name: Seq<char>, bytes: Seq<u8>, integrity: Seq<char>) -> Result<(), Seq<char>> {
    if bytes.len() > MAX_ARTIFACT_BYTES {
        Err(name + " artifact exceeds "@ + crate::text::decimal(MAX_ARTIFACT_BYTES as nat) + " byte limit"@)
    } else {
        match integrity_verdict(bytes, integrity) {
            Ok(()) => Ok(()),
            Err(e) => Err(name + " artifact integrity failed: "@ + e),
        }
    }
}

/// Accepts fetched bytes that are within the size limit and match the
/// integrity value.
pub fn accept_artifact(dependency: &DependencyRecord, bytes: Vec<u8>, integrity: &str) -> (r: Result<Vec<u8>, String>)
    ensures
        match r {
            Ok(b) => b@ == bytes@ && artifact_verdict(dependency.name@, bytes@, integrity@) == Ok::<(), Seq<char>>(()),
            Err(e) => artifact_verdict(dependency.name@, bytes@, integrity@) == Err::<(), Seq<char>>(e@),
        },
{
    if bytes.len() > MAX_ARTIFACT_BYTES {
        let mut e = dependency.name.clone();
        push_str(&mut e, " artifact exceeds ");
        push_decimal(&mut e, MAX_ARTIFACT_BYTES as u64);
        push_str(&mut e, " byte limit");
        return Err(e);
    }
    match verify_integrity(&bytes, integrity) {
        Ok(()) => Ok(bytes),
        Err(reason) => {
            let mut e = dependency.name.clone();
            push_str(&mut e, " artifact integrity failed: ");
            push_str(&mut e, reason.as_str());
            Err(e)
        },
    }
}

proof fn lemma_candidates_match(cands: Seq<Seq<char>>, digest: Seq<u8>, k: int)
    requires
        check_candidates(cands, digest, k) is Ok,
    ensures
        exists|j: int| k <= j < cands.len() && !cands[j].contains('?')
            && #[trigger] base64_decoded(cands[j]) == Some(digest),
    decreases cands.len() - k,
{
    if cands[k].contains('?') {
        lemma_candidates_match(cands, digest, k + 1);
    } else if base64_decoded(cands[k]) != Some(digest) {
        lemma_candidates_match(cands, digest, k + 1);
    }
}

/// Online inspection fetches only npm artifacts that the lockfile resolves
/// to a URL on the HTTPS npm registry and gives an integrity value for.
pub proof fn lemma_requests_stay_on_registry(d: DependencyRecord)
    requires
        request_verdict(d) is Ok,
    ensures
        d.ecosystem@ == "npm"@,
        d.resolved is Some && d.resolved->Some_0@ == request_verdict(d)->Ok_0.0,
        allowed_registry_url(request_verdict(d)->Ok_0.0),
        seq_starts_with(request_verdict(d)->Ok_0.0, registry_prefix()),
        d.integrity is Some && d.integrity->Some_0@ == request_verdict(d)->Ok_0.1,
{
}

/// A downloaded artifact is scanned only when it is within the size limit
/// and its SHA-512 digest is what one of the integrity value's `sha512-`
/// tokens decodes to.
pub proof fn lemma_accepted_artifacts_match(name: Seq<char>, bytes: Seq<u8>, integrity: Seq<char>)
    requires
        artifact_verdict(name, bytes, integrity) is Ok,
    ensures
        bytes.len() <= MAX_ARTIFACT_BYTES,
        exists|j: int| 0 <= j < sha512_candidates(ascii_words(integrity)).len()
            && #[trigger] base64_decoded(sha512_candidates(ascii_words(integrity))[j]) == Some(sha512_of(bytes)),
{
    let cands = sha512_candidates(ascii_words(integrity));
    lemma_candidates_match(cands, sha512_of(bytes), 0);
}

} // verus!
