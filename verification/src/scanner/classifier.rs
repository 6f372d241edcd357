//! What a file's bytes are: their text encoding, their declared and
//! detected types, the roles of the file in a repository, and the findings
//! that follow from a disagreement between them.
use vstd::prelude::*;
use vstd::utf8::{decode_utf8, encode_utf8, valid_utf8};
use sha2::Digest;
use crate::model::{Confidence, FileKind, FileRecord, Finding, FindingView, Severity, findings_view, strings_view};
use crate::scanner::graph::trim_front;
use crate::scanner::raw::{self, opt_str_view, raw_findings, raw_signals, line_metrics_spec};
use crate::text::{
    basename, basename_of, chars_contain_str, chars_of, chars_start_with_str, chars_eq_str,
    extension, extension_of, forward_slashes, is_one_of, lower, lowercase_chars, owned, push_char,
    push_str, seq_contains, seq_starts_with, skip_whitespace, string_from_chars, strs_view,
    to_forward_slashes, trim_start, hex_digit, hex_digit_char,
};

verus! {

/// The character that a high and a low surrogate encode together.
pub open spec fn pair_code(high: u16, low: u16) -> u32 {
    (0x10000 + (high - 0xD800) * 0x400 + (low - 0xDC00)) as u32
}

/// The text that UTF-16 code units decode to, if they are well formed:
/// a unit outside the surrogates is its character, a high surrogate
/// followed by a low one is the character of the pair, and any other
/// surrogate makes the units ill formed.
pub open spec fn utf16_text(units: Seq<u16>) -> Option<Seq<char>>
    decreases units.len(),
{
    if units.len() == 0 {
        Some(Seq::empty())
    } else if units[0] < 0xD800 || units[0] > 0xDFFF {
        match utf16_text(units.skip(1)) {
            Some(rest) => Some(seq![(units[0] as u32) as char] + rest),
            None => None,
        }
    } else if units[0] <= 0xDBFF && units.len() >= 2 && 0xDC00 <= units[1] && units[1] <= 0xDFFF {
        match utf16_text(units.skip(2)) {
            Some(rest) => Some(seq![pair_code(units[0], units[1]) as char] + rest),
            None => None,
        }
    } else {
        None
    }
}

/// The decoding of `rest`, after the text already decoded.
pub open spec fn after_text(done: Seq<char>, rest: Option<Seq<char>>) -> Option<Seq<char>> {
    match rest {
        Some(r) => Some(done + r),
        None => None,
    }
}

/// The MIME type that `infer` detects from a file's leading bytes.
pub uninterp spec fn inferred_mime(bytes: Seq<u8>) -> Option<Seq<char>>;

/// The SHA-256 digest of the bytes.
pub uninterp spec fn sha256_of(bytes: Seq<u8>) -> Seq<u8>;

/// `std::str::from_utf8`: the text when the bytes are valid UTF-8.
#[verifier::external_body]
pub(crate) fn utf8_text(bytes: &[u8]) -> (r: Option<String>)
    ensures
        match r {
            Some(t) => valid_utf8(bytes@) && t@ == decode_utf8(bytes@),
            None => !valid_utf8(bytes@),
        },
{
    std::str::from_utf8(bytes).ok().map(|text| text.to_owned())
}

/// `char::from_u32`: the character with the code, when the code is a
/// Unicode scalar value (below the surrogates, or above them up to
/// `0x10FFFF`).
#[verifier::external_body]
fn char_of(code: u32) -> (r: Option<char>)
    ensures
        (code < 0xD800 || 0xE000 <= code <= 0x10FFFF) ==> r == Some(code as char),
        !(code < 0xD800 || 0xE000 <= code <= 0x10FFFF) ==> r is None,
{
    char::from_u32(code)
}

/// Decodes UTF-16 code units: the text when they are well formed.
fn utf16_decode(units: &[u16]) -> (r: Option<String>)
    ensures
        match r {
            Some(t) => utf16_text(units@) == Some(t@),
            None => utf16_text(units@).is_none(),
        },
{
    let mut out = String::new();
    let mut i: usize = 0;
    assert(units@.skip(0) =~= units@);
    assert(out@ =~= Seq::<char>::empty());
    assert(after_text(Seq::empty(), utf16_text(units@)) =~= utf16_text(units@)) by {
        match utf16_text(units@) {
            Some(t) => { assert(Seq::<char>::empty() + t =~= t); },
            None => {},
        }
    }
    while i < units.len()
        invariant
            i <= units@.len(),
            utf16_text(units@) == after_text(out@, utf16_text(units@.skip(i as int))),
        decreases units.len() - i,
    {
        let u = units[i];
        let ghost rest = units@.skip(i as int);
        if u < 0xD800u16 || u > 0xDFFFu16 {
            let c = match char_of(u as u32) {
                Some(c) => c,
                None => return None,
            };
            assert(rest.skip(1) =~= units@.skip(i + 1));
            proof {
                match utf16_text(rest.skip(1)) {
                    Some(t) => { assert(out@.push(c) + t =~= out@ + (seq![c] + t)); },
                    None => {},
                }
            }
            push_char(&mut out, c);
            i = i + 1;
        } else if u <= 0xDBFFu16 && i + 1 < units.len() && 0xDC00u16 <= units[i + 1] && units[i + 1] <= 0xDFFFu16 {
            let low = units[i + 1];
            let code: u32 = 0x10000u32 + ((u - 0xD800u16) as u32) * 0x400u32 + ((low - 0xDC00u16) as u32);
            assert(code == pair_code(u, low));
            let c = match char_of(code) {
                Some(c) => c,
                None => return None,
            };
            assert(rest.skip(2) =~= units@.skip(i + 2));
            proof {
                match utf16_text(rest.skip(2)) {
                    Some(t) => { assert(out@.push(c) + t =~= out@ + (seq![c] + t)); },
                    None => {},
                }
            }
            push_char(&mut out, c);
            i = i + 2;
        } else {
            return None;
        }
    }
    assert(units@.skip(i as int) =~= Seq::<u16>::empty());
    assert(out@ + Seq::<char>::empty() =~= out@);
    Some(out)
}

/// `infer::get`: the MIME type of the detected file type, if any.
#[verifier::external_body]
fn detect_mime(bytes: &[u8]) -> (r: Option<String>)
    ensures
        match r {
            Some(m) => inferred_mime(bytes@) == Some(m@),
            None => inferred_mime(bytes@).is_none(),
        },
{
    infer::get(bytes).map(|kind| kind.mime_type().to_owned())
}

/// `sha2::Sha256::digest`: the 32-byte SHA-256 digest of the bytes.
#[verifier::external_body]
fn sha256_digest(bytes: &[u8]) -> (r: Vec<u8>)
    ensures
        r@ == sha256_of(bytes@),
        r@.len() == 32,
{
    sha2::Sha256::digest(bytes).to_vec()
}

/// The 16-bit units of byte pairs, low byte first or high byte first.
pub open spec fn utf16_units(bytes: Seq<u8>, little: bool) -> Seq<u16> {
    Seq::new(bytes.len() / 2, |i: int| if little {
        (bytes[2 * i] + 256 * bytes[2 * i + 1]) as u16
    } else {
        (256 * bytes[2 * i] + bytes[2 * i + 1]) as u16
    })
}

pub open spec fn starts_with_bytes(b: Seq<u8>, prefix: Seq<u8>) -> bool {
    prefix.len() <= b.len() && b.subrange(0, prefix.len() as int) == prefix
}

/// The encoding name and text of a file's bytes: a byte-order mark picks
/// UTF-8 or UTF-16, a NUL in the first 8 KiB marks binary, else UTF-8.
pub open spec fn text_decoding(b: Seq<u8>) -> (Option<Seq<char>>, Option<Seq<char>>) {
    let unknown = (Some("unknown"@), None::<Seq<char>>);
    if starts_with_bytes(b, seq![0xefu8, 0xbbu8, 0xbfu8]) {
        let rest = b.skip(3);
        if valid_utf8(rest) { (Some("utf-8-bom"@), Some(decode_utf8(rest))) } else { unknown }
    } else if starts_with_bytes(b, seq![0xffu8, 0xfeu8]) || starts_with_bytes(b, seq![0xfeu8, 0xffu8]) {
        let little = b[0] == 0xffu8;
        let rest = b.skip(2);
        if rest.len() % 2 != 0 {
            unknown
        } else {
            match utf16_text(utf16_units(rest, little)) {
                Some(t) => (Some(if little { "utf-16le"@ } else { "utf-16be"@ }), Some(t)),
                None => unknown,
            }
        }
    } else if b.take(if b.len() < 8192 { b.len() as int } else { 8192 }).contains(0u8) {
        (Some("binary"@), None)
    } else if valid_utf8(b) {
        (Some("utf-8"@), Some(decode_utf8(b)))
    } else {
        unknown
    }
}

pub open spec fn opt_string_view(o: Option<String>) -> Option<Seq<char>> {
    match o {
        Some(s) => Some(s@),
        None => None,
    }
}

fn named(name: &str) -> (r: Option<String>)
    ensures
        r == Some(r.unwrap()) && r.unwrap()@ == name@,
{
    Some(owned(name))
}

/// The encoding name and the text of a file's bytes.
pub fn decode_text(bytes: &[u8]) -> (r: (Option<String>, Option<String>))
    ensures
        (opt_string_view(r.0), opt_string_view(r.1)) == text_decoding(bytes@),
{
    let n = bytes.len();
    if n >= 3 && bytes[0] == 0xef && bytes[1] == 0xbb && bytes[2] == 0xbf {
        assert(bytes@.subrange(0, 3) =~= seq![0xefu8, 0xbbu8, 0xbfu8]);
        let rest = crate::text::byte_range(bytes, 3, n);
        assert(rest@ =~= bytes@.skip(3));
        return match utf8_text(&rest) {
            Some(t) => (named("utf-8-bom"), Some(t)),
            None => (named("unknown"), None),
        };
    }
    assert(!starts_with_bytes(bytes@, seq![0xefu8, 0xbbu8, 0xbfu8])) by {
        if starts_with_bytes(bytes@, seq![0xefu8, 0xbbu8, 0xbfu8]) {
            assert(bytes@.subrange(0, 3)[0] == bytes@[0]);
            assert(bytes@.subrange(0, 3)[1] == bytes@[1]);
            assert(bytes@.subrange(0, 3)[2] == bytes@[2]);
        }
    }
    let le = n >= 2 && bytes[0] == 0xff && bytes[1] == 0xfe;
    let be = n >= 2 && bytes[0] == 0xfe && bytes[1] == 0xff;
    assert(le == starts_with_bytes(bytes@, seq![0xffu8, 0xfeu8])) by {
        if n >= 2 {
            assert(bytes@.subrange(0, 2)[0] == bytes@[0]);
            assert(bytes@.subrange(0, 2)[1] == bytes@[1]);
            if le { assert(bytes@.subrange(0, 2) =~= seq![0xffu8, 0xfeu8]); }
        }
    }
    assert(be == starts_with_bytes(bytes@, seq![0xfeu8, 0xffu8])) by {
        if n >= 2 {
            assert(bytes@.subrange(0, 2)[0] == bytes@[0]);
            assert(bytes@.subrange(0, 2)[1] == bytes@[1]);
            if be { assert(bytes@.subrange(0, 2) =~= seq![0xfeu8, 0xffu8]); }
        }
    }
    if le || be {
        let rest_len = n - 2;
        if rest_len % 2 != 0 {
            return (named("unknown"), None);
        }
        let ghost rest = bytes@.skip(2);
        let mut units: Vec<u16> = Vec::new();
        let mut i: usize = 0;
        while i < rest_len / 2
            invariant
                n == bytes@.len(),
                n >= 2,
                rest_len == n - 2,
                rest == bytes@.skip(2),
                i <= rest_len / 2,
                units@ == utf16_units(rest, le).take(i as int),
            decreases rest_len / 2 - i,
        {
            let a = bytes[2 + 2 * i];
            let b = bytes[3 + 2 * i];
            let u: u16 = if le { (a as u16) + (b as u16) * 256 } else { (a as u16) * 256 + (b as u16) };
            assert(rest[2 * i] == a && rest[2 * i + 1] == b);
            units.push(u);
            assert(units@ =~= utf16_units(rest, le).take(i + 1));
            i = i + 1;
        }
        assert(utf16_units(rest, le).take(i as int) =~= utf16_units(rest, le));
        return match utf16_decode(&units) {
            Some(t) => (if le { named("utf-16le") } else { named("utf-16be") }, Some(t)),
            None => (named("unknown"), None),
        };
    }
    let limit = if n < 8192 { n } else { 8192 };
    let mut i: usize = 0;
    while i < limit
        invariant
            limit <= n == bytes@.len(),
            limit == (if n < 8192 { n } else { 8192 }),
            !starts_with_bytes(bytes@, seq![0xefu8, 0xbbu8, 0xbfu8]),
            !starts_with_bytes(bytes@, seq![0xffu8, 0xfeu8]),
            !starts_with_bytes(bytes@, seq![0xfeu8, 0xffu8]),
            i <= limit,
            forall|j: int| 0 <= j < i ==> bytes@[j] != 0u8,
        decreases limit - i,
    {
        if bytes[i] == 0 {
            assert(bytes@.take(limit as int)[i as int] == 0u8);
            assert(bytes@.take(limit as int).contains(0u8));
            let r = (named("binary"), None);
            assert((opt_string_view(r.0), opt_string_view(r.1)) == (Some("binary"@), None::<Seq<char>>));
            return r;
        }
        i = i + 1;
    }
    assert(!bytes@.take(limit as int).contains(0u8)) by {
        if bytes@.take(limit as int).contains(0u8) {
            let j = choose|j: int| 0 <= j < limit && bytes@.take(limit as int)[j] == 0u8;
            assert(bytes@[j] == 0u8);
        }
    }
    match utf8_text(bytes) {
        Some(t) => (named("utf-8"), Some(t)),
        None => (named("unknown"), None),
    }
}


/// The MIME type that a binary format's extension promises.
pub open spec fn expected_mime(ext: Seq<char>) -> Option<Seq<char>> {
    if ext == "png"@ { Some("image/png"@) }
    else if ext == "jpg"@ || ext == "jpeg"@ { Some("image/jpeg"@) }
    else if ext == "gif"@ { Some("image/gif"@) }
    else if ext == "webp"@ { Some("image/webp"@) }
    else if ext == "pdf"@ { Some("application/pdf"@) }
    else if ext == "zip"@ { Some("application/zip"@) }
    else if ext == "gz"@ || ext == "gzip"@ { Some("application/gzip"@) }
    else if ext == "woff"@ { Some("font/woff"@) }
    else if ext == "woff2"@ { Some("font/woff2"@) }
    else { None }
}

fn expected_mime_of(ext: &[char]) -> (r: Option<&'static str>)
    ensures
        match r {
            Some(m) => expected_mime(ext@) == Some(m@),
            None => expected_mime(ext@).is_none(),
        },
{
    if chars_eq_str(ext, "png") { Some("image/png") }
    else if chars_eq_str(ext, "jpg") || chars_eq_str(ext, "jpeg") { Some("image/jpeg") }
    else if chars_eq_str(ext, "gif") { Some("image/gif") }
    else if chars_eq_str(ext, "webp") { Some("image/webp") }
    else if chars_eq_str(ext, "pdf") { Some("application/pdf") }
    else if chars_eq_str(ext, "zip") { Some("application/zip") }
    else if chars_eq_str(ext, "gz") || chars_eq_str(ext, "gzip") { Some("application/gzip") }
    else if chars_eq_str(ext, "woff") { Some("font/woff") }
    else if chars_eq_str(ext, "woff2") { Some("font/woff2") }
    else { None }
}

/// A MIME type of an executable program.
pub open spec fn executable_mime(m: Seq<char>) -> bool {
    seq_contains(m, "executable"@) || seq_contains(m, "x-elf"@) || seq_contains(m, "x-msdownload"@)
        || seq_contains(m, "portable-executable"@)
}

/// Whether a MIME type names an executable program.
pub fn is_executable_mime(value: &str) -> (r: bool)
    ensures
        r == executable_mime(value@),
{
    let v = chars_of(value);
    chars_contain_str(&v, "executable") || chars_contain_str(&v, "x-elf")
        || chars_contain_str(&v, "x-msdownload") || chars_contain_str(&v, "portable-executable")
}

/// SVG text that does not start like SVG or XML, after byte-order marks and whitespace.
pub open spec fn svg_text_mismatch(text: Seq<char>) -> bool {
    let t = trim_start(trim_front(text, seq!['\u{feff}']));
    !seq_starts_with(t, "<svg"@) && !seq_starts_with(t, "<?xml"@)
}

/// The finding for a declared type that the content contradicts.
pub open spec fn mismatch_spec(path: Seq<char>, ext: Option<Seq<char>>, mime: Option<Seq<char>>, text: Option<Seq<char>>) -> Option<FindingView> {
    match ext {
        None => None,
        Some(e) => {
            let svg = e == "svg"@ && match text { Some(v) => svg_text_mismatch(v), None => false };
            let signature = match expected_mime(e) { Some(x) => mime != Some(x), None => false };
            if !svg && !signature {
                None
            } else {
                let high = match mime { Some(m) => executable_mime(m), None => false };
                Some(FindingView {
                    id: "FILE-TYPE-MISMATCH"@,
                    severity: if high { Severity::High } else { Severity::Medium },
                    confidence: Confidence::High,
                    score: if high { 80 } else { 45 },
                    title: "File extension does not match its content"@,
                    message: "The declared file type disagrees with byte signatures or expected structure."@,
                    file: Some(path),
                    line: None,
                    evidence: seq!["extension: ."@ + e, "detected MIME: "@ + match mime { Some(m) => m, None => "unknown"@ }],
                })
            }
        },
    }
}

/// SVG text is structural SVG when, after any leading byte-order marks and
/// whitespace, it opens an `<svg` element or an `<?xml` declaration: with no
/// detected signature such a file is never reported as mismatched, and any
/// other `.svg` text is.
pub proof fn lemma_svg_structure(path: Seq<char>, text: Seq<char>)
    ensures
        ({
            let t = trim_start(trim_front(text, seq!['\u{feff}']));
            &&& seq_starts_with(t, "<svg"@) || seq_starts_with(t, "<?xml"@)
                ==> mismatch_spec(path, Some("svg"@), None, Some(text)) is None
            &&& !seq_starts_with(t, "<svg"@) && !seq_starts_with(t, "<?xml"@)
                ==> (mismatch_spec(path, Some("svg"@), None, Some(text)) matches Some(f)
                    && f.id == "FILE-TYPE-MISMATCH"@ && f.severity == Severity::Medium && f.score == 45)
        }),
{
    reveal_strlit("svg");
    reveal_strlit("png");
    reveal_strlit("jpg");
    reveal_strlit("jpeg");
    reveal_strlit("gif");
    reveal_strlit("webp");
    reveal_strlit("pdf");
    reveal_strlit("zip");
    reveal_strlit("gz");
    reveal_strlit("gzip");
    reveal_strlit("woff");
    reveal_strlit("woff2");
    assert("svg"@[0] != "png"@[0] && "svg"@[0] != "jpg"@[0] && "svg"@[0] != "gif"@[0] && "svg"@[0] != "webp"@[0]
        && "svg"@[0] != "pdf"@[0] && "svg"@[0] != "zip"@[0] && "svg"@[0] != "gzip"@[0] && "svg"@[0] != "woff"@[0]);
    assert("svg"@.len() != "jpeg"@.len() && "svg"@.len() != "gz"@.len() && "svg"@.len() != "woff2"@.len());
    assert(expected_mime("svg"@) is None);
}

/// Formats with a byte signature: an extension and the MIME type that the
/// signature of such a file is detected as.
pub open spec fn signature_table() -> Seq<(Seq<char>, Seq<char>)> {
    seq![("png"@, "image/png"@), ("jpg"@, "image/jpeg"@), ("jpeg"@, "image/jpeg"@),
        ("gif"@, "image/gif"@), ("webp"@, "image/webp"@), ("pdf"@, "application/pdf"@),
        ("zip"@, "application/zip"@), ("gz"@, "application/gzip"@), ("gzip"@, "application/gzip"@),
        ("woff"@, "font/woff"@), ("woff2"@, "font/woff2"@)]
}

/// A file whose extension names a format with a byte signature matches its
/// content exactly when the signature found is that format's MIME type:
/// `.png` image/png, `.jpg` and `.jpeg` image/jpeg, `.gif` image/gif,
/// `.webp` image/webp, `.pdf` application/pdf, `.zip` application/zip, `.gz`
/// and `.gzip` application/gzip, `.woff` font/woff, `.woff2` font/woff2.
/// Any other signature, or none, is reported as a mismatch.
pub proof fn lemma_signature_formats(path: Seq<char>, ext: Seq<char>, mime: Option<Seq<char>>, text: Option<Seq<char>>, k: int)
    requires
        0 <= k < 11,
        ext == signature_table()[k].0,
    ensures
        mime == Some(signature_table()[k].1) ==> mismatch_spec(path, Some(ext), mime, text) is None,
        mime != Some(signature_table()[k].1) ==> (mismatch_spec(path, Some(ext), mime, text) matches Some(f)
            && f.id == "FILE-TYPE-MISMATCH"@),
{
    reveal_strlit("svg");
    reveal_strlit("png");
    reveal_strlit("jpg");
    reveal_strlit("jpeg");
    reveal_strlit("gif");
    reveal_strlit("webp");
    reveal_strlit("pdf");
    reveal_strlit("zip");
    reveal_strlit("gz");
    reveal_strlit("gzip");
    reveal_strlit("woff");
    reveal_strlit("woff2");
    let t = signature_table();
    assert(t[k].0 == ext);
    if k == 0 {
        assert(expected_mime(t[0].0) == Some(t[0].1));
    }
    if k == 1 {
        assert("jpg"@[0] != "png"@[0]);
        assert(expected_mime(t[1].0) == Some(t[1].1));
    }
    if k == 2 {
        assert("jpeg"@.len() != "png"@.len());
        assert("jpeg"@.len() != "jpg"@.len());
        assert(expected_mime(t[2].0) == Some(t[2].1));
    }
    if k == 3 {
        assert("gif"@[0] != "png"@[0]);
        assert("gif"@[0] != "jpg"@[0]);
        assert("gif"@.len() != "jpeg"@.len());
        assert(expected_mime(t[3].0) == Some(t[3].1));
    }
    if k == 4 {
        assert("webp"@.len() != "png"@.len());
        assert("webp"@.len() != "jpg"@.len());
        assert("webp"@[0] != "jpeg"@[0]);
        assert("webp"@.len() != "gif"@.len());
        assert(expected_mime(t[4].0) == Some(t[4].1));
    }
    if k == 5 {
        assert("pdf"@[1] != "png"@[1]);
        assert("pdf"@[0] != "jpg"@[0]);
        assert("pdf"@.len() != "jpeg"@.len());
        assert("pdf"@[0] != "gif"@[0]);
        assert("pdf"@.len() != "webp"@.len());
        assert(expected_mime(t[5].0) == Some(t[5].1));
    }
    if k == 6 {
        assert("zip"@[0] != "png"@[0]);
        assert("zip"@[0] != "jpg"@[0]);
        assert("zip"@.len() != "jpeg"@.len());
        assert("zip"@[0] != "gif"@[0]);
        assert("zip"@.len() != "webp"@.len());
        assert("zip"@[0] != "pdf"@[0]);
        assert(expected_mime(t[6].0) == Some(t[6].1));
    }
    if k == 7 {
        assert("gz"@.len() != "png"@.len());
        assert("gz"@.len() != "jpg"@.len());
        assert("gz"@.len() != "jpeg"@.len());
        assert("gz"@.len() != "gif"@.len());
        assert("gz"@.len() != "webp"@.len());
        assert("gz"@.len() != "pdf"@.len());
        assert("gz"@.len() != "zip"@.len());
        assert(expected_mime(t[7].0) == Some(t[7].1));
    }
    if k == 8 {
        assert("gzip"@.len() != "png"@.len());
        assert("gzip"@.len() != "jpg"@.len());
        assert("gzip"@[0] != "jpeg"@[0]);
        assert("gzip"@.len() != "gif"@.len());
        assert("gzip"@[0] != "webp"@[0]);
        assert("gzip"@.len() != "pdf"@.len());
        assert("gzip"@.len() != "zip"@.len());
        assert("gzip"@.len() != "gz"@.len());
        assert(expected_mime(t[8].0) == Some(t[8].1));
    }
    if k == 9 {
        assert("woff"@.len() != "png"@.len());
        assert("woff"@.len() != "jpg"@.len());
        assert("woff"@[0] != "jpeg"@[0]);
        assert("woff"@.len() != "gif"@.len());
        assert("woff"@[1] != "webp"@[1]);
        assert("woff"@.len() != "pdf"@.len());
        assert("woff"@.len() != "zip"@.len());
        assert("woff"@.len() != "gz"@.len());
        assert("woff"@[0] != "gzip"@[0]);
        assert(expected_mime(t[9].0) == Some(t[9].1));
    }
    if k == 10 {
        assert("woff2"@.len() != "png"@.len());
        assert("woff2"@.len() != "jpg"@.len());
        assert("woff2"@.len() != "jpeg"@.len());
        assert("woff2"@.len() != "gif"@.len());
        assert("woff2"@.len() != "webp"@.len());
        assert("woff2"@.len() != "pdf"@.len());
        assert("woff2"@.len() != "zip"@.len());
        assert("woff2"@.len() != "gz"@.len());
        assert("woff2"@.len() != "gzip"@.len());
        assert("woff2"@.len() != "woff"@.len());
        assert(expected_mime(t[10].0) == Some(t[10].1));
    }
    assert(ext != "svg"@) by {
        assert(ext.len() != 3 || ext[0] != 's');
    }
}

pub open spec fn opt_finding_view(f: Option<Finding>) -> Option<FindingView> {
    match f {
        Some(f) => Some(f@),
        None => None,
    }
}

fn svg_mismatch(text: &str) -> (r: bool)
    ensures
        r == svg_text_mismatch(text@),
{
    let v = chars_of(text);
    let n = v.len();
    let mut lo: usize = 0;
    let ghost marks = seq!['\u{feff}'];
    assert(v@.subrange(0, n as int) =~= v@);
    while lo < n && v[lo] == '\u{feff}'
        invariant
            lo <= n == v@.len(),
            marks == seq!['\u{feff}'],
            trim_front(v@, marks) == trim_front(v@.subrange(lo as int, n as int), marks),
        decreases n - lo,
    {
        assert(v@.subrange(lo as int, n as int).drop_first() =~= v@.subrange(lo + 1, n as int));
        assert(marks[0] == v@[lo as int]);
        assert(marks.contains(v@[lo as int]));
        lo = lo + 1;
    }
    proof {
        if lo < n {
            assert(v@.subrange(lo as int, n as int)[0] == v@[lo as int]);
            assert(marks.len() == 1);
            assert(!marks.contains(v@.subrange(lo as int, n as int)[0]));
        }
    }
    let start = skip_whitespace(&v, lo);
    let rest = crate::text::slice_chars(&v, start, n);
    !chars_start_with_str(&rest, "<svg") && !chars_start_with_str(&rest, "<?xml")
}

/// The finding for a declared file type that its content contradicts.
pub fn mismatch_finding(path: &str, extension: Option<&str>, detected_mime: Option<&str>, text: Option<&str>) -> (r: Option<Finding>)
    ensures
        opt_finding_view(r) == mismatch_spec(path@, opt_str_view(extension), opt_str_view(detected_mime), opt_str_view(text)),
{
    let ext = match extension {
        None => return None,
        Some(e) => e,
    };
    let ev = chars_of(ext);
    let svg = chars_eq_str(&ev, "svg") && match text { Some(t) => svg_mismatch(t), None => false };
    let signature = match expected_mime_of(&ev) {
        Some(x) => match detected_mime {
            Some(m) => !crate::text::str_eq(m, x),
            None => true,
        },
        None => false,
    };
    if !svg && !signature {
        return None;
    }
    let high = match detected_mime { Some(m) => is_executable_mime(m), None => false };
    let mut e1 = owned("extension: .");
    push_str(&mut e1, ext);
    let mut e2 = owned("detected MIME: ");
    match detected_mime {
        Some(m) => push_str(&mut e2, m),
        None => push_str(&mut e2, "unknown"),
    }
    let f = Finding {
        id: owned("FILE-TYPE-MISMATCH"),
        severity: if high { Severity::High } else { Severity::Medium },
        confidence: Confidence::High,
        score: if high { 80 } else { 45 },
        title: owned("File extension does not match its content"),
        message: owned("The declared file type disagrees with byte signatures or expected structure."),
        file: Some(owned(path)),
        line: None,
        evidence: vec![e1, e2],
    };
    assert(strings_view(f.evidence@) =~= mismatch_spec(path@, opt_str_view(extension), opt_str_view(detected_mime), opt_str_view(text)).unwrap().evidence);
    Some(f)
}

/// Extensions of assets and data rather than code.
pub open spec fn non_code_extensions() -> Seq<Seq<char>> {
    seq!["svg"@, "woff"@, "woff2"@, "png"@, "jpg"@, "jpeg"@, "gif"@, "webp"@, "json"@, "data"@,
        "txt"@, "md"@, "lock"@]
}

/// Whether the extension declares an asset or data file.
pub fn is_non_code_extension(extension: Option<&str>) -> (r: bool)
    ensures
        r == match opt_str_view(extension) { Some(e) => non_code_extensions().contains(e), None => false },
{
    match extension {
        None => false,
        Some(e) => {
            let list = ["svg", "woff", "woff2", "png", "jpg", "jpeg", "gif", "webp", "json", "data", "txt", "md", "lock"];
            assert(strs_view(list@) =~= non_code_extensions());
            is_one_of(&chars_of(e), &list)
        },
    }
}

/// Source-code indicators.
pub open spec fn code_markers() -> Seq<Seq<char>> {
    seq!["require("@, "child_process"@, "process.env"@, "eval("@, "new Function"@, "function "@,
        "const "@, "import "@, "Invoke-Expression"@, "#!/bin/"@]
}

/// How many of the markers from the `k`-th on occur in the text.
pub open spec fn markers_present(text: Seq<char>, markers: Seq<Seq<char>>, k: int) -> nat
    decreases markers.len() - k,
{
    if k < 0 || k >= markers.len() {
        0
    } else {
        (if seq_contains(text, markers[k]) { 1nat } else { 0nat }) + markers_present(text, markers, k + 1)
    }
}

/// Text with at least two source-code indicators.
pub open spec fn executable_text(text: Seq<char>) -> bool {
    markers_present(text, code_markers(), 0) >= 2
}

/// Whether the text carries at least two source-code indicators.
pub fn looks_like_executable_text(text: &str) -> (r: bool)
    ensures
        r == executable_text(text@),
{
    let v = chars_of(text);
    let markers = ["require(", "child_process", "process.env", "eval(", "new Function", "function ",
        "const ", "import ", "Invoke-Expression", "#!/bin/"];
    assert(strs_view(markers@) =~= code_markers());
    let mut count: u64 = 0;
    let mut k: usize = 0;
    while k < 10
        invariant
            k <= 10,
            strs_view(markers@) == code_markers(),
            count <= k,
            count + markers_present(text@, code_markers(), k as int) == markers_present(text@, code_markers(), 0),
            v@ == text@,
        decreases 10 - k,
    {
        assert(strs_view(markers@)[k as int] == markers@[k as int]@);
        if chars_contain_str(&v, markers[k]) {
            count = count + 1;
        }
        k = k + 1;
    }
    count >= 2
}

/// Names of dependency lockfiles.
pub open spec fn lockfile_names() -> Seq<Seq<char>> {
    seq!["package-lock.json"@, "npm-shrinkwrap.json"@, "yarn.lock"@, "pnpm-lock.yaml"@]
}

/// Prefixes of build-tool configuration files that run as code.
pub open spec fn executable_config_prefixes() -> Seq<Seq<char>> {
    seq!["vite.config."@, "webpack.config."@, "tailwind.config."@, "postcss.config."@,
        "eslint.config."@, "next.config."@, "babel.config."@, "jest.config."@, "rollup.config."@]
}

/// A configuration file that its tool executes.
pub open spec fn executable_config(name: Seq<char>) -> bool {
    exists|i: int| 0 <= i < executable_config_prefixes().len()
        && seq_starts_with(name, #[trigger] executable_config_prefixes()[i])
}

/// Whether the file name is one of a build tool's executable configuration.
pub fn is_executable_config(name: &[char]) -> (r: bool)
    ensures
        r == executable_config(name@),
{
    let prefixes = ["vite.config.", "webpack.config.", "tailwind.config.", "postcss.config.",
        "eslint.config.", "next.config.", "babel.config.", "jest.config.", "rollup.config."];
    assert(strs_view(prefixes@) =~= executable_config_prefixes());
    let mut i: usize = 0;
    while i < 9
        invariant
            i <= 9,
            strs_view(prefixes@) == executable_config_prefixes(),
            forall|j: int| 0 <= j < i ==> !seq_starts_with(name@, #[trigger] executable_config_prefixes()[j]),
        decreases 9 - i,
    {
        if chars_start_with_str(name, prefixes[i]) {
            assert(seq_starts_with(name@, executable_config_prefixes()[i as int]));
            return true;
        }
        i = i + 1;
    }
    false
}

/// Names of build scripts.
pub open spec fn build_script_names() -> Seq<Seq<char>> {
    seq!["Makefile"@, "Dockerfile"@, "justfile"@, "Taskfile"@, "Taskfile.yml"@]
}

pub open spec fn role_if(c: bool, role: Seq<char>) -> Seq<Seq<char>> {
    if c { seq![role] } else { Seq::empty() }
}

/// The roles of a file in a repository, by its path.
pub open spec fn roles_of(path: Seq<char>) -> Seq<Seq<char>> {
    let n = forward_slashes(path);
    let name = basename(n);
    role_if(name == "package.json"@, "npm_manifest"@)
        + role_if(lockfile_names().contains(name), "dependency_lockfile"@)
        + role_if(seq_starts_with(n, ".vscode/"@) || n == ".devcontainer/devcontainer.json"@, "developer_tool_config"@)
        + role_if(executable_config(name), "executable_config"@)
        + role_if(seq_starts_with(n, ".github/workflows/"@) || name == ".gitlab-ci.yml"@ || name == "Jenkinsfile"@, "ci_config"@)
        + role_if(build_script_names().contains(name) || seq_starts_with(name, "docker-compose"@), "build_script"@)
}

fn push_role(roles: &mut Vec<String>, c: bool, role: &str)
    ensures
        strings_view(final(roles)@) == strings_view(old(roles)@) + role_if(c, role@),
{
    if c {
        roles.push(owned(role));
    }
    assert(strings_view(final(roles)@) =~= strings_view(old(roles)@) + role_if(c, role@));
}

/// The roles of a file in a repository, by its path.
pub fn roles(path: &str) -> (r: Vec<String>)
    ensures
        strings_view(r@) == roles_of(path@),
{
    let n = to_forward_slashes(&chars_of(path));
    let name = basename_of(&n);
    let mut roles: Vec<String> = Vec::new();
    let locks = ["package-lock.json", "npm-shrinkwrap.json", "yarn.lock", "pnpm-lock.yaml"];
    assert(strs_view(locks@) =~= lockfile_names());
    let builds = ["Makefile", "Dockerfile", "justfile", "Taskfile", "Taskfile.yml"];
    assert(strs_view(builds@) =~= build_script_names());
    push_role(&mut roles, chars_eq_str(&name, "package.json"), "npm_manifest");
    push_role(&mut roles, is_one_of(&name, &locks), "dependency_lockfile");
    push_role(&mut roles, chars_start_with_str(&n, ".vscode/") || chars_eq_str(&n, ".devcontainer/devcontainer.json"), "developer_tool_config");
    push_role(&mut roles, is_executable_config(&name), "executable_config");
    push_role(&mut roles, chars_start_with_str(&n, ".github/workflows/") || chars_eq_str(&name, ".gitlab-ci.yml") || chars_eq_str(&name, "Jenkinsfile"), "ci_config");
    push_role(&mut roles, is_one_of(&name, &builds) || chars_start_with_str(&name, "docker-compose"), "build_script");
    assert(strings_view(roles@) =~= roles_of(path@));
    roles
}


/// Lower-case hexadecimal digits of the bytes, two per byte.
pub open spec fn hex_bytes(d: Seq<u8>) -> Seq<char>
    decreases d.len(),
{
    if d.len() == 0 {
        Seq::empty()
    } else {
        hex_bytes(d.drop_last()) + seq![hex_digit((d.last() / 16) as nat), hex_digit((d.last() % 16) as nat)]
    }
}

fn hex_string(d: &[u8]) -> (r: String)
    ensures
        r@ == hex_bytes(d@),
{
    let mut s = String::new();
    let mut i: usize = 0;
    while i < d.len()
        invariant
            i <= d@.len(),
            s@ == hex_bytes(d@.subrange(0, i as int)),
        decreases d.len() - i,
    {
        let b = d[i];
        push_char(&mut s, hex_digit_char((b / 16) as u32));
        push_char(&mut s, hex_digit_char((b % 16) as u32));
        assert(d@.subrange(0, i + 1).drop_last() =~= d@.subrange(0, i as int));
        assert(s@ =~= hex_bytes(d@.subrange(0, i + 1)));
        i = i + 1;
    }
    assert(d@.subrange(0, d@.len() as int) =~= d@);
    s
}

/// The lower-cased extension of a path's file name.
pub open spec fn file_extension_of(path: Seq<char>) -> Option<Seq<char>> {
    match extension(basename(path)) {
        Some(e) => Some(lower(e)),
        None => None,
    }
}

/// The lower-cased extension of a path's file name.
pub fn file_extension(path: &str) -> (r: Option<String>)
    ensures
        opt_string_view(r) == file_extension_of(path@),
{
    let name = basename_of(&chars_of(path));
    match extension_of(&name) {
        Some(e) => Some(string_from_chars(&lowercase_chars(&e))),
        None => None,
    }
}

/// What is known of a file's content.
pub struct Classification {
    pub findings: Vec<Finding>,
    pub text: Option<String>,
    pub encoding: Option<String>,
    pub extension: Option<String>,
    pub detected_mime: Option<String>,
    pub sha256: String,
    pub line_count: u64,
    pub max_line_length: u64,
    pub roles: Vec<String>,
    pub raw_signals: Vec<String>,
}

/// The finding for executable-looking text under an asset or data extension.
pub open spec fn executable_content_spec(path: Seq<char>, ext: Option<Seq<char>>, text: Option<Seq<char>>) -> Option<FindingView> {
    match (ext, text) {
        (Some(e), Some(t)) => if non_code_extensions().contains(e) && executable_text(t) {
            Some(FindingView {
                id: "FILE-EXECUTABLE-CONTENT"@,
                severity: Severity::Medium,
                confidence: Confidence::Medium,
                score: 45,
                title: "Executable-looking text uses a non-code extension"@,
                message: "The file contains multiple source-code indicators despite its declared asset or data extension."@,
                file: Some(path),
                line: None,
                evidence: seq!["extension: ."@ + e],
            })
        } else {
            None
        },
        _ => None,
    }
}

pub open spec fn opt_seq<T>(o: Option<T>) -> Seq<T> {
    match o {
        Some(x) => seq![x],
        None => Seq::empty(),
    }
}

/// Classifies a file's bytes: decodes them, detects their type, hashes them,
/// and reports raw findings and declared-type mismatches.
pub fn classify(relative: &str, bytes: &[u8]) -> (r: Classification)
    requires
        bytes@.len() < u64::MAX,
    ensures
        ({
            let ext = file_extension_of(relative@);
            let mime = inferred_mime(bytes@);
            let (encoding, text) = text_decoding(bytes@);
            &&& opt_string_view(r.extension) == ext
            &&& opt_string_view(r.detected_mime) == mime
            &&& opt_string_view(r.encoding) == encoding
            &&& opt_string_view(r.text) == text
            &&& r.sha256@ == hex_bytes(sha256_of(bytes@))
            &&& (r.line_count as nat, r.max_line_length as nat) == line_metrics_spec(bytes@)
            &&& strings_view(r.raw_signals@) == raw_signals(bytes@, text)
            &&& strings_view(r.roles@) == roles_of(relative@)
            &&& findings_view(r.findings@) == raw_findings(relative@, bytes@, text)
                + opt_seq(mismatch_spec(relative@, ext, mime, text))
                + opt_seq(executable_content_spec(relative@, ext, text))
        }),
{
    let extension = file_extension(relative);
    let detected_mime = detect_mime(bytes);
    let (encoding, text) = decode_text(bytes);
    let text_ref: Option<&str> = match &text { Some(t) => Some(t.as_str()), None => None };
    let ext_ref: Option<&str> = match &extension { Some(e) => Some(e.as_str()), None => None };
    let mime_ref: Option<&str> = match &detected_mime { Some(m) => Some(m.as_str()), None => None };
    assert(opt_str_view(text_ref) == opt_string_view(text));
    assert(opt_str_view(ext_ref) == opt_string_view(extension));
    assert(opt_str_view(mime_ref) == opt_string_view(detected_mime));
    let raw = raw::analyze(relative, bytes, text_ref);
    let mut findings = raw.findings;
    let ghost base = findings_view(findings@);
    match mismatch_finding(relative, ext_ref, mime_ref, text_ref) {
        Some(f) => {
            findings.push(f);
        },
        None => {},
    }
    let ghost mid = findings_view(findings@);
    assert(mid =~= base + opt_seq(mismatch_spec(relative@, opt_string_view(extension), opt_string_view(detected_mime), opt_string_view(text))));
    let exec_text = match text_ref { Some(t) => looks_like_executable_text(t), None => false };
    if is_non_code_extension(ext_ref) && exec_text {
        let e = ext_ref.unwrap();
        let mut note = owned("extension: .");
        push_str(&mut note, e);
        let f = Finding {
            id: owned("FILE-EXECUTABLE-CONTENT"),
            severity: Severity::Medium,
            confidence: Confidence::Medium,
            score: 45,
            title: owned("Executable-looking text uses a non-code extension"),
            message: owned("The file contains multiple source-code indicators despite its declared asset or data extension."),
            file: Some(owned(relative)),
            line: None,
            evidence: vec![note],
        };
        assert(strings_view(f.evidence@) =~= seq!["extension: ."@ + e@]);
        findings.push(f);
    }
    assert(findings_view(findings@) =~= mid + opt_seq(executable_content_spec(relative@, opt_string_view(extension), opt_string_view(text))));
    let digest = sha256_digest(bytes);
    let sha256 = hex_string(&digest);
    Classification {
        findings,
        text,
        encoding,
        extension,
        detected_mime,
        sha256,
        line_count: raw.line_count,
        max_line_length: raw.max_line_length,
        roles: roles(relative),
        raw_signals: raw.signals,
    }
}

/// The record of a file whose content was not read.
pub open spec fn unscanned(r: FileRecord, path: Seq<char>, size: u64, readonly: bool, mode: Option<u32>) -> bool {
    &&& r.path@ == path
    &&& r.kind == FileKind::File
    &&& r.size == size
    &&& r.readonly == readonly
    &&& r.mode == mode
    &&& r.sha256.is_none()
    &&& opt_string_view(r.extension) == file_extension_of(path)
    &&& r.detected_mime.is_none()
    &&& r.encoding.is_none()
    &&& r.line_count.is_none()
    &&& r.max_line_length.is_none()
    &&& r.symlink_target.is_none()
    &&& strings_view(r.roles@) == roles_of(path)
    &&& r.raw_signals@.len() == 0
    &&& !r.content_scanned
    &&& r.parsed_language.is_none()
}

/// The record of a file whose content was not read.
pub fn unscanned_record(relative: &str, size: u64, readonly: bool, mode: Option<u32>) -> (r: FileRecord)
    ensures
        unscanned(r, relative@, size, readonly, mode),
{
    FileRecord {
        path: owned(relative),
        kind: FileKind::File,
        size,
        readonly,
        mode,
        sha256: None,
        extension: file_extension(relative),
        detected_mime: None,
        encoding: None,
        line_count: None,
        max_line_length: None,
        symlink_target: None,
        roles: roles(relative),
        raw_signals: Vec::new(),
        content_scanned: false,
        parsed_language: None,
    }
}

} // verus!
