//! Finding the scripts inside HTML, Vue, SVG and Markdown documents, by
//! byte offsets into the document's UTF-8 text.
use vstd::prelude::*;
use crate::model::strings_view;
use crate::scanner::js::{MAX_PARSE_BYTES, SourceKind};
use vstd::utf8::{decode_utf8, valid_utf8};
use vstd::string::StringSliceAdditionalSpecFns;
use crate::text::{
    chars_of, index_of, is_one_of, lower, lower_byte, lower_bytes, lowercase_chars, owned, push_decimal,
    push_str, seq_contains, strs_view, to_lower_byte, trimmed_whitespace, trim_whitespace_of,
};

verus! {

pub const MAX_EMBEDDED_SCRIPTS: usize = 256;
pub const MAX_MARKDOWN_FENCES: usize = 4096;
pub const MAX_MARKDOWN_CODE_SPANS: usize = 32768;

/// `needle` occurs at `i`, ignoring ASCII case.
pub open spec fn ci_at(h: Seq<u8>, needle: Seq<u8>, i: int) -> bool {
    0 <= i && i + needle.len() <= h.len() && lower_bytes(h.subrange(i, i + needle.len())) == lower_bytes(needle)
}

/// The first position from `start` where `needle` occurs, ignoring ASCII case.
pub fn find_ci(h: &[u8], needle: &[u8], start: usize) -> (r: Option<usize>)
    ensures
        match r {
            Some(i) => start <= i && ci_at(h@, needle@, i as int)
                && forall|j: int| start <= j < i ==> !ci_at(h@, needle@, j),
            None => forall|j: int| start <= j ==> !ci_at(h@, needle@, j),
        },
{
    if needle.len() > h.len() {
        return None;
    }
    let mut i = start;
    while i <= h.len() - needle.len()
        invariant
            needle@.len() <= h@.len(),
            start <= i,
            forall|j: int| start <= j < i ==> !ci_at(h@, needle@, j),
        decreases h.len() - i,
    {
        let mut k: usize = 0;
        let mut same = true;
        while k < needle.len()
            invariant
                k <= needle@.len(),
                i + needle@.len() <= h.len(),
                same == forall|m: int| 0 <= m < k ==> lower_byte(h@[i + m]) == lower_byte(needle@[m]),
            decreases needle.len() - k,
        {
            if to_lower_byte(h[i + k]) != to_lower_byte(needle[k]) {
                same = false;
            }
            k = k + 1;
        }
        assert(same == ci_at(h@, needle@, i as int)) by {
            let w = h@.subrange(i as int, i + needle@.len());
            if same {
                assert(lower_bytes(w) =~= lower_bytes(needle@));
            } else {
                let m = choose|m: int| 0 <= m < needle@.len() && lower_byte(h@[i + m]) != lower_byte(needle@[m]);
                assert(lower_bytes(w)[m] != lower_bytes(needle@)[m]);
            }
        }
        if same {
            return Some(i);
        }
        i = i + 1;
    }
    None
}

/// Where the tag that began before `i` ends: the first `>` outside quotes,
/// given the quote open at `i`.
pub open spec fn tag_end_from(b: Seq<u8>, i: int, quote: Option<u8>) -> Option<int>
    decreases b.len() - i,
{
    if i < 0 || i >= b.len() {
        None
    } else {
        let c = b[i];
        match quote {
            Some(q) => if c == q { tag_end_from(b, i + 1, None) } else { tag_end_from(b, i + 1, Some(q)) },
            None => if c == 0x27u8 || c == 0x22u8 {
                tag_end_from(b, i + 1, Some(c))
            } else if c == 0x3eu8 {
                Some(i)
            } else {
                tag_end_from(b, i + 1, None)
            },
        }
    }
}

/// The end of a tag: the first `>` from `start` outside quotes.
pub fn find_tag_end(b: &[u8], start: usize) -> (r: Option<usize>)
    ensures
        match r {
            Some(i) => tag_end_from(b@, start as int, None) == Some(i as int),
            None => tag_end_from(b@, start as int, None) is None,
        },
{
    let mut quote: Option<u8> = None;
    let mut i = start;
    while i < b.len()
        invariant
            start <= i,
            tag_end_from(b@, start as int, None) == tag_end_from(b@, i as int, quote),
        decreases b.len() - i,
    {
        let c = b[i];
        match quote {
            Some(q) => {
                if c == q {
                    quote = None;
                }
            },
            None => {
                if c == 0x27u8 || c == 0x22u8 {
                    quote = Some(c);
                } else if c == 0x3eu8 {
                    return Some(i);
                }
            },
        }
        i = i + 1;
    }
    None
}

/// The byte after `</script` ends the tag name.
pub open spec fn close_tag_at(h: Seq<u8>, i: int) -> bool {
    ci_at(h, "</script"@.map_values(|c: char| c as u8), i)
        && (i + 8 >= h.len() || crate::text::is_ascii_space_byte(h[i + 8]) || h[i + 8] == 0x3eu8 || h[i + 8] == 0x2fu8)
}

/// Where the first `</script` closing tag from `start` begins.
pub fn find_script_close(h: &[u8], start: usize) -> (r: Option<usize>)
    ensures
        match r {
            Some(i) => start <= i && close_tag_at(h@, i as int)
                && forall|j: int| start <= j < i ==> !close_tag_at(h@, j),
            None => forall|j: int| start <= j ==> !close_tag_at(h@, j),
        },
{
    let needle: [u8; 8] = [0x3cu8, 0x2fu8, 0x73u8, 0x63u8, 0x72u8, 0x69u8, 0x70u8, 0x74u8];
    proof { reveal_strlit("</script"); }
    assert(needle@ =~= "</script"@.map_values(|c: char| c as u8));
    let mut cursor = start;
    loop
        invariant
            start <= cursor,
            needle@ == "</script"@.map_values(|c: char| c as u8),
            forall|j: int| start <= j < cursor ==> !close_tag_at(h@, j),
        decreases h.len() + 1 - cursor,
    {
        match find_ci(h, &needle, cursor) {
            None => return None,
            Some(p) => {
                let ends = p + 8 >= h.len() || {
                    let c = h[p + 8];
                    c == 0x20u8 || c == 0x09u8 || c == 0x0au8 || c == 0x0cu8 || c == 0x0du8 || c == 0x3eu8 || c == 0x2fu8
                };
                if ends {
                    return Some(p);
                }
                cursor = p + 1;
            },
        }
    }
}

/// The number of newline bytes among the first `n` bytes.
pub open spec fn newlines_before(b: Seq<u8>, n: int) -> nat
    decreases n,
{
    if n <= 0 || n > b.len() {
        0
    } else {
        newlines_before(b, n - 1) + if b[n - 1] == 0x0au8 { 1nat } else { 0nat }
    }
}

/// The line (from 1) on which byte `offset` lies.
pub fn line_number(b: &[u8], offset: usize) -> (r: u64)
    requires
        offset <= b@.len(),
        b@.len() < u64::MAX,
    ensures
        r as nat == newlines_before(b@, offset as int) + 1,
{
    let mut count: u64 = 0;
    let mut i: usize = 0;
    while i < offset
        invariant
            i <= offset <= b@.len(),
            b@.len() < u64::MAX,
            count as nat == newlines_before(b@, i as int),
            count <= i,
        decreases offset - i,
    {
        if b[i] == 0x0au8 {
            count = count + 1;
        }
        i = i + 1;
    }
    count + 1
}

pub open spec fn space(c: u8) -> bool {
    crate::text::is_ascii_space_byte(c)
}

/// The first position from `i` that is not ASCII whitespace.
pub open spec fn skip_space(b: Seq<u8>, i: int) -> int
    decreases b.len() - i,
{
    if 0 <= i < b.len() && space(b[i]) { skip_space(b, i + 1) } else { i }
}

/// The end of an attribute name from `i`.
pub open spec fn key_end(b: Seq<u8>, i: int) -> int
    decreases b.len() - i,
{
    if 0 <= i < b.len() && !space(b[i]) && b[i] != 0x3du8 { key_end(b, i + 1) } else { i }
}

/// The end of a quoted value from `i`: the closing quote, or the end.
pub open spec fn quoted_end(b: Seq<u8>, i: int, q: u8) -> int
    decreases b.len() - i,
{
    if 0 <= i < b.len() && b[i] != q { quoted_end(b, i + 1, q) } else { i }
}

/// The end of an unquoted value from `i`.
pub open spec fn bare_end(b: Seq<u8>, i: int) -> int
    decreases b.len() - i,
{
    if 0 <= i < b.len() && !space(b[i]) && b[i] != 0x3eu8 { bare_end(b, i + 1) } else { i }
}

pub proof fn lemma_scan_ends(b: Seq<u8>, i: int, q: u8)
    requires
        0 <= i,
    ensures
        i <= skip_space(b, i),
        i <= key_end(b, i),
        i <= quoted_end(b, i, q),
        i <= bare_end(b, i),
        i <= b.len() ==> skip_space(b, i) <= b.len() && key_end(b, i) <= b.len()
            && quoted_end(b, i, q) <= b.len() && bare_end(b, i) <= b.len(),
    decreases b.len() - i,
{
    if i < b.len() {
        lemma_scan_ends(b, i + 1, q);
    }
}

/// The span of the value of the attribute `name` (ignoring ASCII case)
/// among attributes read from `cursor`.
pub open spec fn attribute_from(b: Seq<u8>, name: Seq<u8>, cursor: int) -> Option<(int, int)>
    decreases b.len() - cursor,
    when 0 <= cursor
{
    if cursor >= b.len() {
        None
    } else {
        let s = skip_space(b, cursor);
        proof { lemma_scan_ends(b, cursor, 0); }
        let e = key_end(b, s);
        proof { lemma_scan_ends(b, s, 0); }
        if s >= b.len() {
            None
        } else if s == e {
            attribute_from(b, name, e + 1)
        } else {
            let a = skip_space(b, e);
            proof { lemma_scan_ends(b, e, 0); }
            if a >= b.len() || b[a] != 0x3du8 {
                attribute_from(b, name, a)
            } else {
                let v = skip_space(b, a + 1);
                proof { lemma_scan_ends(b, a + 1, 0); }
                if v >= b.len() {
                    None
                } else if b[v] == 0x27u8 || b[v] == 0x22u8 {
                    let ve = quoted_end(b, v + 1, b[v]);
                    proof { lemma_scan_ends(b, v + 1, b[v]); }
                    if lower_bytes(b.subrange(s, e)) == lower_bytes(name) {
                        Some((v + 1, ve))
                    } else if ve >= b.len() {
                        None
                    } else {
                        attribute_from(b, name, ve + 1)
                    }
                } else {
                    let ve = bare_end(b, v);
                    proof { lemma_scan_ends(b, v, 0); }
                    if lower_bytes(b.subrange(s, e)) == lower_bytes(name) {
                        Some((v, ve))
                    } else {
                        attribute_from(b, name, ve)
                    }
                }
            }
        }
    }
}

fn is_space(c: u8) -> (r: bool)
    ensures
        r == space(c),
{
    c == 0x20u8 || c == 0x09u8 || c == 0x0au8 || c == 0x0cu8 || c == 0x0du8
}

fn skip_spaces(b: &[u8], i: usize) -> (r: usize)
    ensures
        r as int == skip_space(b@, i as int),
{
    let mut j = i;
    while j < b.len() && is_space(b[j])
        invariant
            i <= j,
            skip_space(b@, i as int) == skip_space(b@, j as int),
        decreases b.len() - j,
    {
        j = j + 1;
    }
    j
}

/// The span of the value of the attribute `name`, by its bytes, ignoring
/// ASCII case in names.
pub fn attribute_span(b: &[u8], name: &[u8]) -> (r: Option<(usize, usize)>)
    ensures
        match r {
            Some((lo, hi)) => attribute_from(b@, name@, 0) == Some((lo as int, hi as int)) && lo <= hi <= b@.len(),
            None => attribute_from(b@, name@, 0) is None,
        },
{
    let mut cursor: usize = 0;
    while cursor < b.len()
        invariant
            attribute_from(b@, name@, 0) == attribute_from(b@, name@, cursor as int),
        decreases b.len() - cursor,
    {
        let s = skip_spaces(b, cursor);
        proof { lemma_scan_ends(b@, cursor as int, 0); lemma_scan_ends(b@, s as int, 0); }
        let mut e = s;
        while e < b.len() && !is_space(b[e]) && b[e] != 0x3du8
            invariant
                s <= e,
                key_end(b@, s as int) == key_end(b@, e as int),
            decreases b.len() - e,
        {
            e = e + 1;
        }
        if s >= b.len() {
            return None;
        }
        if s == e {
            cursor = e + 1;
            continue;
        }
        let a = skip_spaces(b, e);
        proof { lemma_scan_ends(b@, e as int, 0); }
        if a >= b.len() || b[a] != 0x3du8 {
            cursor = a;
            continue;
        }
        let v = skip_spaces(b, a + 1);
        proof { lemma_scan_ends(b@, (a + 1) as int, 0); }
        if v >= b.len() {
            return None;
        }
        let q = b[v];
        let same = crate::text::bytes_eq_ignore_case(crate::text::byte_range(b, s, e).as_slice(), name);
        if q == 0x27u8 || q == 0x22u8 {
            let mut ve = v + 1;
            while ve < b.len() && b[ve] != q
                invariant
                    v + 1 <= ve,
                    quoted_end(b@, (v + 1) as int, q) == quoted_end(b@, ve as int, q),
                decreases b.len() - ve,
            {
                ve = ve + 1;
            }
            proof { lemma_scan_ends(b@, (v + 1) as int, q); }
            if same {
                return Some((v + 1, ve));
            }
            if ve >= b.len() {
                return None;
            }
            cursor = ve + 1;
        } else {
            let mut ve = v;
            while ve < b.len() && !is_space(b[ve]) && b[ve] != 0x3eu8
                invariant
                    v <= ve,
                    bare_end(b@, v as int) == bare_end(b@, ve as int),
                decreases b.len() - ve,
            {
                ve = ve + 1;
            }
            proof { lemma_scan_ends(b@, v as int, 0); }
            if same {
                return Some((v, ve));
            }
            cursor = ve;
        }
    }
    None
}

/// The text of the attribute `name`, as its bytes decode.
pub open spec fn attribute_text_of(attributes: Seq<u8>, name: Seq<u8>) -> Option<Seq<char>> {
    match attribute_from(attributes, name, 0) {
        Some((lo, hi)) => if valid_utf8(attributes.subrange(lo, hi)) {
            Some(decode_utf8(attributes.subrange(lo, hi)))
        } else {
            None
        },
        None => None,
    }
}

/// The text of the attribute `name` among a tag's attribute bytes.
fn attribute_text(b: &[u8], name: &[u8]) -> (r: Option<String>)
    ensures
        crate::model::opt_view(r) == attribute_text_of(b@, name@),
{
    match attribute_span(b, name) {
        Some((lo, hi)) => crate::scanner::classifier::utf8_text(crate::text::byte_range(b, lo, hi).as_slice()),
        None => None,
    }
}

/// The text of the attribute `name` among a tag's attributes.
pub fn attribute_value(attributes: &str, name: &str) -> (r: Option<String>)
    ensures
        crate::model::opt_view(r) == attribute_text_of(attributes.spec_bytes(), name.spec_bytes()),
{
    attribute_text(attributes.as_bytes(), name.as_bytes())
}

/// The text before the first `c`, or all of it.
pub open spec fn before_char(s: Seq<char>, c: char) -> Seq<char> {
    if index_of(s, c) >= 0 { s.subrange(0, index_of(s, c)) } else { s }
}

/// The script types that run as JavaScript.
pub open spec fn script_types() -> Seq<Seq<char>> {
    seq!["module"@, "text/javascript"@, "application/javascript"@, "application/x-javascript"@,
        "application/ecmascript"@, "application/x-ecmascript"@, "text/ecmascript"@, "text/javascript1.0"@,
        "text/javascript1.1"@, "text/javascript1.2"@, "text/javascript1.3"@, "text/javascript1.4"@,
        "text/javascript1.5"@, "text/babel"@, "text/jsx"@, ""@]
}

/// The grammar of a script, from its `type` and `lang` attributes; none
/// when its type is not a script.
pub open spec fn script_kind(type_attr: Option<Seq<char>>, lang_attr: Option<Seq<char>>) -> Option<SourceKind> {
    let raw = match type_attr { Some(t) => t, None => Seq::empty() };
    let tv = lower(trimmed_whitespace(before_char(raw, ';')));
    let lang = lower(match lang_attr { Some(l) => l, None => Seq::empty() });
    let ts = seq_contains(tv, "typescript"@) || seq_contains(tv, "text/tsx"@)
        || seq!["ts"@, "typescript"@, "tsx"@].contains(lang);
    let jsx = tv == "text/babel"@ || tv == "text/jsx"@ || lang == "jsx"@;
    if tv.len() > 0 && !ts && !script_types().contains(tv) {
        None
    } else if ts {
        Some(if seq_contains(tv, "tsx"@) || lang == "tsx"@ { SourceKind::Tsx } else { SourceKind::Ts })
    } else if jsx {
        Some(SourceKind::Jsx)
    } else {
        Some(SourceKind::Default)
    }
}

fn before_semicolon(v: &[char]) -> (r: Vec<char>)
    ensures
        r@ == before_char(v@, ';'),
{
    let mut i: usize = 0;
    while i < v.len() && v[i] != ';'
        invariant
            i <= v@.len(),
            forall|j: int| 0 <= j < i ==> v@[j] != ';',
        decreases v.len() - i,
    {
        i = i + 1;
    }
    if i < v.len() {
        proof { crate::text::lemma_index_of_found(v@, ';', i as int); }
        crate::text::slice_chars(v, 0, i)
    } else {
        proof { crate::text::lemma_index_of_absent(v@, ';'); }
        crate::text::copy_chars(v)
    }
}

/// The grammar of an embedded script, from its tag's attributes.
pub fn embedded_source_type(attributes: &str) -> (r: Option<SourceKind>)
    ensures
        r == script_kind(attribute_text_of(attributes.spec_bytes(), "type"@.map_values(|c: char| c as u8)),
            attribute_text_of(attributes.spec_bytes(), "lang"@.map_values(|c: char| c as u8))),
{
    source_kind_of(attributes.as_bytes())
}

/// The grammar of an embedded script, from its tag's attribute bytes.
fn source_kind_of(attributes: &[u8]) -> (r: Option<SourceKind>)
    ensures
        r == script_kind(attribute_text_of(attributes@, "type"@.map_values(|c: char| c as u8)),
            attribute_text_of(attributes@, "lang"@.map_values(|c: char| c as u8))),
{
    proof { reveal_strlit("type"); reveal_strlit("lang"); }
    let type_key: [u8; 4] = [0x74u8, 0x79u8, 0x70u8, 0x65u8];
    let lang_key: [u8; 4] = [0x6cu8, 0x61u8, 0x6eu8, 0x67u8];
    assert(type_key@ =~= "type"@.map_values(|c: char| c as u8));
    assert(lang_key@ =~= "lang"@.map_values(|c: char| c as u8));
    let type_attr = attribute_text(attributes, &type_key);
    let lang_attr = attribute_text(attributes, &lang_key);
    let raw: Vec<char> = match &type_attr { Some(t) => chars_of(t.as_str()), None => Vec::new() };
    let tv = lowercase_chars(&trim_whitespace_of(&before_semicolon(&raw)));
    let lang = match &lang_attr { Some(l) => lowercase_chars(&chars_of(l.as_str())), None => Vec::new() };
    assert(lower(Seq::<char>::empty()) =~= Seq::<char>::empty());
    let short = ["ts", "typescript", "tsx"];
    assert(strs_view(short@) =~= seq!["ts"@, "typescript"@, "tsx"@]);
    let ts = crate::text::contains_chars(&tv, &chars_of("typescript")) || crate::text::contains_chars(&tv, &chars_of("text/tsx"))
        || is_one_of(&lang, &short);
    let jsx = crate::text::chars_eq_str(&tv, "text/babel") || crate::text::chars_eq_str(&tv, "text/jsx")
        || crate::text::chars_eq_str(&lang, "jsx");
    let types = ["module", "text/javascript", "application/javascript", "application/x-javascript",
        "application/ecmascript", "application/x-ecmascript", "text/ecmascript", "text/javascript1.0",
        "text/javascript1.1", "text/javascript1.2", "text/javascript1.3", "text/javascript1.4",
        "text/javascript1.5", "text/babel", "text/jsx", ""];
    assert(strs_view(types@) =~= script_types());
    if tv.len() > 0 && !ts && !is_one_of(&tv, &types) {
        None
    } else if ts {
        if crate::text::contains_chars(&tv, &chars_of("tsx")) || crate::text::chars_eq_str(&lang, "tsx") {
            Some(SourceKind::Tsx)
        } else {
            Some(SourceKind::Ts)
        }
    } else if jsx {
        Some(SourceKind::Jsx)
    } else {
        Some(SourceKind::Default)
    }
}

/// Ranges of bytes that lie within `n` bytes, each start before its end.
pub open spec fn ranges_within(r: Seq<(usize, usize)>, n: nat) -> bool {
    forall|i: int| 0 <= i < r.len() ==> (#[trigger] r[i]).0 <= r[i].1 <= n
}

/// Adds a fence below the fence limit; at the limit the last fence is
/// stretched to `n` instead, and the flag says so.
pub open spec fn add_fence(ranges: Seq<(usize, usize)>, range: (usize, usize), n: usize) -> (Seq<(usize, usize)>, bool) {
    if ranges.len() < MAX_MARKDOWN_FENCES {
        (ranges.push(range), false)
    } else {
        (ranges.update(ranges.len() - 1, (ranges.last().0, n)), true)
    }
}

/// Adds a fence, unless the fence limit is reached, in which case the last
/// fence is stretched to the end and that is recorded; says whether added.
fn push_fence_range(ranges: &mut Vec<(usize, usize)>, incomplete: &mut Vec<String>, range: (usize, usize), text_end: usize) -> (r: bool)
    requires
        ranges_within(old(ranges)@, text_end as nat),
        range.0 <= range.1 <= text_end,
        old(ranges)@.len() <= MAX_MARKDOWN_FENCES,
    ensures
        ranges_within(final(ranges)@, text_end as nat),
        final(ranges)@.len() <= MAX_MARKDOWN_FENCES,
        r == (old(ranges)@.len() < MAX_MARKDOWN_FENCES),
        (final(ranges)@, !r) == add_fence(old(ranges)@, range, text_end),
        strings_view(final(incomplete)@) == if r { strings_view(old(incomplete)@) } else {
            strings_view(old(incomplete)@).push("Markdown fence limit of 4096 reached"@)
        },
{
    if ranges.len() == MAX_MARKDOWN_FENCES {
        let ghost before = incomplete@;
        incomplete.push(owned("Markdown fence limit of 4096 reached"));
        assert(strings_view(incomplete@) =~= strings_view(before).push("Markdown fence limit of 4096 reached"@));
        let last = ranges.len() - 1;
        let start = ranges[last].0;
        ranges.set(last, (start, text_end));
        return false;
    }
    ranges.push(range);
    true
}

/// The bytes are valid UTF-8 text of whitespace only.
pub open spec fn blank_text(b: Seq<u8>) -> bool {
    vstd::utf8::valid_utf8(b)
        && forall|i: int| 0 <= i < vstd::utf8::decode_utf8(b).len()
            ==> crate::text::is_whitespace(#[trigger] vstd::utf8::decode_utf8(b)[i])
}

/// Whether the bytes from `lo` to `hi` are text of whitespace only.
fn blank(b: &[u8], lo: usize, hi: usize) -> (r: bool)
    requires
        lo <= hi <= b@.len(),
    ensures
        r == blank_text(b@.subrange(lo as int, hi as int)),
{
    let part = crate::text::byte_range(b, lo, hi);
    match crate::scanner::classifier::utf8_text(part.as_slice()) {
        Some(t) => {
            let c = chars_of(t.as_str());
            let mut i: usize = 0;
            while i < c.len()
                invariant
                    i <= c@.len(),
                    c@ == vstd::utf8::decode_utf8(b@.subrange(lo as int, hi as int)),
                    forall|j: int| 0 <= j < i ==> crate::text::is_whitespace(#[trigger] c@[j]),
                decreases c.len() - i,
            {
                if !crate::text::char_is_whitespace(c[i]) {
                    return false;
                }
                i = i + 1;
            }
            true
        },
        None => false,
    }
}

/// The first line feed of `b` from the `i`-th byte on, or the end.
pub open spec fn newline_from(b: Seq<u8>, i: int) -> int
    decreases b.len() - i,
{
    if i < 0 || i >= b.len() {
        b.len() as int
    } else if b[i] == 0x0au8 {
        i
    } else {
        newline_from(b, i + 1)
    }
}

pub proof fn lemma_newline_from(b: Seq<u8>, i: int)
    requires
        0 <= i <= b.len(),
    ensures
        i <= newline_from(b, i) <= b.len(),
    decreases b.len() - i,
{
    if i < b.len() {
        lemma_newline_from(b, i + 1);
    }
}

/// The end of the line that starts at `i`, its line feed included.
pub open spec fn line_end(b: Seq<u8>, i: int) -> int {
    let n = newline_from(b, i);
    if n < b.len() { n + 1 } else { b.len() as int }
}

/// The first position from `i` on, before `e`, that holds no space or tab.
pub open spec fn indent_end(b: Seq<u8>, i: int, e: int) -> int
    decreases e - i,
{
    if i >= e || !(b[i] == 0x20u8 || b[i] == 0x09u8) {
        i
    } else {
        indent_end(b, i + 1, e)
    }
}

/// The first position from `i` on, before `e`, that does not hold `m`.
pub open spec fn run_end(b: Seq<u8>, i: int, e: int, m: u8) -> int
    decreases e - i,
{
    if i >= e || b[i] != m {
        i
    } else {
        run_end(b, i + 1, e, m)
    }
}

pub proof fn lemma_run_end(b: Seq<u8>, i: int, e: int, m: u8)
    requires
        i <= e,
    ensures
        i <= run_end(b, i, e, m) <= e,
    decreases e - i,
{
    if i < e && b[i] == m {
        lemma_run_end(b, i + 1, e, m);
    }
}

/// The fences of the lines of `b` from `cursor` on, given the fences found
/// before them and the fence left open (its marker, run length and start);
/// the flag says that the fence limit was reached, which ends the search.
pub open spec fn fences_from(b: Seq<u8>, cursor: int, ranges: Seq<(usize, usize)>, open: Option<(u8, usize, usize)>)
    -> (Seq<(usize, usize)>, bool)
    decreases b.len() - cursor,
{
    if cursor < 0 || cursor >= b.len() {
        match open {
            Some((_, _, start)) => add_fence(ranges, (start, b.len() as usize), b.len() as usize),
            None => (ranges, false),
        }
    } else {
        proof {
            lemma_newline_from(b, cursor);
        }
        let end = line_end(b, cursor);
        let t = indent_end(b, cursor, end);
        let m = b[t];
        let k = run_end(b, t, end, m);
        if t - cursor <= 3 && t < end && (m == 0x60u8 || m == 0x7eu8) && k - t >= 3 {
            match open {
                Some((kind, length, start)) => if m == kind && k - t >= length && blank_text(b.subrange(k, end)) {
                    let added = add_fence(ranges, (start, end as usize), b.len() as usize);
                    if added.1 {
                        added
                    } else {
                        fences_from(b, end, added.0, None)
                    }
                } else {
                    fences_from(b, end, ranges, open)
                },
                None => fences_from(b, end, ranges, Some((m, (k - t) as usize, cursor as usize))),
            }
        } else {
            fences_from(b, end, ranges, open)
        }
    }
}

/// The fenced code blocks of a Markdown text, by byte range; an open fence
/// runs to the end.
fn markdown_fences(b: &[u8], incomplete: &mut Vec<String>) -> (r: Vec<(usize, usize)>)
    ensures
        ranges_within(r@, b@.len()),
        r@.len() <= MAX_MARKDOWN_FENCES,
        r@ == fences_from(b@, 0, seq![], None).0,
        strings_view(final(incomplete)@) == if fences_from(b@, 0, seq![], None).1 {
            strings_view(old(incomplete)@).push("Markdown fence limit of 4096 reached"@)
        } else {
            strings_view(old(incomplete)@)
        },
{
    let mut ranges: Vec<(usize, usize)> = Vec::new();
    let mut cursor: usize = 0;
    let mut open: Option<(u8, usize, usize)> = None;
    let ghost all = fences_from(b@, 0, seq![], None);
    assert(ranges@ =~= seq![]);
    while cursor < b.len()
        invariant
            cursor <= b@.len(),
            ranges_within(ranges@, b@.len()),
            ranges@.len() <= MAX_MARKDOWN_FENCES,
            match open { Some((_, _, start)) => start <= cursor, None => true },
            all == fences_from(b@, 0, seq![], None),
            all == fences_from(b@, cursor as int, ranges@, open),
            strings_view(incomplete@) == strings_view(old(incomplete)@),
        decreases b.len() - cursor,
    {
        let mut end = cursor;
        while end < b.len() && b[end] != 0x0au8
            invariant
                cursor <= end <= b@.len(),
                newline_from(b@, cursor as int) == newline_from(b@, end as int),
            decreases b.len() - end,
        {
            end = end + 1;
        }
        if end < b.len() {
            end = end + 1;
        }
        assert(end == line_end(b@, cursor as int));
        let mut t = cursor;
        while t < end && (b[t] == 0x20u8 || b[t] == 0x09u8)
            invariant
                cursor <= t <= end,
                end <= b@.len(),
                indent_end(b@, cursor as int, end as int) == indent_end(b@, t as int, end as int),
            decreases end - t,
        {
            t = t + 1;
        }
        let indent = t - cursor;
        if indent <= 3 && t < end && (b[t] == 0x60u8 || b[t] == 0x7eu8) {
            let marker = b[t];
            let mut k = t;
            while k < end && b[k] == marker
                invariant
                    t <= k <= end,
                    end <= b@.len(),
                    run_end(b@, t as int, end as int, marker) == run_end(b@, k as int, end as int, marker),
                decreases end - k,
            {
                k = k + 1;
            }
            let run = k - t;
            if run >= 3 {
                match open {
                    Some((kind, length, start)) => {
                        if marker == kind && run >= length && blank(b, k, end) {
                            if !push_fence_range(&mut ranges, incomplete, (start, end), b.len()) {
                                return ranges;
                            }
                            open = None;
                        }
                    },
                    None => {
                        open = Some((marker, run, cursor));
                    },
                }
            }
        }
        cursor = end;
    }
    match open {
        Some((_, _, start)) => {
            if ranges.len() < MAX_MARKDOWN_FENCES || ranges.len() == MAX_MARKDOWN_FENCES {
                push_fence_range(&mut ranges, incomplete, (start, b.len()), b.len());
            }
        },
        None => {},
    }
    ranges
}

/// The first opening from the `i`-th on of the run length, or -1.
pub open spec fn opening_pos(openings: Seq<(usize, usize)>, length: usize, i: int) -> int
    decreases openings.len() - i,
{
    if i < 0 || i >= openings.len() {
        -1
    } else if openings[i].0 == length {
        i
    } else {
        opening_pos(openings, length, i + 1)
    }
}

fn take_opening(openings: &mut Vec<(usize, usize)>, length: usize) -> (r: Option<usize>)
    ensures
        forall|i: int| 0 <= i < final(openings)@.len() ==> old(openings)@.contains(#[trigger] final(openings)@[i]),
        r matches Some(s) ==> old(openings)@.contains((length, s)),
        opening_pos(old(openings)@, length, 0) < 0 ==> r is None && final(openings)@ == old(openings)@,
        opening_pos(old(openings)@, length, 0) >= 0 ==> ({
            let p = opening_pos(old(openings)@, length, 0);
            r == Some(old(openings)@[p].1) && final(openings)@ == old(openings)@.remove(p)
        }),
{
    let mut i: usize = 0;
    while i < openings.len()
        invariant
            i <= openings@.len(),
            openings@ == old(openings)@,
            opening_pos(old(openings)@, length, 0) == opening_pos(old(openings)@, length, i as int),
        decreases openings.len() - i,
    {
        if openings[i].0 == length {
            let ghost before = openings@;
            let (_, start) = openings.remove(i);
            assert forall|j: int| 0 <= j < openings@.len() implies before.contains(#[trigger] openings@[j]) by {
                if j < i { assert(openings@[j] == before[j]); } else { assert(openings@[j] == before[j + 1]); }
            }
            return Some(start);
        }
        i = i + 1;
    }
    None
}

/// The backslashes that directly precede the `p`-th byte.
pub open spec fn backslashes_before(b: Seq<u8>, p: int) -> nat
    decreases p,
{
    if p <= 0 || p > b.len() || b[p - 1] != 0x5cu8 {
        0
    } else {
        1 + backslashes_before(b, p - 1)
    }
}

/// The code spans of `b` from `cursor` on, outside the fences from the
/// `fi`-th on, given the spans found before and the backtick runs still
/// open (their length and start); the flag says that the span limit was
/// reached, which ends the search.
pub open spec fn spans_from(b: Seq<u8>, fences: Seq<(usize, usize)>, cursor: int, fi: int,
    openings: Seq<(usize, usize)>, spans: Seq<(usize, usize)>) -> (Seq<(usize, usize)>, bool)
    decreases b.len() - cursor, fences.len() - fi when ranges_within(fences, b.len()) && 0 <= cursor && 0 <= fi
{
    if cursor >= b.len() {
        (spans, false)
    } else if fi < fences.len() && cursor >= fences[fi].1 {
        spans_from(b, fences, cursor, fi + 1, openings, spans)
    } else if fi < fences.len() && fences[fi].0 <= cursor && cursor < fences[fi].1 {
        spans_from(b, fences, fences[fi].1 as int, fi, seq![], spans)
    } else if b[cursor] == 0x0du8 || b[cursor] == 0x0au8 {
        let crlf = b[cursor] == 0x0du8 && cursor + 1 < b.len() && b[cursor + 1] == 0x0au8;
        let next_line = if crlf { cursor + 2 } else { cursor + 1 };
        let next_content = indent_end(b, next_line, b.len() as int);
        let blank_line = next_content < b.len() && (b[next_content] == 0x0du8 || b[next_content] == 0x0au8);
        spans_from(b, fences, next_line, fi, if blank_line { seq![] } else { openings }, spans)
    } else if b[cursor] != 0x60u8 {
        spans_from(b, fences, cursor + 1, fi, openings, spans)
    } else {
        proof {
            lemma_run_end(b, cursor + 1, b.len() as int, 0x60u8);
        }
        let end = run_end(b, cursor, b.len() as int, 0x60u8);
        if backslashes_before(b, cursor) % 2 == 1 {
            spans_from(b, fences, end, fi, openings, spans)
        } else {
            let length = (end - cursor) as usize;
            let p = opening_pos(openings, length, 0);
            if p < 0 {
                spans_from(b, fences, end, fi, openings.push((length, cursor as usize)), spans)
            } else if spans.len() == MAX_MARKDOWN_CODE_SPANS {
                (spans.push((openings[p].1, b.len() as usize)), true)
            } else {
                let open = openings[p].1;
                spans_from(b, fences, end, fi, openings.remove(p),
                    if open <= end { spans.push((open, end as usize)) } else { spans })
            }
        }
    }
}

/// The inline code spans of a Markdown text outside its fences, by byte
/// range; a span cut by the limit runs to the end.
fn markdown_code_spans(b: &[u8], fences: &Vec<(usize, usize)>, incomplete: &mut Vec<String>) -> (r: Vec<(usize, usize)>)
    requires
        ranges_within(fences@, b@.len()),
    ensures
        ranges_within(r@, b@.len()),
        r@ == spans_from(b@, fences@, 0, 0, seq![], seq![]).0,
        strings_view(final(incomplete)@) == if spans_from(b@, fences@, 0, 0, seq![], seq![]).1 {
            strings_view(old(incomplete)@).push("Markdown code span limit of 32768 reached"@)
        } else {
            strings_view(old(incomplete)@)
        },
{
    let mut spans: Vec<(usize, usize)> = Vec::new();
    let mut openings: Vec<(usize, usize)> = Vec::new();
    let mut fence_index: usize = 0;
    let mut cursor: usize = 0;
    let ghost all = spans_from(b@, fences@, 0, 0, seq![], seq![]);
    assert(spans@ =~= seq![] && openings@ =~= seq![]);
    while cursor < b.len()
        invariant
            cursor <= b@.len(),
            fence_index <= fences@.len(),
            all == spans_from(b@, fences@, 0, 0, seq![], seq![]),
            all == spans_from(b@, fences@, cursor as int, fence_index as int, openings@, spans@),
            strings_view(incomplete@) == strings_view(old(incomplete)@),
            ranges_within(spans@, b@.len()),
            ranges_within(fences@, b@.len()),
            forall|i: int| 0 <= i < openings@.len() ==> (#[trigger] openings@[i]).1 <= b@.len(),
        decreases b.len() - cursor, fences.len() - fence_index,
    {
        if fence_index < fences.len() && cursor >= fences[fence_index].1 {
            fence_index = fence_index + 1;
            continue;
        }
        if fence_index < fences.len() && fences[fence_index].0 <= cursor && cursor < fences[fence_index].1 {
            cursor = fences[fence_index].1;
            openings.clear();
            assert(openings@ =~= seq![]);
            continue;
        }
        let c = b[cursor];
        if c == 0x0du8 || c == 0x0au8 {
            let crlf = c == 0x0du8 && cursor + 1 < b.len() && b[cursor + 1] == 0x0au8;
            let next_line = if crlf { cursor + 2 } else { cursor + 1 };
            let mut next_content = next_line;
            while next_content < b.len() && (b[next_content] == 0x20u8 || b[next_content] == 0x09u8)
                invariant
                    next_line <= next_content <= b@.len(),
                    indent_end(b@, next_line as int, b@.len() as int) == indent_end(b@, next_content as int, b@.len() as int),
                decreases b.len() - next_content,
            {
                next_content = next_content + 1;
            }
            if next_content < b.len() && (b[next_content] == 0x0du8 || b[next_content] == 0x0au8) {
                openings.clear();
                assert(openings@ =~= seq![]);
            }
            cursor = next_line;
            continue;
        }
        if c != 0x60u8 {
            cursor = cursor + 1;
            continue;
        }
        let start = cursor;
        while cursor < b.len() && b[cursor] == 0x60u8
            invariant
                start <= cursor <= b@.len(),
                start < b@.len(),
                run_end(b@, start as int, b@.len() as int, 0x60u8) == run_end(b@, cursor as int, b@.len() as int, 0x60u8),
            decreases b.len() - cursor,
        {
            cursor = cursor + 1;
        }
        let mut escapes: usize = 0;
        let mut previous = start;
        while previous > 0 && b[previous - 1] == 0x5cu8
            invariant
                previous <= start,
                start < b@.len(),
                escapes == start - previous,
                backslashes_before(b@, start as int) == escapes + backslashes_before(b@, previous as int),
            decreases previous,
        {
            escapes = escapes + 1;
            previous = previous - 1;
        }
        assert(escapes == backslashes_before(b@, start as int));
        assert(cursor == run_end(b@, start as int, b@.len() as int, 0x60u8));
        let ghost state = (openings@, spans@);
        assert(all == spans_from(b@, fences@, start as int, fence_index as int, state.0, state.1));
        if escapes % 2 == 1 {
            continue;
        }
        let length = cursor - start;
        match take_opening(&mut openings, length) {
            Some(open) => {
                if spans.len() == MAX_MARKDOWN_CODE_SPANS {
                    let ghost before = incomplete@;
                    incomplete.push(owned("Markdown code span limit of 32768 reached"));
                    assert(strings_view(incomplete@) =~= strings_view(before).push("Markdown code span limit of 32768 reached"@));
                    spans.push((open, b.len()));
                    return spans;
                }
                if open <= cursor {
                    spans.push((open, cursor));
                }
            },
            None => {
                openings.push((length, start));
            },
        }
    }
    spans
}

/// The ranges sorted by their start.
#[verifier::rlimit(30)]
fn sort_ranges(v: Vec<(usize, usize)>, Ghost(n): Ghost<nat>) -> (r: Vec<(usize, usize)>)
    requires
        ranges_within(v@, n),
    ensures
        ranges_within(r@, n),
        forall|i: int, j: int| 0 <= i < j < r@.len() ==> r@[i].0 <= r@[j].0,
        r@.to_multiset() == v@.to_multiset(),
{
    let mut out: Vec<(usize, usize)> = Vec::new();
    let mut k: usize = 0;
    proof {
        broadcast use vstd::seq_lib::group_to_multiset_ensures;
        assert(v@.take(0) =~= Seq::<(usize, usize)>::empty());
    }
    while k < v.len()
        invariant
            k <= v@.len(),
            ranges_within(v@, n),
            ranges_within(out@, n),
            out@.to_multiset() == v@.take(k as int).to_multiset(),
            forall|i: int, j: int| 0 <= i < j < out@.len() ==> out@[i].0 <= out@[j].0,
        decreases v.len() - k,
    {
        let x = v[k];
        let mut j: usize = out.len();
        while j > 0 && out[j - 1].0 > x.0
            invariant
                j <= out@.len(),
                forall|i: int| j <= i < out@.len() ==> out@[i].0 > x.0,
            decreases j,
        {
            j = j - 1;
        }
        let ghost before = out@;
        out.insert(j, x);
        proof {
            broadcast use vstd::seq_lib::group_to_multiset_ensures;
            assert(out@.remove(j as int) =~= before);
            assert(out@[j as int] == x);
            assert(before.to_multiset() == out@.to_multiset().remove(x));
            assert(out@.to_multiset().count(x) > 0) by {
                assert(out@.contains(x));
            }
            assert(out@.to_multiset() =~= before.to_multiset().insert(x));
            assert(v@.take(k + 1) =~= v@.take(k as int).push(x));
        }
        assert forall|a: int, c: int| 0 <= a < c < out@.len() implies out@[a].0 <= out@[c].0 by {
            if c < j {
            } else if c == j {
                assert(out@[a] == before[a]);
            } else if a == j {
                assert(out@[c] == before[c - 1]);
            } else if a < j {
                assert(out@[a] == before[a] && out@[c] == before[c - 1]);
            } else {
                assert(out@[a] == before[a - 1] && out@[c] == before[c - 1]);
            }
        }
        assert forall|i: int| 0 <= i < out@.len() implies (#[trigger] out@[i]).0 <= out@[i].1 <= n by {
            if i < j { assert(out@[i] == before[i]); } else if i > j { assert(out@[i] == before[i - 1]); }
        }
        k = k + 1;
    }
    assert(v@.take(v@.len() as int) =~= v@);
    out
}

/// A script found in a document: the bytes of its source, its grammar,
/// how many lines precede it, and the source it names instead, if any.
pub struct ScriptBlock {
    pub start: usize,
    pub end: usize,
    pub kind: SourceKind,
    pub line_offset: u64,
    pub external_src: Option<String>,
}

/// The scripts of a document and why their extraction is incomplete.
pub struct Extraction {
    pub blocks: Vec<ScriptBlock>,
    pub incomplete: Vec<String>,
}

/// What every extracted script satisfies in the document's bytes `b`.
pub open spec fn block_ok(b: Seq<u8>, k: ScriptBlock) -> bool {
    &&& 1 <= k.start <= k.end <= b.len()
    &&& b[k.start - 1] == 0x3eu8
    &&& close_tag_at(b, k.end as int)
    &&& k.line_offset as nat == newlines_before(b, k.start as int)
    &&& (k.external_src is None ==> k.end - k.start <= MAX_PARSE_BYTES)
}

/// The bytes of the scripts parsed from their own source.
pub open spec fn inline_bytes(blocks: Seq<ScriptBlock>) -> nat
    decreases blocks.len(),
{
    if blocks.len() == 0 {
        0
    } else {
        inline_bytes(blocks.drop_last()) + if blocks.last().external_src is None {
            (blocks.last().end - blocks.last().start) as nat
        } else {
            0
        }
    }
}

/// The first position from `i` on where `needle` occurs, ignoring ASCII
/// case, or -1.
pub open spec fn ci_from(h: Seq<u8>, needle: Seq<u8>, i: int) -> int
    decreases h.len() + 1 - i,
{
    if i < 0 || i > h.len() {
        -1
    } else if ci_at(h, needle, i) {
        i
    } else {
        ci_from(h, needle, i + 1)
    }
}

pub proof fn lemma_ci_from(h: Seq<u8>, needle: Seq<u8>, i: int)
    ensures
        ci_from(h, needle, i) == -1 || (i <= ci_from(h, needle, i) && ci_at(h, needle, ci_from(h, needle, i))),
    decreases h.len() + 1 - i,
{
    if 0 <= i <= h.len() && !ci_at(h, needle, i) {
        lemma_ci_from(h, needle, i + 1);
    }
}

proof fn lemma_ci_from_found(h: Seq<u8>, needle: Seq<u8>, start: int, i: int)
    requires
        0 <= start <= i,
        ci_at(h, needle, i),
        forall|j: int| start <= j < i ==> !ci_at(h, needle, j),
    ensures
        ci_from(h, needle, start) == i,
    decreases i - start,
{
    if start < i {
        lemma_ci_from_found(h, needle, start + 1, i);
    }
}

proof fn lemma_ci_from_absent(h: Seq<u8>, needle: Seq<u8>, start: int)
    requires
        0 <= start,
        forall|j: int| start <= j ==> !ci_at(h, needle, j),
    ensures
        ci_from(h, needle, start) == -1,
    decreases h.len() + 1 - start,
{
    if start <= h.len() {
        lemma_ci_from_absent(h, needle, start + 1);
    }
}

/// Where the first `</script` closing tag from `i` on begins, or -1.
pub open spec fn close_from(h: Seq<u8>, i: int) -> int
    decreases h.len() + 1 - i,
{
    if i < 0 || i > h.len() {
        -1
    } else if close_tag_at(h, i) {
        i
    } else {
        close_from(h, i + 1)
    }
}

pub proof fn lemma_close_from(h: Seq<u8>, i: int)
    ensures
        close_from(h, i) == -1 || (i <= close_from(h, i) && close_tag_at(h, close_from(h, i))),
    decreases h.len() + 1 - i,
{
    if 0 <= i <= h.len() && !close_tag_at(h, i) {
        lemma_close_from(h, i + 1);
    }
}

proof fn lemma_close_from_found(h: Seq<u8>, start: int, i: int)
    requires
        0 <= start <= i,
        close_tag_at(h, i),
        forall|j: int| start <= j < i ==> !close_tag_at(h, j),
    ensures
        close_from(h, start) == i,
    decreases i - start,
{
    if start < i {
        lemma_close_from_found(h, start + 1, i);
    }
}

proof fn lemma_close_from_absent(h: Seq<u8>, start: int)
    requires
        0 <= start,
        forall|j: int| start <= j ==> !close_tag_at(h, j),
    ensures
        close_from(h, start) == -1,
    decreases h.len() + 1 - start,
{
    if start <= h.len() {
        lemma_close_from_absent(h, start + 1);
    }
}

/// The first excluded range from the `fi`-th on that does not end at or
/// before `p`.
pub open spec fn skip_ranges(ex: Seq<(usize, usize)>, fi: int, p: int) -> int
    decreases ex.len() - fi,
{
    if 0 <= fi < ex.len() && p >= ex[fi].1 {
        skip_ranges(ex, fi + 1, p)
    } else {
        fi
    }
}

pub open spec fn script_open_tag() -> Seq<u8> {
    seq![0x3cu8, 0x73u8, 0x63u8, 0x72u8, 0x69u8, 0x70u8, 0x74u8]
}

pub open spec fn comment_open_tag() -> Seq<u8> {
    seq![0x3cu8, 0x21u8, 0x2du8, 0x2du8]
}

pub open spec fn comment_close_tag() -> Seq<u8> {
    seq![0x2du8, 0x2du8, 0x3eu8]
}

/// A script block as plain values.
pub open spec fn block_view(k: ScriptBlock) -> (usize, usize, SourceKind, u64, Option<Seq<char>>) {
    (k.start, k.end, k.kind, k.line_offset, crate::model::opt_view(k.external_src))
}

pub open spec fn blocks_view(s: Seq<ScriptBlock>) -> Seq<(usize, usize, SourceKind, u64, Option<Seq<char>>)> {
    s.map_values(|k: ScriptBlock| block_view(k))
}

/// The scripts of `b` from `cursor` on, outside the excluded ranges from
/// the `fi`-th on, given the scripts found before, the bytes of those parsed
/// from their own source, and the notes so far: all the scripts and all
/// the notes.
pub open spec fn scripts_from(b: Seq<u8>, ex: Seq<(usize, usize)>, cursor: int, fi: int,
    found: Seq<(usize, usize, SourceKind, u64, Option<Seq<char>>)>, total: int, notes: Seq<Seq<char>>)
    -> (Seq<(usize, usize, SourceKind, u64, Option<Seq<char>>)>, Seq<Seq<char>>)
    decreases b.len() - cursor when 0 <= cursor <= b.len()
{
    proof {
        lemma_ci_from(b, script_open_tag(), cursor);
        lemma_ci_from(b, comment_open_tag(), cursor);
    }
    let open = ci_from(b, script_open_tag(), cursor);
    let comment = ci_from(b, comment_open_tag(), cursor);
    if open < 0 {
        (found, notes)
    } else if comment >= 0 && comment < open {
        proof {
            lemma_ci_from(b, comment_close_tag(), comment + 4);
        }
        let end = ci_from(b, comment_close_tag(), comment + 4);
        if end >= 0 {
            scripts_from(b, ex, end + 3, fi, found, total, notes)
        } else {
            (found, notes.push("unterminated HTML comment before embedded script"@))
        }
    } else {
        let fi2 = skip_ranges(ex, fi, open);
        let after = open + 7;
        if 0 <= fi2 < ex.len() && ex[fi2].0 <= open && open < ex[fi2].1 {
            scripts_from(b, ex, after, fi2, found, total, notes)
        } else if after < b.len() && !space(b[after]) && b[after] != 0x3eu8 {
            scripts_from(b, ex, after, fi2, found, total, notes)
        } else {
            match tag_end_from(b, after, None) {
                None => (found, notes.push("unterminated embedded script tag"@)),
                Some(tag_end) => {
                    proof {
                        lemma_tag_end_bounds(b, after, None, tag_end);
                        lemma_close_from(b, tag_end + 1);
                    }
                    let attrs = b.subrange(after, tag_end);
                    let body_start = tag_end + 1;
                    let close = close_from(b, body_start);
                    let close_end = if close >= 0 { tag_end_from(b, close + 8, None) } else { None };
                    proof {
                        if close_end is Some {
                            lemma_tag_end_bounds(b, close + 8, None, close_end->0);
                        }
                    }
                    match script_kind(attribute_text_of(attrs, "type"@.map_values(|c: char| c as u8)),
                        attribute_text_of(attrs, "lang"@.map_values(|c: char| c as u8))) {
                        None => scripts_from(b, ex, match close_end { Some(e) => e + 1, None => b.len() as int },
                            fi2, found, total, notes),
                        Some(kind) => if close < 0 {
                            (found, notes.push("unterminated embedded JavaScript block"@))
                        } else {
                            match close_end {
                                None => (found, notes.push("unterminated embedded script closing tag"@)),
                                Some(e) => if found.len() == MAX_EMBEDDED_SCRIPTS {
                                    (found, notes.push("embedded script limit of 256 reached"@))
                                } else {
                                    let line = newlines_before(b, body_start);
                                    let src = attribute_text_of(attrs, seq![0x73u8, 0x72u8, 0x63u8]);
                                    let size = close - body_start;
                                    if src is None && size > MAX_PARSE_BYTES {
                                        scripts_from(b, ex, e + 1, fi2, found, total, notes.push(
                                            "embedded JS/TS parse limit of 4194304 bytes exceeded at line "@ + crate::text::decimal(line + 1)))
                                    } else if src is None && total + size > MAX_PARSE_BYTES {
                                        (found, notes.push(
                                            "embedded JS/TS total parse limit of 4194304 bytes reached at line "@ + crate::text::decimal(line + 1)))
                                    } else {
                                        scripts_from(b, ex, e + 1, fi2,
                                            found.push((body_start as usize, close as usize, kind, line as u64, src)),
                                            if src is None { total + size } else { total }, notes)
                                    }
                                }
                            }
                        },
                    }
                },
            }
        }
    }
}

/// The ranges excluded from a Markdown text: its fences and code spans,
/// sorted by their start.
pub open spec fn markdown_excluded(b: Seq<u8>, ex: Seq<(usize, usize)>) -> bool {
    let fences = fences_from(b, 0, seq![], None).0;
    let spans = spans_from(b, fences, 0, 0, seq![], seq![]).0;
    &&& ex.to_multiset() == (fences + spans).to_multiset()
    &&& forall|i: int, j: int| 0 <= i < j < ex.len() ==> ex[i].0 <= ex[j].0
}

/// What the search for fences and code spans of a Markdown text notes.
pub open spec fn markdown_notes(b: Seq<u8>) -> Seq<Seq<char>> {
    let fences = fences_from(b, 0, seq![], None);
    let spans = spans_from(b, fences.0, 0, 0, seq![], seq![]);
    (if fences.1 { seq!["Markdown fence limit of 4096 reached"@] } else { seq![] })
        + (if spans.1 { seq!["Markdown code span limit of 32768 reached"@] } else { seq![] })
}

/// The scripts of an HTML, Vue or SVG document, or of a Markdown text
/// outside its code. Each lies between the end of its `<script>` tag and its
/// closing tag, after the scripts before it; there are at most
/// `MAX_EMBEDDED_SCRIPTS` of them, and the scripts parsed from their own
/// source hold at most `MAX_PARSE_BYTES` bytes together.
#[verifier::rlimit(60)]
pub fn extract_scripts(text: &str, markdown: bool) -> (r: Extraction)
    requires
        text.spec_bytes().len() < u64::MAX,
    ensures
        r.blocks@.len() <= MAX_EMBEDDED_SCRIPTS,
        forall|i: int| 0 <= i < r.blocks@.len() ==> block_ok(text.spec_bytes(), #[trigger] r.blocks@[i]),
        forall|i: int, j: int| 0 <= i < j < r.blocks@.len() ==> r.blocks@[i].end < r.blocks@[j].start,
        inline_bytes(r.blocks@) <= MAX_PARSE_BYTES,
        !markdown ==> (blocks_view(r.blocks@), strings_view(r.incomplete@))
            == scripts_from(text.spec_bytes(), seq![], 0, 0, seq![], 0, seq![]),
        markdown ==> exists|ex: Seq<(usize, usize)>| markdown_excluded(text.spec_bytes(), ex)
            && (blocks_view(r.blocks@), strings_view(r.incomplete@))
                == scripts_from(text.spec_bytes(), ex, 0, 0, seq![], 0, markdown_notes(text.spec_bytes())),
{
    let b = text.as_bytes();
    let mut incomplete: Vec<String> = Vec::new();
    let excluded: Vec<(usize, usize)> = if markdown {
        let fences = markdown_fences(b, &mut incomplete);
        let spans = markdown_code_spans(b, &fences, &mut incomplete);
        assert(strings_view(incomplete@) =~= markdown_notes(b@));
        let mut all = fences;
        let mut more = spans;
        let ghost f = all@;
        let ghost m = more@;
        all.append(&mut more);
        assert(all@ =~= f + m);
        assert(ranges_within(all@, b@.len())) by {
            assert forall|i: int| 0 <= i < all@.len() implies (#[trigger] all@[i]).0 <= all@[i].1 <= b@.len() by {
                if i < f.len() { assert(all@[i] == f[i]); } else { assert(all@[i] == m[i - f.len()]); }
            }
        }
        sort_ranges(all, Ghost(b@.len()))
    } else {
        Vec::new()
    };
    let open_tag: [u8; 7] = [0x3cu8, 0x73u8, 0x63u8, 0x72u8, 0x69u8, 0x70u8, 0x74u8];
    let comment_open: [u8; 4] = [0x3cu8, 0x21u8, 0x2du8, 0x2du8];
    let comment_close: [u8; 3] = [0x2du8, 0x2du8, 0x3eu8];
    let src_key: [u8; 3] = [0x73u8, 0x72u8, 0x63u8];
    assert(open_tag@ =~= script_open_tag());
    assert(comment_open@ =~= comment_open_tag());
    assert(comment_close@ =~= comment_close_tag());
    assert(src_key@ =~= seq![0x73u8, 0x72u8, 0x63u8]);
    let mut blocks: Vec<ScriptBlock> = Vec::new();
    let mut cursor: usize = 0;
    let mut total: usize = 0;
    let mut fence_index: usize = 0;
    let ghost all = scripts_from(b@, excluded@, 0, 0, seq![], 0, strings_view(incomplete@));
    assert(blocks_view(blocks@) =~= seq![]);
    assert(!markdown ==> excluded@ =~= seq![] && strings_view(incomplete@) =~= seq![]);
    loop
        invariant
            cursor <= b@.len(),
            b@ == text.spec_bytes(),
            b@.len() < u64::MAX,
            blocks@.len() <= MAX_EMBEDDED_SCRIPTS,
            forall|i: int| 0 <= i < blocks@.len() ==> block_ok(b@, #[trigger] blocks@[i]),
            forall|i: int| 0 <= i < blocks@.len() ==> (#[trigger] blocks@[i]).end < cursor,
            forall|i: int, j: int| 0 <= i < j < blocks@.len() ==> blocks@[i].end < blocks@[j].start,
            total as nat == inline_bytes(blocks@),
            total <= MAX_PARSE_BYTES,
            fence_index <= excluded@.len(),
            open_tag@ == script_open_tag(),
            comment_open@ == comment_open_tag(),
            comment_close@ == comment_close_tag(),
            src_key@ == seq![0x73u8, 0x72u8, 0x63u8],
            all == scripts_from(b@, excluded@, cursor as int, fence_index as int, blocks_view(blocks@), total as int,
                strings_view(incomplete@)),
            markdown ==> markdown_excluded(b@, excluded@)
                && all == scripts_from(b@, excluded@, 0, 0, seq![], 0, markdown_notes(b@)),
            !markdown ==> excluded@ == Seq::<(usize, usize)>::empty()
                && all == scripts_from(b@, seq![], 0, 0, seq![], 0, seq![]),
        decreases b@.len() - cursor, excluded.len() - fence_index,
    {
        let ghost c0 = cursor as int;
        let ghost fi0 = fence_index as int;
        let ghost inc0 = incomplete@;
        let ghost found = blocks_view(blocks@);
        let found_open = find_ci(b, &open_tag, cursor);
        proof { lemma_ci_result(b@, script_open_tag(), c0, found_open); }
        let open = match found_open {
            Some(o) => o,
            None => return Extraction { blocks, incomplete },
        };
        let found_comment = find_ci(b, &comment_open, cursor);
        proof { lemma_ci_result(b@, comment_open_tag(), c0, found_comment); }
        match found_comment {
            Some(comment) => {
                if comment < open {
                    assert(comment_open@.len() == 4);
                    assert(comment + 4 <= b.len());
                    let found_close = find_ci(b, &comment_close, comment + 4);
                    proof { lemma_ci_result(b@, comment_close_tag(), comment + 4, found_close); }
                    match found_close {
                        Some(end) => {
                            assert(comment_close@.len() == 3);
                            assert(end + 3 <= b.len());
                            cursor = end + 3;
                            continue;
                        },
                        None => {
                            incomplete.push(owned("unterminated HTML comment before embedded script"));
                            proof { lemma_strings_push(inc0, incomplete@.last()); }
                            return Extraction { blocks, incomplete };
                        },
                    }
                }
            },
            None => {},
        }
        assert(open_tag@.len() == 7);
        assert(open + 7 <= b.len());
        let after = open + 7;
        while fence_index < excluded.len() && open >= excluded[fence_index].1
            invariant
                fence_index <= excluded@.len(),
                skip_ranges(excluded@, fi0, open as int) == skip_ranges(excluded@, fence_index as int, open as int),
            decreases excluded.len() - fence_index,
        {
            fence_index = fence_index + 1;
        }
        cursor = after;
        if fence_index < excluded.len() && excluded[fence_index].0 <= open && open < excluded[fence_index].1 {
            continue;
        }
        if cursor < b.len() && !is_space(b[cursor]) && b[cursor] != 0x3eu8 {
            continue;
        }
        let tag_end = match find_tag_end(b, cursor) {
            Some(e) => e,
            None => {
                incomplete.push(owned("unterminated embedded script tag"));
                proof { lemma_strings_push(inc0, incomplete@.last()); }
                return Extraction { blocks, incomplete };
            },
        };
        proof { lemma_tag_end_bounds(b@, cursor as int, None, tag_end as int); }
        let attributes = crate::text::byte_range(b, cursor, tag_end);
        let kind = source_kind_of(&attributes);
        let body_start = tag_end + 1;
        let found_script_close = find_script_close(b, body_start);
        proof { lemma_close_result(b@, body_start as int, found_script_close); }
        let kind = match kind {
            Some(k) => k,
            None => {
                proof { reveal_strlit("</script"); }
                let next = match found_script_close {
                    Some(close) => match find_tag_end(b, { assert(close + 8 <= b.len()); close + 8 }) {
                        Some(close_end) => {
                            proof { lemma_tag_end_bounds(b@, (close + 8) as int, None, close_end as int); }
                            close_end + 1
                        },
                        None => b.len(),
                    },
                    None => b.len(),
                };
                cursor = next;
                continue;
            },
        };
        let close = match found_script_close {
            Some(c) => c,
            None => {
                incomplete.push(owned("unterminated embedded JavaScript block"));
                proof { lemma_strings_push(inc0, incomplete@.last()); }
                return Extraction { blocks, incomplete };
            },
        };
        proof { reveal_strlit("</script"); }
        assert(close + 8 <= b.len());
        let close_end = match find_tag_end(b, close + 8) {
            Some(e) => e,
            None => {
                incomplete.push(owned("unterminated embedded script closing tag"));
                proof { lemma_strings_push(inc0, incomplete@.last()); }
                return Extraction { blocks, incomplete };
            },
        };
        proof { lemma_tag_end_bounds(b@, (close + 8) as int, None, close_end as int); }
        if blocks.len() == MAX_EMBEDDED_SCRIPTS {
            incomplete.push(owned("embedded script limit of 256 reached"));
            proof { lemma_strings_push(inc0, incomplete@.last()); }
            return Extraction { blocks, incomplete };
        }
        let line_offset = line_number(b, body_start) - 1;
        let external_src = attribute_text(&attributes, &src_key);
        let size = close - body_start;
        if external_src.is_none() && size > MAX_PARSE_BYTES {
            let mut note = owned("embedded JS/TS parse limit of 4194304 bytes exceeded at line ");
            push_decimal(&mut note, line_offset + 1);
            incomplete.push(note);
            proof { lemma_strings_push(inc0, incomplete@.last()); }
        } else if external_src.is_none() && total + size > MAX_PARSE_BYTES {
            let mut note = owned("embedded JS/TS total parse limit of 4194304 bytes reached at line ");
            push_decimal(&mut note, line_offset + 1);
            incomplete.push(note);
            proof { lemma_strings_push(inc0, incomplete@.last()); }
            return Extraction { blocks, incomplete };
        } else {
            if external_src.is_none() {
                total = total + size;
            }
            let block = ScriptBlock { start: body_start, end: close, kind, line_offset, external_src };
            let ghost before = blocks@;
            blocks.push(block);
            assert(blocks@.drop_last() =~= before);
            proof { lemma_blocks_push(before, blocks@.last()); }
        }
        cursor = close_end + 1;
    }
}

proof fn lemma_ci_result(h: Seq<u8>, needle: Seq<u8>, start: int, r: Option<usize>)
    requires
        0 <= start,
        match r {
            Some(i) => start <= i && ci_at(h, needle, i as int)
                && forall|j: int| start <= j < i ==> !ci_at(h, needle, j),
            None => forall|j: int| start <= j ==> !ci_at(h, needle, j),
        },
    ensures
        ci_from(h, needle, start) == match r { Some(i) => i as int, None => -1 },
{
    match r {
        Some(i) => lemma_ci_from_found(h, needle, start, i as int),
        None => lemma_ci_from_absent(h, needle, start),
    }
}

proof fn lemma_close_result(h: Seq<u8>, start: int, r: Option<usize>)
    requires
        0 <= start,
        match r {
            Some(i) => start <= i && close_tag_at(h, i as int)
                && forall|j: int| start <= j < i ==> !close_tag_at(h, j),
            None => forall|j: int| start <= j ==> !close_tag_at(h, j),
        },
    ensures
        close_from(h, start) == match r { Some(i) => i as int, None => -1 },
{
    match r {
        Some(i) => lemma_close_from_found(h, start, i as int),
        None => lemma_close_from_absent(h, start),
    }
}

proof fn lemma_strings_push(v: Seq<String>, s: String)
    ensures
        strings_view(v.push(s)) == strings_view(v).push(s@),
{
    assert(strings_view(v.push(s)) =~= strings_view(v).push(s@));
}

proof fn lemma_blocks_push(v: Seq<ScriptBlock>, k: ScriptBlock)
    ensures
        blocks_view(v.push(k)) == blocks_view(v).push(block_view(k)),
{
    assert(blocks_view(v.push(k)) =~= blocks_view(v).push(block_view(k)));
}

pub proof fn lemma_tag_end_bounds(b: Seq<u8>, i: int, quote: Option<u8>, e: int)
    requires
        tag_end_from(b, i, quote) == Some(e),
    ensures
        i <= e < b.len(),
        b[e] == 0x3eu8,
    decreases b.len() - i,
{
    if 0 <= i < b.len() {
        let c = b[i];
        match quote {
            Some(q) => if c == q { lemma_tag_end_bounds(b, i + 1, None, e) } else { lemma_tag_end_bounds(b, i + 1, Some(q), e) },
            None => if c == 0x27u8 || c == 0x22u8 {
                lemma_tag_end_bounds(b, i + 1, Some(c), e)
            } else if c == 0x3eu8 {
            } else {
                lemma_tag_end_bounds(b, i + 1, None, e)
            },
        }
    }
}

} // verus!
