//! Character- and byte-level text primitives with their mathematical models.
use vstd::prelude::*;
use vstd::string::*;
use vstd::utf8::{encode_scalar, encode_utf8};

verus! {

/// `needle` occurs in `hay` starting at index `i`.
pub open spec fn occurs_at<T>(hay: Seq<T>, needle: Seq<T>, i: int) -> bool {
    0 <= i && i + needle.len() <= hay.len() && hay.subrange(i, i + needle.len()) == needle
}

/// `needle` occurs somewhere in `hay`.
pub open spec fn seq_contains<T>(hay: Seq<T>, needle: Seq<T>) -> bool {
    exists|i: int| occurs_at(hay, needle, i)
}

pub open spec fn seq_starts_with<T>(hay: Seq<T>, prefix: Seq<T>) -> bool {
    prefix.len() <= hay.len() && hay.subrange(0, prefix.len() as int) == prefix
}

pub open spec fn seq_ends_with<T>(hay: Seq<T>, suffix: Seq<T>) -> bool {
    suffix.len() <= hay.len() && hay.subrange(hay.len() - suffix.len(), hay.len() as int) == suffix
}

/// Index of the first occurrence of `needle` in `hay` at or after `from`.
pub open spec fn first_occurrence<T>(hay: Seq<T>, needle: Seq<T>, from: int) -> Option<int> {
    if exists|i: int| from <= i && occurs_at(hay, needle, i) {
        Some(choose|i: int| from <= i && occurs_at(hay, needle, i)
            && forall|j: int| from <= j < i ==> !occurs_at(hay, needle, j))
    } else {
        None
    }
}

/// The first occurrence from `from` on is at `i` when `i` holds one and
/// none comes before it.
pub proof fn lemma_first_occurrence_is<T>(hay: Seq<T>, needle: Seq<T>, from: int, i: int)
    requires
        from <= i,
        occurs_at(hay, needle, i),
        forall|j: int| from <= j < i ==> !occurs_at(hay, needle, j),
    ensures
        first_occurrence(hay, needle, from) == Some(i),
{
    assert(from <= i && occurs_at(hay, needle, i) && forall|j: int| from <= j < i ==> !occurs_at(hay, needle, j));
    let k = choose|k: int| from <= k && occurs_at(hay, needle, k)
        && forall|j: int| from <= j < k ==> !occurs_at(hay, needle, j);
    if k < i {
        assert(!occurs_at(hay, needle, k));
    }
    if k > i {
        assert(!occurs_at(hay, needle, i));
    }
}

/// No occurrence from `from` on means none is first.
pub proof fn lemma_first_occurrence_none<T>(hay: Seq<T>, needle: Seq<T>, from: int)
    requires
        forall|j: int| from <= j ==> !occurs_at(hay, needle, j),
    ensures
        first_occurrence(hay, needle, from) is None,
{
}

/// Exact comparison of a byte window with a needle.
pub fn bytes_at(hay: &[u8], needle: &[u8], i: usize) -> (r: bool)
    ensures
        r == occurs_at(hay@, needle@, i as int),
{
    if needle.len() > hay.len() || i > hay.len() - needle.len() {
        return false;
    }
    let mut k: usize = 0;
    while k < needle.len()
        invariant
            i + needle@.len() <= hay@.len(),
            i + needle.len() <= hay.len(),
            k <= needle@.len(),
            forall|j: int| 0 <= j < k ==> hay@[i + j] == needle@[j],
        decreases needle.len() - k,
    {
        if hay[i + k] != needle[k] {
            assert(hay@.subrange(i as int, i + needle@.len())[k as int] != needle@[k as int]);
            return false;
        }
        k = k + 1;
    }
    assert(hay@.subrange(i as int, i + needle@.len()) =~= needle@);
    true
}

/// Exact comparison of a character window with a needle.
pub fn chars_at(hay: &[char], needle: &[char], i: usize) -> (r: bool)
    ensures
        r == occurs_at(hay@, needle@, i as int),
{
    if needle.len() > hay.len() || i > hay.len() - needle.len() {
        return false;
    }
    let mut k: usize = 0;
    while k < needle.len()
        invariant
            i + needle@.len() <= hay@.len(),
            i + needle.len() <= hay.len(),
            k <= needle@.len(),
            forall|j: int| 0 <= j < k ==> hay@[i + j] == needle@[j],
        decreases needle.len() - k,
    {
        if hay[i + k] != needle[k] {
            assert(hay@.subrange(i as int, i + needle@.len())[k as int] != needle@[k as int]);
            return false;
        }
        k = k + 1;
    }
    assert(hay@.subrange(i as int, i + needle@.len()) =~= needle@);
    true
}


/// The first index at or after `from` where `needle` occurs, if any.
pub fn find_bytes(hay: &[u8], needle: &[u8], from: usize) -> (r: Option<usize>)
    ensures
        r matches Some(i) ==> from <= i && occurs_at(hay@, needle@, i as int)
            && forall|j: int| from <= j < i ==> !occurs_at(hay@, needle@, j),
        r is None ==> forall|j: int| from <= j ==> !occurs_at(hay@, needle@, j),
{
    if needle.len() > hay.len() {
        return None;
    }
    let last = hay.len() - needle.len();
    if from > last {
        return None;
    }
    let mut i = from;
    while i <= last
        invariant
            last + needle@.len() == hay@.len(),
            from <= i,
            i <= last + 1,
            forall|j: int| from <= j < i ==> !occurs_at(hay@, needle@, j),
        decreases last + 1 - i,
    {
        if bytes_at(hay, needle, i) {
            return Some(i);
        }
        if i == last {
            assert forall|j: int| from <= j implies !occurs_at(hay@, needle@, j) by {
                if j > last {
                    assert(j + needle@.len() > hay@.len());
                }
            }
            return None;
        }
        i = i + 1;
    }
    None
}

/// The first index at or after `from` where `needle` occurs, if any.
pub fn find_chars(hay: &[char], needle: &[char], from: usize) -> (r: Option<usize>)
    ensures
        r matches Some(i) ==> from <= i && occurs_at(hay@, needle@, i as int)
            && forall|j: int| from <= j < i ==> !occurs_at(hay@, needle@, j),
        r is None ==> forall|j: int| from <= j ==> !occurs_at(hay@, needle@, j),
{
    if needle.len() > hay.len() {
        return None;
    }
    let last = hay.len() - needle.len();
    if from > last {
        return None;
    }
    let mut i = from;
    while i <= last
        invariant
            last + needle@.len() == hay@.len(),
            from <= i,
            i <= last + 1,
            forall|j: int| from <= j < i ==> !occurs_at(hay@, needle@, j),
        decreases last + 1 - i,
    {
        if chars_at(hay, needle, i) {
            return Some(i);
        }
        if i == last {
            assert forall|j: int| from <= j implies !occurs_at(hay@, needle@, j) by {
                if j > last {
                    assert(j + needle@.len() > hay@.len());
                }
            }
            return None;
        }
        i = i + 1;
    }
    None
}

pub fn contains_bytes(hay: &[u8], needle: &[u8]) -> (r: bool)
    ensures
        r == seq_contains(hay@, needle@),
{
    match find_bytes(hay, needle, 0) {
        Some(i) => true,
        None => false,
    }
}

pub fn contains_chars(hay: &[char], needle: &[char]) -> (r: bool)
    ensures
        r == seq_contains(hay@, needle@),
{
    match find_chars(hay, needle, 0) {
        Some(i) => true,
        None => false,
    }
}

pub fn starts_with_chars(hay: &[char], prefix: &[char]) -> (r: bool)
    ensures
        r == seq_starts_with(hay@, prefix@),
{
    if prefix.len() > hay.len() {
        return false;
    }
    let r = chars_at(hay, prefix, 0);
    assert(occurs_at(hay@, prefix@, 0) == seq_starts_with(hay@, prefix@));
    r
}

pub fn ends_with_chars(hay: &[char], suffix: &[char]) -> (r: bool)
    ensures
        r == seq_ends_with(hay@, suffix@),
{
    if suffix.len() > hay.len() {
        return false;
    }
    chars_at(hay, suffix, hay.len() - suffix.len())
}

pub fn starts_with_bytes(hay: &[u8], prefix: &[u8]) -> (r: bool)
    ensures
        r == seq_starts_with(hay@, prefix@),
{
    if prefix.len() > hay.len() {
        return false;
    }
    bytes_at(hay, prefix, 0)
}

pub fn eq_chars(a: &[char], b: &[char]) -> (r: bool)
    ensures
        r == (a@ == b@),
{
    if a.len() != b.len() {
        return false;
    }
    let r = chars_at(a, b, 0);
    assert(r ==> a@ =~= b@) by {
        if r {
            assert(a@.subrange(0, b@.len() as int) =~= a@);
        }
    }
    assert(a@ == b@ ==> r) by {
        if a@ == b@ {
            assert(a@.subrange(0, b@.len() as int) =~= a@);
        }
    }
    r
}

/// The characters of a string slice.
pub fn chars_of(s: &str) -> (v: Vec<char>)
    ensures
        v@ == s@,
{
    broadcast use vstd::string::axiom_spec_iter;
    let mut out: Vec<char> = Vec::new();
    for c in it: s.chars()
        invariant
            it.seq() == s@,
            out@ == it.seq().take(it.index()),
    {
        out.push(c);
    }
    out
}

/// Appends one character to a string.
#[verifier::external_body]
pub fn push_char(s: &mut String, c: char)
    ensures
        final(s)@ == old(s)@.push(c),
{
    s.push(c)
}

/// Appends a string slice to a string.
pub fn push_str(s: &mut String, t: &str)
    ensures
        final(s)@ == old(s)@ + t@,
{
    s.append(t);
}

/// A fresh string holding a copy of `t`.
pub fn owned(t: &str) -> (s: String)
    ensures
        s@ == t@,
{
    t.to_owned()
}

/// A string made of the given characters.
pub fn string_from_chars(v: &[char]) -> (s: String)
    ensures
        s@ == v@,
{
    let mut s = String::new();
    let mut i: usize = 0;
    while i < v.len()
        invariant
            i <= v@.len(),
            s@ == v@.subrange(0, i as int),
        decreases v.len() - i,
    {
        push_char(&mut s, v[i]);
        assert(v@.subrange(0, i + 1) =~= v@.subrange(0, i as int).push(v@[i as int]));
        i = i + 1;
    }
    assert(v@.subrange(0, v@.len() as int) =~= v@);
    s
}

/// The characters `lo..hi` of `v` as a string.
pub fn string_from_range(v: &[char], lo: usize, hi: usize) -> (s: String)
    requires
        lo <= hi <= v@.len(),
    ensures
        s@ == v@.subrange(lo as int, hi as int),
{
    let mut s = String::new();
    let mut i: usize = lo;
    while i < hi
        invariant
            lo <= i <= hi <= v@.len(),
            s@ == v@.subrange(lo as int, i as int),
        decreases hi - i,
    {
        push_char(&mut s, v[i]);
        assert(v@.subrange(lo as int, i + 1) =~= v@.subrange(lo as int, i as int).push(v@[i as int]));
        i = i + 1;
    }
    s
}

pub fn str_eq(a: &str, b: &str) -> (r: bool)
    ensures
        r == (a@ == b@),
{
    let x = chars_of(a);
    let y = chars_of(b);
    eq_chars(x.as_slice(), y.as_slice())
}

pub fn str_contains(hay: &str, needle: &str) -> (r: bool)
    ensures
        r == seq_contains(hay@, needle@),
{
    let x = chars_of(hay);
    let y = chars_of(needle);
    contains_chars(x.as_slice(), y.as_slice())
}

pub fn str_starts_with(hay: &str, prefix: &str) -> (r: bool)
    ensures
        r == seq_starts_with(hay@, prefix@),
{
    let x = chars_of(hay);
    let y = chars_of(prefix);
    starts_with_chars(x.as_slice(), y.as_slice())
}

pub fn str_ends_with(hay: &str, suffix: &str) -> (r: bool)
    ensures
        r == seq_ends_with(hay@, suffix@),
{
    let x = chars_of(hay);
    let y = chars_of(suffix);
    ends_with_chars(x.as_slice(), y.as_slice())
}

/// Does `hay` contain `needle`, as characters.
pub fn chars_contain_str(hay: &[char], needle: &str) -> (r: bool)
    ensures
        r == seq_contains(hay@, needle@),
{
    let y = chars_of(needle);
    contains_chars(hay, y.as_slice())
}

/// Is `prefix` a prefix of `hay`, as characters.
pub fn chars_start_with_str(hay: &[char], prefix: &str) -> (r: bool)
    ensures
        r == seq_starts_with(hay@, prefix@),
{
    let y = chars_of(prefix);
    starts_with_chars(hay, y.as_slice())
}

/// Is `suffix` a suffix of `hay`, as characters.
pub fn chars_end_with_str(hay: &[char], suffix: &str) -> (r: bool)
    ensures
        r == seq_ends_with(hay@, suffix@),
{
    let y = chars_of(suffix);
    ends_with_chars(hay, y.as_slice())
}

/// Are the characters of `a` those of `b`.
pub fn chars_eq_str(a: &[char], b: &str) -> (r: bool)
    ensures
        r == (a@ == b@),
{
    let y = chars_of(b);
    eq_chars(a, y.as_slice())
}

// ---------------------------------------------------------------------------
// ASCII case folding

pub open spec fn lower_char(c: char) -> char {
    if 'A' <= c && c <= 'Z' {
        ((c as u32) + 32) as char
    } else {
        c
    }
}

pub open spec fn lower(s: Seq<char>) -> Seq<char> {
    s.map_values(|c: char| lower_char(c))
}

pub open spec fn lower_byte(b: u8) -> u8 {
    if 65 <= b && b <= 90 {
        (b + 32) as u8
    } else {
        b
    }
}

pub open spec fn lower_bytes(s: Seq<u8>) -> Seq<u8> {
    s.map_values(|b: u8| lower_byte(b))
}

pub fn to_lower_char(c: char) -> (r: char)
    ensures
        r == lower_char(c),
{
    if 'A' <= c && c <= 'Z' {
        let u = c as u32;
        assert(65 <= u <= 90);
        let l = (u + 32) as u8;
        l as char
    } else {
        c
    }
}

pub fn to_lower_byte(b: u8) -> (r: u8)
    ensures
        r == lower_byte(b),
{
    if 65 <= b && b <= 90 {
        b + 32
    } else {
        b
    }
}

/// ASCII lower-case copy of a character sequence.
pub fn lowercase_chars(v: &[char]) -> (r: Vec<char>)
    ensures
        r@ == lower(v@),
{
    let mut r: Vec<char> = Vec::new();
    let mut i: usize = 0;
    while i < v.len()
        invariant
            i <= v@.len(),
            r@ == lower(v@.subrange(0, i as int)),
        decreases v.len() - i,
    {
        r.push(to_lower_char(v[i]));
        assert(lower(v@.subrange(0, i + 1)) =~= lower(v@.subrange(0, i as int)).push(lower_char(v@[i as int])));
        i = i + 1;
    }
    assert(v@.subrange(0, v@.len() as int) =~= v@);
    r
}

/// ASCII lower-case copy of a string's characters.
pub fn lowercase_str(s: &str) -> (r: Vec<char>)
    ensures
        r@ == lower(s@),
{
    let v = chars_of(s);
    lowercase_chars(v.as_slice())
}

pub fn bytes_eq_ignore_case(a: &[u8], b: &[u8]) -> (r: bool)
    ensures
        r == (lower_bytes(a@) == lower_bytes(b@)),
{
    if a.len() != b.len() {
        assert(lower_bytes(a@).len() != lower_bytes(b@).len());
        return false;
    }
    let mut i: usize = 0;
    while i < a.len()
        invariant
            a@.len() == b@.len(),
            i <= a@.len(),
            forall|j: int| 0 <= j < i ==> lower_byte(a@[j]) == lower_byte(b@[j]),
        decreases a.len() - i,
    {
        if to_lower_byte(a[i]) != to_lower_byte(b[i]) {
            assert(lower_bytes(a@)[i as int] != lower_bytes(b@)[i as int]);
            return false;
        }
        i = i + 1;
    }
    assert(lower_bytes(a@) =~= lower_bytes(b@));
    true
}

// ---------------------------------------------------------------------------
// Decimal rendering

pub open spec fn digit_char(d: nat) -> char {
    if d == 0 { '0' }
    else if d == 1 { '1' }
    else if d == 2 { '2' }
    else if d == 3 { '3' }
    else if d == 4 { '4' }
    else if d == 5 { '5' }
    else if d == 6 { '6' }
    else if d == 7 { '7' }
    else if d == 8 { '8' }
    else { '9' }
}

/// The decimal digits of `n`, most significant first.
pub open spec fn decimal(n: nat) -> Seq<char>
    decreases n,
{
    if n < 10 {
        seq![digit_char(n)]
    } else {
        decimal(n / 10).push(digit_char(n % 10))
    }
}

fn digit(d: u64) -> (c: char)
    requires
        d < 10,
    ensures
        c == digit_char(d as nat),
{
    if d == 0 { '0' }
    else if d == 1 { '1' }
    else if d == 2 { '2' }
    else if d == 3 { '3' }
    else if d == 4 { '4' }
    else if d == 5 { '5' }
    else if d == 6 { '6' }
    else if d == 7 { '7' }
    else if d == 8 { '8' }
    else { '9' }
}

/// Appends the decimal rendering of `n`.
pub fn push_decimal(s: &mut String, n: u64)
    ensures
        final(s)@ == old(s)@ + decimal(n as nat),
    decreases n,
{
    if n >= 10 {
        push_decimal(s, n / 10);
    }
    push_char(s, digit(n % 10));
    assert(old(s)@ + decimal(n as nat) =~= (if n >= 10 { old(s)@ + decimal((n / 10) as nat) } else { old(s)@ }).push(digit_char((n % 10) as nat)));
}

/// The decimal rendering of `n`.
pub fn decimal_string(n: u64) -> (s: String)
    ensures
        s@ == decimal(n as nat),
{
    let mut s = String::new();
    push_decimal(&mut s, n);
    assert(s@ =~= decimal(n as nat));
    s
}


// ---------------------------------------------------------------------------
// Lines

/// Index of the first `c` in `s`, or -1.
pub open spec fn index_of(s: Seq<char>, c: char) -> int
    decreases s.len(),
{
    if s.len() == 0 {
        -1
    } else if s[0] == c {
        0
    } else if index_of(s.drop_first(), c) < 0 {
        -1
    } else {
        index_of(s.drop_first(), c) + 1
    }
}

pub proof fn lemma_index_of_range(s: Seq<char>, c: char)
    ensures
        -1 <= index_of(s, c) < s.len(),
        index_of(s, c) >= 0 ==> s[index_of(s, c)] == c,
    decreases s.len(),
{
    if s.len() > 0 {
        lemma_index_of_range(s.drop_first(), c);
    }
}

pub proof fn lemma_index_of_found(s: Seq<char>, c: char, i: int)
    requires
        0 <= i < s.len(),
        s[i] == c,
        forall|j: int| 0 <= j < i ==> s[j] != c,
    ensures
        index_of(s, c) == i,
    decreases s.len(),
{
    if i > 0 {
        lemma_index_of_found(s.drop_first(), c, i - 1);
    }
}

pub proof fn lemma_index_of_absent(s: Seq<char>, c: char)
    requires
        forall|j: int| 0 <= j < s.len() ==> s[j] != c,
    ensures
        index_of(s, c) == -1,
    decreases s.len(),
{
    if s.len() > 0 {
        lemma_index_of_absent(s.drop_first(), c);
    }
}

/// A line without its carriage return before the newline.
pub open spec fn strip_cr(line: Seq<char>) -> Seq<char> {
    if line.len() > 0 && line.last() == '\r' {
        line.drop_last()
    } else {
        line
    }
}

/// The lines of a text as `str::lines` yields them: split after each
/// newline, a carriage return before the newline removed, and no empty
/// line after a final newline.
pub open spec fn lines(s: Seq<char>) -> Seq<Seq<char>>
    decreases s.len(),
{
    if s.len() == 0 {
        seq![]
    } else {
        let i = index_of(s, '\n');
        if i < 0 {
            seq![s]
        } else {
            proof {
                lemma_index_of_range(s, '\n');
            }
            seq![strip_cr(s.subrange(0, i))] + lines(s.subrange(i + 1, s.len() as int))
        }
    }
}

/// The views of the spans `(start, end)` of `text`.
pub open spec fn span_views(text: Seq<char>, spans: Seq<(usize, usize)>) -> Seq<Seq<char>> {
    spans.map_values(|p: (usize, usize)| text.subrange(p.0 as int, p.1 as int))
}

/// The spans of the lines of `text`.
pub fn line_spans(text: &[char]) -> (r: Vec<(usize, usize)>)
    ensures
        forall|k: int| 0 <= k < r@.len() ==> (#[trigger] r@[k]).0 <= r@[k].1 <= text@.len(),
        span_views(text@, r@) == lines(text@),
{
    let mut r: Vec<(usize, usize)> = Vec::new();
    let mut pos: usize = 0;
    let n = text.len();
    assert(text@.subrange(0, n as int) =~= text@);
    assert(span_views(text@, r@) =~= Seq::<Seq<char>>::empty());
    assert(lines(text@) =~= span_views(text@, r@) + lines(text@.subrange(pos as int, n as int)));
    while pos < n
        invariant
            n == text@.len(),
            pos <= n,
            forall|k: int| 0 <= k < r@.len() ==> (#[trigger] r@[k]).0 <= r@[k].1 <= text@.len(),
            lines(text@) == span_views(text@, r@) + lines(text@.subrange(pos as int, n as int)),
        decreases n - pos,
    {
        let ghost rest = text@.subrange(pos as int, n as int);
        let mut j = pos;
        while j < n && text[j] != '\n'
            invariant
                pos <= j <= n,
                n == text@.len(),
                forall|k: int| pos <= k < j ==> text@[k] != '\n',
            decreases n - j,
        {
            j = j + 1;
        }
        let ghost old_r = r@;
        if j == n {
            proof {
                assert forall|k: int| 0 <= k < rest.len() implies rest[k] != '\n' by {
                    assert(rest[k] == text@[pos + k]);
                }
                lemma_index_of_absent(rest, '\n');
                assert(lines(rest) == seq![rest]);
            }
            r.push((pos, n));
            assert(span_views(text@, r@) =~= span_views(text@, old_r).push(rest));
            assert(text@.subrange(n as int, n as int) =~= Seq::<char>::empty());
            assert(lines(text@.subrange(n as int, n as int)) == Seq::<Seq<char>>::empty());
            assert(lines(text@) =~= span_views(text@, r@) + lines(text@.subrange(n as int, n as int)));
            pos = n;
        } else {
            let mut end = j;
            if end > pos && text[end - 1] == '\r' {
                end = end - 1;
            }
            proof {
                assert forall|k: int| 0 <= k < j - pos implies rest[k] != '\n' by {
                    assert(rest[k] == text@[pos + k]);
                }
                lemma_index_of_found(rest, '\n', j - pos);
                assert(rest.subrange(0, j - pos) =~= text@.subrange(pos as int, j as int));
                assert(strip_cr(rest.subrange(0, j - pos)) =~= text@.subrange(pos as int, end as int));
                assert(rest.subrange(j - pos + 1, rest.len() as int) =~= text@.subrange(j + 1, n as int));
                assert(lines(rest) == seq![text@.subrange(pos as int, end as int)] + lines(text@.subrange(j + 1, n as int)));
            }
            r.push((pos, end));
            assert(span_views(text@, r@) =~= span_views(text@, old_r).push(text@.subrange(pos as int, end as int)));
            assert(lines(text@) =~= span_views(text@, r@) + lines(text@.subrange(j + 1, n as int)));
            pos = j + 1;
        }
    }
    assert(text@.subrange(n as int, n as int) =~= Seq::<char>::empty());
    assert(lines(text@) =~= span_views(text@, r@));
    r
}

/// Position (counted from 1) of the first line that satisfies "contains `needle`".
pub open spec fn first_line_with(ls: Seq<Seq<char>>, needle: Seq<char>, n: int) -> bool {
    1 <= n <= ls.len() && seq_contains(ls[n - 1], needle)
        && forall|k: int| 0 <= k < n - 1 ==> !seq_contains(ls[k], needle)
}

/// The number (from 1) of the first line in `ls` that contains `needle`.
pub open spec fn line_number(ls: Seq<Seq<char>>, needle: Seq<char>) -> Option<u64> {
    if exists|n: int| first_line_with(ls, needle, n) {
        Some((choose|n: int| first_line_with(ls, needle, n)) as u64)
    } else {
        None
    }
}

pub proof fn lemma_first_line_unique(ls: Seq<Seq<char>>, needle: Seq<char>, a: int, b: int)
    requires
        first_line_with(ls, needle, a),
        first_line_with(ls, needle, b),
    ensures
        a == b,
{
    if a < b {
        assert(!seq_contains(ls[a - 1], needle));
    } else if b < a {
        assert(!seq_contains(ls[b - 1], needle));
    }
}

/// The number (from 1) of the first line of `text` that contains `needle`.
pub fn find_line(text: &[char], needle: &[char]) -> (r: Option<u64>)
    ensures
        r == line_number(lines(text@), needle@),
        r matches Some(n) ==> first_line_with(lines(text@), needle@, n as int),
        r is None ==> forall|k: int| 0 <= k < lines(text@).len() ==> !seq_contains(lines(text@)[k], needle@),
{
    let spans = line_spans(text);
    let ghost ls = lines(text@);
    let mut k: usize = 0;
    while k < spans.len()
        invariant
            span_views(text@, spans@) == ls,
            ls == lines(text@),
            forall|q: int| 0 <= q < spans@.len() ==> (#[trigger] spans@[q]).0 <= spans@[q].1 <= text@.len(),
            k <= spans@.len(),
            forall|q: int| 0 <= q < k ==> !seq_contains(ls[q], needle@),
        decreases spans.len() - k,
    {
        let (a, b) = spans[k];
        let hit = contains_range(text, a, b, needle);
        assert(ls[k as int] == text@.subrange(a as int, b as int));
        if hit {
            let n = k as u64 + 1;
            proof {
                assert(first_line_with(ls, needle@, n as int));
                let c = choose|m: int| first_line_with(ls, needle@, m);
                lemma_first_line_unique(ls, needle@, c, n as int);
            }
            return Some(n);
        }
        k = k + 1;
    }
    proof {
        assert(span_views(text@, spans@).len() == spans@.len());
        assert forall|m: int| !first_line_with(ls, needle@, m) by {
            if 1 <= m <= ls.len() {
                assert(!seq_contains(ls[m - 1], needle@));
            }
        }
    }
    None
}

/// Does `text[lo..hi]` contain `needle`.
pub fn contains_range(text: &[char], lo: usize, hi: usize, needle: &[char]) -> (r: bool)
    requires
        lo <= hi <= text@.len(),
    ensures
        r == seq_contains(text@.subrange(lo as int, hi as int), needle@),
{
    let ghost sub = text@.subrange(lo as int, hi as int);
    if needle.len() > hi - lo {
        assert forall|i: int| !occurs_at(sub, needle@, i) by {}
        return false;
    }
    let last = hi - needle.len();
    let mut i = lo;
    while i <= last
        invariant
            lo <= i,
            last + needle@.len() == hi,
            hi <= text@.len(),
            sub == text@.subrange(lo as int, hi as int),
            i <= last,
            forall|j: int| 0 <= j < i - lo ==> !occurs_at(sub, needle@, j),
        decreases last + 1 - i,
    {
        let hit = chars_at(text, needle, i);
        assert(occurs_at(sub, needle@, i - lo) == occurs_at(text@, needle@, i as int)) by {
            assert(sub.subrange(i - lo, i - lo + needle@.len()) =~= text@.subrange(i as int, i + needle@.len()));
        }
        if hit {
            return true;
        }
        if i == last {
            assert forall|j: int| !occurs_at(sub, needle@, j) by {
                if 0 <= j && j + needle@.len() <= sub.len() {
                    assert(j <= i - lo);
                }
            }
            return false;
        }
        i = i + 1;
    }
    false
}


// ---------------------------------------------------------------------------
// Character classes

/// Unicode general category Cc, which is what `char::is_control` tests.
pub open spec fn is_control(c: char) -> bool {
    (c as u32) <= 0x1f || (0x7f <= (c as u32) && (c as u32) <= 0x9f)
}

pub fn char_is_control(c: char) -> (r: bool)
    ensures
        r == is_control(c),
{
    let u = c as u32;
    u <= 0x1f || (0x7f <= u && u <= 0x9f)
}

/// Unicode White_Space, which is what `char::is_whitespace` tests.
pub open spec fn is_whitespace(c: char) -> bool {
    let u = c as u32;
    (0x09 <= u && u <= 0x0d) || u == 0x20 || u == 0x85 || u == 0xa0 || u == 0x1680
        || (0x2000 <= u && u <= 0x200a) || u == 0x2028 || u == 0x2029 || u == 0x202f
        || u == 0x205f || u == 0x3000
}

pub fn char_is_whitespace(c: char) -> (r: bool)
    ensures
        r == is_whitespace(c),
{
    let u = c as u32;
    (0x09 <= u && u <= 0x0d) || u == 0x20 || u == 0x85 || u == 0xa0 || u == 0x1680
        || (0x2000 <= u && u <= 0x200a) || u == 0x2028 || u == 0x2029 || u == 0x202f
        || u == 0x205f || u == 0x3000
}

/// `u8::is_ascii_whitespace`.
pub open spec fn is_ascii_space_byte(b: u8) -> bool {
    b == 0x20 || b == 0x09 || b == 0x0a || b == 0x0c || b == 0x0d
}

pub open spec fn is_ascii_space_char(c: char) -> bool {
    c == ' ' || c == '\t' || c == '\n' || c == '\u{0c}' || c == '\r'
}

pub open spec fn is_ascii_digit_byte(b: u8) -> bool {
    48 <= b && b <= 57
}

pub open spec fn is_ascii_hex_byte(b: u8) -> bool {
    (48 <= b && b <= 57) || (65 <= b && b <= 70) || (97 <= b && b <= 102)
}

pub open spec fn is_ascii_alnum_byte(b: u8) -> bool {
    (48 <= b && b <= 57) || (65 <= b && b <= 90) || (97 <= b && b <= 122)
}

pub open spec fn is_ascii_alnum_char(c: char) -> bool {
    ('0' <= c && c <= '9') || ('A' <= c && c <= 'Z') || ('a' <= c && c <= 'z')
}

pub open spec fn is_ascii_hex_char(c: char) -> bool {
    ('0' <= c && c <= '9') || ('A' <= c && c <= 'F') || ('a' <= c && c <= 'f')
}

/// Lower-case hexadecimal digits of `n`, most significant first.
pub open spec fn hex(n: nat) -> Seq<char>
    decreases n,
{
    if n < 16 {
        seq![hex_digit(n)]
    } else {
        hex(n / 16).push(hex_digit(n % 16))
    }
}

pub open spec fn hex_digit(d: nat) -> char {
    if d < 10 { digit_char(d) }
    else if d == 10 { 'a' }
    else if d == 11 { 'b' }
    else if d == 12 { 'c' }
    else if d == 13 { 'd' }
    else if d == 14 { 'e' }
    else { 'f' }
}

pub(crate) fn hex_digit_char(d: u32) -> (c: char)
    requires
        d < 16,
    ensures
        c == hex_digit(d as nat),
{
    if d < 10 { digit(d as u64) }
    else if d == 10 { 'a' }
    else if d == 11 { 'b' }
    else if d == 12 { 'c' }
    else if d == 13 { 'd' }
    else if d == 14 { 'e' }
    else { 'f' }
}

pub fn push_hex(s: &mut String, n: u32)
    ensures
        final(s)@ == old(s)@ + hex(n as nat),
    decreases n,
{
    if n >= 16 {
        push_hex(s, n / 16);
    }
    push_char(s, hex_digit_char(n % 16));
    assert(old(s)@ + hex(n as nat) =~= (if n >= 16 { old(s)@ + hex((n / 16) as nat) } else { old(s)@ }).push(hex_digit((n % 16) as nat)));
}

/// `char::escape_default`.
pub open spec fn escape_default(c: char) -> Seq<char> {
    if c == '\t' {
        seq!['\\', 't']
    } else if c == '\r' {
        seq!['\\', 'r']
    } else if c == '\n' {
        seq!['\\', 'n']
    } else if c == '\\' || c == '\'' || c == '"' {
        seq!['\\', c]
    } else if 0x20 <= (c as u32) && (c as u32) <= 0x7e {
        seq![c]
    } else {
        seq!['\\', 'u', '{'] + hex(c as u32 as nat) + seq!['}']
    }
}

pub fn push_escape_default(s: &mut String, c: char)
    ensures
        final(s)@ == old(s)@ + escape_default(c),
{
    let u = c as u32;
    if c == '\t' {
        push_char(s, '\\');
        push_char(s, 't');
    } else if c == '\r' {
        push_char(s, '\\');
        push_char(s, 'r');
    } else if c == '\n' {
        push_char(s, '\\');
        push_char(s, 'n');
    } else if c == '\\' || c == '\'' || c == '"' {
        push_char(s, '\\');
        push_char(s, c);
    } else if 0x20 <= u && u <= 0x7e {
        push_char(s, c);
    } else {
        push_char(s, '\\');
        push_char(s, 'u');
        push_char(s, '{');
        push_hex(s, u);
        push_char(s, '}');
    }
    assert(final(s)@ =~= old(s)@ + escape_default(c));
}

/// `text` without its leading Unicode whitespace.
pub open spec fn trim_start(s: Seq<char>) -> Seq<char>
    decreases s.len(),
{
    if s.len() > 0 && is_whitespace(s[0]) {
        trim_start(s.drop_first())
    } else {
        s
    }
}

/// Index of the first non-whitespace character at or after `from`.
pub fn skip_whitespace(text: &[char], from: usize) -> (r: usize)
    requires
        from <= text@.len(),
    ensures
        from <= r <= text@.len(),
        trim_start(text@.subrange(from as int, text@.len() as int)) == text@.subrange(r as int, text@.len() as int),
{
    let mut i = from;
    while i < text.len() && char_is_whitespace(text[i])
        invariant
            from <= i <= text@.len(),
            trim_start(text@.subrange(from as int, text@.len() as int)) == trim_start(text@.subrange(i as int, text@.len() as int)),
        decreases text.len() - i,
    {
        assert(text@.subrange(i as int, text@.len() as int).drop_first() =~= text@.subrange(i + 1, text@.len() as int));
        i = i + 1;
    }
    proof { r_trim_stop(text@.subrange(i as int, text@.len() as int)); }
    i
}

proof fn r_trim_stop(s: Seq<char>)
    requires
        s.len() == 0 || !is_whitespace(s[0]),
    ensures
        trim_start(s) == s,
{
}


// ---------------------------------------------------------------------------
// Paths and joins

/// Index of the last `c` in `s`, or -1.
pub open spec fn last_index_of(s: Seq<char>, c: char) -> int
    decreases s.len(),
{
    if s.len() == 0 {
        -1
    } else if s.last() == c {
        s.len() - 1
    } else {
        last_index_of(s.drop_last(), c)
    }
}

pub proof fn lemma_last_index_of(s: Seq<char>, c: char)
    ensures
        -1 <= last_index_of(s, c) < s.len(),
        last_index_of(s, c) >= 0 ==> s[last_index_of(s, c)] == c,
        forall|j: int| last_index_of(s, c) < j < s.len() ==> s[j] != c,
    decreases s.len(),
{
    if s.len() > 0 && s.last() != c {
        lemma_last_index_of(s.drop_last(), c);
        assert forall|j: int| last_index_of(s, c) < j < s.len() implies s[j] != c by {
            if j < s.len() - 1 {
                assert(s.drop_last()[j] == s[j]);
            }
        }
    }
}

pub fn rfind_char(s: &[char], c: char) -> (r: Option<usize>)
    ensures
        r matches Some(i) ==> i == last_index_of(s@, c) && i < s.len(),
        r is None ==> last_index_of(s@, c) == -1,
{
    let mut i = s.len();
    assert(s@.subrange(0, i as int) =~= s@);
    while i > 0
        invariant
            i <= s@.len(),
            last_index_of(s@, c) == last_index_of(s@.subrange(0, i as int), c),
        decreases i,
    {
        assert(s@.subrange(0, i as int).drop_last() =~= s@.subrange(0, i - 1));
        if s[i - 1] == c {
            return Some(i - 1);
        }
        i = i - 1;
    }
    None
}

/// The part of a path after its last `/`.
pub open spec fn basename(path: Seq<char>) -> Seq<char> {
    path.subrange(last_index_of(path, '/') + 1, path.len() as int)
}

pub fn basename_of(path: &[char]) -> (r: Vec<char>)
    ensures
        r@ == basename(path@),
{
    proof { lemma_last_index_of(path@, '/'); }
    let start = match rfind_char(path, '/') {
        Some(i) => i + 1,
        None => 0,
    };
    slice_chars(path, start, path.len())
}

/// Copy of `v[lo..hi]`.
pub fn slice_chars(v: &[char], lo: usize, hi: usize) -> (r: Vec<char>)
    requires
        lo <= hi <= v@.len(),
    ensures
        r@ == v@.subrange(lo as int, hi as int),
{
    let mut r: Vec<char> = Vec::new();
    let mut i = lo;
    while i < hi
        invariant
            lo <= i <= hi <= v@.len(),
            r@ == v@.subrange(lo as int, i as int),
        decreases hi - i,
    {
        r.push(v[i]);
        assert(v@.subrange(lo as int, i + 1) =~= v@.subrange(lo as int, i as int).push(v@[i as int]));
        i = i + 1;
    }
    r
}

/// The extension that `Path::extension` gives for a single file name.
pub open spec fn extension(name: Seq<char>) -> Option<Seq<char>> {
    let i = last_index_of(name, '.');
    if name == seq!['.', '.'] || i <= 0 {
        None
    } else {
        Some(name.subrange(i + 1, name.len() as int))
    }
}

pub fn extension_of(name: &[char]) -> (r: Option<Vec<char>>)
    ensures
        r matches Some(v) ==> extension(name@) == Some(v@),
        r is None ==> extension(name@) is None,
{
    proof { lemma_last_index_of(name@, '.'); }
    if name.len() == 2 && name[0] == '.' && name[1] == '.' {
        assert(name@ =~= seq!['.', '.']);
        return None;
    }
    match rfind_char(name, '.') {
        Some(i) => {
            if i == 0 {
                None
            } else {
                Some(slice_chars(name, i + 1, name.len()))
            }
        },
        None => None,
    }
}

/// Backslashes turned into forward slashes.
pub open spec fn forward_slashes(s: Seq<char>) -> Seq<char> {
    s.map_values(|c: char| if c == '\\' { '/' } else { c })
}

pub fn to_forward_slashes(s: &[char]) -> (r: Vec<char>)
    ensures
        r@ == forward_slashes(s@),
{
    let mut r: Vec<char> = Vec::new();
    let mut i: usize = 0;
    while i < s.len()
        invariant
            i <= s@.len(),
            r@ == forward_slashes(s@.subrange(0, i as int)),
        decreases s.len() - i,
    {
        let c = if s[i] == '\\' { '/' } else { s[i] };
        r.push(c);
        assert(forward_slashes(s@.subrange(0, i + 1)) =~= forward_slashes(s@.subrange(0, i as int)).push(c));
        i = i + 1;
    }
    assert(s@.subrange(0, s@.len() as int) =~= s@);
    r
}

/// Items joined with a separator.
pub open spec fn join(items: Seq<Seq<char>>, sep: Seq<char>) -> Seq<char>
    decreases items.len(),
{
    if items.len() == 0 {
        Seq::empty()
    } else if items.len() == 1 {
        items[0]
    } else {
        join(items.drop_last(), sep) + sep + items.last()
    }
}

/// The views of a sequence of string slices.
pub open spec fn strs_view(v: Seq<&str>) -> Seq<Seq<char>> {
    v.map_values(|s: &str| s@)
}

/// Appends the items joined with a separator.
pub fn push_joined(out: &mut String, items: &[&str], sep: &str)
    ensures
        final(out)@ == old(out)@ + join(strs_view(items@), sep@),
{
    let ghost start = out@;
    let mut i: usize = 0;
    while i < items.len()
        invariant
            i <= items@.len(),
            out@ == start + join(strs_view(items@.subrange(0, i as int)), sep@),
        decreases items.len() - i,
    {
        let ghost before = out@;
        if i > 0 {
            push_str(out, sep);
        }
        push_str(out, items[i]);
        assert(strs_view(items@.subrange(0, i + 1)).drop_last() =~= strs_view(items@.subrange(0, i as int)));
        if i == 0 {
            assert(out@ =~= start + join(strs_view(items@.subrange(0, i + 1)), sep@));
        } else {
            assert(out@ =~= start + join(strs_view(items@.subrange(0, i + 1)), sep@));
        }
        i = i + 1;
    }
    assert(items@.subrange(0, items@.len() as int) =~= items@);
}


/// Is `v` one of the given strings.
pub fn is_one_of(v: &[char], options: &[&str]) -> (r: bool)
    ensures
        r == strs_view(options@).contains(v@),
{
    let mut i: usize = 0;
    while i < options.len()
        invariant
            i <= options@.len(),
            forall|j: int| 0 <= j < i ==> options@[j]@ != v@,
        decreases options.len() - i,
    {
        if chars_eq_str(v, options[i]) {
            assert(strs_view(options@)[i as int] == v@);
            return true;
        }
        i = i + 1;
    }
    assert(!strs_view(options@).contains(v@)) by {
        if strs_view(options@).contains(v@) {
            let j = choose|j: int| 0 <= j < strs_view(options@).len() && strs_view(options@)[j] == v@;
            assert(options@[j]@ == v@);
        }
    }
    false
}


// ---------------------------------------------------------------------------
// Occurrence counts and UTF-8 byte lengths

/// Number of positions before `n` at which `needle` occurs in `hay`.
pub open spec fn occurrences_before(hay: Seq<char>, needle: Seq<char>, n: int) -> nat
    decreases n,
{
    if n <= 0 {
        0
    } else {
        occurrences_before(hay, needle, n - 1) + if occurs_at(hay, needle, n - 1) { 1nat } else { 0nat }
    }
}

/// Number of positions at which `needle` occurs in `hay`.
pub open spec fn occurrences(hay: Seq<char>, needle: Seq<char>) -> nat {
    occurrences_before(hay, needle, hay.len() as int)
}

pub proof fn lemma_occurrences_bound(hay: Seq<char>, needle: Seq<char>, n: int)
    ensures
        occurrences_before(hay, needle, n) <= if n < 0 { 0 } else { n },
    decreases n,
{
    if n > 0 {
        lemma_occurrences_bound(hay, needle, n - 1);
    }
}

pub fn count_occurrences(hay: &[char], needle: &[char]) -> (r: usize)
    ensures
        r == occurrences(hay@, needle@),
{
    let mut count: usize = 0;
    let mut i: usize = 0;
    while i < hay.len()
        invariant
            i <= hay@.len(),
            count == occurrences_before(hay@, needle@, i as int),
        decreases hay.len() - i,
    {
        proof { lemma_occurrences_bound(hay@, needle@, i as int); }
        if chars_at(hay, needle, i) {
            count = count + 1;
        }
        i = i + 1;
    }
    count
}

/// UTF-8 byte length of the characters of `s`.
pub open spec fn utf8_len(s: Seq<char>) -> nat {
    encode_utf8(s).len()
}

pub proof fn lemma_encode_push(s: Seq<char>, c: char)
    ensures
        encode_utf8(s.push(c)) == encode_utf8(s) + encode_scalar(c as u32),
    decreases s.len(),
{
    if s.len() == 0 {
        assert(s.push(c).drop_first() =~= Seq::<char>::empty());
        assert(encode_utf8(Seq::<char>::empty()) == Seq::<u8>::empty());
        assert(encode_utf8(s.push(c)) =~= encode_scalar(c as u32));
    } else {
        lemma_encode_push(s.drop_first(), c);
        assert(s.push(c).drop_first() =~= s.drop_first().push(c));
        assert(encode_utf8(s.push(c)) =~= encode_utf8(s) + encode_scalar(c as u32));
    }
}

pub fn char_utf8_width(c: char) -> (r: usize)
    ensures
        r == encode_scalar(c as u32).len(),
{
    let u = c as u32;
    if u <= 0x7f {
        1
    } else if u <= 0x7ff {
        2
    } else if u <= 0xffff {
        proof { vstd::utf8::char_is_scalar(c); }
        3
    } else {
        4
    }
}

pub proof fn lemma_utf8_len_prefix(s: Seq<char>, i: int)
    requires
        0 <= i <= s.len(),
    ensures
        utf8_len(s.subrange(0, i)) <= utf8_len(s),
    decreases s.len() - i,
{
    if i < s.len() {
        lemma_utf8_len_prefix(s, i + 1);
        lemma_encode_push(s.subrange(0, i), s[i]);
        assert(s.subrange(0, i + 1) =~= s.subrange(0, i).push(s[i]));
    } else {
        assert(s.subrange(0, i) =~= s);
    }
}

/// UTF-8 byte length of `v[..n]`.
pub fn utf8_len_prefix(v: &[char], n: usize) -> (r: usize)
    requires
        n <= v@.len(),
        utf8_len(v@) <= usize::MAX,
    ensures
        r == utf8_len(v@.subrange(0, n as int)),
{
    let mut total: usize = 0;
    let mut i: usize = 0;
    assert(v@.subrange(0, 0) =~= Seq::<char>::empty());
    while i < n
        invariant
            i <= n <= v@.len(),
            utf8_len(v@) <= usize::MAX,
            total == utf8_len(v@.subrange(0, i as int)),
        decreases n - i,
    {
        proof {
            lemma_encode_push(v@.subrange(0, i as int), v@[i as int]);
            assert(v@.subrange(0, i + 1) =~= v@.subrange(0, i as int).push(v@[i as int]));
            lemma_utf8_len_prefix(v@, i + 1);
        }
        total = total + char_utf8_width(v[i]);
        i = i + 1;
    }
    total
}


/// The views of a sequence of character vectors.
pub open spec fn vecs_view(v: Seq<Vec<char>>) -> Seq<Seq<char>> {
    v.map_values(|x: Vec<char>| x@)
}

/// The items joined with a separator.
pub fn join_chars(items: &Vec<Vec<char>>, sep: &[char]) -> (r: Vec<char>)
    ensures
        r@ == join(vecs_view(items@), sep@),
{
    let mut out: Vec<char> = Vec::new();
    let mut i: usize = 0;
    while i < items.len()
        invariant
            i <= items@.len(),
            out@ == join(vecs_view(items@.subrange(0, i as int)), sep@),
        decreases items.len() - i,
    {
        if i > 0 {
            let mut k: usize = 0;
            let ghost base = out@;
            while k < sep.len()
                invariant
                    k <= sep@.len(),
                    out@ == base + sep@.subrange(0, k as int),
                decreases sep.len() - k,
            {
                out.push(sep[k]);
                assert(out@ =~= base + sep@.subrange(0, k + 1));
                k = k + 1;
            }
            assert(sep@.subrange(0, sep@.len() as int) =~= sep@);
        }
        let ghost mid = out@;
        let mut k: usize = 0;
        while k < items[i].len()
            invariant
                i < items@.len(),
                k <= items@[i as int]@.len(),
                out@ == mid + items@[i as int]@.subrange(0, k as int),
            decreases items@[i as int]@.len() - k,
        {
            out.push(items[i][k]);
            assert(out@ =~= mid + items@[i as int]@.subrange(0, k + 1));
            k = k + 1;
        }
        assert(items@[i as int]@.subrange(0, items@[i as int]@.len() as int) =~= items@[i as int]@);
        assert(vecs_view(items@.subrange(0, i + 1)).drop_last() =~= vecs_view(items@.subrange(0, i as int)));
        assert(out@ =~= join(vecs_view(items@.subrange(0, i + 1)), sep@));
        i = i + 1;
    }
    assert(items@.subrange(0, items@.len() as int) =~= items@);
    out
}

/// A copy of a character vector.
pub fn copy_chars(v: &[char]) -> (r: Vec<char>)
    ensures
        r@ == v@,
{
    let mut out: Vec<char> = Vec::new();
    let mut k: usize = 0;
    while k < v.len()
        invariant
            k <= v@.len(),
            out@ == v@.subrange(0, k as int),
        decreases v.len() - k,
    {
        out.push(v[k]);
        assert(out@ =~= v@.subrange(0, k + 1));
        k = k + 1;
    }
    assert(v@.subrange(0, v@.len() as int) =~= v@);
    out
}


/// `a` comes before `b` in the order of their characters' code points, the
/// order of `str`.
pub open spec fn seq_lt(a: Seq<char>, b: Seq<char>) -> bool
    decreases a.len(),
{
    if b.len() == 0 {
        false
    } else if a.len() == 0 {
        true
    } else if a[0] < b[0] {
        true
    } else if a[0] == b[0] {
        seq_lt(a.drop_first(), b.drop_first())
    } else {
        false
    }
}

/// Of two different strings one comes first.
pub proof fn lemma_seq_lt_total(a: Seq<char>, b: Seq<char>)
    requires
        a != b,
    ensures
        seq_lt(a, b) || seq_lt(b, a),
    decreases a.len(),
{
    if a.len() > 0 && b.len() > 0 && a[0] == b[0] {
        if a.drop_first() == b.drop_first() {
            assert(a =~= seq![a[0]] + a.drop_first());
            assert(b =~= seq![b[0]] + b.drop_first());
        }
        lemma_seq_lt_total(a.drop_first(), b.drop_first());
    } else if a.len() > 0 && b.len() > 0 {
    } else if a.len() == 0 && b.len() == 0 {
        assert(a =~= b);
    }
}

/// No string comes before itself.
pub proof fn lemma_seq_lt_irreflexive(a: Seq<char>)
    ensures
        !seq_lt(a, a),
    decreases a.len(),
{
    if a.len() > 0 {
        lemma_seq_lt_irreflexive(a.drop_first());
    }
}

/// The order of strings is transitive.
pub proof fn lemma_seq_lt_transitive(a: Seq<char>, b: Seq<char>, c: Seq<char>)
    requires
        seq_lt(a, b),
        seq_lt(b, c),
    ensures
        seq_lt(a, c),
    decreases a.len(),
{
    if a.len() > 0 && b.len() > 0 && c.len() > 0 && a[0] == b[0] && b[0] == c[0] {
        lemma_seq_lt_transitive(a.drop_first(), b.drop_first(), c.drop_first());
    }
}

/// Of two strings at most one comes before the other.
pub proof fn lemma_seq_lt_asymmetric(a: Seq<char>, b: Seq<char>)
    requires
        seq_lt(a, b),
    ensures
        !seq_lt(b, a),
    decreases a.len(),
{
    if a.len() > 0 && b.len() > 0 && a[0] == b[0] {
        lemma_seq_lt_asymmetric(a.drop_first(), b.drop_first());
    }
}

/// `a` comes before `b`.
pub fn chars_lt(a: &[char], b: &[char]) -> (r: bool)
    ensures
        r == seq_lt(a@, b@),
{
    let mut i: usize = 0;
    assert(a@.skip(0) =~= a@);
    assert(b@.skip(0) =~= b@);
    while i < a.len() && i < b.len() && a[i] == b[i]
        invariant
            i <= a@.len(),
            i <= b@.len(),
            seq_lt(a@, b@) == seq_lt(a@.skip(i as int), b@.skip(i as int)),
        decreases a.len() - i,
    {
        assert(a@.skip(i as int).drop_first() =~= a@.skip(i + 1));
        assert(b@.skip(i as int).drop_first() =~= b@.skip(i + 1));
        i = i + 1;
    }
    if i == b.len() {
        false
    } else if i == a.len() {
        true
    } else {
        a[i] < b[i]
    }
}


/// Each string comes before the next one.
pub open spec fn strictly_sorted(v: Seq<Seq<char>>) -> bool {
    forall|i: int| 0 <= i < v.len() - 1 ==> seq_lt(#[trigger] v[i], v[i + 1])
}

/// In a strictly sorted sequence every string comes before each later one.
pub proof fn lemma_strictly_sorted_ordered(v: Seq<Seq<char>>, i: int, j: int)
    requires
        strictly_sorted(v),
        0 <= i < j < v.len(),
    ensures
        seq_lt(v[i], v[j]),
    decreases j - i,
{
    if j > i + 1 {
        lemma_strictly_sorted_ordered(v, i, j - 1);
        assert(seq_lt(v[j - 1], v[j]));
        lemma_seq_lt_transitive(v[i], v[j - 1], v[j]);
    }
}

/// Two strictly sorted sequences with the same strings are equal.
pub proof fn lemma_strictly_sorted_unique(a: Seq<Seq<char>>, b: Seq<Seq<char>>)
    requires
        strictly_sorted(a),
        strictly_sorted(b),
        forall|x: Seq<char>| a.contains(x) <==> b.contains(x),
    ensures
        a == b,
    decreases a.len(),
{
    if a.len() == 0 {
        if b.len() > 0 {
            assert(b.contains(b[0]));
        }
        assert(a =~= b);
    } else {
        assert(a.contains(a[0]));
        let k = choose|k: int| 0 <= k < b.len() && b[k] == a[0];
        assert(b.contains(b[0]));
        let m = choose|m: int| 0 <= m < a.len() && a[m] == b[0];
        if k > 0 {
            lemma_strictly_sorted_ordered(b, 0, k);
            if m > 0 {
                lemma_strictly_sorted_ordered(a, 0, m);
                lemma_seq_lt_asymmetric(a[0], a[m]);
            } else {
                lemma_seq_lt_irreflexive(b[0]);
            }
        }
        assert(b[0] == a[0]);
        let a1 = a.drop_first();
        let b1 = b.drop_first();
        assert(strictly_sorted(a1)) by {
            assert forall|i: int| 0 <= i < a1.len() - 1 implies seq_lt(#[trigger] a1[i], a1[i + 1]) by {
                assert(a1[i] == a[i + 1] && a1[i + 1] == a[i + 2]);
            }
        }
        assert(strictly_sorted(b1)) by {
            assert forall|i: int| 0 <= i < b1.len() - 1 implies seq_lt(#[trigger] b1[i], b1[i + 1]) by {
                assert(b1[i] == b[i + 1] && b1[i + 1] == b[i + 2]);
            }
        }
        assert forall|x: Seq<char>| a1.contains(x) implies b1.contains(x) by {
            let i = choose|i: int| 0 <= i < a1.len() && a1[i] == x;
            assert(a[i + 1] == x);
            lemma_strictly_sorted_ordered(a, 0, i + 1);
            lemma_seq_lt_irreflexive(x);
            assert(a.contains(x));
            assert(b.contains(x));
            let j = choose|j: int| 0 <= j < b.len() && b[j] == x;
            assert(j != 0);
            assert(b1[j - 1] == x);
        }
        assert forall|x: Seq<char>| b1.contains(x) implies a1.contains(x) by {
            let i = choose|i: int| 0 <= i < b1.len() && b1[i] == x;
            assert(b[i + 1] == x);
            lemma_strictly_sorted_ordered(b, 0, i + 1);
            lemma_seq_lt_irreflexive(x);
            assert(b.contains(x));
            assert(a.contains(x));
            let j = choose|j: int| 0 <= j < a.len() && a[j] == x;
            assert(j != 0);
            assert(a1[j - 1] == x);
        }
        lemma_strictly_sorted_unique(a1, b1);
        assert(a =~= seq![a[0]] + a1);
        assert(b =~= seq![b[0]] + b1);
    }
}

/// The strings, sorted and without repeats, as `sort` then `dedup` leave them.
#[verifier::spinoff_prover]
#[verifier::rlimit(40)]
pub fn sorted_unique(v: &Vec<String>) -> (r: Vec<String>)
    ensures
        strictly_sorted(crate::model::strings_view(r@)),
        forall|x: Seq<char>| crate::model::strings_view(r@).contains(x) <==> crate::model::strings_view(v@).contains(x),
{
    let mut out: Vec<String> = Vec::new();
    let mut i: usize = 0;
    while i < v.len()
        invariant
            i <= v@.len(),
            strictly_sorted(crate::model::strings_view(out@)),
            forall|x: Seq<char>| crate::model::strings_view(out@).contains(x)
                <==> crate::model::strings_view(v@.subrange(0, i as int)).contains(x),
        decreases v.len() - i,
    {
        let ghost ov = crate::model::strings_view(out@);
        let x = chars_of(v[i].as_str());
        let mut p: usize = 0;
        while p < out.len() && chars_lt(&chars_of(out[p].as_str()), &x)
            invariant
                p <= out@.len(),
                ov == crate::model::strings_view(out@),
                p > 0 ==> seq_lt(ov[p - 1], x@),
            decreases out.len() - p,
        {
            p = p + 1;
        }
        let present = p < out.len() && eq_chars(&chars_of(out[p].as_str()), &x);
        let ghost prefix = crate::model::strings_view(v@.subrange(0, i as int));
        assert(crate::model::strings_view(v@.subrange(0, i + 1)) =~= prefix.push(x@));
        if !present {
            proof {
                if p < out@.len() {
                    assert(!seq_lt(ov[p as int], x@));
                    lemma_seq_lt_total(ov[p as int], x@);
                }
            }
            out.insert(p, v[i].clone());
            let ghost nv = crate::model::strings_view(out@);
            assert(nv =~= ov.insert(p as int, x@));
            assert forall|k: int| 0 <= k < nv.len() - 1 implies seq_lt(#[trigger] nv[k], nv[k + 1]) by {
                if k < p - 1 {
                    assert(nv[k] == ov[k] && nv[k + 1] == ov[k + 1]);
                } else if k == p - 1 {
                } else if k == p {
                } else {
                    assert(nv[k] == ov[k - 1] && nv[k + 1] == ov[k]);
                }
            }
            assert forall|y: Seq<char>| nv.contains(y) <==> prefix.push(x@).contains(y) by {
                if nv.contains(y) {
                    let k = choose|k: int| 0 <= k < nv.len() && nv[k] == y;
                    if k < p {
                        assert(ov[k] == y);
                        assert(ov.contains(y));
                    } else if k > p {
                        assert(ov[k - 1] == y);
                        assert(ov.contains(y));
                    }
                    if y != x@ {
                        assert(prefix.contains(y));
                        let w = choose|w: int| 0 <= w < prefix.len() && prefix[w] == y;
                        assert(prefix.push(x@)[w] == y);
                    } else {
                        assert(prefix.push(x@)[prefix.len() as int] == y);
                    }
                }
                if prefix.push(x@).contains(y) {
                    let w = choose|w: int| 0 <= w < prefix.len() + 1 && prefix.push(x@)[w] == y;
                    if w == prefix.len() {
                        assert(nv[p as int] == y);
                    } else {
                        assert(prefix[w] == y);
                        assert(prefix.contains(y));
                        assert(ov.contains(y));
                        let k = choose|k: int| 0 <= k < ov.len() && ov[k] == y;
                        if k < p {
                            assert(nv[k] == y);
                        } else {
                            assert(nv[k + 1] == y);
                        }
                    }
                }
            }
        } else {
            assert forall|y: Seq<char>| ov.contains(y) <==> prefix.push(x@).contains(y) by {
                if ov.contains(y) {
                    let w = choose|w: int| 0 <= w < prefix.len() && prefix[w] == y;
                    assert(prefix.push(x@)[w] == y);
                }
                if prefix.push(x@).contains(y) {
                    let w = choose|w: int| 0 <= w < prefix.len() + 1 && prefix.push(x@)[w] == y;
                    if w == prefix.len() {
                        assert(ov[p as int] == y);
                    } else {
                        assert(prefix[w] == y);
                        assert(prefix.contains(y));
                    }
                }
            }
        }
        i = i + 1;
    }
    assert(v@.subrange(0, v@.len() as int) =~= v@);
    out
}


/// The two byte sequences are equal.
pub fn bytes_equal(a: &[u8], b: &[u8]) -> (r: bool)
    ensures
        r == (a@ == b@),
{
    if a.len() != b.len() {
        return false;
    }
    let mut i: usize = 0;
    while i < a.len()
        invariant
            i <= a@.len(),
            a@.len() == b@.len(),
            forall|j: int| 0 <= j < i ==> a@[j] == b@[j],
        decreases a.len() - i,
    {
        if a[i] != b[i] {
            return false;
        }
        i = i + 1;
    }
    assert(a@ =~= b@);
    true
}


/// Copy of `v[lo..hi]`.
pub fn byte_range(v: &[u8], lo: usize, hi: usize) -> (r: Vec<u8>)
    requires
        lo <= hi <= v@.len(),
    ensures
        r@ == v@.subrange(lo as int, hi as int),
{
    let mut r: Vec<u8> = Vec::new();
    let mut i = lo;
    while i < hi
        invariant
            lo <= i <= hi <= v@.len(),
            r@ == v@.subrange(lo as int, i as int),
        decreases hi - i,
    {
        r.push(v[i]);
        assert(v@.subrange(lo as int, i + 1) =~= v@.subrange(lo as int, i as int).push(v@[i as int]));
        i = i + 1;
    }
    r
}

/// A copy of the strings.
pub fn clone_strings(v: &Vec<String>) -> (r: Vec<String>)
    ensures
        r@ == v@,
{
    let mut out: Vec<String> = Vec::new();
    let mut i: usize = 0;
    while i < v.len()
        invariant
            i <= v@.len(),
            out@ == v@.subrange(0, i as int),
        decreases v.len() - i,
    {
        out.push(v[i].clone());
        assert(out@ =~= v@.subrange(0, i + 1));
        i = i + 1;
    }
    assert(v@.subrange(0, v@.len() as int) =~= v@);
    out
}



/// The UTF-8 encoding of the characters is at most `maximum` bytes long.
pub fn utf8_len_within(v: &[char], maximum: usize) -> (r: bool)
    ensures
        r == (utf8_len(v@) <= maximum),
{
    let mut total: usize = 0;
    let mut i: usize = 0;
    assert(v@.subrange(0, 0) =~= Seq::<char>::empty());
    while i < v.len()
        invariant
            i <= v@.len(),
            total <= maximum,
            total == utf8_len(v@.subrange(0, i as int)),
        decreases v.len() - i,
    {
        proof {
            lemma_encode_push(v@.subrange(0, i as int), v@[i as int]);
            assert(v@.subrange(0, i + 1) =~= v@.subrange(0, i as int).push(v@[i as int]));
        }
        let w = char_utf8_width(v[i]);
        if w > maximum - total {
            proof { lemma_utf8_len_prefix(v@, i + 1); }
            return false;
        }
        total = total + w;
        i = i + 1;
    }
    assert(v@.subrange(0, v@.len() as int) =~= v@);
    true
}


/// `text` without its trailing Unicode whitespace.
pub open spec fn trim_end(s: Seq<char>) -> Seq<char>
    decreases s.len(),
{
    if s.len() > 0 && is_whitespace(s.last()) {
        trim_end(s.drop_last())
    } else {
        s
    }
}

/// `text` without leading and trailing Unicode whitespace, as `str::trim` leaves it.
pub open spec fn trimmed_whitespace(s: Seq<char>) -> Seq<char> {
    trim_end(trim_start(s))
}

/// The characters without leading and trailing Unicode whitespace.
pub fn trim_whitespace_of(v: &[char]) -> (r: Vec<char>)
    ensures
        r@ == trimmed_whitespace(v@),
{
    let n = v.len();
    let lo = skip_whitespace(v, 0);
    assert(v@.subrange(0, n as int) =~= v@);
    let ghost front = v@.subrange(lo as int, n as int);
    let mut hi = n;
    assert(front.subrange(0, (hi - lo) as int) =~= front);
    while hi > lo && char_is_whitespace(v[hi - 1])
        invariant
            lo <= hi <= n == v@.len(),
            front == v@.subrange(lo as int, n as int),
            trim_end(front) == trim_end(front.subrange(0, (hi - lo) as int)),
        decreases hi - lo,
    {
        let ghost cur = front.subrange(0, (hi - lo) as int);
        assert(cur.last() == v@[hi - 1]);
        assert(cur.drop_last() =~= front.subrange(0, (hi - 1 - lo) as int));
        hi = hi - 1;
    }
    let ghost back = front.subrange(0, (hi - lo) as int);
    assert(back =~= v@.subrange(lo as int, hi as int));
    slice_chars(v, lo, hi)
}

} // verus!
