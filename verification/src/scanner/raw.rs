//! Byte- and text-level concealment and anti-analysis signals.
use vstd::prelude::*;
use vstd::string::*;
use vstd::utf8::encode_utf8;
use crate::model::{Confidence, Finding, FindingView, Severity, findings_view, strings_view};
use crate::text::{
    chars_contain_str, chars_of, char_is_control, char_is_whitespace, count_occurrences, decimal,
    find_bytes, is_ascii_alnum_char, is_ascii_hex_byte, is_ascii_digit_byte, is_control,
    is_whitespace, line_spans, lines, occurrences, occurs_at, owned, push_decimal, push_str,
    seq_contains, span_views, utf8_len, utf8_len_prefix, index_of, lemma_index_of_found,
    lemma_index_of_absent,
};

verus! {

/// What the raw analysis records for a file; the byte entropy is computed apart.
pub struct RawAnalysis {
    pub line_count: u64,
    pub max_line_length: u64,
    pub signals: Vec<String>,
    pub findings: Vec<Finding>,
}

// ---------------------------------------------------------------------------
// Line metrics

/// (lines begun, length of the current line, longest finished line) after `s`.
pub open spec fn metrics_state(s: Seq<u8>) -> (nat, nat, nat)
    decreases s.len(),
{
    if s.len() == 0 {
        (1, 0, 0)
    } else {
        let (l, c, m) = metrics_state(s.drop_last());
        if s.last() == 10 {
            (l + 1, 0, if c > m { c } else { m })
        } else {
            (l, c + 1, m)
        }
    }
}

/// Line count and longest line length, in bytes.
pub open spec fn line_metrics_spec(s: Seq<u8>) -> (nat, nat) {
    if s.len() == 0 {
        (0, 0)
    } else {
        let (l, c, m) = metrics_state(s);
        (if s.last() == 10 { (l - 1) as nat } else { l }, if c > m { c } else { m })
    }
}

proof fn lemma_metrics_bound(s: Seq<u8>)
    ensures
        metrics_state(s).0 <= s.len() + 1,
        metrics_state(s).1 <= s.len(),
        metrics_state(s).2 <= s.len(),
        metrics_state(s).0 >= 1,
    decreases s.len(),
{
    if s.len() > 0 {
        lemma_metrics_bound(s.drop_last());
    }
}

pub fn line_metrics(bytes: &[u8]) -> (r: (u64, u64))
    requires
        bytes@.len() < u64::MAX,
    ensures
        (r.0 as nat, r.1 as nat) == line_metrics_spec(bytes@),
{
    if bytes.len() == 0 {
        return (0, 0);
    }
    let mut lines: u64 = 1;
    let mut current: u64 = 0;
    let mut longest: u64 = 0;
    let mut i: usize = 0;
    while i < bytes.len()
        invariant
            bytes@.len() < u64::MAX,
            i <= bytes@.len(),
            (lines as nat, current as nat, longest as nat) == metrics_state(bytes@.subrange(0, i as int)),
        decreases bytes.len() - i,
    {
        proof {
            lemma_metrics_bound(bytes@.subrange(0, i as int));
            assert(bytes@.subrange(0, i + 1).drop_last() =~= bytes@.subrange(0, i as int));
        }
        if bytes[i] == 10 {
            lines = lines + 1;
            if current > longest {
                longest = current;
            }
            current = 0;
        } else {
            current = current + 1;
        }
        i = i + 1;
    }
    assert(bytes@.subrange(0, bytes@.len() as int) =~= bytes@);
    if bytes[bytes.len() - 1] == 10 {
        lines = lines - 1;
    }
    (lines, if current > longest { current } else { longest })
}

// ---------------------------------------------------------------------------
// Runs

/// The kinds of byte runs that are measured.
#[derive(Clone, Copy, PartialEq, Eq, Structural)]
pub enum RunClass {
    Horizontal,
    Base64,
    Hex,
}

pub open spec fn in_class(b: u8, class: RunClass) -> bool {
    match class {
        RunClass::Horizontal => b == 0x20 || b == 0x09,
        RunClass::Base64 => (48 <= b && b <= 57) || (65 <= b && b <= 90) || (97 <= b && b <= 122)
            || b == 43 || b == 47 || b == 61,
        RunClass::Hex => is_ascii_hex_byte(b),
    }
}

fn byte_in_class(b: u8, class: RunClass) -> (r: bool)
    ensures
        r == in_class(b, class),
{
    match class {
        RunClass::Horizontal => b == 0x20 || b == 0x09,
        RunClass::Base64 => (48 <= b && b <= 57) || (65 <= b && b <= 90) || (97 <= b && b <= 122)
            || b == 43 || b == 47 || b == 61,
        RunClass::Hex => (48 <= b && b <= 57) || (65 <= b && b <= 70) || (97 <= b && b <= 102),
    }
}

/// (current run, longest run) after `s`.
pub open spec fn run_state(s: Seq<u8>, class: RunClass) -> (nat, nat)
    decreases s.len(),
{
    if s.len() == 0 {
        (0, 0)
    } else {
        let (c, m) = run_state(s.drop_last(), class);
        if in_class(s.last(), class) {
            (c + 1, if c + 1 > m { (c + 1) as nat } else { m })
        } else {
            (0, m)
        }
    }
}

/// Length of the longest run of bytes in the class.
pub open spec fn longest_run(s: Seq<u8>, class: RunClass) -> nat {
    run_state(s, class).1
}

proof fn lemma_run_bound(s: Seq<u8>, class: RunClass)
    ensures
        run_state(s, class).0 <= run_state(s, class).1 <= s.len(),
    decreases s.len(),
{
    if s.len() > 0 {
        lemma_run_bound(s.drop_last(), class);
    }
}

pub fn longest_run_of(bytes: &[u8], class: RunClass) -> (r: usize)
    ensures
        r == longest_run(bytes@, class),
{
    let mut current: usize = 0;
    let mut longest: usize = 0;
    let mut i: usize = 0;
    while i < bytes.len()
        invariant
            i <= bytes@.len(),
            (current as nat, longest as nat) == run_state(bytes@.subrange(0, i as int), class),
        decreases bytes.len() - i,
    {
        proof {
            lemma_run_bound(bytes@.subrange(0, i as int), class);
            assert(bytes@.subrange(0, i + 1).drop_last() =~= bytes@.subrange(0, i as int));
        }
        if byte_in_class(bytes[i], class) {
            current = current + 1;
            if current > longest {
                longest = current;
            }
        } else {
            current = 0;
        }
        i = i + 1;
    }
    assert(bytes@.subrange(0, bytes@.len() as int) =~= bytes@);
    longest
}

/// The horizontal whitespace runs of a line, counted in characters (each is one byte).
pub open spec fn is_horizontal(c: char) -> bool {
    c == ' ' || c == '\t'
}

pub open spec fn hrun_state(s: Seq<char>) -> (nat, nat)
    decreases s.len(),
{
    if s.len() == 0 {
        (0, 0)
    } else {
        let (c, m) = hrun_state(s.drop_last());
        if is_horizontal(s.last()) {
            (c + 1, if c + 1 > m { (c + 1) as nat } else { m })
        } else {
            (0, m)
        }
    }
}

proof fn lemma_hrun_bound(s: Seq<char>)
    ensures
        hrun_state(s).0 <= hrun_state(s).1 <= s.len(),
    decreases s.len(),
{
    if s.len() > 0 {
        lemma_hrun_bound(s.drop_last());
    }
}

fn line_hrun(v: &[char], lo: usize, hi: usize) -> (r: usize)
    requires
        lo <= hi <= v@.len(),
    ensures
        r == hrun_state(v@.subrange(lo as int, hi as int)).1,
{
    let mut current: usize = 0;
    let mut longest: usize = 0;
    let mut i = lo;
    assert(v@.subrange(lo as int, lo as int) =~= Seq::<char>::empty());
    while i < hi
        invariant
            lo <= i <= hi <= v@.len(),
            (current as nat, longest as nat) == hrun_state(v@.subrange(lo as int, i as int)),
        decreases hi - i,
    {
        proof {
            lemma_hrun_bound(v@.subrange(lo as int, i as int));
            assert(v@.subrange(lo as int, i + 1).drop_last() =~= v@.subrange(lo as int, i as int));
        }
        if v[i] == ' ' || v[i] == '\t' {
            current = current + 1;
            if current > longest {
                longest = current;
            }
        } else {
            current = 0;
        }
        i = i + 1;
    }
    longest
}

/// The longest horizontal run over all lines, if there is a line.
pub open spec fn max_line_run(ls: Seq<Seq<char>>) -> Option<nat>
    decreases ls.len(),
{
    if ls.len() == 0 {
        None
    } else {
        let here = hrun_state(ls.last()).1;
        match max_line_run(ls.drop_last()) {
            None => Some(here),
            Some(m) => Some(if here > m { here } else { m }),
        }
    }
}

pub fn longest_horizontal_run(text: &[char]) -> (r: Option<usize>)
    ensures
        match r {
            Some(n) => max_line_run(lines(text@)) == Some(n as nat),
            None => max_line_run(lines(text@)) is None,
        },
{
    let spans = line_spans(text);
    let ghost ls = lines(text@);
    let mut best: Option<usize> = None;
    let mut k: usize = 0;
    assert(ls.subrange(0, 0) =~= Seq::<Seq<char>>::empty());
    while k < spans.len()
        invariant
            span_views(text@, spans@) == ls,
            ls == lines(text@),
            forall|q: int| 0 <= q < spans@.len() ==> (#[trigger] spans@[q]).0 <= spans@[q].1 <= text@.len(),
            k <= spans@.len(),
            match best {
                Some(n) => max_line_run(ls.subrange(0, k as int)) == Some(n as nat),
                None => max_line_run(ls.subrange(0, k as int)) is None,
            },
        decreases spans.len() - k,
    {
        let (a, b) = spans[k];
        let here = line_hrun(text, a, b);
        assert(ls.subrange(0, k + 1).drop_last() =~= ls.subrange(0, k as int));
        assert(ls.subrange(0, k + 1).last() == text@.subrange(a as int, b as int));
        best = match best {
            None => Some(here),
            Some(m) => Some(if here > m { here } else { m }),
        };
        k = k + 1;
    }
    assert(ls.subrange(0, spans@.len() as int) =~= ls);
    best
}

/// The scan state over a prefix of one line: (run, longest, hit).
pub open spec fn hidden_state(line: Seq<char>, threshold: nat) -> (nat, nat, Option<nat>)
    decreases line.len(),
{
    if line.len() == 0 {
        (0, 0, None)
    } else {
        let (run, longest, hit) = hidden_state(line.drop_last(), threshold);
        if hit is Some {
            (run, longest, hit)
        } else if is_horizontal(line.last()) {
            (run + 1, longest, None)
        } else if run >= threshold {
            (run, longest, Some(run))
        } else {
            (0, if run > longest { run } else { longest }, None)
        }
    }
}

/// The concealing run of one line, if it has one.
pub open spec fn hidden_in_line(line: Seq<char>, threshold: nat) -> Option<nat> {
    let (run, longest, hit) = hidden_state(line, threshold);
    if hit is Some {
        hit
    } else if longest >= threshold && run < threshold {
        Some(longest)
    } else {
        None
    }
}

/// The first line (numbered from 1) with a concealing run, and the run.
pub open spec fn hidden_after(ls: Seq<Seq<char>>, threshold: nat, k: int) -> Option<(u64, nat)>
    decreases ls.len() - k,
{
    if k < 0 || k >= ls.len() {
        None
    } else {
        match hidden_in_line(ls[k], threshold) {
            Some(run) => Some(((k + 1) as u64, run)),
            None => hidden_after(ls, threshold, k + 1),
        }
    }
}

proof fn lemma_hidden_bound(line: Seq<char>, threshold: nat)
    ensures
        hidden_state(line, threshold).0 <= line.len(),
        hidden_state(line, threshold).1 <= line.len(),
        hidden_state(line, threshold).2 matches Some(r) ==> r <= line.len(),
    decreases line.len(),
{
    if line.len() > 0 {
        lemma_hidden_bound(line.drop_last(), threshold);
    }
}

fn hidden_in_span(v: &[char], lo: usize, hi: usize, threshold: usize) -> (r: Option<usize>)
    requires
        lo <= hi <= v@.len(),
    ensures
        match r {
            Some(n) => hidden_in_line(v@.subrange(lo as int, hi as int), threshold as nat) == Some(n as nat),
            None => hidden_in_line(v@.subrange(lo as int, hi as int), threshold as nat) is None,
        },
{
    let ghost line = v@.subrange(lo as int, hi as int);
    let mut run: usize = 0;
    let mut longest: usize = 0;
    let mut i = lo;
    assert(v@.subrange(lo as int, lo as int) =~= Seq::<char>::empty());
    while i < hi
        invariant
            lo <= i <= hi <= v@.len(),
            line == v@.subrange(lo as int, hi as int),
            hidden_state(v@.subrange(lo as int, i as int), threshold as nat) == (run as nat, longest as nat, None::<nat>),
        decreases hi - i,
    {
        proof {
            lemma_hidden_bound(v@.subrange(lo as int, i as int), threshold as nat);
            assert(v@.subrange(lo as int, i + 1).drop_last() =~= v@.subrange(lo as int, i as int));
        }
        if v[i] == ' ' || v[i] == '\t' {
            run = run + 1;
        } else {
            if run >= threshold {
                proof {
                    assert(v@.subrange(lo as int, hi as int).subrange(0, (i + 1 - lo) as int) =~= v@.subrange(lo as int, i + 1));
                    assert(hidden_state(v@.subrange(lo as int, i + 1), threshold as nat).2 == Some(run as nat));
                    lemma_hidden_rest(v@.subrange(lo as int, hi as int), (i + 1 - lo) as int, threshold as nat);
                }
                return Some(run);
            }
            if run > longest {
                longest = run;
            }
            run = 0;
        }
        i = i + 1;
    }
    assert(v@.subrange(lo as int, hi as int) =~= v@.subrange(lo as int, i as int));
    if longest >= threshold && run < threshold {
        Some(longest)
    } else {
        None
    }
}

/// Once a hit is recorded, later characters do not change the state.
proof fn lemma_hidden_rest(line: Seq<char>, k: int, threshold: nat)
    requires
        0 <= k <= line.len(),
        hidden_state(line.subrange(0, k), threshold).2 is Some,
    ensures
        hidden_state(line, threshold) == hidden_state(line.subrange(0, k), threshold),
    decreases line.len() - k,
{
    if k < line.len() {
        assert(line.subrange(0, k + 1).drop_last() =~= line.subrange(0, k));
        lemma_hidden_rest(line, k + 1, threshold);
    } else {
        assert(line.subrange(0, k) =~= line);
    }
}

pub fn hidden_after_whitespace(text: &[char], threshold: usize) -> (r: Option<(u64, usize)>)
    ensures
        match r {
            Some((line, run)) => hidden_after(lines(text@), threshold as nat, 0) == Some((line, run as nat)),
            None => hidden_after(lines(text@), threshold as nat, 0) is None,
        },
{
    let spans = line_spans(text);
    let ghost ls = lines(text@);
    let mut k: usize = 0;
    while k < spans.len()
        invariant
            span_views(text@, spans@) == ls,
            ls == lines(text@),
            forall|q: int| 0 <= q < spans@.len() ==> (#[trigger] spans@[q]).0 <= spans@[q].1 <= text@.len(),
            k <= spans@.len(),
            hidden_after(ls, threshold as nat, 0) == hidden_after(ls, threshold as nat, k as int),
        decreases spans.len() - k,
    {
        let (a, b) = spans[k];
        assert(ls[k as int] == text@.subrange(a as int, b as int));
        match hidden_in_span(text, a, b, threshold) {
            Some(run) => {
                return Some((k as u64 + 1, run));
            },
            None => {},
        }
        k = k + 1;
    }
    None
}

// ---------------------------------------------------------------------------
// Content after an end-of-file marker

/// Byte offset of the first `marker` when some later character is neither
/// whitespace nor a control character.
pub open spec fn content_after(text: Seq<char>, marker: char) -> Option<nat> {
    let i = index_of(text, marker);
    if i < 0 {
        None
    } else if exists|j: int| i < j < text.len() && !is_whitespace(text[j]) && !is_control(text[j]) {
        Some(utf8_len(text.subrange(0, i)))
    } else {
        None
    }
}

pub fn content_after_marker(text: &[char], marker: char) -> (r: Option<usize>)
    requires
        utf8_len(text@) <= usize::MAX,
    ensures
        match r {
            Some(n) => content_after(text@, marker) == Some(n as nat),
            None => content_after(text@, marker) is None,
        },
{
    let mut i: usize = 0;
    while i < text.len() && text[i] != marker
        invariant
            i <= text@.len(),
            forall|j: int| 0 <= j < i ==> text@[j] != marker,
        decreases text.len() - i,
    {
        i = i + 1;
    }
    if i == text.len() {
        proof { lemma_index_of_absent(text@, marker); }
        return None;
    }
    proof { lemma_index_of_found(text@, marker, i as int); }
    let mut j = i + 1;
    while j < text.len()
        invariant
            i < j <= text@.len(),
            utf8_len(text@) <= usize::MAX,
            index_of(text@, marker) == i,
            forall|q: int| i < q < j ==> is_whitespace(text@[q]) || is_control(text@[q]),
        decreases text.len() - j,
    {
        if !char_is_whitespace(text[j]) && !char_is_control(text[j]) {
            return Some(utf8_len_prefix(text, i));
        }
        j = j + 1;
    }
    None
}

// ---------------------------------------------------------------------------
// Long timer delays

/// The value of a sequence of ASCII digits.
pub open spec fn digits_value(d: Seq<u8>) -> nat
    decreases d.len(),
{
    if d.len() == 0 {
        0
    } else {
        digits_value(d.drop_last()) * 10 + (d.last() - 48) as nat
    }
}

/// A maximal digit run `[s, e)` of the window `[w0, w1)` that parses as a
/// `u64` of at least four digits and at least 5000.
pub open spec fn delay_run(b: Seq<u8>, w0: int, w1: int, s: int, e: int) -> bool {
    &&& w0 <= s < e <= w1
    &&& forall|k: int| s <= k < e ==> is_ascii_digit_byte(b[k])
    &&& (s == w0 || !is_ascii_digit_byte(b[s - 1]))
    &&& (e == w1 || !is_ascii_digit_byte(b[e]))
    &&& e - s >= 4
    &&& digits_value(b.subrange(s, e)) <= u64::MAX
    &&& digits_value(b.subrange(s, e)) >= 5000
}

/// The 128 bytes after an occurrence of `name` at `o` hold a long delay.
pub open spec fn delay_after(b: Seq<u8>, name: Seq<u8>, o: int) -> bool {
    exists|s: int, e: int| #[trigger] delay_run(b, o + name.len(), window_end(b, o + name.len()), s, e)
}

/// The end of the 128-byte window that starts at `w0`.
pub open spec fn window_end(b: Seq<u8>, w0: int) -> int {
    if w0 + 128 < b.len() { w0 + 128 } else { b.len() as int }
}

/// Some occurrence of `name` is followed by a long delay.
pub open spec fn named_delay(b: Seq<u8>, name: Seq<u8>) -> bool {
    exists|o: int| occurs_at(b, name, o) && delay_after(b, name, o)
}

pub open spec fn has_long_delay_spec(b: Seq<u8>) -> bool {
    named_delay(b, encode_utf8("setTimeout"@)) || named_delay(b, encode_utf8("setInterval"@))
}

proof fn lemma_digits_push(d: Seq<u8>, x: u8)
    ensures
        digits_value(d.push(x)) == digits_value(d) * 10 + (x - 48) as nat,
{
    assert(d.push(x).drop_last() =~= d);
}

proof fn lemma_digits_monotone(d: Seq<u8>, k: int)
    requires
        0 <= k <= d.len(),
        forall|q: int| 0 <= q < d.len() ==> is_ascii_digit_byte(d[q]),
    ensures
        digits_value(d.subrange(0, k)) <= digits_value(d),
    decreases d.len() - k,
{
    if k < d.len() {
        lemma_digits_monotone(d, k + 1);
        lemma_digits_push(d.subrange(0, k), d[k]);
        assert(d.subrange(0, k + 1) =~= d.subrange(0, k).push(d[k]));
    } else {
        assert(d.subrange(0, k) =~= d);
    }
}

/// Scans the window after one occurrence for a long delay.
fn delay_in_window(b: &[u8], w0: usize, w1: usize) -> (r: bool)
    requires
        w0 <= w1 <= b@.len(),
    ensures
        r == exists|s: int, e: int| delay_run(b@, w0 as int, w1 as int, s, e),
{
    let mut cursor = w0;
    while cursor < w1
        invariant
            w0 <= cursor <= w1 <= b@.len(),
            cursor == w0 || cursor == w1 || !is_ascii_digit_byte(b@[cursor - 1]) || !is_ascii_digit_byte(b@[cursor as int]),
            forall|s: int, e: int| w0 <= s < cursor ==> !delay_run(b@, w0 as int, w1 as int, s, e),
        decreases w1 - cursor,
    {
        if !(b[cursor] >= 48 && b[cursor] <= 57) {
            cursor = cursor + 1;
            continue;
        }
        let start = cursor;
        let mut value: u64 = 0;
        let mut overflow = false;
        while cursor < w1 && b[cursor] >= 48 && b[cursor] <= 57
            invariant
                w0 <= start <= cursor <= w1 <= b@.len(),
                forall|k: int| start <= k < cursor ==> is_ascii_digit_byte(b@[k]),
                !overflow ==> value as nat == digits_value(b@.subrange(start as int, cursor as int)),
                overflow ==> digits_value(b@.subrange(start as int, cursor as int)) > u64::MAX,
            decreases w1 - cursor,
        {
            proof {
                lemma_digits_push(b@.subrange(start as int, cursor as int), b@[cursor as int]);
                assert(b@.subrange(start as int, cursor + 1) =~= b@.subrange(start as int, cursor as int).push(b@[cursor as int]));
            }
            if !overflow {
                let d = (b[cursor] - 48) as u64;
                if value > (u64::MAX - d) / 10 {
                    overflow = true;
                    assert(value * 10 + d > u64::MAX) by (nonlinear_arith)
                        requires value > (u64::MAX - d) / 10, d < 10;
                } else {
                    assert(value * 10 + d <= u64::MAX) by (nonlinear_arith)
                        requires value <= (u64::MAX - d) / 10, d < 10;
                    value = value * 10 + d;
                }
            }
            cursor = cursor + 1;
        }
        let hit = cursor - start >= 4 && !overflow && value >= 5000;
        if hit {
            assert(delay_run(b@, w0 as int, w1 as int, start as int, cursor as int));
            return true;
        }
        proof {
            assert forall|s: int, e: int| w0 <= s < cursor implies !delay_run(b@, w0 as int, w1 as int, s, e) by {
                if s >= start && delay_run(b@, w0 as int, w1 as int, s, e) {
                    if s > start {
                        assert(is_ascii_digit_byte(b@[s - 1]));
                    }
                    assert(s == start);
                    if e < cursor {
                        assert(is_ascii_digit_byte(b@[e]));
                    }
                    if e > cursor {
                        assert(!is_ascii_digit_byte(b@[cursor as int]));
                    }
                    assert(e == cursor);
                }
            }
        }
    }
    false
}

fn named_delay_in(b: &[u8], name: &[u8]) -> (r: bool)
    ensures
        r == named_delay(b@, name@),
{
    let mut pos: usize = 0;
    loop
        invariant
            pos <= b@.len() + 1,
            forall|o: int| 0 <= o < pos && occurs_at(b@, name@, o) ==> !delay_after(b@, name@, o),
        decreases b@.len() + 1 - pos,
    {
        match find_bytes(b, name, pos) {
            None => {
                proof {
                    assert forall|o: int| occurs_at(b@, name@, o) implies !delay_after(b@, name@, o) by {
                        if o >= pos {
                        }
                    }
                }
                return false;
            },
            Some(o) => {
                let n = name.len();
                let blen = b.len();
                assert(o + n <= blen);
                let w0 = o + n;
                let w1 = if blen - w0 > 128 { w0 + 128 } else { blen };
                if delay_in_window(b, w0, w1) {
                    proof {
                        let (s0, e0) = choose|s: int, e: int| delay_run(b@, w0 as int, w1 as int, s, e);
                        assert(window_end(b@, o + name@.len()) == w1 as int);
                        assert(delay_run(b@, o + name@.len(), window_end(b@, o + name@.len()), s0, e0));
                    }
                    assert(delay_after(b@, name@, o as int));
                    assert(occurs_at(b@, name@, o as int));
                    return true;
                }
                if o == blen {
                    proof {
                        assert forall|q: int| occurs_at(b@, name@, q) implies !delay_after(b@, name@, q) by {
                            if q >= pos && q != o {
                                assert(q < o);
                            }
                        }
                    }
                    return false;
                }
                pos = o + 1;
            },
        }
    }
}

pub fn has_long_delay(text: &str) -> (r: bool)
    ensures
        r == has_long_delay_spec(text.spec_bytes()),
{
    let b = text.as_bytes();
    named_delay_in(b, "setTimeout".as_bytes()) || named_delay_in(b, "setInterval".as_bytes())
}


// ---------------------------------------------------------------------------
// Tokens

/// Separator classes used to split text into tokens.
#[derive(Clone, Copy, PartialEq, Eq, Structural)]
pub enum Split {
    /// Split on every character that is neither an ASCII digit nor a dot.
    NotDigitOrDot,
    /// Split on every character that is not ASCII alphanumeric.
    NotAlphanumeric,
    /// Split on dots.
    Dot,
    /// Split on forward slashes.
    Slash,
    /// Split on ASCII whitespace.
    AsciiWhitespace,
}

pub open spec fn is_separator(c: char, split: Split) -> bool {
    match split {
        Split::NotDigitOrDot => !(('0' <= c && c <= '9') || c == '.'),
        Split::NotAlphanumeric => !is_ascii_alnum_char(c),
        Split::Dot => c == '.',
        Split::Slash => c == '/',
        Split::AsciiWhitespace => c == ' ' || c == '\t' || c == '\n' || c == '\x0C' || c == '\r',
    }
}

fn separator(c: char, split: Split) -> (r: bool)
    ensures
        r == is_separator(c, split),
{
    match split {
        Split::NotDigitOrDot => !(('0' <= c && c <= '9') || c == '.'),
        Split::NotAlphanumeric => !(('0' <= c && c <= '9') || ('A' <= c && c <= 'Z') || ('a' <= c && c <= 'z')),
        Split::Dot => c == '.',
        Split::Slash => c == '/',
        Split::AsciiWhitespace => c == ' ' || c == '\t' || c == '\n' || c == '\x0C' || c == '\r',
    }
}

/// Index of the first separator in `s`, or -1.
pub open spec fn separator_index(s: Seq<char>, split: Split) -> int
    decreases s.len(),
{
    if s.len() == 0 {
        -1
    } else if is_separator(s[0], split) {
        0
    } else if separator_index(s.drop_first(), split) < 0 {
        -1
    } else {
        separator_index(s.drop_first(), split) + 1
    }
}

proof fn lemma_separator_index(s: Seq<char>, split: Split, i: int)
    requires
        0 <= i <= s.len(),
        forall|j: int| 0 <= j < i ==> !is_separator(s[j], split),
    ensures
        i < s.len() && is_separator(s[i], split) ==> separator_index(s, split) == i,
        i == s.len() ==> separator_index(s, split) == -1,
        -1 <= separator_index(s, split) < s.len(),
    decreases s.len(),
{
    if s.len() > 0 && !is_separator(s[0], split) {
        if i > 0 {
            lemma_separator_index(s.drop_first(), split, i - 1);
        } else {
            lemma_separator_index(s.drop_first(), split, 0);
        }
    }
}

pub proof fn lemma_separator_index_range(s: Seq<char>, split: Split)
    ensures
        -1 <= separator_index(s, split) < s.len(),
    decreases s.len(),
{
    if s.len() > 0 {
        lemma_separator_index_range(s.drop_first(), split);
    }
}

/// The pieces between separators, as `str::split` yields them.
pub open spec fn tokens(s: Seq<char>, split: Split) -> Seq<Seq<char>>
    decreases s.len(),
{
    let i = separator_index(s, split);
    if i < 0 {
        seq![s]
    } else {
        proof {
            lemma_separator_index_range(s, split);
        }
        seq![s.subrange(0, i)] + tokens(s.subrange(i + 1, s.len() as int), split)
    }
}

/// The spans of the tokens of `text`.
pub(crate) fn token_spans(text: &[char], split: Split) -> (r: Vec<(usize, usize)>)
    ensures
        forall|k: int| 0 <= k < r@.len() ==> (#[trigger] r@[k]).0 <= r@[k].1 <= text@.len(),
        span_views(text@, r@) == tokens(text@, split),
{
    let mut r: Vec<(usize, usize)> = Vec::new();
    let mut pos: usize = 0;
    let n = text.len();
    assert(text@.subrange(0, n as int) =~= text@);
    assert(span_views(text@, r@) =~= Seq::<Seq<char>>::empty());
    assert(tokens(text@, split) =~= span_views(text@, r@) + tokens(text@.subrange(pos as int, n as int), split));
    loop
        invariant
            n == text@.len(),
            pos <= n,
            forall|k: int| 0 <= k < r@.len() ==> (#[trigger] r@[k]).0 <= r@[k].1 <= text@.len(),
            tokens(text@, split) == span_views(text@, r@) + tokens(text@.subrange(pos as int, n as int), split),
        decreases n - pos,
    {
        let ghost rest = text@.subrange(pos as int, n as int);
        let mut j = pos;
        while j < n && !separator(text[j], split)
            invariant
                pos <= j <= n,
                n == text@.len(),
                forall|k: int| pos <= k < j ==> !is_separator(text@[k], split),
            decreases n - j,
        {
            j = j + 1;
        }
        let ghost old_r = r@;
        proof {
            assert forall|k: int| 0 <= k < j - pos implies !is_separator(rest[k], split) by {
                assert(rest[k] == text@[pos + k]);
            }
            lemma_separator_index(rest, split, j - pos);
        }
        r.push((pos, j));
        assert(span_views(text@, r@) =~= span_views(text@, old_r).push(text@.subrange(pos as int, j as int)));
        if j == n {
            assert(rest =~= text@.subrange(pos as int, j as int));
            assert(tokens(rest, split) == seq![rest]);
            assert(tokens(text@, split) =~= span_views(text@, r@));
            return r;
        }
        assert(rest.subrange(0, j - pos) =~= text@.subrange(pos as int, j as int));
        assert(rest.subrange(j - pos + 1, rest.len() as int) =~= text@.subrange(j + 1, n as int));
        assert(tokens(text@, split) =~= span_views(text@, r@) + tokens(text@.subrange(j + 1, n as int), split));
        pos = j + 1;
    }
}

/// `str::parse::<u8>` succeeds: an optional `+`, then one or more digits, at most 255.
pub open spec fn parses_u8(p: Seq<char>) -> bool {
    unsigned_digits(p).len() > 0 && all_digits(unsigned_digits(p)) && char_digits_value(unsigned_digits(p)) <= 255
}

/// The digits of an unsigned integer literal after its optional `+`.
pub open spec fn unsigned_digits(p: Seq<char>) -> Seq<char> {
    if p.len() > 0 && p[0] == '+' { p.drop_first() } else { p }
}

pub open spec fn all_digits(d: Seq<char>) -> bool {
    forall|k: int| 0 <= k < d.len() ==> '0' <= #[trigger] d[k] && d[k] <= '9'
}

pub open spec fn char_digits_value(d: Seq<char>) -> nat
    decreases d.len(),
{
    if d.len() == 0 {
        0
    } else {
        char_digits_value(d.drop_last()) * 10 + ((d.last() as u32) - 48) as nat
    }
}

fn parses_as_u8(v: &[char], lo: usize, hi: usize) -> (r: bool)
    requires
        lo <= hi <= v@.len(),
    ensures
        r == parses_u8(v@.subrange(lo as int, hi as int)),
{
    let ghost p = v@.subrange(lo as int, hi as int);
    let mut start = lo;
    if hi > lo && v[lo] == '+' {
        start = lo + 1;
    }
    let ghost d = v@.subrange(start as int, hi as int);
    assert(d =~= unsigned_digits(p));
    if start == hi {
        return false;
    }
    let mut value: u32 = 0;
    let mut i = start;
    assert(v@.subrange(start as int, start as int) =~= Seq::<char>::empty());
    while i < hi
        invariant
            lo <= start < hi <= v@.len(),
            start <= i <= hi,
            d == v@.subrange(start as int, hi as int),
            p == v@.subrange(lo as int, hi as int),
            d == unsigned_digits(p),
            forall|k: int| start <= k < i ==> '0' <= v@[k] && v@[k] <= '9',
            value as nat == char_digits_value(v@.subrange(start as int, i as int)),
            value <= 255,
        decreases hi - i,
    {
        let c = v[i];
        if !('0' <= c && c <= '9') {
            proof {
                let k0 = (i - start) as int;
                assert(d[k0] == c);
                assert(0 <= k0 < d.len() && !('0' <= d[k0] && d[k0] <= '9'));
                assert(!all_digits(d));
            }
            return false;
        }
        assert(v@.subrange(start as int, i + 1).drop_last() =~= v@.subrange(start as int, i as int));
        let next = value * 10 + ((c as u32) - 48);
        if next > 255 {
            proof {
                lemma_char_digits_monotone(d, (i + 1 - start) as int);
                assert(d.subrange(0, (i + 1 - start) as int) =~= v@.subrange(start as int, i + 1));
                assert(char_digits_value(v@.subrange(start as int, i + 1)) == next as nat);
                if all_digits(d) {
                    assert(char_digits_value(d) > 255);
                }
            }
            assert(!parses_u8(p));
            return false;
        }
        value = next;
        i = i + 1;
    }
    assert(d =~= v@.subrange(start as int, i as int));
    true
}

proof fn lemma_char_digits_monotone(d: Seq<char>, k: int)
    requires
        0 <= k <= d.len(),
    ensures
        all_digits(d) ==> char_digits_value(d.subrange(0, k)) <= char_digits_value(d),
    decreases d.len() - k,
{
    if k < d.len() {
        lemma_char_digits_monotone(d, k + 1);
        assert(d.subrange(0, k + 1).drop_last() =~= d.subrange(0, k));
    } else {
        assert(d.subrange(0, k) =~= d);
    }
}

/// Four non-empty dot-separated parts that each parse as a `u8`.
pub open spec fn looks_like_ipv4(value: Seq<char>) -> bool {
    let parts = tokens(value, Split::Dot);
    parts.len() == 4 && forall|k: int| 0 <= k < 4 ==> parts[k].len() > 0 && parses_u8(parts[k])
}

fn ipv4_at(v: &[char], lo: usize, hi: usize) -> (r: bool)
    requires
        lo <= hi <= v@.len(),
    ensures
        r == looks_like_ipv4(v@.subrange(lo as int, hi as int)),
{
    let token = crate::text::slice_chars(v, lo, hi);
    let parts = token_spans(token.as_slice(), Split::Dot);
    assert(span_views(token@, parts@).len() == parts@.len());
    if parts.len() != 4 {
        return false;
    }
    let mut k: usize = 0;
    while k < 4
        invariant
            parts@.len() == 4,
            k <= 4,
            token@ == v@.subrange(lo as int, hi as int),
            span_views(token@, parts@) == tokens(token@, Split::Dot),
            forall|q: int| 0 <= q < parts@.len() ==> (#[trigger] parts@[q]).0 <= parts@[q].1 <= token@.len(),
            forall|q: int| 0 <= q < k ==> tokens(token@, Split::Dot)[q].len() > 0 && parses_u8(tokens(token@, Split::Dot)[q]),
        decreases 4 - k,
    {
        let (a, b) = parts[k];
        assert(tokens(token@, Split::Dot)[k as int] == token@.subrange(a as int, b as int));
        if a == b || !parses_as_u8(token.as_slice(), a, b) {
            assert(!(tokens(token@, Split::Dot)[k as int].len() > 0 && parses_u8(tokens(token@, Split::Dot)[k as int])));
            return false;
        }
        k = k + 1;
    }
    true
}

/// Forty ASCII hexadecimal digits.
pub open spec fn looks_like_wallet(value: Seq<char>) -> bool {
    value.len() == 40 && forall|k: int| 0 <= k < 40 ==> crate::text::is_ascii_hex_char(value[k])
}

fn wallet_at(v: &[char], lo: usize, hi: usize) -> (r: bool)
    requires
        lo <= hi <= v@.len(),
    ensures
        r == looks_like_wallet(v@.subrange(lo as int, hi as int)),
{
    if hi - lo != 40 {
        return false;
    }
    let mut i = lo;
    while i < hi
        invariant
            lo <= i <= hi <= v@.len(),
            hi - lo == 40,
            forall|k: int| lo <= k < i ==> crate::text::is_ascii_hex_char(v@[k]),
        decreases hi - i,
    {
        let c = v[i];
        if !(('0' <= c && c <= '9') || ('A' <= c && c <= 'F') || ('a' <= c && c <= 'f')) {
            assert(v@.subrange(lo as int, hi as int)[i - lo] == c);
            return false;
        }
        i = i + 1;
    }
    true
}

/// How many tokens satisfy the kind's shape test.
pub open spec fn shaped_count(ts: Seq<Seq<char>>, split: Split) -> nat
    decreases ts.len(),
{
    if ts.len() == 0 {
        0
    } else {
        shaped_count(ts.drop_last(), split) + if (if split == Split::NotDigitOrDot {
            looks_like_ipv4(ts.last())
        } else {
            looks_like_wallet(ts.last())
        }) { 1nat } else { 0nat }
    }
}

proof fn lemma_shaped_bound(ts: Seq<Seq<char>>, split: Split)
    ensures
        shaped_count(ts, split) <= ts.len(),
    decreases ts.len(),
{
    if ts.len() > 0 {
        lemma_shaped_bound(ts.drop_last(), split);
    }
}

/// Number of IPv4-like tokens (`split` NotDigitOrDot) or wallet-like tokens (otherwise).
fn count_shaped(text: &[char], split: Split) -> (r: usize)
    ensures
        r == shaped_count(tokens(text@, split), split),
{
    let spans = token_spans(text, split);
    let ghost ts = tokens(text@, split);
    let mut count: usize = 0;
    let mut k: usize = 0;
    assert(ts.subrange(0, 0) =~= Seq::<Seq<char>>::empty());
    while k < spans.len()
        invariant
            span_views(text@, spans@) == ts,
            ts == tokens(text@, split),
            forall|q: int| 0 <= q < spans@.len() ==> (#[trigger] spans@[q]).0 <= spans@[q].1 <= text@.len(),
            k <= spans@.len(),
            count == shaped_count(ts.subrange(0, k as int), split),
        decreases spans.len() - k,
    {
        let (a, b) = spans[k];
        assert(ts.subrange(0, k + 1).drop_last() =~= ts.subrange(0, k as int));
        assert(ts.subrange(0, k + 1).last() == text@.subrange(a as int, b as int));
        proof { lemma_shaped_bound(ts.subrange(0, k as int), split); }
        let hit = if split == Split::NotDigitOrDot { ipv4_at(text, a, b) } else { wallet_at(text, a, b) };
        if hit {
            count = count + 1;
        }
        k = k + 1;
    }
    assert(ts.subrange(0, spans@.len() as int) =~= ts);
    count
}


// ---------------------------------------------------------------------------
// The analysis

pub const EXTREME_LINE_BYTES: u64 = 10000;
pub const HIDDEN_RUN_BYTES: usize = 512;

/// A one-item list when the condition holds, else empty.
pub open spec fn signal_if(c: bool, s: Seq<char>) -> Seq<Seq<char>> {
    if c { seq![s] } else { Seq::empty() }
}

fn push_if(v: &mut Vec<String>, c: bool, s: &str)
    ensures
        strings_view(final(v)@) == strings_view(old(v)@) + signal_if(c, s@),
{
    if c {
        v.push(owned(s));
        assert(strings_view(final(v)@) =~= strings_view(old(v)@) + signal_if(c, s@));
    } else {
        assert(strings_view(final(v)@) =~= strings_view(old(v)@) + signal_if(c, s@));
    }
}

fn push_counted(v: &mut Vec<String>, c: bool, prefix: &str, n: u64, suffix: &str)
    ensures
        strings_view(final(v)@) == strings_view(old(v)@) + signal_if(c, prefix@ + decimal(n as nat) + suffix@),
{
    if c {
        let mut s = String::new();
        push_str(&mut s, prefix);
        push_decimal(&mut s, n);
        push_str(&mut s, suffix);
        v.push(s);
    }
    assert(strings_view(final(v)@) =~= strings_view(old(v)@) + signal_if(c, prefix@ + decimal(n as nat) + suffix@));
}

pub open spec fn any_of(t: Seq<char>, markers: Seq<Seq<char>>) -> bool {
    exists|k: int| 0 <= k < markers.len() && seq_contains(t, markers[k])
}

fn contains_any(t: &[char], markers: &[&str]) -> (r: bool)
    ensures
        r == any_of(t@, crate::text::strs_view(markers@)),
{
    let mut k: usize = 0;
    while k < markers.len()
        invariant
            k <= markers@.len(),
            forall|q: int| 0 <= q < k ==> !seq_contains(t@, markers@[q]@),
        decreases markers.len() - k,
    {
        if chars_contain_str(t, markers[k]) {
            assert(crate::text::strs_view(markers@)[k as int] == markers@[k as int]@);
            return true;
        }
        k = k + 1;
    }
    proof {
        if any_of(t@, crate::text::strs_view(markers@)) {
            let q = choose|q: int| 0 <= q < crate::text::strs_view(markers@).len() && seq_contains(t@, crate::text::strs_view(markers@)[q]);
            assert(crate::text::strs_view(markers@)[q] == markers@[q]@);
        }
    }
    false
}

/// The hidden-content signal (or the plain extreme-whitespace signal).
pub open spec fn whitespace_signals(t: Seq<char>) -> Seq<Seq<char>> {
    match hidden_after(lines(t), 512, 0) {
        Some((line, run)) => seq!["code follows "@ + decimal(run) + " horizontal whitespace bytes"@],
        None => match max_line_run(lines(t)) {
            Some(run) => signal_if(run >= 512, "extreme horizontal whitespace: "@ + decimal(run) + " bytes"@),
            None => Seq::empty(),
        },
    }
}

/// The signals that the text of a file raises, in report order.
pub open spec fn text_signals(t: Seq<char>, tb: Seq<u8>) -> Seq<Seq<char>> {
    signal_if(content_after(t, '\u{1a}') is Some, "content follows an apparent logical EOF marker"@)
    + whitespace_signals(t)
    + pattern_signals(t, tb)
}

/// The signals that come from markers, runs and counts.
pub open spec fn pattern_signals(t: Seq<char>, tb: Seq<u8>) -> Seq<Seq<char>> {
    run_signals(t, tb) + marker_signals(t, tb) + count_signals(t, tb)
}

/// Long runs and encoded-construction signals.
#[verifier::opaque]
pub open spec fn run_signals(t: Seq<char>, tb: Seq<u8>) -> Seq<Seq<char>> {
    signal_if(longest_run(tb, RunClass::Base64) >= 512,
        "large base64-like sequence: "@ + decimal(longest_run(tb, RunClass::Base64)) + " bytes"@)
    + signal_if(longest_run(tb, RunClass::Hex) >= 512,
        "large hexadecimal sequence: "@ + decimal(longest_run(tb, RunClass::Hex)) + " bytes"@)
    + signal_if(occurrences(t, "\\u"@) >= 32, "unicode escape sequences: "@ + decimal(occurrences(t, "\\u"@)))
    + signal_if(seq_contains(t, "String.fromCharCode"@) || seq_contains(t, "String['fromCharCode']"@),
        "character-code string construction"@)
    + signal_if(seq_contains(t, "charCodeAt"@) && seq_contains(t, "^"@), "possible XOR string decoder"@)
    + signal_if(occurrences(t, "_0x"@) >= 8, "_0x-style identifiers: "@ + decimal(occurrences(t, "_0x"@)))
}

/// Anti-analysis and execution-primitive markers.
#[verifier::opaque]
pub open spec fn marker_signals(t: Seq<char>, tb: Seq<u8>) -> Seq<Seq<char>> {
    signal_if(seq_contains(t, "debugger;"@) || seq_contains(t, "navigator.webdriver"@),
        "anti-debugging or automation check"@)
    + signal_if(any_of(t, seq!["VirtualBox"@, "VMware"@, "QEMU"@, "Parallels"@]), "virtual-machine environment check"@)
    + signal_if(any_of(t, seq!["navigator.language"@, "process.env.LANG"@, "Intl.DateTimeFormat"@]),
        "locale or regional environment check"@)
    + signal_if(any_of(t, seq!["tasklist"@, "Get-Process"@, "ps aux"@, "/proc/"@])
        && any_of(t, seq!["Wireshark"@, "ProcessHacker"@, "x64dbg"@, "OllyDbg"@, "Procmon"@]),
        "security-tool process enumeration check"@)
    + signal_if(has_long_delay_spec(tb), "long timer delay"@)
    + signal_if(seq_contains(t, "Invoke-WebRequest"@) || seq_contains(t, "Invoke-Expression"@),
        "PowerShell download or execution primitive"@)
}

/// Network indicator counts and endpoints.
#[verifier::opaque]
pub open spec fn count_signals(t: Seq<char>, tb: Seq<u8>) -> Seq<Seq<char>> {
    signal_if(occurrences(t, "http://"@) + occurrences(t, "https://"@) > 0,
        "URL occurrences: "@ + decimal(occurrences(t, "http://"@) + occurrences(t, "https://"@)))
    + signal_if(shaped_count(tokens(t, Split::NotDigitOrDot), Split::NotDigitOrDot) > 0,
        "IPv4 address occurrences: "@ + decimal(shaped_count(tokens(t, Split::NotDigitOrDot), Split::NotDigitOrDot)))
    + signal_if(shaped_count(tokens(t, Split::NotAlphanumeric), Split::NotAlphanumeric) > 0,
        "wallet-like identifiers: "@ + decimal(shaped_count(tokens(t, Split::NotAlphanumeric), Split::NotAlphanumeric)))
    + signal_if(seq_contains(t, "discord.com/api/webhooks"@) || seq_contains(t, "hooks.slack.com"@), "webhook endpoint"@)
    + signal_if(any_of(t, seq!["bit.ly/"@, "tinyurl.com/"@, "t.co/"@]), "shortened URL"@)
}

/// The findings that the text of a file raises, in report order.
pub open spec fn text_findings(path: Seq<char>, t: Seq<char>) -> Seq<FindingView> {
    eof_findings(path, t) + hidden_findings(path, t)
}

pub open spec fn eof_finding(path: Seq<char>, offset: nat) -> FindingView {
    FindingView {
        id: "RAW-CONTENT-AFTER-EOF"@,
        severity: Severity::High,
        confidence: Confidence::High,
        score: 75,
        title: "Content follows an apparent logical EOF marker"@,
        message: "Printable content appears after a control character commonly treated as end-of-file."@,
        file: Some(path),
        line: None,
        evidence: seq!["content resumes after byte offset "@ + decimal(offset)],
    }
}

pub open spec fn eof_findings(path: Seq<char>, t: Seq<char>) -> Seq<FindingView> {
    match content_after(t, '\u{1a}') {
        Some(offset) => seq![eof_finding(path, offset)],
        None => Seq::empty(),
    }
}

pub open spec fn hidden_finding(path: Seq<char>, line: u64, run: nat) -> FindingView {
    FindingView {
        id: "RAW-HIDDEN-AFTER-WHITESPACE"@,
        severity: Severity::High,
        confidence: Confidence::High,
        score: 75,
        title: "Content hidden after extreme horizontal whitespace"@,
        message: "Non-whitespace content appears after a large horizontal gap on one line."@,
        file: Some(path),
        line: Some(line),
        evidence: seq!["horizontal whitespace run: "@ + decimal(run) + " bytes"@],
    }
}

pub open spec fn hidden_findings(path: Seq<char>, t: Seq<char>) -> Seq<FindingView> {
    match hidden_after(lines(t), 512, 0) {
        Some((line, run)) => seq![hidden_finding(path, line, run)],
        None => Seq::empty(),
    }
}

/// The extreme-line finding.
pub open spec fn extreme_line_finding(path: Seq<char>, longest: nat) -> FindingView {
    FindingView {
        id: "RAW-EXTREME-LINE"@,
        severity: Severity::Medium,
        confidence: Confidence::High,
        score: 40,
        title: "Extremely long line"@,
        message: "Very long lines can conceal code outside the normal editor viewport."@,
        file: Some(path),
        line: None,
        evidence: seq!["maximum line length: "@ + decimal(longest) + " bytes"@],
    }
}

/// Appends the marker, run and count signals of a text.
fn push_pattern_signals(signals: &mut Vec<String>, t: &[char], text: &str)
    requires
        t@ == text@,
    ensures
        strings_view(final(signals)@) == strings_view(old(signals)@) + pattern_signals(text@, text.spec_bytes()),
{
    push_run_signals(signals, t, text);
    push_marker_signals(signals, t, text);
    push_count_signals(signals, t, text);
    assert(strings_view(final(signals)@) =~= strings_view(old(signals)@) + pattern_signals(text@, text.spec_bytes()));
}

#[verifier::spinoff_prover]
#[verifier::rlimit(60)]
fn push_run_signals(signals: &mut Vec<String>, t: &[char], text: &str)
    requires
        t@ == text@,
    ensures
        strings_view(final(signals)@) == strings_view(old(signals)@) + run_signals(text@, text.spec_bytes()),
{
    reveal(run_signals);
    let tb = text.as_bytes();
    let base64_run = longest_run_of(tb, RunClass::Base64);
    push_counted(signals, base64_run >= 512, "large base64-like sequence: ", base64_run as u64, " bytes");
    let hex_run = longest_run_of(tb, RunClass::Hex);
    push_counted(signals, hex_run >= 512, "large hexadecimal sequence: ", hex_run as u64, " bytes");
    let escape = chars_of("\\u");
    let escapes = count_occurrences(t, escape.as_slice());
    push_counted(signals, escapes >= 32, "unicode escape sequences: ", escapes as u64, "");
    push_if(signals, chars_contain_str(t, "String.fromCharCode") || chars_contain_str(t, "String['fromCharCode']"),
        "character-code string construction");
    push_if(signals, chars_contain_str(t, "charCodeAt") && chars_contain_str(t, "^"), "possible XOR string decoder");
    let hex_marker = chars_of("_0x");
    let hex_ids = count_occurrences(t, hex_marker.as_slice());
    push_counted(signals, hex_ids >= 8, "_0x-style identifiers: ", hex_ids as u64, "");
    assert(""@ =~= Seq::<char>::empty()) by {
        reveal_strlit("");
    }
    assert(strings_view(final(signals)@) =~= strings_view(old(signals)@) + run_signals(text@, text.spec_bytes()));
}

#[verifier::spinoff_prover]
#[verifier::rlimit(60)]
fn push_marker_signals(signals: &mut Vec<String>, t: &[char], text: &str)
    requires
        t@ == text@,
    ensures
        strings_view(final(signals)@) == strings_view(old(signals)@) + marker_signals(text@, text.spec_bytes()),
{
    reveal(marker_signals);
    let tb = text.as_bytes();
    push_if(signals, chars_contain_str(t, "debugger;") || chars_contain_str(t, "navigator.webdriver"),
        "anti-debugging or automation check");
    let vm = ["VirtualBox", "VMware", "QEMU", "Parallels"];
    assert(crate::text::strs_view(vm@) =~= seq!["VirtualBox"@, "VMware"@, "QEMU"@, "Parallels"@]);
    push_if(signals, contains_any(t, &vm), "virtual-machine environment check");
    let locale = ["navigator.language", "process.env.LANG", "Intl.DateTimeFormat"];
    assert(crate::text::strs_view(locale@) =~= seq!["navigator.language"@, "process.env.LANG"@, "Intl.DateTimeFormat"@]);
    push_if(signals, contains_any(t, &locale), "locale or regional environment check");
    let listing = ["tasklist", "Get-Process", "ps aux", "/proc/"];
    assert(crate::text::strs_view(listing@) =~= seq!["tasklist"@, "Get-Process"@, "ps aux"@, "/proc/"@]);
    let tools = ["Wireshark", "ProcessHacker", "x64dbg", "OllyDbg", "Procmon"];
    assert(crate::text::strs_view(tools@) =~= seq!["Wireshark"@, "ProcessHacker"@, "x64dbg"@, "OllyDbg"@, "Procmon"@]);
    push_if(signals, contains_any(t, &listing) && contains_any(t, &tools), "security-tool process enumeration check");
    push_if(signals, has_long_delay(text), "long timer delay");
    push_if(signals, chars_contain_str(t, "Invoke-WebRequest") || chars_contain_str(t, "Invoke-Expression"),
        "PowerShell download or execution primitive");
    assert(""@ =~= Seq::<char>::empty()) by {
        reveal_strlit("");
    }
    assert(strings_view(final(signals)@) =~= strings_view(old(signals)@) + marker_signals(text@, text.spec_bytes()));
}

fn push_count_signals(signals: &mut Vec<String>, t: &[char], text: &str)
    requires
        t@ == text@,
    ensures
        strings_view(final(signals)@) == strings_view(old(signals)@) + count_signals(text@, text.spec_bytes()),
{
    reveal(count_signals);
    let tb = text.as_bytes();
    let urls = count_urls(t) as u64;
    push_counted(signals, urls > 0, "URL occurrences: ", urls, "");
    let ips = count_shaped(t, Split::NotDigitOrDot);
    push_counted(signals, ips > 0, "IPv4 address occurrences: ", ips as u64, "");
    let wallets = count_shaped(t, Split::NotAlphanumeric);
    push_counted(signals, wallets > 0, "wallet-like identifiers: ", wallets as u64, "");
    push_if(signals, chars_contain_str(t, "discord.com/api/webhooks") || chars_contain_str(t, "hooks.slack.com"),
        "webhook endpoint");
    let short = ["bit.ly/", "tinyurl.com/", "t.co/"];
    assert(crate::text::strs_view(short@) =~= seq!["bit.ly/"@, "tinyurl.com/"@, "t.co/"@]);
    push_if(signals, contains_any(t, &short), "shortened URL");
    assert(""@ =~= Seq::<char>::empty()) by {
        reveal_strlit("");
    }
    assert(strings_view(final(signals)@) =~= strings_view(old(signals)@) + count_signals(text@, text.spec_bytes()));
}

/// The raw signals of a file's bytes and, when it decodes, text.
pub open spec fn raw_signals(bytes: Seq<u8>, text: Option<Seq<char>>) -> Seq<Seq<char>> {
    let longest = line_metrics_spec(bytes).1;
    signal_if(longest >= 10000, "extreme line length: "@ + decimal(longest) + " bytes"@) + match text {
        None => Seq::<Seq<char>>::empty(),
        Some(t) => text_signals(t, encode_utf8(t)),
    }
}

/// The raw findings of a file's bytes and, when it decodes, text.
pub open spec fn raw_findings(path: Seq<char>, bytes: Seq<u8>, text: Option<Seq<char>>) -> Seq<FindingView> {
    let longest = line_metrics_spec(bytes).1;
    (if longest >= 10000 { seq![extreme_line_finding(path, longest)] } else { Seq::empty() }) + match text {
        None => Seq::<FindingView>::empty(),
        Some(t) => text_findings(path, t),
    }
}

/// The view of an optional string slice.
pub open spec fn opt_str_view(t: Option<&str>) -> Option<Seq<char>> {
    match t {
        Some(t) => Some(t@),
        None => None,
    }
}

/// Raw signals and findings of one file's bytes and, when it decodes, text.
pub fn analyze(path: &str, bytes: &[u8], text: Option<&str>) -> (r: RawAnalysis)
    requires
        bytes@.len() < u64::MAX,
    ensures
        (r.line_count as nat, r.max_line_length as nat) == line_metrics_spec(bytes@),
        strings_view(r.signals@) == raw_signals(bytes@, opt_str_view(text)),
        findings_view(r.findings@) == raw_findings(path@, bytes@, opt_str_view(text)),
{
    let (line_count, max_line_length) = line_metrics(bytes);
    let mut signals: Vec<String> = Vec::new();
    let mut findings: Vec<Finding> = Vec::new();
    let extreme = max_line_length >= EXTREME_LINE_BYTES;
    push_counted(&mut signals, extreme, "extreme line length: ", max_line_length, " bytes");
    if extreme {
        let mut evidence = String::new();
        push_str(&mut evidence, "maximum line length: ");
        push_decimal(&mut evidence, max_line_length);
        push_str(&mut evidence, " bytes");
        let finding = Finding {
            id: owned("RAW-EXTREME-LINE"),
            severity: Severity::Medium,
            confidence: Confidence::High,
            score: 40,
            title: owned("Extremely long line"),
            message: owned("Very long lines can conceal code outside the normal editor viewport."),
            file: Some(owned(path)),
            line: None,
            evidence: vec![evidence],
        };
        assert(strings_view(finding.evidence@) =~= extreme_line_finding(path@, max_line_length as nat).evidence);
        findings.push(finding);
    }
    let ghost base_signals = strings_view(signals@);
    let ghost base_findings = findings_view(findings@);
    assert(base_findings =~= (if extreme { seq![extreme_line_finding(path@, max_line_length as nat)] } else { Seq::<FindingView>::empty() }));
    let text = match text {
        Some(t) => t,
        None => {
            assert(strings_view(signals@) =~= base_signals + Seq::<Seq<char>>::empty());
            assert(findings_view(findings@) =~= base_findings + Seq::<FindingView>::empty());
            return RawAnalysis { line_count, max_line_length, signals, findings };
        },
    };
    let t = chars_of(text);
    let tb = text.as_bytes();
    assert(tb@.len() == tb.len());
    let t = t.as_slice();
    let eof = content_after_marker(t, '\u{1a}');
    push_if(&mut signals, eof.is_some(), "content follows an apparent logical EOF marker");
    let ghost s1 = strings_view(signals@);
    match eof {
        Some(offset) => {
            let mut evidence = String::new();
            push_str(&mut evidence, "content resumes after byte offset ");
            push_decimal(&mut evidence, offset as u64);
            let finding = Finding {
                id: owned("RAW-CONTENT-AFTER-EOF"),
                severity: Severity::High,
                confidence: Confidence::High,
                score: 75,
                title: owned("Content follows an apparent logical EOF marker"),
                message: owned("Printable content appears after a control character commonly treated as end-of-file."),
                file: Some(owned(path)),
                line: None,
                evidence: vec![evidence],
            };
            assert(strings_view(finding.evidence@) =~= eof_finding(path@, offset as nat).evidence);
            assert(finding@ == eof_finding(path@, offset as nat));
            findings.push(finding);
        },
        None => {},
    }
    let ghost f1 = findings_view(findings@);
    assert(f1 =~= base_findings + eof_findings(path@, text@));
    match hidden_after_whitespace(t, HIDDEN_RUN_BYTES) {
        Some((line, run)) => {
            push_counted(&mut signals, true, "code follows ", run as u64, " horizontal whitespace bytes");
            let mut evidence = String::new();
            push_str(&mut evidence, "horizontal whitespace run: ");
            push_decimal(&mut evidence, run as u64);
            push_str(&mut evidence, " bytes");
            let finding = Finding {
                id: owned("RAW-HIDDEN-AFTER-WHITESPACE"),
                severity: Severity::High,
                confidence: Confidence::High,
                score: 75,
                title: owned("Content hidden after extreme horizontal whitespace"),
                message: owned("Non-whitespace content appears after a large horizontal gap on one line."),
                file: Some(owned(path)),
                line: Some(line),
                evidence: vec![evidence],
            };
            assert(strings_view(finding.evidence@) =~= hidden_finding(path@, line, run as nat).evidence);
            assert(finding@ == hidden_finding(path@, line, run as nat));
            findings.push(finding);
            assert(findings_view(findings@) =~= f1 + hidden_findings(path@, text@));
        },
        None => {
            match longest_horizontal_run(t) {
                Some(run) => push_counted(&mut signals, run >= HIDDEN_RUN_BYTES, "extreme horizontal whitespace: ", run as u64, " bytes"),
                None => {},
            }
            assert(findings_view(findings@) =~= f1 + hidden_findings(path@, text@));
        },
    }
    let ghost s2 = strings_view(signals@);
    assert(s2 =~= base_signals + signal_if(content_after(text@, '\u{1a}') is Some, "content follows an apparent logical EOF marker"@) + whitespace_signals(text@));
    assert(findings_view(findings@) =~= base_findings + text_findings(path@, text@));
    push_pattern_signals(&mut signals, t, text);
    assert(strings_view(signals@) =~= base_signals + text_signals(text@, text.spec_bytes()));
    RawAnalysis { line_count, max_line_length, signals, findings }
}


/// Occurrences of `http://` plus occurrences of `https://`; the two never
/// start at the same position.
fn count_urls(t: &[char]) -> (r: usize)
    ensures
        r == occurrences(t@, "http://"@) + occurrences(t@, "https://"@),
{
    let http = chars_of("http://");
    let https = chars_of("https://");
    proof {
        reveal_strlit("http://");
        reveal_strlit("https://");
        let scheme = Seq::<char>::empty().push('h').push('t').push('t').push('p');
        assert("http://"@ =~= scheme.push(':').push('/').push('/'));
        assert("https://"@ =~= scheme.push('s').push(':').push('/').push('/'));
    }
    let mut count: usize = 0;
    let mut i: usize = 0;
    while i < t.len()
        invariant
            i <= t@.len(),
            http@ == "http://"@,
            https@ == "https://"@,
            http@.len() == 7,
            https@.len() == 8,
            http@[4] == ':',
            https@[4] == 's',
            count == crate::text::occurrences_before(t@, http@, i as int) + crate::text::occurrences_before(t@, https@, i as int),
            count <= i,
        decreases t.len() - i,
    {
        let a = crate::text::chars_at(t, http.as_slice(), i);
        let b = crate::text::chars_at(t, https.as_slice(), i);
        if a && b {
            assert(t@.subrange(i as int, i + 7)[4] == t@[i + 4]);
            assert(t@.subrange(i as int, i + 8)[4] == t@[i + 4]);
        }
        if a || b {
            count = count + 1;
        }
        i = i + 1;
    }
    count
}

} // verus!
