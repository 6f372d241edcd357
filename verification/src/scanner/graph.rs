//! The import graph of the JavaScript modules of a repository and the
//! modules that its execution roots reach.
use vstd::prelude::*;
use crate::scanner::js::semantic::{CallFact, Capability, ImportFact, ModuleFacts};
use crate::model::{Confidence, Finding, FindingView, Severity, findings_view, strings_view};
use crate::scanner::raw::{Split, tokens, token_spans};
use crate::text::{
    chars_of, decimal, push_decimal, push_str, string_from_chars, eq_chars,
    chars_end_with_str, copy_chars, join, join_chars, span_views, strs_view, vecs_view,
    seq_ends_with, seq_starts_with, chars_start_with_str, is_one_of, slice_chars, strictly_sorted,
    clone_strings, str_eq, owned, basename, basename_of, chars_eq_str, lines, line_number, find_line,
};
use crate::scanner::analyzers::{opt_text, parsed_view};
use crate::json::{Json, as_text, get, get_in, member, member_in, string_of};

verus! {

/// The parts of a path between slashes, without empty and `.` parts.
pub open spec fn kept_parts(parts: Seq<Seq<char>>) -> Seq<Seq<char>>
    decreases parts.len(),
{
    if parts.len() == 0 {
        Seq::empty()
    } else {
        let rest = kept_parts(parts.drop_last());
        let last = parts.last();
        if last.len() == 0 || last == seq!['.'] {
            rest
        } else {
            rest.push(last)
        }
    }
}

/// The normal components of a relative path, and its `..` components.
pub open spec fn path_components(p: Seq<char>) -> Seq<Seq<char>> {
    kept_parts(tokens(p, Split::Slash))
}

/// Applies components to a directory stack; `..` above the top fails.
pub open spec fn walk_components(stack: Seq<Seq<char>>, parts: Seq<Seq<char>>) -> Option<Seq<Seq<char>>>
    decreases parts.len(),
{
    if parts.len() == 0 {
        Some(stack)
    } else if parts[0] == seq!['.', '.'] {
        if stack.len() == 0 {
            None
        } else {
            walk_components(stack.drop_last(), parts.drop_first())
        }
    } else {
        walk_components(stack.push(parts[0]), parts.drop_first())
    }
}

/// The path that `specifier` names relative to the directory of `from`,
/// normalised; empty when it is absolute or climbs above the root.
pub open spec fn resolved_path(from: Seq<char>, specifier: Seq<char>) -> Seq<char> {
    let base = path_components(from);
    if (from.len() > 0 && from[0] == '/' && base.len() > 0) || (specifier.len() > 0 && specifier[0] == '/') {
        Seq::empty()
    } else {
        let parent = if base.len() > 0 { base.drop_last() } else { base };
        match walk_components(parent, path_components(specifier)) {
            Some(stack) => join(stack, seq!['/']),
            None => Seq::empty(),
        }
    }
}

#[verifier::spinoff_prover]
#[verifier::rlimit(40)]
pub(crate) fn components(p: &[char]) -> (r: Vec<Vec<char>>)
    ensures
        vecs_view(r@) == path_components(p@),
{
    let spans = token_spans(p, Split::Slash);
    let ghost parts = span_views(p@, spans@);
    let mut out: Vec<Vec<char>> = Vec::new();
    let mut k: usize = 0;
    while k < spans.len()
        invariant
            k <= spans@.len(),
            parts == span_views(p@, spans@),
            parts == tokens(p@, Split::Slash),
            forall|j: int| 0 <= j < spans@.len() ==> (#[trigger] spans@[j]).0 <= spans@[j].1 <= p@.len(),
            vecs_view(out@) == kept_parts(parts.subrange(0, k as int)),
        decreases spans.len() - k,
    {
        let (lo, hi) = spans[k];
        let ghost part = p@.subrange(lo as int, hi as int);
        assert(parts[k as int] == part);
        assert(parts.subrange(0, k + 1).drop_last() =~= parts.subrange(0, k as int));
        let empty = lo == hi;
        let dot = !empty && hi - lo == 1 && p[lo] == '.';
        if empty {
            assert(part.len() == 0);
        } else if dot {
            assert(part =~= seq!['.']);
        } else {
            let piece = slice_chars(p, lo, hi);
            assert(part != seq!['.']) by {
                if part =~= seq!['.'] {
                    assert(part.len() == 1);
                    assert(part[0] == p@[lo as int]);
                }
            }
            let ghost before = out@;
            out.push(piece);
            assert(vecs_view(out@) =~= vecs_view(before).push(part));
        }
        k = k + 1;
    }
    assert(parts.subrange(0, spans@.len() as int) =~= parts);
    out
}

/// The path that `specifier` names relative to the directory of `from`.
pub fn resolve_from(from: &[char], specifier: &[char]) -> (r: Vec<char>)
    ensures
        r@ == resolved_path(from@, specifier@),
{
    let base = components(from);
    if (from.len() > 0 && from[0] == '/' && base.len() > 0) || (specifier.len() > 0 && specifier[0] == '/') {
        return Vec::new();
    }
    let mut stack: Vec<Vec<char>> = Vec::new();
    let keep = if base.len() > 0 { base.len() - 1 } else { 0 };
    let mut i: usize = 0;
    while i < keep
        invariant
            keep <= base@.len(),
            i <= keep,
            vecs_view(stack@) == vecs_view(base@).subrange(0, i as int),
        decreases keep - i,
    {
        let c = copy_chars(&base[i]);
        assert(c@ == vecs_view(base@)[i as int]);
        let ghost before = stack@;
        stack.push(c);
        assert(vecs_view(stack@) =~= vecs_view(before).push(c@));
        assert(vecs_view(stack@) =~= vecs_view(base@).subrange(0, i + 1));
        i = i + 1;
    }
    let ghost bv = vecs_view(base@);
    assert(vecs_view(stack@) =~= (if bv.len() > 0 { bv.drop_last() } else { bv }));
    let parts = components(specifier);
    let ghost pv = vecs_view(parts@);
    let ghost goal = walk_components(vecs_view(stack@), pv);
    let mut k: usize = 0;
    assert(pv.subrange(0, pv.len() as int) =~= pv);
    assert(resolved_path(from@, specifier@) == (match goal { Some(st) => join(st, seq!['/']), None => Seq::<char>::empty() }));
    while k < parts.len()
        invariant
            k <= parts@.len(),
            pv == vecs_view(parts@),
            goal == walk_components(vecs_view(stack@), pv.subrange(k as int, pv.len() as int)),
            resolved_path(from@, specifier@) == (match goal { Some(st) => join(st, seq!['/']), None => Seq::<char>::empty() }),
        decreases parts.len() - k,
    {
        let ghost rest = pv.subrange(k as int, pv.len() as int);
        assert(rest.drop_first() =~= pv.subrange(k + 1, pv.len() as int));
        assert(rest[0] == parts@[k as int]@);
        let up = parts[k].len() == 2 && parts[k][0] == '.' && parts[k][1] == '.';
        if up {
            assert(parts@[k as int]@ =~= seq!['.', '.']);
            if stack.len() == 0 {
                assert(goal.is_none());
                return Vec::new();
            }
            let ghost before = stack@;
            stack.pop();
            assert(vecs_view(stack@) =~= vecs_view(before).drop_last());
        } else {
            assert(parts@[k as int]@ != seq!['.', '.']) by {
                if parts@[k as int]@ =~= seq!['.', '.'] {
                    assert(parts@[k as int]@.len() == 2);
                    assert(parts@[k as int]@[0] == '.');
                    assert(parts@[k as int]@[1] == '.');
                }
            }
            let ghost before = stack@;
            let c = copy_chars(&parts[k]);
            stack.push(c);
            assert(vecs_view(stack@) =~= vecs_view(before).push(rest[0]));
        }
        k = k + 1;
    }
    assert(pv.subrange(pv.len() as int, pv.len() as int) =~= Seq::<Seq<char>>::empty());
    let sep = ['/'];
    assert(sep@ =~= seq!['/']);
    join_chars(&stack, &sep)
}


/// The non-empty parts between separators.
pub open spec fn nonempty_parts(parts: Seq<Seq<char>>) -> Seq<Seq<char>>
    decreases parts.len(),
{
    if parts.len() == 0 {
        Seq::empty()
    } else if parts.last().len() == 0 {
        nonempty_parts(parts.drop_last())
    } else {
        nonempty_parts(parts.drop_last()).push(parts.last())
    }
}

/// The words of a command line, as `split_ascii_whitespace` yields them.
pub open spec fn ascii_words(s: Seq<char>) -> Seq<Seq<char>> {
    nonempty_parts(tokens(s, Split::AsciiWhitespace))
}

#[verifier::spinoff_prover]
#[verifier::rlimit(40)]
pub(crate) fn words(p: &[char]) -> (r: Vec<Vec<char>>)
    ensures
        vecs_view(r@) == ascii_words(p@),
{
    let spans = token_spans(p, Split::AsciiWhitespace);
    let ghost parts = span_views(p@, spans@);
    let mut out: Vec<Vec<char>> = Vec::new();
    let mut k: usize = 0;
    while k < spans.len()
        invariant
            k <= spans@.len(),
            parts == span_views(p@, spans@),
            parts == tokens(p@, Split::AsciiWhitespace),
            forall|j: int| 0 <= j < spans@.len() ==> (#[trigger] spans@[j]).0 <= spans@[j].1 <= p@.len(),
            vecs_view(out@) == nonempty_parts(parts.subrange(0, k as int)),
        decreases spans.len() - k,
    {
        let (lo, hi) = spans[k];
        assert(parts[k as int] == p@.subrange(lo as int, hi as int));
        assert(parts.subrange(0, k + 1).drop_last() =~= parts.subrange(0, k as int));
        if lo < hi {
            let piece = slice_chars(p, lo, hi);
            let ghost before = out@;
            out.push(piece);
            assert(vecs_view(out@) =~= vecs_view(before).push(parts[k as int]));
        }
        k = k + 1;
    }
    assert(parts.subrange(0, spans@.len() as int) =~= parts);
    out
}

/// `s` without the leading marks.
pub open spec fn trim_front(s: Seq<char>, marks: Seq<char>) -> Seq<char>
    decreases s.len(),
{
    if s.len() > 0 && marks.contains(s[0]) {
        trim_front(s.drop_first(), marks)
    } else {
        s
    }
}

/// `s` without the trailing marks.
pub open spec fn trim_back(s: Seq<char>, marks: Seq<char>) -> Seq<char>
    decreases s.len(),
{
    if s.len() > 0 && marks.contains(s.last()) {
        trim_back(s.drop_last(), marks)
    } else {
        s
    }
}

/// `s` without leading and trailing marks, as `trim_matches` leaves it.
pub open spec fn trim_marks(s: Seq<char>, marks: Seq<char>) -> Seq<char> {
    trim_back(trim_front(s, marks), marks)
}

fn is_mark(c: char, marks: &[char]) -> (r: bool)
    ensures
        r == marks@.contains(c),
{
    let mut i: usize = 0;
    while i < marks.len()
        invariant
            i <= marks@.len(),
            forall|j: int| 0 <= j < i ==> marks@[j] != c,
        decreases marks.len() - i,
    {
        if marks[i] == c {
            return true;
        }
        i = i + 1;
    }
    false
}

fn trimmed(v: &[char], marks: &[char]) -> (r: Vec<char>)
    ensures
        r@ == trim_marks(v@, marks@),
{
    let n = v.len();
    let mut lo: usize = 0;
    assert(v@.subrange(0, n as int) =~= v@);
    while lo < n && is_mark(v[lo], marks)
        invariant
            lo <= n == v@.len(),
            trim_front(v@, marks@) == trim_front(v@.subrange(lo as int, n as int), marks@),
        decreases n - lo,
    {
        assert(v@.subrange(lo as int, n as int).drop_first() =~= v@.subrange(lo + 1, n as int));
        lo = lo + 1;
    }
    let ghost front = v@.subrange(lo as int, n as int);
    assert(trim_front(v@, marks@) == front);
    let mut hi: usize = n;
    assert(front.subrange(0, (hi - lo) as int) =~= front);
    while hi > lo && is_mark(v[hi - 1], marks)
        invariant
            lo <= hi <= n == v@.len(),
            front == v@.subrange(lo as int, n as int),
            trim_back(front, marks@) == trim_back(front.subrange(0, (hi - lo) as int), marks@),
        decreases hi - lo,
    {
        let ghost cur = front.subrange(0, (hi - lo) as int);
        assert(cur.last() == v@[hi - 1]);
        assert(cur.drop_last() =~= front.subrange(0, (hi - 1 - lo) as int));
        hi = hi - 1;
    }
    let ghost back = front.subrange(0, (hi - lo) as int);
    assert(back =~= v@.subrange(lo as int, hi as int));
    crate::text::slice_chars(v, lo, hi)
}

/// The suffixes of source files that a runner executes.
pub open spec fn script_suffixes() -> Seq<Seq<char>> {
    seq![".js"@, ".cjs"@, ".mjs"@, ".ts"@, ".cts"@, ".mts"@, ".jsx"@, ".tsx"@]
}

/// The programs that run a JavaScript or TypeScript file.
pub open spec fn script_runners() -> Seq<Seq<char>> {
    seq!["node"@, "node.exe"@, "bun"@, "deno"@, "tsx"@, "ts-node"@]
}

/// `p` ends with one of the suffixes.
pub open spec fn ends_with_any(p: Seq<char>, suffixes: Seq<Seq<char>>) -> bool {
    exists|i: int| 0 <= i < suffixes.len() && seq_ends_with(p, #[trigger] suffixes[i])
}

fn ends_with_one_of(p: &[char], suffixes: &[&str]) -> (r: bool)
    ensures
        r == ends_with_any(p@, strs_view(suffixes@)),
{
    let mut i: usize = 0;
    while i < suffixes.len()
        invariant
            i <= suffixes@.len(),
            forall|j: int| 0 <= j < i ==> !seq_ends_with(p@, #[trigger] strs_view(suffixes@)[j]),
        decreases suffixes.len() - i,
    {
        if chars_end_with_str(p, suffixes[i]) {
            assert(seq_ends_with(p@, strs_view(suffixes@)[i as int]));
            return true;
        }
        i = i + 1;
    }
    false
}

/// An argument that names a script: no leading `-` and a script suffix.
pub open spec fn is_script_argument(part: Seq<char>) -> bool {
    !(part.len() > 0 && part[0] == '-') && ends_with_any(part, script_suffixes())
}

/// The first script argument among the words from `k` on, with quotes and
/// semicolons trimmed.
pub open spec fn first_script(ws: Seq<Seq<char>>, k: int) -> Option<Seq<char>>
    decreases ws.len() - k,
{
    if k < 0 || k >= ws.len() {
        None
    } else if is_script_argument(trim_marks(ws[k], seq!['"', '\'', ';'])) {
        Some(trim_marks(ws[k], seq!['"', '\'', ';']))
    } else {
        first_script(ws, k + 1)
    }
}

/// The script that a command runs through a JavaScript runner.
pub open spec fn command_script(command: Seq<char>) -> Option<Seq<char>> {
    let ws = ascii_words(command);
    if ws.len() == 0 || !script_runners().contains(trim_marks(ws[0], seq!['"', '\''])) {
        None
    } else {
        first_script(ws, 1)
    }
}

/// The script that a command runs through a JavaScript runner.
pub fn command_target(command: &[char]) -> (r: Option<Vec<char>>)
    ensures
        match r {
            Some(v) => command_script(command@) == Some(v@),
            None => command_script(command@).is_none(),
        },
{
    let ws = words(command);
    if ws.len() == 0 {
        return None;
    }
    let quotes = ['"', '\''];
    assert(quotes@ =~= seq!['"', '\'']);
    let exe = trimmed(&ws[0], &quotes);
    let runners = ["node", "node.exe", "bun", "deno", "tsx", "ts-node"];
    assert(strs_view(runners@) =~= script_runners());
    if !crate::text::is_one_of(&exe, &runners) {
        return None;
    }
    let marks = ['"', '\'', ';'];
    assert(marks@ =~= seq!['"', '\'', ';']);
    let suffixes = [".js", ".cjs", ".mjs", ".ts", ".cts", ".mts", ".jsx", ".tsx"];
    assert(strs_view(suffixes@) =~= script_suffixes());
    let mut k: usize = 1;
    while k < ws.len()
        invariant
            1 <= k <= ws@.len(),
            marks@ == seq!['"', '\'', ';'],
            strs_view(suffixes@) == script_suffixes(),
            command_script(command@) == first_script(vecs_view(ws@), k as int),
        decreases ws.len() - k,
    {
        let part = trimmed(&ws[k], &marks);
        assert(part@ == trim_marks(vecs_view(ws@)[k as int], marks@));
        let dash = part.len() > 0 && part[0] == '-';
        if !dash && ends_with_one_of(&part, &suffixes) {
            return Some(part);
        }
        k = k + 1;
    }
    None
}

/// The suffixes of source files the analysis reads as code.
pub open spec fn code_suffixes() -> Seq<Seq<char>> {
    seq![".js"@, ".cjs"@, ".mjs"@, ".jsx"@, ".ts"@, ".cts"@, ".mts"@, ".tsx"@]
}

/// The path has a JavaScript or TypeScript extension.
pub fn has_code_extension(path: &[char]) -> (r: bool)
    ensures
        r == ends_with_any(path@, code_suffixes()),
{
    let suffixes = [".js", ".cjs", ".mjs", ".jsx", ".ts", ".cts", ".mts", ".tsx"];
    assert(strs_view(suffixes@) =~= code_suffixes());
    ends_with_one_of(path, &suffixes)
}


/// The paths that a relative import may name, in the order they are tried.
pub open spec fn import_candidates(t: Seq<char>) -> Seq<Seq<char>> {
    seq![t, t + ".js"@, t + ".cjs"@, t + ".mjs"@, t + ".ts"@, t + ".cts"@, t + ".mts"@,
        t + ".jsx"@, t + ".tsx"@, t + "/index.js"@, t + "/index.ts"@]
}

/// The first candidate from `k` on that is a known path.
pub open spec fn first_known(cands: Seq<Seq<char>>, paths: Seq<Seq<char>>, k: int) -> Option<Seq<char>>
    decreases cands.len() - k,
{
    if k < 0 || k >= cands.len() {
        None
    } else if paths.contains(cands[k]) {
        Some(cands[k])
    } else {
        first_known(cands, paths, k + 1)
    }
}

/// The known path that a relative import from `from` resolves to.
pub open spec fn import_target(from: Seq<char>, specifier: Seq<char>, paths: Seq<Seq<char>>) -> Option<Seq<char>> {
    let t = resolved_path(from, specifier);
    if t.len() == 0 {
        None
    } else {
        first_known(import_candidates(t), paths, 0)
    }
}

proof fn lemma_first_known_at(cands: Seq<Seq<char>>, paths: Seq<Seq<char>>, i: int, k: int)
    requires
        0 <= i <= k < cands.len(),
        paths.contains(cands[k]),
        forall|j: int| i <= j < k ==> !paths.contains(#[trigger] cands[j]),
    ensures
        first_known(cands, paths, i) == Some(cands[k]),
    decreases k - i,
{
    if i < k {
        lemma_first_known_at(cands, paths, i + 1, k);
    }
}

proof fn lemma_first_known_none(cands: Seq<Seq<char>>, paths: Seq<Seq<char>>, i: int)
    requires
        0 <= i,
        forall|j: int| i <= j < cands.len() ==> !paths.contains(#[trigger] cands[j]),
    ensures
        first_known(cands, paths, i) is None,
    decreases cands.len() - i,
{
    if i < cands.len() {
        lemma_first_known_none(cands, paths, i + 1);
    }
}

/// A relative import resolves to the first known path among the target
/// itself, the target with `.js`, `.cjs`, `.mjs`, `.ts`, `.cts`, `.mts`,
/// `.jsx` or `.tsx` added, and the target's `/index.js` and `/index.ts`, in
/// that order; it resolves to nothing when none of them is known.
pub proof fn lemma_import_resolution(from: Seq<char>, specifier: Seq<char>, paths: Seq<Seq<char>>)
    requires
        resolved_path(from, specifier).len() > 0,
    ensures
        ({
            let t = resolved_path(from, specifier);
            let tried = seq![t, t + ".js"@, t + ".cjs"@, t + ".mjs"@, t + ".ts"@, t + ".cts"@,
                t + ".mts"@, t + ".jsx"@, t + ".tsx"@, t + "/index.js"@, t + "/index.ts"@];
            &&& forall|k: int| 0 <= k < tried.len() && paths.contains(#[trigger] tried[k])
                && (forall|j: int| 0 <= j < k ==> !paths.contains(tried[j]))
                ==> import_target(from, specifier, paths) == Some(tried[k])
            &&& (forall|k: int| 0 <= k < tried.len() ==> !paths.contains(#[trigger] tried[k]))
                ==> import_target(from, specifier, paths) is None
        }),
{
    let t = resolved_path(from, specifier);
    let tried = seq![t, t + ".js"@, t + ".cjs"@, t + ".mjs"@, t + ".ts"@, t + ".cts"@,
        t + ".mts"@, t + ".jsx"@, t + ".tsx"@, t + "/index.js"@, t + "/index.ts"@];
    assert(tried =~= import_candidates(t));
    assert forall|k: int| 0 <= k < tried.len() && paths.contains(#[trigger] tried[k])
        && (forall|j: int| 0 <= j < k ==> !paths.contains(tried[j]))
        implies import_target(from, specifier, paths) == Some(tried[k]) by {
        lemma_first_known_at(tried, paths, 0, k);
    }
    if forall|k: int| 0 <= k < tried.len() ==> !paths.contains(#[trigger] tried[k]) {
        lemma_first_known_none(tried, paths, 0);
    }
}

fn known(paths: &Vec<Vec<char>>, c: &[char]) -> (r: bool)
    ensures
        r == vecs_view(paths@).contains(c@),
{
    let mut i: usize = 0;
    while i < paths.len()
        invariant
            i <= paths@.len(),
            forall|j: int| 0 <= j < i ==> vecs_view(paths@)[j] != c@,
        decreases paths.len() - i,
    {
        if eq_chars(&paths[i], c) {
            assert(vecs_view(paths@)[i as int] == c@);
            return true;
        }
        i = i + 1;
    }
    false
}

/// The module path that a relative import from `from` resolves to, among `paths`.
pub fn resolve_import(from: &[char], specifier: &[char], paths: &Vec<Vec<char>>) -> (r: Option<Vec<char>>)
    ensures
        match r {
            Some(v) => import_target(from@, specifier@, vecs_view(paths@)) == Some(v@)
                && vecs_view(paths@).contains(v@),
            None => import_target(from@, specifier@, vecs_view(paths@)).is_none(),
        },
{
    let target = resolve_from(from, specifier);
    if target.len() == 0 {
        return None;
    }
    let suffixes = ["", ".js", ".cjs", ".mjs", ".ts", ".cts", ".mts", ".jsx", ".tsx", "/index.js", "/index.ts"];
    let ghost cands = import_candidates(target@);
    proof {
        reveal_strlit("");
        assert(target@ + ""@ =~= target@);
    }
    assert(forall|k: int| 0 <= k < 11 ==> cands[k] == target@ + #[trigger] suffixes@[k]@);
    let mut k: usize = 0;
    while k < 11
        invariant
            k <= 11,
            target@ == resolved_path(from@, specifier@),
            target@.len() > 0,
            cands == import_candidates(target@),
            forall|q: int| 0 <= q < 11 ==> cands[q] == target@ + #[trigger] suffixes@[q]@,
            first_known(cands, vecs_view(paths@), 0) == first_known(cands, vecs_view(paths@), k as int),
        decreases 11 - k,
    {
        let mut cand = copy_chars(&target);
        let tail = chars_of(suffixes[k]);
        let mut q: usize = 0;
        while q < tail.len()
            invariant
                q <= tail@.len(),
                cand@ == target@ + tail@.subrange(0, q as int),
            decreases tail.len() - q,
        {
            cand.push(tail[q]);
            assert(cand@ =~= target@ + tail@.subrange(0, q + 1));
            q = q + 1;
        }
        assert(tail@.subrange(0, tail@.len() as int) =~= tail@);
        assert(cand@ == cands[k as int]);
        if known(paths, &cand) {
            assert(cands.len() == 11);
            assert(first_known(cands, vecs_view(paths@), k as int) == Some(cand@));
            return Some(cand);
        }
        k = k + 1;
    }
    None
}

/// Bare module names that the runtime provides.
pub open spec fn builtin_modules() -> Seq<Seq<char>> {
    seq!["fs"@, "os"@, "path"@, "http"@, "https"@, "vm"@, "child_process"@, "crypto"@, "net"@, "tls"@]
}

/// A bare import the analysis does not report: a runtime module.
pub open spec fn is_builtin(specifier: Seq<char>) -> bool {
    seq_starts_with(specifier, "node:"@) || builtin_modules().contains(specifier)
}

/// The most import edges (resolved or not) that the graph records.
pub const MAX_EDGES: usize = 50000;

/// The most steps in an execution route.
pub const MAX_ROUTE: usize = 64;

/// What reading the imports of the modules yields.
#[verifier::ext_equal]
pub struct ImportScan {
    pub edges: Seq<(Seq<char>, Seq<char>, u64)>,
    pub unresolved: Seq<Seq<char>>,
    pub reasons: Seq<Seq<char>>,
}

pub open spec fn edge_limit_message() -> Seq<char> {
    "JS/TS graph edge limit of "@ + decimal(MAX_EDGES as nat) + " reached"@
}

pub open spec fn import_message(path: Seq<char>, line: u64, specifier: Seq<char>, why: Seq<char>) -> Seq<char> {
    path + ":"@ + decimal(line as nat) + " -> "@ + specifier + why
}

/// The state after one import of the module at `path`.
pub open spec fn scan_import(paths: Seq<Seq<char>>, path: Seq<char>, import: ImportFact, st: ImportScan) -> ImportScan {
    let specifier = import.specifier@;
    if !seq_starts_with(specifier, "."@) {
        if is_builtin(specifier) {
            st
        } else {
            ImportScan {
                unresolved: st.unresolved.push(import_message(path, import.line, specifier, " (external package not inspected)"@)),
                ..st
            }
        }
    } else {
        match import_target(path, specifier, paths) {
            Some(target) => ImportScan { edges: st.edges.push((path, target, import.line)), ..st },
            None => ImportScan {
                unresolved: st.unresolved.push(import_message(path, import.line, specifier, " (relative import unresolved)"@)),
                ..st
            },
        }
    }
}

/// The state after the imports of one module from the `j`-th on; the edge
/// limit ends the module's imports with a reason.
pub open spec fn scan_module_imports(paths: Seq<Seq<char>>, m: ModuleFacts, j: int, st: ImportScan) -> ImportScan
    decreases m.imports@.len() - j,
{
    if j < 0 || j >= m.imports@.len() {
        st
    } else if st.edges.len() + st.unresolved.len() >= MAX_EDGES {
        ImportScan { reasons: st.reasons.push(edge_limit_message()), ..st }
    } else {
        scan_module_imports(paths, m, j + 1, scan_import(paths, m.path@, m.imports@[j], st))
    }
}

/// The state after the modules from the `i`-th on.
pub open spec fn scan_modules(paths: Seq<Seq<char>>, modules: Seq<ModuleFacts>, i: int, st: ImportScan) -> ImportScan
    decreases modules.len() - i,
{
    if i < 0 || i >= modules.len() {
        st
    } else {
        scan_modules(paths, modules, i + 1, scan_module_imports(paths, modules[i], 0, st))
    }
}

/// The paths of the modules.
pub open spec fn module_paths(modules: Seq<ModuleFacts>) -> Seq<Seq<char>> {
    modules.map_values(|m: ModuleFacts| m.path@)
}

pub open spec fn edges_view(e: Seq<(Vec<char>, Vec<char>, u64)>) -> Seq<(Seq<char>, Seq<char>, u64)> {
    e.map_values(|x: (Vec<char>, Vec<char>, u64)| (x.0@, x.1@, x.2))
}

pub open spec fn scan_view(e: Seq<(Vec<char>, Vec<char>, u64)>, u: Seq<String>, r: Seq<String>) -> ImportScan {
    ImportScan { edges: edges_view(e), unresolved: crate::model::strings_view(u), reasons: crate::model::strings_view(r) }
}

fn import_line(path: &[char], line: u64, specifier: &[char], why: &str) -> (r: String)
    ensures
        r@ == import_message(path@, line, specifier@, why@),
{
    let mut s = string_from_chars(path);
    push_str(&mut s, ":");
    push_decimal(&mut s, line);
    push_str(&mut s, " -> ");
    let t = string_from_chars(specifier);
    push_str(&mut s, t.as_str());
    push_str(&mut s, why);
    s
}

fn scan_imports(modules: &[ModuleFacts], paths: &Vec<Vec<char>>) -> (r: (Vec<(Vec<char>, Vec<char>, u64)>, Vec<String>, Vec<String>))
    requires
        vecs_view(paths@) == module_paths(modules@),
    ensures
        scan_view(r.0@, r.1@, r.2@) == scan_modules(module_paths(modules@), modules@, 0,
            ImportScan { edges: Seq::empty(), unresolved: Seq::empty(), reasons: Seq::empty() }),
        r.0@.len() + r.1@.len() <= MAX_EDGES,
        forall|e: int| 0 <= e < r.0@.len() ==> module_paths(modules@).contains(#[trigger] edges_view(r.0@)[e].1),
{
    let ghost pv = module_paths(modules@);
    let mut edges: Vec<(Vec<char>, Vec<char>, u64)> = Vec::new();
    let mut unresolved: Vec<String> = Vec::new();
    let mut reasons: Vec<String> = Vec::new();
    let ghost goal = scan_modules(pv, modules@, 0, scan_view(edges@, unresolved@, reasons@));
    assert(scan_view(edges@, unresolved@, reasons@) =~= ImportScan { edges: Seq::empty(), unresolved: Seq::empty(), reasons: Seq::empty() });
    let builtins = ["fs", "os", "path", "http", "https", "vm", "child_process", "crypto", "net", "tls"];
    assert(strs_view(builtins@) =~= builtin_modules());
    let mut i: usize = 0;
    while i < modules.len()
        invariant
            i <= modules@.len(),
            pv == module_paths(modules@),
            vecs_view(paths@) == pv,
            strs_view(builtins@) == builtin_modules(),
            goal == scan_modules(pv, modules@, i as int, scan_view(edges@, unresolved@, reasons@)),
            edges@.len() + unresolved@.len() <= MAX_EDGES,
            forall|e: int| 0 <= e < edges@.len() ==> pv.contains(#[trigger] edges_view(edges@)[e].1),
        decreases modules.len() - i,
    {
        let m = &modules[i];
        let ghost start = scan_view(edges@, unresolved@, reasons@);
        let ghost inner = scan_module_imports(pv, modules@[i as int], 0, start);
        let path = chars_of(m.path.as_str());
        let mut j: usize = 0;
        let mut stopped = false;
        while j < m.imports.len() && !stopped
            invariant
                i < modules@.len(),
                *m == modules@[i as int],
                path@ == m.path@,
                pv == module_paths(modules@),
                vecs_view(paths@) == pv,
                strs_view(builtins@) == builtin_modules(),
                j <= m.imports@.len(),
                stopped ==> inner == scan_view(edges@, unresolved@, reasons@),
                !stopped ==> inner == scan_module_imports(pv, *m, j as int, scan_view(edges@, unresolved@, reasons@)),
                edges@.len() + unresolved@.len() <= MAX_EDGES,
                forall|e: int| 0 <= e < edges@.len() ==> pv.contains(#[trigger] edges_view(edges@)[e].1),
            decreases m.imports.len() - j, (if stopped { 0int } else { 1int }),
        {
            let ghost before = scan_view(edges@, unresolved@, reasons@);
            if edges.len() + unresolved.len() >= MAX_EDGES {
                let mut msg = String::new();
                push_str(&mut msg, "JS/TS graph edge limit of ");
                push_decimal(&mut msg, MAX_EDGES as u64);
                push_str(&mut msg, " reached");
                assert(msg@ =~= edge_limit_message());
                reasons.push(msg);
                assert(scan_view(edges@, unresolved@, reasons@) =~= ImportScan { reasons: before.reasons.push(edge_limit_message()), ..before });
                stopped = true;
            } else {
                let import = &m.imports[j];
                let spec = chars_of(import.specifier.as_str());
                if !chars_start_with_str(&spec, ".") {
                    if !(chars_start_with_str(&spec, "node:") || is_one_of(&spec, &builtins)) {
                        let msg = import_line(&path, import.line, &spec, " (external package not inspected)");
                        unresolved.push(msg);
                        assert(scan_view(edges@, unresolved@, reasons@) =~= scan_import(pv, m.path@, m.imports@[j as int], before));
                    } else {
                        assert(scan_view(edges@, unresolved@, reasons@) =~= scan_import(pv, m.path@, m.imports@[j as int], before));
                    }
                } else {
                    match resolve_import(&path, &spec, paths) {
                        Some(target) => {
                            let ghost eb = edges@;
                            edges.push((copy_chars(&path), target, import.line));
                            assert forall|e: int| 0 <= e < edges@.len() implies pv.contains(#[trigger] edges_view(edges@)[e].1) by {
                                if e < eb.len() {
                                    assert(edges_view(edges@)[e] == edges_view(eb)[e]);
                                }
                            }
                            assert(scan_view(edges@, unresolved@, reasons@) =~= scan_import(pv, m.path@, m.imports@[j as int], before));
                        },
                        None => {
                            let msg = import_line(&path, import.line, &spec, " (relative import unresolved)");
                            unresolved.push(msg);
                            assert(scan_view(edges@, unresolved@, reasons@) =~= scan_import(pv, m.path@, m.imports@[j as int], before));
                        },
                    }
                }
                j = j + 1;
            }
        }
        i = i + 1;
    }
    (edges, unresolved, reasons)
}


/// An execution root: a file that something in the repository runs.
#[derive(Clone, Debug)]
pub struct Root {
    pub file: String,
    pub trigger: String,
    pub line: Option<u64>,
}

/// The first step of a route: what runs the root.
pub open spec fn trigger_step(trigger: Seq<char>, line: Option<u64>) -> Seq<char> {
    "trigger: "@ + trigger + match line {
        Some(l) => " at line "@ + decimal(l as nat),
        None => Seq::empty(),
    }
}

pub open spec fn entry_step(path: Seq<char>) -> Seq<char> {
    "entry: "@ + path
}

/// `route` leads to `key`: it starts with a root's trigger and entry, and
/// each further step follows an import edge to the next module.
pub open spec fn valid_route(roots: Seq<Root>, edges: Seq<(Seq<char>, Seq<char>, u64)>, route: Seq<Seq<char>>, key: Seq<char>) -> bool
    decreases route.len(),
{
    if route.len() <= 2 {
        route.len() == 2 && exists|k: int| 0 <= k < roots.len() && (#[trigger] roots[k]).file@ == key
            && route == seq![trigger_step(roots[k].trigger@, roots[k].line), entry_step(key)]
    } else {
        exists|e: int| 0 <= e < edges.len() && (#[trigger] edges[e]).1 == key
            && route.last() == import_step(edges[e].0, edges[e].2, key)
            && valid_route(roots, edges, route.drop_last(), edges[e].0)
    }
}

/// Every entry of `r` holds a route that leads to its module.
pub open spec fn routes_valid(roots: Seq<Root>, edges: Seq<(Seq<char>, Seq<char>, u64)>, r: Seq<(Vec<char>, Vec<String>)>) -> bool {
    forall|q: int| 0 <= q < r.len() ==> valid_route(roots, edges, strings_view((#[trigger] r[q]).1@), r[q].0@)
}

proof fn lemma_routes_push(roots: Seq<Root>, edges: Seq<(Seq<char>, Seq<char>, u64)>, r: Seq<(Vec<char>, Vec<String>)>, x: (Vec<char>, Vec<String>))
    requires
        routes_valid(roots, edges, r),
        valid_route(roots, edges, strings_view(x.1@), x.0@),
    ensures
        routes_valid(roots, edges, r.push(x)),
{
    assert forall|q: int| 0 <= q < r.push(x).len() implies valid_route(roots, edges, strings_view((#[trigger] r.push(x)[q]).1@), r.push(x)[q].0@) by {
        if q < r.len() {
            assert(r.push(x)[q] == r[q]);
        }
    }
}

/// `key` is among the modules of `r`, reached by a route of at most `n` steps.
pub open spec fn reached_within(r: Seq<(Vec<char>, Vec<String>)>, key: Seq<char>, n: int) -> bool {
    exists|p: int| 0 <= p < r.len() && (#[trigger] r[p]).0@ == key && r[p].1@.len() <= n
}

/// The file at which a route enters the graph.
pub open spec fn route_entry(route: Seq<Seq<char>>) -> Seq<char> {
    route[1].skip(7)
}

/// Once every reached module has been followed, a route from a root that is
/// a module is never shorter than the route the search found, unless the
/// search stopped at its depth limit.
proof fn lemma_no_shorter_route(roots: Seq<Root>, edges: Seq<(Seq<char>, Seq<char>, u64)>, pv: Seq<Seq<char>>,
    r: Seq<(Vec<char>, Vec<String>)>, limited: bool, route: Seq<Seq<char>>, x: Seq<char>)
    requires
        valid_route(roots, edges, route, x),
        pv.contains(route_entry(route)),
        forall|j: int| 0 <= j < roots.len() && pv.contains(#[trigger] roots[j].file@) ==> reached_within(r, roots[j].file@, 2),
        forall|q: int, e: int| 0 <= q < r.len() && 0 <= e < edges.len() && #[trigger] edges[e].0 == (#[trigger] r[q]).0@
            ==> reached_within(r, edges[e].1, r[q].1@.len() as int + 1) || (r[q].1@.len() >= MAX_ROUTE && limited),
    ensures
        reached_within(r, x, route.len() as int) || limited,
    decreases route.len(),
{
    if route.len() <= 2 {
        let k = choose|k: int| 0 <= k < roots.len() && (#[trigger] roots[k]).file@ == x
            && route == seq![trigger_step(roots[k].trigger@, roots[k].line), entry_step(x)];
        reveal_strlit("entry: ");
        assert(route_entry(route) =~= x);
    } else {
        let e = choose|e: int| 0 <= e < edges.len() && (#[trigger] edges[e]).1 == x
            && route.last() == import_step(edges[e].0, edges[e].2, x)
            && valid_route(roots, edges, route.drop_last(), edges[e].0);
        assert(route_entry(route.drop_last()) == route_entry(route));
        lemma_no_shorter_route(roots, edges, pv, r, limited, route.drop_last(), edges[e].0);
        if reached_within(r, edges[e].0, route.len() - 1) {
            let p = choose|p: int| 0 <= p < r.len() && (#[trigger] r[p]).0@ == edges[e].0 && r[p].1@.len() <= route.len() - 1;
            if reached_within(r, x, r[p].1@.len() as int + 1) {
                let w = choose|w: int| 0 <= w < r.len() && (#[trigger] r[w]).0@ == x && r[w].1@.len() <= r[p].1@.len() + 1;
                assert(r[w].1@.len() <= route.len());
            }
        }
    }
}

proof fn lemma_routes_set(roots: Seq<Root>, edges: Seq<(Seq<char>, Seq<char>, u64)>, r: Seq<(Vec<char>, Vec<String>)>, p: int, x: (Vec<char>, Vec<String>))
    requires
        routes_valid(roots, edges, r),
        0 <= p < r.len(),
        valid_route(roots, edges, strings_view(x.1@), x.0@),
    ensures
        routes_valid(roots, edges, r.update(p, x)),
{
    assert forall|q: int| 0 <= q < r.update(p, x).len() implies valid_route(roots, edges, strings_view((#[trigger] r.update(p, x)[q]).1@), r.update(p, x)[q].0@) by {
        if q != p {
            assert(r.update(p, x)[q] == r[q]);
        }
    }
}

pub open spec fn import_step(source: Seq<char>, line: u64, target: Seq<char>) -> Seq<char> {
    source + ":"@ + decimal(line as nat) + " imports "@ + target
}

pub open spec fn entry_message(trigger: Seq<char>, file: Seq<char>) -> Seq<char> {
    trigger + " -> "@ + file + " (entry unresolved)"@
}

pub open spec fn depth_message() -> Seq<char> {
    "JS/TS execution route depth limit of "@ + decimal(MAX_ROUTE as nat) + " reached"@
}

/// The messages for the roots whose file is not a module.
pub open spec fn unresolved_roots(roots: Seq<Root>, paths: Seq<Seq<char>>) -> Seq<Seq<char>>
    decreases roots.len(),
{
    if roots.len() == 0 {
        Seq::empty()
    } else {
        let r = roots.last();
        unresolved_roots(roots.drop_last(), paths) + if paths.contains(r.file@) {
            Seq::empty()
        } else {
            seq![entry_message(r.trigger@, r.file@)]
        }
    }
}

/// The files of the roots.
pub open spec fn root_files(roots: Seq<Root>) -> Seq<Seq<char>> {
    roots.map_values(|r: Root| r.file@)
}

pub open spec fn reach_keys(r: Seq<(Vec<char>, Vec<String>)>) -> Seq<Seq<char>> {
    r.map_values(|e: (Vec<char>, Vec<String>)| e.0@)
}

/// Every distinct element of `a` occurs in `b`, so `a` is no longer.
pub proof fn lemma_distinct_within(a: Seq<Seq<char>>, b: Seq<Seq<char>>)
    requires
        a.no_duplicates(),
        forall|i: int| 0 <= i < a.len() ==> b.contains(#[trigger] a[i]),
    ensures
        a.len() <= b.len(),
{
    broadcast use vstd::seq_lib::seq_to_set_is_finite;
    a.unique_seq_to_set();
    b.lemma_cardinality_of_set();
    assert(a.to_set().subset_of(b.to_set())) by {
        assert forall|x: Seq<char>| a.to_set().contains(x) implies b.to_set().contains(x) by {
            let i = choose|i: int| 0 <= i < a.len() && a[i] == x;
            assert(b.contains(a[i]));
        }
    }
    vstd::set_lib::lemma_len_subset(a.to_set(), b.to_set());
}

fn key_index(r: &Vec<(Vec<char>, Vec<String>)>, key: &[char]) -> (k: Option<usize>)
    ensures
        match k {
            Some(k) => k < r@.len() && reach_keys(r@)[k as int] == key@,
            None => !reach_keys(r@).contains(key@),
        },
{
    let mut i: usize = 0;
    while i < r.len()
        invariant
            i <= r@.len(),
            forall|j: int| 0 <= j < i ==> reach_keys(r@)[j] != key@,
        decreases r.len() - i,
    {
        if eq_chars(&r[i].0, key) {
            return Some(i);
        }
        i = i + 1;
    }
    None
}

fn first_step(root: &Root) -> (r: String)
    ensures
        r@ == trigger_step(root.trigger@, root.line),
{
    let mut s = String::new();
    push_str(&mut s, "trigger: ");
    push_str(&mut s, root.trigger.as_str());
    match root.line {
        Some(l) => {
            push_str(&mut s, " at line ");
            push_decimal(&mut s, l);
        },
        None => {},
    }
    s
}

/// The modules that the roots reach over the edges, each with the route
/// that first reached it.
fn reach(
    paths: &Vec<Vec<char>>,
    edges: &Vec<(Vec<char>, Vec<char>, u64)>,
    roots: &[Root],
    unresolved: &mut Vec<String>,
    reasons: &mut Vec<String>,
) -> (r: Vec<(Vec<char>, Vec<String>)>)
    requires
        forall|e: int| 0 <= e < edges@.len() ==> vecs_view(paths@).contains(#[trigger] edges_view(edges@)[e].1),
    ensures
        reach_keys(r@).no_duplicates(),
        forall|q: int| 0 <= q < r@.len() ==> vecs_view(paths@).contains(#[trigger] reach_keys(r@)[q]),
        forall|k: int| 0 <= k < roots.len() && vecs_view(paths@).contains(#[trigger] roots@[k].file@)
            ==> reach_keys(r@).contains(roots@[k].file@),
        crate::model::strings_view(final(unresolved)@) == crate::model::strings_view(old(unresolved)@)
            + unresolved_roots(roots@, vecs_view(paths@)),
        forall|q: int, e: int| 0 <= q < r@.len() && 0 <= e < edges@.len()
            && #[trigger] edges_view(edges@)[e].0 == #[trigger] reach_keys(r@)[q]
            ==> reach_keys(r@).contains(edges_view(edges@)[e].1)
                || (r@[q].1@.len() >= MAX_ROUTE && final(reasons)@.len() > old(reasons)@.len()),
        forall|q: int| 0 <= q < r@.len() ==> root_files(roots@).contains(#[trigger] reach_keys(r@)[q])
            || exists|e: int| 0 <= e < edges@.len() && #[trigger] edges_view(edges@)[e].1 == reach_keys(r@)[q]
                && reach_keys(r@).contains(edges_view(edges@)[e].0),
        forall|q: int| 0 <= q < r@.len() ==> 2 <= (#[trigger] r@[q]).1@.len() <= MAX_ROUTE
            && seq_starts_with(r@[q].1@[0]@, "trigger: "@),
        final(reasons)@.len() >= old(reasons)@.len(),
        final(reasons)@.subrange(0, old(reasons)@.len() as int) == old(reasons)@,
        forall|i: int| old(reasons)@.len() <= i < final(reasons)@.len() ==> (#[trigger] final(reasons)@[i])@ == depth_message(),
        routes_valid(roots@, edges_view(edges@), r@),
        forall|route: Seq<Seq<char>>, x: Seq<char>| #[trigger] valid_route(roots@, edges_view(edges@), route, x)
            && vecs_view(paths@).contains(route_entry(route))
            ==> reached_within(r@, x, route.len() as int) || final(reasons)@.len() > old(reasons)@.len(),
        final(reasons)@.len() > old(reasons)@.len() ==> exists|q: int| 0 <= q < r@.len() && (#[trigger] r@[q]).1@.len() >= MAX_ROUTE,
{
    let ghost pv = vecs_view(paths@);
    let ghost ev = edges_view(edges@);
    let ghost reasons0 = reasons@;
    let ghost unresolved0 = unresolved@;
    let mut reachable: Vec<(Vec<char>, Vec<String>)> = Vec::new();
    let mut queue: Vec<(Vec<char>, Vec<String>)> = Vec::new();
    let mut k: usize = 0;
    while k < roots.len()
        invariant
            k <= roots@.len(),
            pv == vecs_view(paths@),
            reasons@ == reasons0,
            crate::model::strings_view(unresolved@) == crate::model::strings_view(unresolved0)
                + unresolved_roots(roots@.subrange(0, k as int), pv),
            reach_keys(reachable@).no_duplicates(),
            forall|q: int| 0 <= q < reachable@.len() ==> pv.contains(#[trigger] reach_keys(reachable@)[q]),
            forall|j: int| 0 <= j < k && pv.contains(#[trigger] roots@[j].file@) ==> reach_keys(reachable@).contains(roots@[j].file@),
            forall|q: int| 0 <= q < reachable@.len() ==> root_files(roots@).contains(#[trigger] reach_keys(reachable@)[q]),
            forall|q: int| 0 <= q < reachable@.len() ==> (#[trigger] reachable@[q]).1@.len() == 2,
            forall|q: int| 0 <= q < queue@.len() ==> (#[trigger] queue@[q]).1@.len() == 2,
            queue@.len() == reachable@.len(),
            forall|q: int| 0 <= q < queue@.len() ==> (#[trigger] queue@[q]).0@ == reachable@[q].0@
                && queue@[q].1@.len() == reachable@[q].1@.len(),
            forall|q: int| 0 <= q < reachable@.len() ==> 2 <= (#[trigger] reachable@[q]).1@.len() <= MAX_ROUTE
                && seq_starts_with(reachable@[q].1@[0]@, "trigger: "@),
            forall|q: int| 0 <= q < queue@.len() ==> 2 <= (#[trigger] queue@[q]).1@.len() <= MAX_ROUTE
                && seq_starts_with(queue@[q].1@[0]@, "trigger: "@),
            ev == edges_view(edges@),
            routes_valid(roots@, ev, reachable@),
            routes_valid(roots@, ev, queue@),
            forall|j: int| 0 <= j < k && pv.contains(#[trigger] roots@[j].file@) ==> reached_within(reachable@, roots@[j].file@, 2),
        decreases roots.len() - k,
    {
        let root = &roots[k];
        let file = chars_of(root.file.as_str());
        assert(roots@.subrange(0, k + 1).drop_last() =~= roots@.subrange(0, k as int));
        assert(root_files(roots@)[k as int] == root.file@);
        if known(paths, &file) {
            let mut route: Vec<String> = Vec::new();
            route.push(first_step(root));
            let mut entry = String::new();
            push_str(&mut entry, "entry: ");
            push_str(&mut entry, root.file.as_str());
            route.push(entry);
            proof {
                reveal_strlit("trigger: ");
                assert(seq_starts_with(route@[0]@, "trigger: "@)) by {
                    assert(route@[0]@.subrange(0, "trigger: "@.len() as int) =~= "trigger: "@);
                }
                assert(strings_view(route@) =~= seq![trigger_step(roots@[k as int].trigger@, roots@[k as int].line), entry_step(file@)]);
                assert(valid_route(roots@, ev, strings_view(route@), file@));
            }
            match key_index(&reachable, &file) {
                Some(p) => {
                    let ghost before = reachable@;
                    reachable.set(p, (file, route));
                    proof { lemma_routes_set(roots@, ev, before, p as int, reachable@[p as int]); }
                    assert(reachable@ == before.update(p as int, reachable@[p as int]));
                    assert forall|j: int| 0 <= j < k + 1 && pv.contains(#[trigger] roots@[j].file@)
                        implies reached_within(reachable@, roots@[j].file@, 2) by {
                        if j < k {
                            let w = choose|w: int| 0 <= w < before.len() && (#[trigger] before[w]).0@ == roots@[j].file@ && before[w].1@.len() <= 2;
                            if w == p { assert(reachable@[p as int].0@ == roots@[j].file@); } else { assert(reachable@[w] == before[w]); }
                        } else {
                            assert(reachable@[p as int].0@ == roots@[j].file@);
                        }
                    }
                    assert(reach_keys(reachable@) =~= reach_keys(before));
                    assert forall|j: int| 0 <= j < k + 1 && pv.contains(#[trigger] roots@[j].file@) implies
                        reach_keys(reachable@).contains(roots@[j].file@) by {
                        if j < k {
                            let w = choose|w: int| 0 <= w < reach_keys(before).len() && reach_keys(before)[w] == roots@[j].file@;
                            assert(reach_keys(reachable@)[w] == roots@[j].file@);
                        } else {
                            assert(reach_keys(reachable@)[p as int] == roots@[j].file@);
                        }
                    }
                },
                None => {
                    let ghost before = reachable@;
                    let ghost qbefore = queue@;
                    let copy = clone_strings(&route);
                    reachable.push((copy_chars(&file), route));
                    queue.push((file, copy));
                    proof {
                        lemma_routes_push(roots@, ev, before, reachable@.last());
                        lemma_routes_push(roots@, ev, qbefore, queue@.last());
                        assert(reachable@ == before.push(reachable@.last()));
                        assert(queue@ == qbefore.push(queue@.last()));
                    }
                    assert forall|j: int| 0 <= j < k + 1 && pv.contains(#[trigger] roots@[j].file@)
                        implies reached_within(reachable@, roots@[j].file@, 2) by {
                        if j < k {
                            let w = choose|w: int| 0 <= w < before.len() && (#[trigger] before[w]).0@ == roots@[j].file@ && before[w].1@.len() <= 2;
                            assert(reachable@[w] == before[w]);
                        } else {
                            assert(reachable@[before.len() as int].0@ == roots@[j].file@);
                        }
                    }
                    assert(reach_keys(reachable@) =~= reach_keys(before).push(root.file@));
                    assert forall|j: int| 0 <= j < k + 1 && pv.contains(#[trigger] roots@[j].file@) implies
                        reach_keys(reachable@).contains(roots@[j].file@) by {
                        if j < k {
                            let w = choose|w: int| 0 <= w < reach_keys(before).len() && reach_keys(before)[w] == roots@[j].file@;
                            assert(reach_keys(reachable@)[w] == roots@[j].file@);
                        } else {
                            assert(reach_keys(reachable@)[before.len() as int] == roots@[j].file@);
                        }
                    }
                    assert forall|j: int| 0 <= j < reach_keys(reachable@).len() implies
                        root_files(roots@).contains(#[trigger] reach_keys(reachable@)[j]) by {
                        if j == before.len() {
                            assert(root_files(roots@)[k as int] == reach_keys(reachable@)[j]);
                        } else {
                            assert(reach_keys(reachable@)[j] == reach_keys(before)[j]);
                        }
                    }
                },
            }
            assert(crate::model::strings_view(unresolved@) =~= crate::model::strings_view(unresolved0)
                + unresolved_roots(roots@.subrange(0, k + 1), pv));
        } else {
            let mut msg = String::new();
            push_str(&mut msg, root.trigger.as_str());
            push_str(&mut msg, " -> ");
            push_str(&mut msg, root.file.as_str());
            push_str(&mut msg, " (entry unresolved)");
            let ghost before = unresolved@;
            unresolved.push(msg);
            assert(crate::model::strings_view(unresolved@) =~= crate::model::strings_view(before).push(msg@));
            assert(crate::model::strings_view(unresolved@) =~= crate::model::strings_view(unresolved0)
                + unresolved_roots(roots@.subrange(0, k + 1), pv));
        }
        k = k + 1;
    }
    assert(roots@.subrange(0, roots@.len() as int) =~= roots@);
    let mut head: usize = 0;
    proof {
        lemma_distinct_within(reach_keys(reachable@), pv);
    }
    while head < queue.len()
        invariant
            pv == vecs_view(paths@),
            reasons@.len() >= reasons0.len(),
            reasons@.subrange(0, reasons0.len() as int) == reasons0,
            forall|i: int| reasons0.len() <= i < reasons@.len() ==> (#[trigger] reasons@[i])@ == depth_message(),
            crate::model::strings_view(unresolved@) == crate::model::strings_view(unresolved0)
                + unresolved_roots(roots@, pv),
            reach_keys(reachable@).no_duplicates(),
            reachable@.len() <= pv.len(),
            forall|q: int| 0 <= q < reachable@.len() ==> pv.contains(#[trigger] reach_keys(reachable@)[q]),
            forall|j: int| 0 <= j < roots@.len() && pv.contains(#[trigger] roots@[j].file@) ==> reach_keys(reachable@).contains(roots@[j].file@),
            forall|q: int| 0 <= q < reachable@.len() ==> root_files(roots@).contains(#[trigger] reach_keys(reachable@)[q])
                || exists|e: int| 0 <= e < edges@.len() && #[trigger] edges_view(edges@)[e].1 == reach_keys(reachable@)[q]
                    && reach_keys(reachable@).contains(edges_view(edges@)[e].0),
            head <= queue@.len(),
            forall|e2: int| 0 <= e2 < edges@.len() ==> pv.contains(#[trigger] edges_view(edges@)[e2].1),
            queue@.len() == reachable@.len(),
            forall|q: int| 0 <= q < queue@.len() ==> (#[trigger] queue@[q]).0@ == reachable@[q].0@
                && queue@[q].1@.len() == reachable@[q].1@.len(),
            forall|q: int| 0 <= q < reachable@.len() ==> 2 <= (#[trigger] reachable@[q]).1@.len() <= MAX_ROUTE
                && seq_starts_with(reachable@[q].1@[0]@, "trigger: "@),
            forall|q: int| 0 <= q < queue@.len() ==> 2 <= (#[trigger] queue@[q]).1@.len() <= MAX_ROUTE
                && seq_starts_with(queue@[q].1@[0]@, "trigger: "@),
            forall|q: int, e: int| 0 <= q < head && 0 <= e < edges@.len()
                && #[trigger] edges_view(edges@)[e].0 == #[trigger] reach_keys(reachable@)[q]
                ==> reach_keys(reachable@).contains(edges_view(edges@)[e].1)
                    || (reachable@[q].1@.len() >= MAX_ROUTE && reasons@.len() > reasons0.len()),
            ev == edges_view(edges@),
            routes_valid(roots@, ev, reachable@),
            routes_valid(roots@, ev, queue@),
            forall|j: int| 0 <= j < roots@.len() && pv.contains(#[trigger] roots@[j].file@) ==> reached_within(reachable@, roots@[j].file@, 2),
            reasons@.len() > reasons0.len() ==> exists|q: int| 0 <= q < reachable@.len() && (#[trigger] reachable@[q]).1@.len() >= MAX_ROUTE,
            forall|q1: int, q2: int| 0 <= q1 <= q2 < queue@.len() ==> (#[trigger] queue@[q1]).1@.len() <= (#[trigger] queue@[q2]).1@.len(),
            forall|q1: int, q2: int| head <= q1 < queue@.len() && 0 <= q2 < queue@.len()
                ==> (#[trigger] queue@[q2]).1@.len() <= (#[trigger] queue@[q1]).1@.len() + 1,
            forall|q: int, e: int| 0 <= q < head && 0 <= e < edges@.len() && #[trigger] ev[e].0 == (#[trigger] reachable@[q]).0@
                ==> reached_within(reachable@, ev[e].1, reachable@[q].1@.len() as int + 1)
                    || (reachable@[q].1@.len() >= MAX_ROUTE && reasons@.len() > reasons0.len()),
        decreases pv.len() - head,
    {
        let source = copy_chars(&queue[head].0);
        let route = clone_strings(&queue[head].1);
        let ghost hk = reach_keys(reachable@)[head as int];
        assert(valid_route(roots@, ev, strings_view(route@), hk)) by {
            assert(valid_route(roots@, ev, strings_view((queue@[head as int]).1@), queue@[head as int].0@));
        }
        let mut e: usize = 0;
        while e < edges.len()
            invariant
                pv == vecs_view(paths@),
                head < queue@.len(),
                source@ == hk,
                hk == reach_keys(reachable@)[head as int],
                route@.len() == reachable@[head as int].1@.len(),
                2 <= route@.len() <= MAX_ROUTE,
                seq_starts_with(route@[0]@, "trigger: "@),
                e <= edges@.len(),
                reachable@.len() <= pv.len(),
                forall|e2: int| 0 <= e2 < edges@.len() ==> pv.contains(#[trigger] edges_view(edges@)[e2].1),
                reasons@.len() >= reasons0.len(),
                reasons@.subrange(0, reasons0.len() as int) == reasons0,
                forall|i: int| reasons0.len() <= i < reasons@.len() ==> (#[trigger] reasons@[i])@ == depth_message(),
                crate::model::strings_view(unresolved@) == crate::model::strings_view(unresolved0)
                    + unresolved_roots(roots@, pv),
                reach_keys(reachable@).no_duplicates(),
                forall|q: int| 0 <= q < reachable@.len() ==> pv.contains(#[trigger] reach_keys(reachable@)[q]),
                forall|j: int| 0 <= j < roots@.len() && pv.contains(#[trigger] roots@[j].file@) ==> reach_keys(reachable@).contains(roots@[j].file@),
                forall|q: int| 0 <= q < reachable@.len() ==> root_files(roots@).contains(#[trigger] reach_keys(reachable@)[q])
                    || exists|e2: int| 0 <= e2 < edges@.len() && #[trigger] edges_view(edges@)[e2].1 == reach_keys(reachable@)[q]
                        && reach_keys(reachable@).contains(edges_view(edges@)[e2].0),
                queue@.len() == reachable@.len(),
                forall|q: int| 0 <= q < queue@.len() ==> (#[trigger] queue@[q]).0@ == reachable@[q].0@
                    && queue@[q].1@.len() == reachable@[q].1@.len(),
                forall|q: int| 0 <= q < reachable@.len() ==> 2 <= (#[trigger] reachable@[q]).1@.len() <= MAX_ROUTE
                    && seq_starts_with(reachable@[q].1@[0]@, "trigger: "@),
                forall|q: int| 0 <= q < queue@.len() ==> 2 <= (#[trigger] queue@[q]).1@.len() <= MAX_ROUTE
                    && seq_starts_with(queue@[q].1@[0]@, "trigger: "@),
                forall|q: int, e2: int| 0 <= q < head && 0 <= e2 < edges@.len()
                    && #[trigger] edges_view(edges@)[e2].0 == #[trigger] reach_keys(reachable@)[q]
                    ==> reach_keys(reachable@).contains(edges_view(edges@)[e2].1)
                        || (reachable@[q].1@.len() >= MAX_ROUTE && reasons@.len() > reasons0.len()),
                forall|e2: int| 0 <= e2 < e && #[trigger] edges_view(edges@)[e2].0 == hk
                    ==> reach_keys(reachable@).contains(edges_view(edges@)[e2].1)
                        || (route@.len() >= MAX_ROUTE && reasons@.len() > reasons0.len()),
                ev == edges_view(edges@),
                routes_valid(roots@, ev, reachable@),
                routes_valid(roots@, ev, queue@),
                valid_route(roots@, ev, strings_view(route@), hk),
                reasons@.len() > reasons0.len() ==> exists|q: int| 0 <= q < reachable@.len() && (#[trigger] reachable@[q]).1@.len() >= MAX_ROUTE,
                forall|j: int| 0 <= j < roots@.len() && pv.contains(#[trigger] roots@[j].file@) ==> reached_within(reachable@, roots@[j].file@, 2),
                forall|q1: int, q2: int| 0 <= q1 <= q2 < queue@.len() ==> (#[trigger] queue@[q1]).1@.len() <= (#[trigger] queue@[q2]).1@.len(),
                forall|q1: int, q2: int| head <= q1 < queue@.len() && 0 <= q2 < queue@.len()
                    ==> (#[trigger] queue@[q2]).1@.len() <= (#[trigger] queue@[q1]).1@.len() + 1,
                forall|q: int, e: int| 0 <= q < head && 0 <= e < edges@.len() && #[trigger] ev[e].0 == (#[trigger] reachable@[q]).0@
                    ==> reached_within(reachable@, ev[e].1, reachable@[q].1@.len() as int + 1)
                        || (reachable@[q].1@.len() >= MAX_ROUTE && reasons@.len() > reasons0.len()),
                route@.len() == queue@[head as int].1@.len(),
                forall|e2: int| 0 <= e2 < e && #[trigger] ev[e2].0 == hk
                    ==> reached_within(reachable@, ev[e2].1, route@.len() as int + 1)
                        || (route@.len() >= MAX_ROUTE && reasons@.len() > reasons0.len()),
            decreases edges.len() - e,
        {
            assert(edges_view(edges@)[e as int] == (edges@[e as int].0@, edges@[e as int].1@, edges@[e as int].2));
            if eq_chars(&edges[e].0, &source) {
                let target = &edges[e].1;
                match key_index(&reachable, target) {
                    Some(p) => {
                        proof {
                            assert(queue@[p as int].1@.len() <= queue@[head as int].1@.len() + 1);
                            assert(reachable@[p as int].0@ == ev[e as int].1);
                            assert(reachable@[p as int].1@.len() <= route@.len() + 1);
                            assert(reached_within(reachable@, ev[e as int].1, route@.len() as int + 1));
                        }
                    },
                    None => {
                        if route.len() >= MAX_ROUTE {
                            let mut msg = String::new();
                            push_str(&mut msg, "JS/TS execution route depth limit of ");
                            push_decimal(&mut msg, MAX_ROUTE as u64);
                            push_str(&mut msg, " reached");
                            let ghost before = reasons@;
                            reasons.push(msg);
                            assert(reasons@.subrange(0, reasons0.len() as int) =~= before.subrange(0, reasons0.len() as int));
                            assert(reachable@[head as int].1@.len() >= MAX_ROUTE);
                        } else {
                            let mut step = string_from_chars(&source);
                            push_str(&mut step, ":");
                            push_decimal(&mut step, edges[e].2);
                            push_str(&mut step, " imports ");
                            let t = string_from_chars(target);
                            push_str(&mut step, t.as_str());
                            let mut next = clone_strings(&route);
                            next.push(step);
                            let copy = clone_strings(&next);
                            let ghost before = reachable@;
                            let ghost qbefore = queue@;
                            proof {
                                lemma_distinct_within(reach_keys(before), pv);
                                assert(reach_keys(before).push(target@).no_duplicates());
                                assert forall|i: int| 0 <= i < reach_keys(before).push(target@).len()
                                    implies pv.contains(#[trigger] reach_keys(before).push(target@)[i]) by {
                                    if i == before.len() {
                                        assert(edges_view(edges@)[e as int].1 == target@);
                                    } else {
                                        assert(reach_keys(before).push(target@)[i] == reach_keys(before)[i]);
                                    }
                                }
                                lemma_distinct_within(reach_keys(before).push(target@), pv);
                            }
                            proof {
                                assert(strings_view(next@).drop_last() =~= strings_view(route@));
                                assert(strings_view(next@).last() == import_step(ev[e as int].0, ev[e as int].2, target@));
                                assert(valid_route(roots@, ev, strings_view(next@), target@));
                                assert(strings_view(copy@) == strings_view(next@));
                            }
                            reachable.push((copy_chars(target), next));
                            queue.push((copy_chars(target), copy));
                            proof {
                                lemma_routes_push(roots@, ev, before, reachable@.last());
                                lemma_routes_push(roots@, ev, qbefore, queue@.last());
                                assert(reachable@ == before.push(reachable@.last()));
                                assert(queue@ == qbefore.push(queue@.last()));
                            }
                            assert(reach_keys(reachable@) =~= reach_keys(before).push(target@));
                            assert(next@[0] == route@[0]);
                            assert forall|q: int| 0 <= q < reachable@.len() implies
                                root_files(roots@).contains(#[trigger] reach_keys(reachable@)[q])
                                || exists|e2: int| 0 <= e2 < edges@.len() && #[trigger] edges_view(edges@)[e2].1 == reach_keys(reachable@)[q]
                                    && reach_keys(reachable@).contains(edges_view(edges@)[e2].0) by {
                                if q == before.len() {
                                    assert(edges_view(edges@)[e as int].1 == reach_keys(reachable@)[q]);
                                    assert(reach_keys(reachable@)[head as int] == edges_view(edges@)[e as int].0);
                                } else {
                                    assert(reach_keys(reachable@)[q] == reach_keys(before)[q]);
                                    if !root_files(roots@).contains(reach_keys(before)[q]) {
                                        let e2 = choose|e2: int| 0 <= e2 < edges@.len() && #[trigger] edges_view(edges@)[e2].1 == reach_keys(before)[q]
                                            && reach_keys(before).contains(edges_view(edges@)[e2].0);
                                        let w = choose|w: int| 0 <= w < reach_keys(before).len() && reach_keys(before)[w] == edges_view(edges@)[e2].0;
                                        assert(reach_keys(reachable@)[w] == edges_view(edges@)[e2].0);
                                    }
                                }
                            }
                            assert forall|j: int| 0 <= j < roots@.len() && pv.contains(#[trigger] roots@[j].file@) implies
                                reach_keys(reachable@).contains(roots@[j].file@) by {
                                let w = choose|w: int| 0 <= w < reach_keys(before).len() && reach_keys(before)[w] == roots@[j].file@;
                                assert(reach_keys(reachable@)[w] == roots@[j].file@);
                            }
                            assert forall|q: int, e2: int| 0 <= q < head && 0 <= e2 < edges@.len()
                                && #[trigger] edges_view(edges@)[e2].0 == #[trigger] reach_keys(reachable@)[q]
                                implies reach_keys(reachable@).contains(edges_view(edges@)[e2].1)
                                    || (reachable@[q].1@.len() >= MAX_ROUTE && reasons@.len() > reasons0.len()) by {
                                assert(reach_keys(reachable@)[q] == reach_keys(before)[q]);
                                if reach_keys(before).contains(edges_view(edges@)[e2].1) {
                                    let w = choose|w: int| 0 <= w < reach_keys(before).len() && reach_keys(before)[w] == edges_view(edges@)[e2].1;
                                    assert(reach_keys(reachable@)[w] == edges_view(edges@)[e2].1);
                                }
                            }
                            assert forall|e2: int| 0 <= e2 < e && #[trigger] edges_view(edges@)[e2].0 == hk implies
                                reach_keys(reachable@).contains(edges_view(edges@)[e2].1)
                                    || (route@.len() >= MAX_ROUTE && reasons@.len() > reasons0.len()) by {
                                if reach_keys(before).contains(edges_view(edges@)[e2].1) {
                                    let w = choose|w: int| 0 <= w < reach_keys(before).len() && reach_keys(before)[w] == edges_view(edges@)[e2].1;
                                    assert(reach_keys(reachable@)[w] == edges_view(edges@)[e2].1);
                                }
                            }
                            assert(reach_keys(reachable@)[before.len() as int] == edges_view(edges@)[e as int].1);
                            assert forall|j: int| 0 <= j < roots@.len() && pv.contains(#[trigger] roots@[j].file@)
                                implies reached_within(reachable@, roots@[j].file@, 2) by {
                                let w = choose|w: int| 0 <= w < before.len() && (#[trigger] before[w]).0@ == roots@[j].file@ && before[w].1@.len() <= 2;
                                assert(reachable@[w] == before[w]);
                            }
                            proof {
                                if reasons@.len() > reasons0.len() {
                                    let w = choose|w: int| 0 <= w < before.len() && (#[trigger] before[w]).1@.len() >= MAX_ROUTE;
                                    assert(reachable@[w] == before[w]);
                                }
                            }
                            assert forall|q: int, e3: int| 0 <= q < head && 0 <= e3 < edges@.len() && #[trigger] ev[e3].0 == (#[trigger] reachable@[q]).0@
                                implies reached_within(reachable@, ev[e3].1, reachable@[q].1@.len() as int + 1)
                                    || (reachable@[q].1@.len() >= MAX_ROUTE && reasons@.len() > reasons0.len()) by {
                                assert(reachable@[q] == before[q]);
                                if reached_within(before, ev[e3].1, before[q].1@.len() as int + 1) {
                                    let w = choose|w: int| 0 <= w < before.len() && (#[trigger] before[w]).0@ == ev[e3].1
                                        && before[w].1@.len() <= before[q].1@.len() as int + 1;
                                    assert(reachable@[w] == before[w]);
                                }
                            }
                            assert forall|e2: int| 0 <= e2 < e + 1 && #[trigger] ev[e2].0 == hk
                                implies reached_within(reachable@, ev[e2].1, route@.len() as int + 1)
                                    || (route@.len() >= MAX_ROUTE && reasons@.len() > reasons0.len()) by {
                                if e2 < e {
                                    if reached_within(before, ev[e2].1, route@.len() as int + 1) {
                                        let w = choose|w: int| 0 <= w < before.len() && (#[trigger] before[w]).0@ == ev[e2].1
                                            && before[w].1@.len() <= route@.len() as int + 1;
                                        assert(reachable@[w] == before[w]);
                                    }
                                } else {
                                    assert(reachable@[before.len() as int].0@ == ev[e2].1);
                                    assert(reachable@[before.len() as int].1@.len() == route@.len() + 1);
                                }
                            }
                        }
                    },
                }
            }
            e = e + 1;
        }
        head = head + 1;
    }
    proof {
        let limited = reasons@.len() > reasons0.len();
        assert forall|route: Seq<Seq<char>>, x: Seq<char>| #[trigger] valid_route(roots@, ev, route, x) && pv.contains(route_entry(route))
            implies reached_within(reachable@, x, route.len() as int) || limited by {
            lemma_no_shorter_route(roots@, ev, pv, reachable@, limited, route, x);
        }
    }
    reachable
}


/// A call runs when the module does: it is top-level or in a called function.
pub open spec fn call_enabled(c: CallFact, names: Seq<Seq<char>>) -> bool {
    match c.function {
        None => true,
        Some(f) => names.contains(f@),
    }
}

/// The local function a call names, if it names one.
pub open spec fn local_callee(c: CallFact) -> Option<Seq<char>> {
    if seq_starts_with(c.name@, "local:"@) {
        Some(c.name@.skip(6))
    } else {
        None
    }
}

/// One call's effect on the names of called functions.
pub open spec fn note_call(c: CallFact, names: Seq<Seq<char>>) -> Seq<Seq<char>> {
    match local_callee(c) {
        Some(n) => if call_enabled(c, names) && !names.contains(n) { names.push(n) } else { names },
        None => names,
    }
}

/// One pass over the calls from the `j`-th on.
pub open spec fn call_pass(calls: Seq<CallFact>, j: int, names: Seq<Seq<char>>) -> Seq<Seq<char>>
    decreases calls.len() - j,
{
    if j < 0 || j >= calls.len() {
        names
    } else {
        call_pass(calls, j + 1, note_call(calls[j], names))
    }
}

/// Passes over the calls until one adds no name, at most `fuel` of them.
pub open spec fn settle(calls: Seq<CallFact>, names: Seq<Seq<char>>, fuel: nat) -> Seq<Seq<char>>
    decreases fuel,
{
    if fuel == 0 {
        names
    } else {
        let next = call_pass(calls, 0, names);
        if next.len() == names.len() {
            next
        } else {
            settle(calls, next, (fuel - 1) as nat)
        }
    }
}

/// The local functions that the module's top-level code calls, directly
/// or through other called functions.
pub open spec fn invoked(calls: Seq<CallFact>) -> Seq<Seq<char>> {
    settle(calls, Seq::empty(), calls.len() + 1)
}

pub open spec fn callee_pool(calls: Seq<CallFact>) -> Seq<Seq<char>> {
    calls.map_values(|c: CallFact| c.name@.skip(6))
}

fn pass_calls(calls: &Vec<CallFact>, names: &mut Vec<Vec<char>>)
    requires
        vecs_view(old(names)@).no_duplicates(),
        forall|i: int| 0 <= i < old(names)@.len() ==> callee_pool(calls@).contains(#[trigger] vecs_view(old(names)@)[i]),
    ensures
        vecs_view(final(names)@) == call_pass(calls@, 0, vecs_view(old(names)@)),
        vecs_view(final(names)@).no_duplicates(),
        forall|i: int| 0 <= i < final(names)@.len() ==> callee_pool(calls@).contains(#[trigger] vecs_view(final(names)@)[i]),
        final(names)@.len() >= old(names)@.len(),
{
    let ghost goal = call_pass(calls@, 0, vecs_view(names@));
    let ghost start = names@.len();
    let mut j: usize = 0;
    while j < calls.len()
        invariant
            j <= calls@.len(),
            goal == call_pass(calls@, j as int, vecs_view(names@)),
            vecs_view(names@).no_duplicates(),
            forall|i: int| 0 <= i < names@.len() ==> callee_pool(calls@).contains(#[trigger] vecs_view(names@)[i]),
            names@.len() >= start,
        decreases calls.len() - j,
    {
        let c = &calls[j];
        let name = chars_of(c.name.as_str());
        let enabled = match &c.function {
            None => true,
            Some(f) => known(names, &chars_of(f.as_str())),
        };
        let ghost before = vecs_view(names@);
        if chars_start_with_str(&name, "local:") {
            proof { reveal_strlit("local:"); }
            let callee = slice_chars(&name, 6, name.len());
            assert(callee@ =~= c.name@.skip(6));
            if enabled && !known(names, &callee) {
                names.push(callee);
                assert(vecs_view(names@) =~= before.push(c.name@.skip(6)));
                assert(callee_pool(calls@)[j as int] == c.name@.skip(6));
                assert forall|i: int| 0 <= i < names@.len() implies callee_pool(calls@).contains(#[trigger] vecs_view(names@)[i]) by {
                    if i < before.len() {
                        assert(vecs_view(names@)[i] == before[i]);
                    }
                }
            }
        }
        assert(vecs_view(names@) == note_call(calls@[j as int], before));
        j = j + 1;
    }
}

fn invoked_names(calls: &Vec<CallFact>) -> (r: Vec<Vec<char>>)
    ensures
        vecs_view(r@) == invoked(calls@),
{
    let mut names: Vec<Vec<char>> = Vec::new();
    let ghost mut fuel: nat = (calls@.len() + 1) as nat;
    let ghost mut rounds: nat = 0;
    assert(vecs_view(names@) =~= Seq::<Seq<char>>::empty());
    loop
        invariant
            invoked(calls@) == settle(calls@, vecs_view(names@), fuel),
            fuel + rounds == calls@.len() + 1,
            rounds <= names@.len(),
            names@.len() <= calls@.len(),
            vecs_view(names@).no_duplicates(),
            forall|i: int| 0 <= i < names@.len() ==> callee_pool(calls@).contains(#[trigger] vecs_view(names@)[i]),
        decreases calls@.len() - names@.len(),
    {
        let before = names.len();
        let ghost old_names = vecs_view(names@);
        pass_calls(calls, &mut names);
        proof {
            lemma_distinct_within(vecs_view(names@), callee_pool(calls@));
        }
        if names.len() == before {
            assert(fuel > 0);
            return names;
        }
        proof {
            fuel = (fuel - 1) as nat;
            rounds = rounds + 1;
        }
    }
}


/// The reachable modules with their routes.
pub open spec fn reach_view(r: Seq<(Vec<char>, Vec<String>)>) -> Seq<(Seq<char>, Seq<Seq<char>>)> {
    r.map_values(|e: (Vec<char>, Vec<String>)| (e.0@, strings_view(e.1@)))
}

/// The route to `key`, if it is reachable.
pub open spec fn route_for(r: Seq<(Seq<char>, Seq<Seq<char>>)>, key: Seq<char>) -> Option<Seq<Seq<char>>> {
    if exists|i: int| 0 <= i < r.len() && (#[trigger] r[i]).0 == key {
        Some(r[choose|i: int| 0 <= i < r.len() && (#[trigger] r[i]).0 == key].1)
    } else {
        None
    }
}

/// Capabilities that make a disguised module more severe.
pub open spec fn is_dangerous(c: Option<Capability>) -> bool {
    c == Some(Capability::DynamicCode) || c == Some(Capability::Process) || c == Some(Capability::Secret)
}

/// The first running call from the `j`-th on with a dangerous capability.
pub open spec fn first_dangerous(calls: Seq<CallFact>, names: Seq<Seq<char>>, j: int) -> Option<CallFact>
    decreases calls.len() - j,
{
    if j < 0 || j >= calls.len() {
        None
    } else if is_dangerous(calls[j].capability) && call_enabled(calls[j], names) {
        Some(calls[j])
    } else {
        first_dangerous(calls, names, j + 1)
    }
}

pub open spec fn capability_note(c: CallFact) -> Seq<char> {
    "capability: "@ + c.name@ + " at line "@ + decimal(c.line as nat)
}

/// The finding for a reachable module whose extension hides that it is code.
pub open spec fn disguised_finding(path: Seq<char>, route: Seq<Seq<char>>, dangerous: Option<CallFact>) -> FindingView {
    FindingView {
        id: "JS-REACHABLE-DISGUISED-SOURCE"@,
        severity: if dangerous.is_some() { Severity::Critical } else { Severity::High },
        confidence: Confidence::High,
        score: if dangerous.is_some() { 95 } else { 80 },
        title: "Executable source disguised as an asset is reachable"@,
        message: "A repository execution root statically imports parseable JavaScript under a non-code extension."@,
        file: Some(path),
        line: match dangerous { Some(c) => Some(c.line), None => None },
        evidence: route + match dangerous { Some(c) => seq![capability_note(c)], None => Seq::empty() },
    }
}

/// The finding for one call with an execution capability.
pub open spec fn capability_finding(path: Seq<char>, c: CallFact, route: Option<Seq<Seq<char>>>, names: Seq<Seq<char>>) -> FindingView {
    FindingView {
        id: if c.capability == Some(Capability::DynamicCode) { "JS-DYNAMIC-EXECUTION"@ } else { "JS-PROCESS-EXECUTION"@ },
        severity: Severity::Medium,
        confidence: Confidence::High,
        score: 45,
        title: "JavaScript contains an execution capability"@,
        message: "This capability can execute code or a process; the call alone does not establish malicious intent."@,
        file: Some(path),
        line: Some(c.line),
        evidence: match route {
            Some(r) => if call_enabled(c, names) { r } else { Seq::empty() },
            None => Seq::empty(),
        } + seq!["call: "@ + c.evidence@],
    }
}

/// The capability findings of the calls from the `j`-th on.
pub open spec fn call_findings(path: Seq<char>, calls: Seq<CallFact>, route: Option<Seq<Seq<char>>>, names: Seq<Seq<char>>, j: int) -> Seq<FindingView>
    decreases calls.len() - j,
{
    if j < 0 || j >= calls.len() {
        Seq::empty()
    } else {
        (if calls[j].capability == Some(Capability::DynamicCode) || calls[j].capability == Some(Capability::Process) {
            seq![capability_finding(path, calls[j], route, names)]
        } else {
            Seq::empty()
        }) + call_findings(path, calls, route, names, j + 1)
    }
}

/// The findings of one module.
pub open spec fn module_findings(m: ModuleFacts, r: Seq<(Seq<char>, Seq<Seq<char>>)>) -> Seq<FindingView> {
    let route = route_for(r, m.path@);
    let names = invoked(m.calls@);
    (if !ends_with_any(m.path@, code_suffixes()) && route.is_some() {
        seq![disguised_finding(m.path@, route.unwrap(), first_dangerous(m.calls@, names, 0))]
    } else {
        Seq::empty()
    }) + call_findings(m.path@, m.calls@, route, names, 0)
}

/// The findings of the modules from the `i`-th on.
pub open spec fn graph_findings(modules: Seq<ModuleFacts>, r: Seq<(Seq<char>, Seq<Seq<char>>)>, i: int) -> Seq<FindingView>
    decreases modules.len() - i,
{
    if i < 0 || i >= modules.len() {
        Seq::empty()
    } else {
        module_findings(modules[i], r) + graph_findings(modules, r, i + 1)
    }
}

fn enabled(c: &CallFact, names: &Vec<Vec<char>>) -> (r: bool)
    ensures
        r == call_enabled(*c, vecs_view(names@)),
{
    match &c.function {
        None => true,
        Some(f) => known(names, &chars_of(f.as_str())),
    }
}

fn find_dangerous(calls: &Vec<CallFact>, names: &Vec<Vec<char>>) -> (r: Option<usize>)
    ensures
        match r {
            Some(k) => k < calls@.len() && first_dangerous(calls@, vecs_view(names@), 0) == Some(calls@[k as int]),
            None => first_dangerous(calls@, vecs_view(names@), 0).is_none(),
        },
{
    let mut j: usize = 0;
    while j < calls.len()
        invariant
            j <= calls@.len(),
            first_dangerous(calls@, vecs_view(names@), 0) == first_dangerous(calls@, vecs_view(names@), j as int),
        decreases calls.len() - j,
    {
        let c = &calls[j];
        let danger = match c.capability {
            Some(Capability::DynamicCode) => true,
            Some(Capability::Process) => true,
            Some(Capability::Secret) => true,
            _ => false,
        };
        if danger && enabled(c, names) {
            return Some(j);
        }
        j = j + 1;
    }
    None
}

fn route_index(reachable: &Vec<(Vec<char>, Vec<String>)>, key: &[char]) -> (r: Option<usize>)
    requires
        reach_keys(reachable@).no_duplicates(),
    ensures
        match r {
            Some(k) => k < reachable@.len() && route_for(reach_view(reachable@), key@) == Some(strings_view(reachable@[k as int].1@)),
            None => route_for(reach_view(reachable@), key@).is_none(),
        },
{
    let ghost rv = reach_view(reachable@);
    match key_index(reachable, key) {
        Some(k) => {
            proof {
                assert(rv[k as int].0 == key@);
                let i = choose|i: int| 0 <= i < rv.len() && (#[trigger] rv[i]).0 == key@;
                assert(reach_keys(reachable@)[i] == reach_keys(reachable@)[k as int]);
            }
            Some(k)
        },
        None => {
            assert forall|i: int| 0 <= i < rv.len() implies (#[trigger] rv[i]).0 != key@ by {
                assert(reach_keys(reachable@)[i] == rv[i].0);
            }
            None
        },
    }
}

fn findings_of_module(m: &ModuleFacts, reachable: &Vec<(Vec<char>, Vec<String>)>, out: &mut Vec<Finding>)
    requires
        reach_keys(reachable@).no_duplicates(),
    ensures
        findings_view(final(out)@) == findings_view(old(out)@) + module_findings(*m, reach_view(reachable@)),
{
    let ghost rv = reach_view(reachable@);
    let path = chars_of(m.path.as_str());
    let names = invoked_names(&m.calls);
    let ghost nv = vecs_view(names@);
    let route = route_index(reachable, &path);
    let ghost routev = route_for(rv, m.path@);
    let ghost start = findings_view(out@);
    if !has_code_extension(&path) && route.is_some() {
        let k = route.unwrap();
        let mut evidence = clone_strings(&reachable[k].1);
        let danger = find_dangerous(&m.calls, &names);
        let ghost dv = first_dangerous(m.calls@, nv, 0);
        let line = match danger {
            Some(d) => {
                let c = &m.calls[d];
                let mut note = String::new();
                push_str(&mut note, "capability: ");
                push_str(&mut note, c.name.as_str());
                push_str(&mut note, " at line ");
                push_decimal(&mut note, c.line);
                evidence.push(note);
                Some(c.line)
            },
            None => None,
        };
        let f = Finding {
            id: crate::text::owned("JS-REACHABLE-DISGUISED-SOURCE"),
            severity: if danger.is_some() { Severity::Critical } else { Severity::High },
            confidence: Confidence::High,
            score: if danger.is_some() { 95 } else { 80 },
            title: crate::text::owned("Executable source disguised as an asset is reachable"),
            message: crate::text::owned("A repository execution root statically imports parseable JavaScript under a non-code extension."),
            file: Some(m.path.clone()),
            line: line,
            evidence: evidence,
        };
        assert(strings_view(f.evidence@) =~= disguised_finding(m.path@, routev.unwrap(), dv).evidence);
        assert(f@ == disguised_finding(m.path@, routev.unwrap(), dv));
        out.push(f);
        assert(findings_view(out@) =~= start + seq![disguised_finding(m.path@, routev.unwrap(), dv)]);
    } else {
        assert(findings_view(out@) =~= start + Seq::<FindingView>::empty());
    }
    let ghost mid = findings_view(out@);
    let ghost goal = mid + call_findings(m.path@, m.calls@, routev, nv, 0);
    let mut j: usize = 0;
    assert(goal =~= findings_view(out@) + call_findings(m.path@, m.calls@, routev, nv, 0));
    while j < m.calls.len()
        invariant
            j <= m.calls@.len(),
            goal == findings_view(out@) + call_findings(m.path@, m.calls@, routev, nv, j as int),
            nv == vecs_view(names@),
            routev == route_for(rv, m.path@),
            rv == reach_view(reachable@),
            match route {
                Some(k) => k < reachable@.len() && routev == Some(strings_view(reachable@[k as int].1@)),
                None => routev.is_none(),
            },
        decreases m.calls.len() - j,
    {
        let c = &m.calls[j];
        let ghost before = findings_view(out@);
        let is_exec = match c.capability {
            Some(Capability::DynamicCode) => true,
            Some(Capability::Process) => true,
            _ => false,
        };
        if is_exec {
            let mut evidence: Vec<String> = match route {
                Some(k) => if enabled(c, &names) { clone_strings(&reachable[k].1) } else { Vec::new() },
                None => Vec::new(),
            };
            let mut note = String::new();
            push_str(&mut note, "call: ");
            push_str(&mut note, c.evidence.as_str());
            evidence.push(note);
            let dynamic = match c.capability {
                Some(Capability::DynamicCode) => true,
                _ => false,
            };
            let f = Finding {
                id: if dynamic { crate::text::owned("JS-DYNAMIC-EXECUTION") } else { crate::text::owned("JS-PROCESS-EXECUTION") },
                severity: Severity::Medium,
                confidence: Confidence::High,
                score: 45,
                title: crate::text::owned("JavaScript contains an execution capability"),
                message: crate::text::owned("This capability can execute code or a process; the call alone does not establish malicious intent."),
                file: Some(m.path.clone()),
                line: Some(c.line),
                evidence: evidence,
            };
            assert(strings_view(f.evidence@) =~= capability_finding(m.path@, *c, routev, nv).evidence);
            assert(f@ == capability_finding(m.path@, *c, routev, nv));
            out.push(f);
            assert(findings_view(out@) =~= before.push(capability_finding(m.path@, *c, routev, nv)));
        }
        assert(goal =~= findings_view(out@) + call_findings(m.path@, m.calls@, routev, nv, j + 1));
        j = j + 1;
    }
}


/// The import graph's verdicts.
pub struct GraphResult {
    pub findings: Vec<Finding>,
    /// Imports and roots the graph could not follow, sorted, each once.
    pub unresolved: Vec<String>,
    pub incomplete_reasons: Vec<String>,
    /// Each reachable module's path, once, with the route that reached it.
    pub reachable: Vec<(String, Vec<String>)>,
}

/// The reachable modules of a result with their routes.
pub open spec fn result_reach(r: Seq<(String, Vec<String>)>) -> Seq<(Seq<char>, Seq<Seq<char>>)> {
    r.map_values(|e: (String, Vec<String>)| (e.0@, strings_view(e.1@)))
}

pub open spec fn empty_scan() -> ImportScan {
    ImportScan { edges: Seq::empty(), unresolved: Seq::empty(), reasons: Seq::empty() }
}

/// The keys of a sequence of pairs.
pub open spec fn firsts<V>(r: Seq<(Seq<char>, V)>) -> Seq<Seq<char>> {
    r.map_values(|e: (Seq<char>, V)| e.0)
}

/// What the import graph of `modules` followed from `roots` yields: the
/// contract of `build`.
pub open spec fn graph_built(modules: Seq<ModuleFacts>, roots: Seq<Root>, r: GraphResult) -> bool {
    let pv = module_paths(modules);
    let scan = scan_modules(pv, modules, 0, empty_scan());
    let rv = result_reach(r.reachable@);
    let keys = firsts(rv);
    &&& strictly_sorted(strings_view(r.unresolved@))
    &&& forall|x: Seq<char>| strings_view(r.unresolved@).contains(x)
        <==> (scan.unresolved + unresolved_roots(roots, pv)).contains(x)
    &&& keys.no_duplicates()
    &&& forall|q: int| 0 <= q < rv.len() ==> pv.contains(#[trigger] keys[q])
    &&& forall|k: int| 0 <= k < roots.len() && pv.contains(#[trigger] roots[k].file@) ==> keys.contains(roots[k].file@)
    &&& forall|q: int, e: int| 0 <= q < rv.len() && 0 <= e < scan.edges.len()
        && #[trigger] scan.edges[e].0 == #[trigger] keys[q]
        ==> keys.contains(scan.edges[e].1)
            || (rv[q].1.len() >= MAX_ROUTE && strings_view(r.incomplete_reasons@).contains(depth_message()))
    &&& forall|q: int| 0 <= q < rv.len() ==> root_files(roots).contains(#[trigger] keys[q])
        || exists|e: int| 0 <= e < scan.edges.len() && #[trigger] scan.edges[e].1 == keys[q]
            && keys.contains(scan.edges[e].0)
    &&& forall|q: int| 0 <= q < rv.len() ==> 2 <= (#[trigger] rv[q]).1.len() <= MAX_ROUTE
        && seq_starts_with(rv[q].1[0], "trigger: "@)
    &&& forall|q: int| 0 <= q < rv.len() ==> valid_route(roots, scan.edges, (#[trigger] rv[q]).1, rv[q].0)
    &&& forall|route: Seq<Seq<char>>, x: Seq<char>| #[trigger] valid_route(roots, scan.edges, route, x) && pv.contains(route_entry(route))
        ==> (exists|q: int| 0 <= q < rv.len() && (#[trigger] rv[q]).0 == x && rv[q].1.len() <= route.len())
            || strings_view(r.incomplete_reasons@).contains(depth_message())
    &&& strings_view(r.incomplete_reasons@).len() >= scan.reasons.len()
    &&& strings_view(r.incomplete_reasons@).subrange(0, scan.reasons.len() as int) == scan.reasons
    &&& forall|i: int| scan.reasons.len() <= i < r.incomplete_reasons@.len() ==> (#[trigger] r.incomplete_reasons@[i])@ == depth_message()
    &&& r.incomplete_reasons@.len() > scan.reasons.len() ==> exists|q: int| 0 <= q < rv.len() && (#[trigger] rv[q]).1.len() >= MAX_ROUTE
    &&& findings_view(r.findings@) == graph_findings(modules, rv, 0)
}

/// Every route begins at a root.
pub proof fn lemma_route_has_root(roots: Seq<Root>, edges: Seq<(Seq<char>, Seq<char>, u64)>, route: Seq<Seq<char>>, key: Seq<char>)
    requires
        valid_route(roots, edges, route, key),
    ensures
        roots.len() > 0,
    decreases route.len(),
{
    if route.len() > 2 {
        let e = choose|e: int| 0 <= e < edges.len() && (#[trigger] edges[e]).1 == key
            && route.last() == import_step(edges[e].0, edges[e].2, key)
            && valid_route(roots, edges, route.drop_last(), edges[e].0);
        lemma_route_has_root(roots, edges, route.drop_last(), edges[e].0);
    }
}

/// Without execution roots, no module is reachable.
pub proof fn lemma_no_roots_reach_nothing(modules: Seq<ModuleFacts>, r: GraphResult)
    requires
        graph_built(modules, Seq::<Root>::empty(), r),
    ensures
        r.reachable@.len() == 0,
{
    let pv = module_paths(modules);
    let scan = scan_modules(pv, modules, 0, empty_scan());
    let rv = result_reach(r.reachable@);
    if r.reachable@.len() > 0 {
        assert(valid_route(Seq::<Root>::empty(), scan.edges, rv[0].1, rv[0].0));
        lemma_route_has_root(Seq::<Root>::empty(), scan.edges, rv[0].1, rv[0].0);
    }
}

/// Builds the import graph of the modules, follows it from the roots, and
/// reports disguised reachable sources and execution capabilities.
pub fn build(modules: &[ModuleFacts], roots: &[Root]) -> (r: GraphResult)
    ensures
        graph_built(modules@, roots@, r),
{
    let mut paths: Vec<Vec<char>> = Vec::new();
    let mut i: usize = 0;
    while i < modules.len()
        invariant
            i <= modules@.len(),
            vecs_view(paths@) == module_paths(modules@).subrange(0, i as int),
        decreases modules.len() - i,
    {
        let c = chars_of(modules[i].path.as_str());
        assert(c@ == module_paths(modules@)[i as int]);
        let ghost before = paths@;
        paths.push(c);
        assert(vecs_view(paths@) =~= vecs_view(before).push(c@));
        assert(vecs_view(paths@) =~= module_paths(modules@).subrange(0, i + 1));
        i = i + 1;
    }
    assert(module_paths(modules@).subrange(0, modules@.len() as int) =~= module_paths(modules@));
    let (edges, mut unresolved, mut reasons) = scan_imports(modules, &paths);
    let ghost pv = module_paths(modules@);
    let ghost scan = scan_modules(pv, modules@, 0, empty_scan());
    assert(empty_scan() =~= ImportScan { edges: Seq::empty(), unresolved: Seq::empty(), reasons: Seq::empty() });
    let ghost reasons0 = reasons@;
    let reached = reach(&paths, &edges, roots, &mut unresolved, &mut reasons);
    let ghost kv = reach_keys(reached@);
    let mut findings: Vec<Finding> = Vec::new();
    let ghost rvi = reach_view(reached@);
    let mut m: usize = 0;
    assert(findings_view(findings@) + graph_findings(modules@, rvi, 0) =~= graph_findings(modules@, rvi, 0));
    while m < modules.len()
        invariant
            m <= modules@.len(),
            rvi == reach_view(reached@),
            reach_keys(reached@).no_duplicates(),
            findings_view(findings@) + graph_findings(modules@, rvi, m as int) == graph_findings(modules@, rvi, 0),
        decreases modules.len() - m,
    {
        let ghost before = findings_view(findings@);
        findings_of_module(&modules[m], &reached, &mut findings);
        assert(findings_view(findings@) + graph_findings(modules@, rvi, m + 1)
            =~= before + graph_findings(modules@, rvi, m as int));
        m = m + 1;
    }
    assert(graph_findings(modules@, rvi, modules@.len() as int) =~= Seq::<FindingView>::empty());
    assert(findings_view(findings@) =~= graph_findings(modules@, rvi, 0));
    let mut reachable: Vec<(String, Vec<String>)> = Vec::new();
    let mut k: usize = 0;
    while k < reached.len()
        invariant
            k <= reached@.len(),
            result_reach(reachable@) == reach_view(reached@).subrange(0, k as int),
        decreases reached.len() - k,
    {
        let key = string_from_chars(&reached[k].0);
        let route = clone_strings(&reached[k].1);
        assert((key@, strings_view(route@)) == reach_view(reached@)[k as int]);
        let ghost before = reachable@;
        reachable.push((key, route));
        assert(result_reach(reachable@) =~= result_reach(before).push((key@, strings_view(route@))));
        assert(result_reach(reachable@) =~= reach_view(reached@).subrange(0, k + 1));
        k = k + 1;
    }
    assert(reach_view(reached@).subrange(0, reached@.len() as int) =~= reach_view(reached@));
    let ghost rv = result_reach(reachable@);
    assert(rv == rvi);
    assert(firsts(rv) =~= kv);
    proof {
        assert forall|q: int, e: int| 0 <= q < rv.len() && 0 <= e < scan.edges.len()
            && #[trigger] scan.edges[e].0 == #[trigger] firsts(rv)[q]
            implies firsts(rv).contains(scan.edges[e].1)
                || (rv[q].1.len() >= MAX_ROUTE && strings_view(reasons@).contains(depth_message())) by {
            assert(edges_view(edges@)[e].0 == kv[q]);
            if !kv.contains(edges_view(edges@)[e].1) {
                assert(reasons@.len() > reasons0.len());
                assert(strings_view(reasons@)[reasons0.len() as int] == depth_message());
            }
        }
        assert forall|q: int| 0 <= q < rv.len() implies root_files(roots@).contains(#[trigger] firsts(rv)[q])
            || exists|e: int| 0 <= e < scan.edges.len() && #[trigger] scan.edges[e].1 == firsts(rv)[q]
                && firsts(rv).contains(scan.edges[e].0) by {
            assert(kv[q] == firsts(rv)[q]);
            if !root_files(roots@).contains(kv[q]) {
                let e = choose|e: int| 0 <= e < edges@.len() && #[trigger] edges_view(edges@)[e].1 == kv[q]
                    && kv.contains(edges_view(edges@)[e].0);
                assert(scan.edges[e] == edges_view(edges@)[e]);
            }
        }
        assert forall|q: int| 0 <= q < rv.len() implies 2 <= (#[trigger] rv[q]).1.len() <= MAX_ROUTE
            && seq_starts_with(rv[q].1[0], "trigger: "@) by {
            assert(rv[q].1 == strings_view(reached@[q].1@));
        }
        assert forall|route: Seq<Seq<char>>, x: Seq<char>| #[trigger] valid_route(roots@, scan.edges, route, x) && pv.contains(route_entry(route))
            implies (exists|q: int| 0 <= q < rv.len() && (#[trigger] rv[q]).0 == x && rv[q].1.len() <= route.len())
                || strings_view(reasons@).contains(depth_message()) by {
            assert(valid_route(roots@, edges_view(edges@), route, x));
            if reached_within(reached@, x, route.len() as int) {
                let p = choose|p: int| 0 <= p < reached@.len() && (#[trigger] reached@[p]).0@ == x && reached@[p].1@.len() <= route.len() as int;
                assert(rv[p].0 == x && rv[p].1 == strings_view(reached@[p].1@));
            } else {
                assert(reasons@.len() > reasons0.len());
                assert(strings_view(reasons@)[reasons0.len() as int] == depth_message());
            }
        }
        assert forall|q: int| 0 <= q < rv.len() implies valid_route(roots@, scan.edges, (#[trigger] rv[q]).1, rv[q].0) by {
            assert(rv[q].1 == strings_view(reached@[q].1@));
            assert(rv[q].0 == reached@[q].0@);
            assert(valid_route(roots@, edges_view(edges@), strings_view((reached@[q]).1@), reached@[q].0@));
        }
        assert(strings_view(reasons@).subrange(0, scan.reasons.len() as int) =~= strings_view(reasons@.subrange(0, reasons0.len() as int)));
        if reasons@.len() > scan.reasons.len() {
            let q = choose|q: int| 0 <= q < reached@.len() && (#[trigger] reached@[q]).1@.len() >= MAX_ROUTE;
            assert(rv[q].1 == strings_view(reached@[q].1@));
        }
    }
    let sorted = crate::text::sorted_unique(&unresolved);
    GraphResult { findings, unresolved: sorted, incomplete_reasons: reasons, reachable }
}

/// The most execution roots that a scan follows.
pub const MAX_EXECUTION_ROOTS: usize = 10000;

/// The execution roots that one file declares.
pub struct RootAnalysis {
    pub roots: Vec<Root>,
    /// More roots were declared than `MAX_EXECUTION_ROOTS`; the rest are left out.
    pub incomplete: bool,
}

/// The content of a root: its file, its trigger and its line.
pub open spec fn root_view(r: Root) -> (Seq<char>, Seq<char>, Option<u64>) {
    (r.file@, r.trigger@, r.line)
}

pub open spec fn roots_view(v: Seq<Root>) -> Seq<(Seq<char>, Seq<char>, Option<u64>)> {
    v.map_values(|r: Root| root_view(r))
}

/// The root that an npm script declares, if it runs a script through a
/// JavaScript runner.
pub open spec fn script_root(path: Seq<char>, text: Seq<char>, entry: (String, Json)) -> Option<(Seq<char>, Seq<char>, Option<u64>)> {
    match entry.1 {
        Json::Str(command) => match command_script(command@) {
            Some(target) => Some((
                resolved_path(path, target),
                "npm "@ + entry.0@ + " ("@ + path + ")"@,
                line_number(lines(text), seq!['"'] + entry.0@ + seq!['"']),
            )),
            None => None,
        },
        _ => None,
    }
}

/// The roots of the npm scripts, in their order.
pub open spec fn script_roots(path: Seq<char>, text: Seq<char>, entries: Seq<(String, Json)>) -> Seq<(Seq<char>, Seq<char>, Option<u64>)>
    decreases entries.len(),
{
    if entries.len() == 0 {
        Seq::empty()
    } else {
        script_roots(path, text, entries.drop_last()) + match script_root(path, text, entries.last()) {
            Some(x) => seq![x],
            None => Seq::empty(),
        }
    }
}

/// A path without its leading `./` prefixes.
pub open spec fn strip_dot_slash(p: Seq<char>) -> Seq<char>
    decreases p.len(),
{
    if p.len() >= 2 && p[0] == '.' && p[1] == '/' {
        strip_dot_slash(p.subrange(2, p.len() as int))
    } else {
        p
    }
}

/// The root that a VS Code task declares, if it runs a script when the
/// folder opens.
pub open spec fn task_root(text: Seq<char>, task: Json) -> Option<(Seq<char>, Seq<char>, Option<u64>)> {
    if string_of(get_in(get(task, "runOptions"@), "runOn"@)) != Some("folderOpen"@) {
        None
    } else {
        match string_of(get(task, "command"@)) {
            Some(command) => match command_script(command) {
                Some(target) => Some((
                    strip_dot_slash(target),
                    "VS Code folderOpen task"@,
                    line_number(lines(text), "folderOpen"@),
                )),
                None => None,
            },
            None => None,
        }
    }
}

/// The roots of the tasks, in their order.
pub open spec fn task_roots(text: Seq<char>, tasks: Seq<Json>) -> Seq<(Seq<char>, Seq<char>, Option<u64>)>
    decreases tasks.len(),
{
    if tasks.len() == 0 {
        Seq::empty()
    } else {
        task_roots(text, tasks.drop_last()) + match task_root(text, tasks.last()) {
            Some(x) => seq![x],
            None => Seq::empty(),
        }
    }
}

/// Every root that a file declares: itself when it is an executable build
/// configuration, the scripts that its npm scripts run (for a
/// `package.json`), and the scripts that VS Code runs when the folder opens
/// (for `.vscode/tasks.json`). `parsed` is the text parsed as JSON for a
/// `package.json` and as JSON5 for `.vscode/tasks.json`.
pub open spec fn declared_roots(path: Seq<char>, text: Option<Seq<char>>, parsed: Result<Json, Seq<char>>, roles: Seq<Seq<char>>) -> Seq<(Seq<char>, Seq<char>, Option<u64>)> {
    let config = if roles.contains("executable_config"@) {
        seq![(path, "build config "@ + path, None::<u64>)]
    } else {
        Seq::empty()
    };
    let scripts = match (text, parsed) {
        (Some(t), Ok(v)) => if basename(path) == "package.json"@ {
            match get(v, "scripts"@) {
                Some(Json::Object(entries)) => script_roots(path, t, entries@),
                _ => Seq::empty(),
            }
        } else {
            Seq::empty()
        },
        _ => Seq::empty(),
    };
    let tasks = match (text, parsed) {
        (Some(t), Ok(v)) => if path == ".vscode/tasks.json"@ {
            match get(v, "tasks"@) {
                Some(Json::Array(items)) => task_roots(t, items@),
                _ => Seq::empty(),
            }
        } else {
            Seq::empty()
        },
        _ => Seq::empty(),
    };
    config + scripts + tasks
}

fn has_role(roles: &[String], role: &str) -> (r: bool)
    ensures
        r == strings_view(roles@).contains(role@),
{
    let mut i: usize = 0;
    while i < roles.len()
        invariant
            i <= roles@.len(),
            forall|j: int| 0 <= j < i ==> strings_view(roles@)[j] != role@,
        decreases roles.len() - i,
    {
        if str_eq(roles[i].as_str(), role) {
            assert(strings_view(roles@)[i as int] == role@);
            return true;
        }
        i = i + 1;
    }
    false
}

fn quoted(name: &str) -> (r: Vec<char>)
    ensures
        r@ == seq!['"'] + name@ + seq!['"'],
{
    let mut v: Vec<char> = Vec::new();
    v.push('"');
    let n = chars_of(name);
    let mut i: usize = 0;
    while i < n.len()
        invariant
            i <= n@.len(),
            n@ == name@,
            v@ == seq!['"'] + n@.subrange(0, i as int),
        decreases n.len() - i,
    {
        v.push(n[i]);
        assert(n@.subrange(0, i + 1) =~= n@.subrange(0, i as int).push(n@[i as int]));
        i = i + 1;
    }
    v.push('"');
    assert(n@.subrange(0, n@.len() as int) =~= n@);
    v
}

fn without_dot_slash(p: &[char]) -> (r: Vec<char>)
    ensures
        r@ == strip_dot_slash(p@),
{
    let mut i: usize = 0;
    assert(p@.subrange(0, p@.len() as int) =~= p@);
    while p.len() - i >= 2 && p[i] == '.' && p[i + 1] == '/'
        invariant
            i <= p@.len(),
            strip_dot_slash(p@) == strip_dot_slash(p@.subrange(i as int, p@.len() as int)),
        decreases p.len() - i,
    {
        let ghost rest = p@.subrange(i as int, p@.len() as int);
        assert(rest.subrange(2, rest.len() as int) =~= p@.subrange(i + 2, p@.len() as int));
        i = i + 2;
    }
    let ghost rest = p@.subrange(i as int, p@.len() as int);
    assert(strip_dot_slash(rest) == rest);
    slice_chars(p, i, p.len())
}

pub open spec fn opt_root_view(r: Option<Root>) -> Option<(Seq<char>, Seq<char>, Option<u64>)> {
    match r {
        Some(x) => Some(root_view(x)),
        None => None,
    }
}

pub open spec fn opt_list<T>(o: Option<T>) -> Seq<T> {
    match o {
        Some(x) => seq![x],
        None => Seq::empty(),
    }
}

/// What the roots collected so far are, given all roots declared so far:
/// all of them, or the first `MAX_EXECUTION_ROOTS` when there are more.
pub open spec fn collected(out: Seq<Root>, incomplete: bool, done: Seq<(Seq<char>, Seq<char>, Option<u64>)>) -> bool {
    &&& !incomplete ==> roots_view(out) == done && done.len() <= MAX_EXECUTION_ROOTS
    &&& incomplete ==> roots_view(out) == done.take(MAX_EXECUTION_ROOTS as int) && done.len() > MAX_EXECUTION_ROOTS
}

/// Adds a found root, unless the limit is reached.
fn add_found(out: &mut Vec<Root>, incomplete: &mut bool, found: Option<Root>, Ghost(done): Ghost<Seq<(Seq<char>, Seq<char>, Option<u64>)>>)
    requires
        collected(old(out)@, *old(incomplete), done),
    ensures
        collected(final(out)@, *final(incomplete), done + opt_list(opt_root_view(found))),
{
    let ghost next = done + opt_list(opt_root_view(found));
    match found {
        Some(root) => {
            let ghost rv = root_view(root);
            if *incomplete {
                assert(next.take(MAX_EXECUTION_ROOTS as int) =~= done.take(MAX_EXECUTION_ROOTS as int));
            } else if out.len() < MAX_EXECUTION_ROOTS {
                let ghost before = out@;
                out.push(root);
                assert(roots_view(out@) =~= roots_view(before).push(rv));
                assert(roots_view(out@) =~= next);
            } else {
                *incomplete = true;
                assert(roots_view(out@).len() == out@.len());
                assert(next.take(MAX_EXECUTION_ROOTS as int) =~= done);
            }
        },
        None => {
            assert(next =~= done);
        },
    }
}

fn script_entry_root(path: &str, pc: &[char], tc: &[char], entry: &(String, Json)) -> (r: Option<Root>)
    requires
        pc@ == path@,
    ensures
        opt_root_view(r) == script_root(path@, tc@, *entry),
{
    match &entry.1 {
        Json::Str(c) => {
            match command_target(&chars_of(c.as_str())) {
                Some(target) => {
                    let file = string_from_chars(&resolve_from(pc, &target));
                    let mut trigger = owned("npm ");
                    push_str(&mut trigger, entry.0.as_str());
                    push_str(&mut trigger, " (");
                    push_str(&mut trigger, path);
                    push_str(&mut trigger, ")");
                    let line = find_line(tc, &quoted(entry.0.as_str()));
                    let root = Root { file, trigger, line };
                    assert(root_view(root) =~= script_root(path@, tc@, *entry).unwrap());
                    Some(root)
                },
                None => None,
            }
        },
        _ => None,
    }
}

fn task_entry_root(tc: &[char], task: &Json) -> (r: Option<Root>)
    ensures
        opt_root_view(r) == task_root(tc@, *task),
{
    let runs = match as_text(member_in(member(task, "runOptions"), "runOn")) {
        Some(s) => str_eq(s.as_str(), "folderOpen"),
        None => false,
    };
    if !runs {
        return None;
    }
    match as_text(member(task, "command")) {
        Some(command) => {
            match command_target(&chars_of(command.as_str())) {
                Some(target) => {
                    let file = string_from_chars(&without_dot_slash(&target));
                    let line = find_line(tc, &chars_of("folderOpen"));
                    let root = Root { file, trigger: owned("VS Code folderOpen task"), line };
                    assert(root_view(root) =~= task_root(tc@, *task).unwrap());
                    Some(root)
                },
                None => None,
            }
        },
        None => None,
    }
}

/// The execution roots that a file declares, at most `MAX_EXECUTION_ROOTS`
/// of them. `parsed` is the file's text parsed as JSON for a `package.json`
/// and as JSON5 for `.vscode/tasks.json` (or the parser's error).
pub fn roots(path: &str, text: Option<&str>, parsed: &Result<Json, String>, roles: &[String]) -> (r: RootAnalysis)
    ensures
        ({
            let all = declared_roots(path@, opt_text(text), parsed_view(*parsed), strings_view(roles@));
            &&& r.incomplete == (all.len() > MAX_EXECUTION_ROOTS)
            &&& roots_view(r.roots@) == if r.incomplete { all.take(MAX_EXECUTION_ROOTS as int) } else { all }
        }),
{
    let ghost tv = opt_text(text);
    let ghost pv = parsed_view(*parsed);
    let ghost all = declared_roots(path@, tv, pv, strings_view(roles@));
    let mut out: Vec<Root> = Vec::new();
    let mut incomplete = false;
    let ghost mut goal: Seq<(Seq<char>, Seq<char>, Option<u64>)> = Seq::empty();
    assert(roots_view(out@) =~= goal);
    if has_role(roles, "executable_config") {
        let mut trigger = owned("build config ");
        push_str(&mut trigger, path);
        let root = Root { file: owned(path), trigger, line: None };
        add_found(&mut out, &mut incomplete, Some(root), Ghost(goal));
        proof { goal = goal + seq![(path@, "build config "@ + path@, None::<u64>)]; }
    }
    assert(goal =~= if strings_view(roles@).contains("executable_config"@) {
        seq![(path@, "build config "@ + path@, None::<u64>)] } else { Seq::empty() });
    let pc = chars_of(path);
    match (text, parsed) {
        (Some(t), Ok(v)) => {
            let tc = chars_of(t);
            if chars_eq_str(&basename_of(&pc), "package.json") {
                match member(v, "scripts") {
                    Some(Json::Object(entries)) => {
                        let mut k: usize = 0;
                        while k < entries.len()
                            invariant
                                k <= entries@.len(),
                                pc@ == path@,
                                tc@ == t@,
                                collected(out@, incomplete, goal + script_roots(path@, t@, entries@.subrange(0, k as int))),
                            decreases entries.len() - k,
                        {
                            assert(entries@.subrange(0, k + 1).drop_last() =~= entries@.subrange(0, k as int));
                            let found = script_entry_root(path, &pc, &tc, &entries[k]);
                            add_found(&mut out, &mut incomplete, found,
                                Ghost(goal + script_roots(path@, t@, entries@.subrange(0, k as int))));
                            assert(goal + script_roots(path@, t@, entries@.subrange(0, k + 1))
                                =~= goal + script_roots(path@, t@, entries@.subrange(0, k as int)) + opt_list(opt_root_view(found)));
                            k = k + 1;
                        }
                        assert(entries@.subrange(0, entries@.len() as int) =~= entries@);
                        proof { goal = goal + script_roots(path@, t@, entries@); }
                    },
                    _ => {},
                }
            }
            if str_eq(path, ".vscode/tasks.json") {
                match member(v, "tasks") {
                    Some(Json::Array(items)) => {
                        let mut k: usize = 0;
                        while k < items.len()
                            invariant
                                k <= items@.len(),
                                tc@ == t@,
                                collected(out@, incomplete, goal + task_roots(t@, items@.subrange(0, k as int))),
                            decreases items.len() - k,
                        {
                            assert(items@.subrange(0, k + 1).drop_last() =~= items@.subrange(0, k as int));
                            let found = task_entry_root(&tc, &items[k]);
                            add_found(&mut out, &mut incomplete, found,
                                Ghost(goal + task_roots(t@, items@.subrange(0, k as int))));
                            assert(goal + task_roots(t@, items@.subrange(0, k + 1))
                                =~= goal + task_roots(t@, items@.subrange(0, k as int)) + opt_list(opt_root_view(found)));
                            k = k + 1;
                        }
                        assert(items@.subrange(0, items@.len() as int) =~= items@);
                        proof { goal = goal + task_roots(t@, items@); }
                    },
                    _ => {},
                }
            }
        },
        _ => {},
    }
    assert(goal =~= all);
    RootAnalysis { roots: out, incomplete }
}

} // verus!
