//! The decisions of Git history and diff analysis: which revision ranges are
//! accepted, how findings are keyed across revisions, and how historical
//! findings are reported.
use vstd::prelude::*;
use crate::model::{Finding, FindingView, findings_view, strings_view};
use crate::text::{
    chars_of, chars_lt, decimal, eq_chars, find_chars, is_ascii_hex_char, join, occurs_at, owned, push_decimal,
    push_str, seq_lt, string_from_range, lemma_seq_lt_asymmetric, lemma_seq_lt_irreflexive,
    lemma_seq_lt_total, lemma_seq_lt_transitive,
};

verus! {

/// The most findings that history analysis reports.
pub const MAX_HISTORY_FINDINGS: usize = 2000;

/// `..` is first found at `i` in `range`.
pub open spec fn first_dots(range: Seq<char>, i: int) -> bool {
    occurs_at(range, ".."@, i) && forall|j: int| 0 <= j < i ==> !occurs_at(range, ".."@, j)
}

/// A diff range's parts that are accepted: a 7 to 64 digit hexadecimal
/// commit ID, then `HEAD`.
pub open spec fn valid_range(base: Seq<char>, head: Seq<char>) -> bool {
    &&& head == "HEAD"@
    &&& 7 <= base.len() <= 64
    &&& forall|k: int| 0 <= k < base.len() ==> is_ascii_hex_char(#[trigger] base[k])
}

pub open spec fn missing_range_message() -> Seq<char> {
    "diff requires <good-commit>..HEAD"@
}

pub open spec fn bad_range_message() -> Seq<char> {
    "diff requires a hexadecimal commit ID followed by ..HEAD"@
}

/// Splits a `<commit>..HEAD` range at its first `..`.
pub fn parse_range(range: &str) -> (r: Result<(String, String), String>)
    ensures
        match r {
            Ok((base, head)) => exists|i: int| first_dots(range@, i)
                && base@ == range@.subrange(0, i) && head@ == range@.subrange(i + 2, range@.len() as int)
                && valid_range(base@, head@),
            Err(e) => ((forall|i: int| !occurs_at(range@, ".."@, i)) && e@ == missing_range_message())
                || (exists|i: int| first_dots(range@, i)
                    && !valid_range(range@.subrange(0, i), range@.subrange(i + 2, range@.len() as int))
                    && e@ == bad_range_message()),
        },
{
    let v = chars_of(range);
    let dots = chars_of("..");
    proof {
        reveal_strlit("..");
    }
    let i = match find_chars(&v, &dots, 0) {
        None => {
            return Err(owned("diff requires <good-commit>..HEAD"));
        },
        Some(i) => i,
    };
    assert(dots@.len() == 2);
    assert(occurs_at(v@, dots@, i as int));
    assert(i + 2 <= v@.len());
    assert(first_dots(range@, i as int));
    let n = v.len();
    let base = string_from_range(&v, 0, i);
    let head = string_from_range(&v, i + 2, n);
    let mut ok = i >= 7 && i <= 64 && crate::text::str_eq(head.as_str(), "HEAD");
    let mut k: usize = 0;
    while k < i
        invariant
            k <= i <= v@.len(),
            ok ==> forall|j: int| 0 <= j < k ==> is_ascii_hex_char(#[trigger] v@[j]),
            !ok ==> !(7 <= i <= 64 && head@ == "HEAD"@) || exists|j: int| 0 <= j < k && !is_ascii_hex_char(#[trigger] v@[j]),
            ok ==> 7 <= i <= 64 && head@ == "HEAD"@,
        decreases i - k,
    {
        let c = v[k];
        if !(('0' <= c && c <= '9') || ('A' <= c && c <= 'F') || ('a' <= c && c <= 'f')) {
            ok = false;
        }
        k = k + 1;
    }
    if !ok {
        assert(!valid_range(base@, head@)) by {
            if valid_range(base@, head@) {
                if !(7 <= i <= 64 && head@ == "HEAD"@) {
                } else {
                    let j = choose|j: int| 0 <= j < i && !is_ascii_hex_char(#[trigger] v@[j]);
                    assert(base@[j] == v@[j]);
                }
            }
        }
        return Err(owned("diff requires a hexadecimal commit ID followed by ..HEAD"));
    }
    assert forall|j: int| 0 <= j < base@.len() implies is_ascii_hex_char(#[trigger] base@[j]) by {
        assert(base@[j] == v@[j]);
    }
    Ok((base, head))
}

/// What identifies a finding across revisions: its rule, line and evidence.
pub open spec fn finding_key_of(f: FindingView) -> Seq<char> {
    f.id + "|"@ + decimal(match f.line { Some(l) => l as nat, None => 0 }) + "|"@ + join(f.evidence, "|"@)
}

/// The key that identifies a finding across revisions.
pub fn finding_key(finding: &Finding) -> (r: String)
    ensures
        r@ == finding_key_of(finding@),
{
    let mut s = finding.id.clone();
    push_str(&mut s, "|");
    push_decimal(&mut s, match finding.line { Some(l) => l, None => 0 });
    push_str(&mut s, "|");
    let ghost start = s@;
    let mut i: usize = 0;
    while i < finding.evidence.len()
        invariant
            i <= finding.evidence@.len(),
            s@ == start + join(strings_view(finding.evidence@).subrange(0, i as int), "|"@),
        decreases finding.evidence.len() - i,
    {
        if i > 0 {
            push_str(&mut s, "|");
        }
        push_str(&mut s, finding.evidence[i].as_str());
        let ghost ev = strings_view(finding.evidence@);
        assert(ev.subrange(0, i + 1).drop_last() =~= ev.subrange(0, i as int));
        assert(s@ =~= start + join(ev.subrange(0, i + 1), "|"@));
        i = i + 1;
    }
    assert(strings_view(finding.evidence@).subrange(0, finding.evidence@.len() as int) =~= strings_view(finding.evidence@));
    assert(s@ =~= finding_key_of(finding@));
    s
}

/// A finding as history analysis reports it: marked as introduced by the commit.
pub open spec fn historical(f: FindingView, commit: Seq<char>) -> FindingView {
    FindingView {
        title: "Historical commit introduced: "@ + f.title,
        message: "A scanner finding first appeared in this historical blob. Current worktree contents may differ. "@ + f.message,
        evidence: f.evidence.push("commit: "@ + commit),
        ..f
    }
}

/// What one commit's changes contributed.
pub struct ChangeSet {
    pub findings: Vec<(String, Finding)>,
    pub incomplete_reasons: Vec<String>,
    pub changed_blobs: usize,
}

pub open spec fn history_limit_message() -> Seq<char> {
    "Git history finding limit of "@ + decimal(MAX_HISTORY_FINDINGS as nat) + " reached"@
}

/// How many of `m` findings are appended to `n` before the limit stops it.
pub open spec fn history_added(n: nat, m: nat) -> nat {
    if m == 0 {
        0
    } else if n + m < MAX_HISTORY_FINDINGS {
        m
    } else if n + 1 >= MAX_HISTORY_FINDINGS {
        1
    } else {
        (MAX_HISTORY_FINDINGS - n) as nat
    }
}

/// Appends a commit's findings, marked as historical, until the history
/// finding limit is reached; reaching it is recorded as incomplete coverage.
pub fn append_history_findings(
    findings: &mut Vec<Finding>,
    incomplete: &mut Vec<String>,
    commit: &str,
    changes: ChangeSet,
)
    ensures
        ({
            let n = old(findings)@.len();
            let all = changes.findings@;
            let added = history_added(n, all.len());
            let reasons = strings_view(old(incomplete)@) + strings_view(changes.incomplete_reasons@);
            &&& final(findings)@.len() == n + added
            &&& final(findings)@.subrange(0, n as int) == old(findings)@
            &&& forall|k: int| 0 <= k < added ==> (#[trigger] final(findings)@[n + k])@ == historical(all[k].1@, commit@)
            &&& strings_view(final(incomplete)@) == if all.len() > 0 && n + added >= MAX_HISTORY_FINDINGS {
                    reasons.push(history_limit_message())
                } else {
                    reasons
                }
        }),
{
    let ghost n = findings@.len();
    let ghost all = changes.findings@;
    let reasons = changes.incomplete_reasons;
    let ghost r0 = strings_view(incomplete@);
    let mut j: usize = 0;
    while j < reasons.len()
        invariant
            j <= reasons@.len(),
            strings_view(incomplete@) == r0 + strings_view(reasons@).subrange(0, j as int),
        decreases reasons.len() - j,
    {
        let ghost before = strings_view(incomplete@);
        incomplete.push(reasons[j].clone());
        assert(strings_view(reasons@).subrange(0, j + 1) =~= strings_view(reasons@).subrange(0, j as int).push(reasons@[j as int]@));
        assert(strings_view(incomplete@) =~= before.push(reasons@[j as int]@));
        j = j + 1;
    }
    assert(strings_view(reasons@).subrange(0, reasons@.len() as int) =~= strings_view(reasons@));
    assert(strings_view(incomplete@) == strings_view(old(incomplete)@) + strings_view(changes.incomplete_reasons@));
    let ghost rs = strings_view(incomplete@);
    let items = changes.findings;
    let mut k: usize = 0;
    while k < items.len()
        invariant
            k <= items@.len(),
            items@ == all,
            findings@.len() == n + k,
            n + k < MAX_HISTORY_FINDINGS || k == 0,
            k <= history_added(n, all.len()),
            findings@.subrange(0, n as int) == old(findings)@,
            forall|q: int| 0 <= q < k ==> (#[trigger] findings@[n + q])@ == historical(all[q].1@, commit@),
            strings_view(incomplete@) == rs,
            rs == strings_view(old(incomplete)@) + strings_view(changes.incomplete_reasons@),
            all == changes.findings@,
            n == old(findings)@.len(),
        decreases items.len() - k,
    {
        let source = &items[k].1;
        let mut evidence = crate::text::clone_strings(&source.evidence);
        let mut note = owned("commit: ");
        push_str(&mut note, commit);
        evidence.push(note);
        let mut title = owned("Historical commit introduced: ");
        push_str(&mut title, source.title.as_str());
        let mut message = owned("A scanner finding first appeared in this historical blob. Current worktree contents may differ. ");
        push_str(&mut message, source.message.as_str());
        let f = Finding {
            id: source.id.clone(),
            severity: source.severity,
            confidence: source.confidence,
            score: source.score,
            title,
            message,
            file: match &source.file { Some(x) => Some(x.clone()), None => None },
            line: source.line,
            evidence,
        };
        assert(strings_view(f.evidence@) =~= historical(source@, commit@).evidence);
        assert(f@ == historical(all[k as int].1@, commit@));
        let ghost before = findings@;
        findings.push(f);
        assert(findings@.subrange(0, n as int) =~= before.subrange(0, n as int));
        assert forall|q: int| 0 <= q < k + 1 implies (#[trigger] findings@[n + q])@ == historical(all[q].1@, commit@) by {
            if q < k {
                assert(findings@[n + q] == before[n + q]);
            }
        }
        if findings.len() >= MAX_HISTORY_FINDINGS {
            let mut msg = owned("Git history finding limit of ");
            push_decimal(&mut msg, MAX_HISTORY_FINDINGS as u64);
            push_str(&mut msg, " reached");
            let ghost b2 = strings_view(incomplete@);
            incomplete.push(msg);
            assert(strings_view(incomplete@) =~= b2.push(history_limit_message()));
            assert(k + 1 == history_added(n, all.len()));
            return;
        }
        k = k + 1;
    }
}

/// The findings of `current` by key, in key order, each key once with the
/// last finding that has it.
pub open spec fn keyed(current: Seq<FindingView>) -> Seq<(Seq<char>, FindingView)>
    decreases current.len(),
{
    if current.len() == 0 {
        Seq::empty()
    } else {
        put_keyed(keyed(current.drop_last()), finding_key_of(current.last()), current.last())
    }
}

/// `(key, f)` put into a key-ordered sequence, replacing the entry with
/// the same key.
pub open spec fn put_keyed(s: Seq<(Seq<char>, FindingView)>, key: Seq<char>, f: FindingView) -> Seq<(Seq<char>, FindingView)>
    decreases s.len(),
{
    if s.len() == 0 {
        seq![(key, f)]
    } else if seq_lt(key, s.last().0) {
        put_keyed(s.drop_last(), key, f).push(s.last())
    } else if key == s.last().0 {
        s.drop_last().push((key, f))
    } else {
        s.push((key, f))
    }
}

/// The findings that a revision of a file introduces: its findings by key,
/// without those whose key its prior revision's findings have.
pub open spec fn introduced(current: Seq<FindingView>, previous: Seq<FindingView>) -> Seq<(Seq<char>, FindingView)> {
    keyed(current).filter(|e: (Seq<char>, FindingView)|
        !previous.map_values(|f: FindingView| finding_key_of(f)).contains(e.0))
}

proof fn lemma_put_keyed_at(s: Seq<(Seq<char>, FindingView)>, key: Seq<char>, f: FindingView, j: int)
    requires
        0 <= j <= s.len(),
        forall|i: int| j <= i < s.len() ==> seq_lt(key, (#[trigger] s[i]).0),
        j > 0 ==> !seq_lt(key, s[j - 1].0),
    ensures
        j > 0 && key == s[j - 1].0 ==> put_keyed(s, key, f) == s.update(j - 1, (key, f)),
        !(j > 0 && key == s[j - 1].0) ==> put_keyed(s, key, f) == s.insert(j, (key, f)),
    decreases s.len(),
{
    if s.len() == 0 {
        assert(s.insert(j, (key, f)) =~= seq![(key, f)]);
    } else if j == s.len() {
        assert(s.insert(j, (key, f)) =~= s.push((key, f)));
        assert(s.update(j - 1, (key, f)) =~= s.drop_last().push((key, f)));
    } else {
        lemma_put_keyed_at(s.drop_last(), key, f, j);
        assert(s.insert(j, (key, f)) =~= s.drop_last().insert(j, (key, f)).push(s.last()));
        if j > 0 {
            assert(s.update(j - 1, (key, f)) =~= s.drop_last().update(j - 1, (key, f)).push(s.last()));
        }
    }
}

/// The findings a revision introduces over its prior revision's findings,
/// each with the file's path.
pub fn introduced_findings(path: &str, current: Vec<Finding>, previous: &Vec<Finding>) -> (r: Vec<(String, Finding)>)
    ensures
        r@.map_values(|e: (String, Finding)| (finding_key_of(e.1@), e.1@))
            == introduced(findings_view(current@), findings_view(previous@)),
        forall|i: int| 0 <= i < r@.len() ==> (#[trigger] r@[i]).0@ == path@,
{
    let ghost cv = findings_view(current@);
    let ghost pv = findings_view(previous@);
    let ghost pk = pv.map_values(|f: FindingView| finding_key_of(f));
    let mut prior: Vec<Vec<char>> = Vec::new();
    let mut k: usize = 0;
    while k < previous.len()
        invariant
            k <= previous@.len(),
            pv == findings_view(previous@),
            pk == pv.map_values(|f: FindingView| finding_key_of(f)),
            crate::text::vecs_view(prior@) == pk.subrange(0, k as int),
        decreases previous.len() - k,
    {
        let key = chars_of(finding_key(&previous[k]).as_str());
        let ghost before = prior@;
        prior.push(key);
        assert(crate::text::vecs_view(prior@) =~= crate::text::vecs_view(before).push(key@));
        assert(pk.subrange(0, k + 1) =~= pk.subrange(0, k as int).push(key@));
        k = k + 1;
    }
    assert(pk.subrange(0, previous@.len() as int) =~= pk);
    // The current findings by key, last one winning, in key order.
    let ghost all = current@;
    let mut rest = current;
    let mut stack: Vec<Finding> = Vec::new();
    while rest.len() > 0
        invariant
            all == rest@ + stack@.reverse(),
        decreases rest.len(),
    {
        let ghost r0 = rest@;
        let ghost s0 = stack@;
        let x = rest.pop().unwrap();
        stack.push(x);
        assert(stack@.reverse() =~= seq![x] + s0.reverse());
        assert(r0 =~= rest@.push(x));
        assert(all =~= rest@ + stack@.reverse());
    }
    assert(all =~= stack@.reverse());
    assert(all.subrange(0, all.len() as int) =~= all);
    let mut keys: Vec<Vec<char>> = Vec::new();
    let mut entries: Vec<Finding> = Vec::new();
    assert(cv.take(0) =~= Seq::<FindingView>::empty());
    while stack.len() > 0
        invariant
            stack@.len() <= all.len(),
            cv == findings_view(all),
            all.subrange(all.len() - stack@.len(), all.len() as int) == stack@.reverse(),
            keys@.len() == entries@.len(),
            keyed(cv.take(all.len() - stack@.len()))
                == entries@.map_values(|f: Finding| (finding_key_of(f@), f@)),
            forall|i: int| 0 <= i < keys@.len() ==> (#[trigger] keys@[i])@ == finding_key_of(entries@[i]@),
        decreases stack.len(),
    {
        let ghost n = all.len() - stack@.len();
        let ghost s0 = stack@;
        let x = stack.pop().unwrap();
        assert(s0.reverse() =~= seq![x] + stack@.reverse());
        assert(all.subrange(n, all.len() as int)[0] == all[n]);
        assert(all[n] == x);
        assert(all.subrange(n + 1, all.len() as int) =~= all.subrange(n, all.len() as int).drop_first());
        assert(cv.take(n + 1).drop_last() =~= cv.take(n));
        assert(cv.take(n + 1).last() == x@);
        let kx = chars_of(finding_key(&x).as_str());
        let ghost ev = entries@.map_values(|f: Finding| (finding_key_of(f@), f@));
        let mut j: usize = entries.len();
        while j > 0 && chars_lt(&kx, &keys[j - 1])
            invariant
                j <= entries@.len(),
                keys@.len() == entries@.len(),
                kx@ == finding_key_of(x@),
                ev == entries@.map_values(|f: Finding| (finding_key_of(f@), f@)),
                forall|i: int| 0 <= i < keys@.len() ==> (#[trigger] keys@[i])@ == finding_key_of(entries@[i]@),
                forall|i: int| j <= i < ev.len() ==> seq_lt(kx@, (#[trigger] ev[i]).0),
            decreases j,
        {
            j = j - 1;
        }
        proof { lemma_put_keyed_at(ev, kx@, x@, j as int); }
        let ghost eo = entries@;
        let ghost ko = keys@;
        if j > 0 && eq_chars(&kx, &keys[j - 1]) {
            entries.set(j - 1, x);
            assert(entries@.map_values(|f: Finding| (finding_key_of(f@), f@)) =~= ev.update(j - 1, (kx@, x@)));
            assert forall|i: int| 0 <= i < keys@.len() implies (#[trigger] keys@[i])@ == finding_key_of(entries@[i]@) by {
                if i != j - 1 { assert(entries@[i] == eo[i]); }
            }
        } else {
            entries.insert(j, x);
            keys.insert(j, kx);
            assert(entries@.map_values(|f: Finding| (finding_key_of(f@), f@)) =~= ev.insert(j as int, (kx@, x@)));
            assert forall|i: int| 0 <= i < keys@.len() implies (#[trigger] keys@[i])@ == finding_key_of(entries@[i]@) by {
                if i < j {
                    assert(keys@[i] == ko[i] && entries@[i] == eo[i]);
                } else if i > j {
                    assert(keys@[i] == ko[i - 1] && entries@[i] == eo[i - 1]);
                }
            }
        }
    }
    assert(cv.take(all.len() as int) =~= cv);
    // Keep the entries whose key the prior revision lacks.
    let ghost kv = entries@.map_values(|f: Finding| (finding_key_of(f@), f@));
    let ghost pred = |e: (Seq<char>, FindingView)| !pk.contains(e.0);
    let mut out: Vec<(String, Finding)> = Vec::new();
    let mut rest = entries;
    let mut back: Vec<Finding> = Vec::new();
    let ghost ents = rest@;
    while rest.len() > 0
        invariant
            ents == rest@ + back@.reverse(),
        decreases rest.len(),
    {
        let ghost r0 = rest@;
        let ghost b0 = back@;
        let x = rest.pop().unwrap();
        back.push(x);
        assert(back@.reverse() =~= seq![x] + b0.reverse());
        assert(r0 =~= rest@.push(x));
        assert(ents =~= rest@ + back@.reverse());
    }
    assert(ents =~= back@.reverse());
    assert(ents.subrange(0, ents.len() as int) =~= ents);
    assert(kv.take(0).filter(pred) =~= Seq::<(Seq<char>, FindingView)>::empty()) by {
        reveal(Seq::filter);
    }
    while back.len() > 0
        invariant
            back@.len() <= ents.len(),
            kv == ents.map_values(|f: Finding| (finding_key_of(f@), f@)),
            ents.subrange(ents.len() - back@.len(), ents.len() as int) == back@.reverse(),
            pred == (|e: (Seq<char>, FindingView)| !pk.contains(e.0)),
            crate::text::vecs_view(prior@) == pk,
            out@.map_values(|e: (String, Finding)| (finding_key_of(e.1@), e.1@)) == kv.take(ents.len() - back@.len()).filter(pred),
            forall|i: int| 0 <= i < out@.len() ==> (#[trigger] out@[i]).0@ == path@,
        decreases back.len(),
    {
        let ghost n = ents.len() - back@.len();
        let ghost b0 = back@;
        let x = back.pop().unwrap();
        assert(b0.reverse() =~= seq![x] + back@.reverse());
        assert(ents.subrange(n, ents.len() as int)[0] == ents[n]);
        assert(ents[n] == x);
        assert(ents.subrange(n + 1, ents.len() as int) =~= ents.subrange(n, ents.len() as int).drop_first());
        assert(kv.take(n + 1).drop_last() =~= kv.take(n));
        assert(kv.take(n + 1).last() == (finding_key_of(x@), x@));
        let kx = chars_of(finding_key(&x).as_str());
        let mut seen = false;
        let mut m: usize = 0;
        while m < prior.len()
            invariant
                m <= prior@.len(),
                crate::text::vecs_view(prior@) == pk,
                seen == exists|q: int| 0 <= q < m && pk[q] == kx@,
            decreases prior.len() - m,
        {
            assert(pk[m as int] == prior@[m as int]@);
            if eq_chars(&prior[m], &kx) {
                seen = true;
            }
            m = m + 1;
        }
        assert(seen == pk.contains(kx@)) by {
            if pk.contains(kx@) {
                let q = choose|q: int| 0 <= q < pk.len() && pk[q] == kx@;
                assert(pk.len() == prior@.len());
            }
        }
        let ghost ov = out@.map_values(|e: (String, Finding)| (finding_key_of(e.1@), e.1@));
        proof { reveal(Seq::filter); }
        if !seen {
            let ghost oo = out@;
            out.push((owned(path), x));
            assert(out@.map_values(|e: (String, Finding)| (finding_key_of(e.1@), e.1@)) =~= ov.push((finding_key_of(x@), x@)));
            assert forall|i: int| 0 <= i < out@.len() implies (#[trigger] out@[i]).0@ == path@ by {
                if i < oo.len() { assert(out@[i] == oo[i]); }
            }
        }
    }
    assert(kv.take(ents.len() as int) =~= kv);
    out
}

/// The most changed blobs that one comparison reads.
pub const MAX_CHANGED_BLOBS: usize = 20000;
/// The largest blob that a comparison reads.
pub const MAX_OBJECT_BYTES: u64 = 16777216;
/// The most blob bytes that one comparison reads.
pub const MAX_CHANGED_BYTES: u64 = 268435456;

impl ChangeSet {
    /// A comparison that has found nothing yet.
    pub fn new() -> (r: ChangeSet)
        ensures
            r.findings@.len() == 0 && r.incomplete_reasons@.len() == 0 && r.changed_blobs == 0,
    {
        ChangeSet { findings: Vec::new(), incomplete_reasons: Vec::new(), changed_blobs: 0 }
    }

    /// Counts a changed entry; once the changed-blob limit is passed, that
    /// is recorded and the comparison stops.
    pub fn count_change(&mut self) -> (r: bool)
        ensures
            final(self).changed_blobs == old(self).changed_blobs.saturating_add(1),
            r == (final(self).changed_blobs <= MAX_CHANGED_BLOBS),
            r ==> final(self).incomplete_reasons == old(self).incomplete_reasons,
            !r ==> strings_view(final(self).incomplete_reasons@) == strings_view(old(self).incomplete_reasons@)
                .push("changed blob limit of 20000 reached"@),
            final(self).findings == old(self).findings,
    {
        self.changed_blobs = self.changed_blobs.saturating_add(1);
        if self.changed_blobs > MAX_CHANGED_BLOBS {
            let ghost before = strings_view(self.incomplete_reasons@);
            let note = owned("changed blob limit of 20000 reached");
            self.incomplete_reasons.push(note);
            assert(strings_view(self.incomplete_reasons@) =~= before.push(note@));
            false
        } else {
            true
        }
    }

    /// Takes a blob of `len` bytes into the byte budget `used` when it fits
    /// both the object and the total limits; otherwise records which blob
    /// (`changed` or `prior`) at `path` was left out.
    pub fn take_blob(&mut self, used: &mut u64, len: u64, which: &str, path: &str) -> (r: bool)
        ensures
            r == (len <= MAX_OBJECT_BYTES && old(used).saturating_add(len) <= MAX_CHANGED_BYTES),
            r ==> *final(used) == *old(used) + len && final(self).incomplete_reasons == old(self).incomplete_reasons,
            !r ==> *final(used) == *old(used) && strings_view(final(self).incomplete_reasons@)
                == strings_view(old(self).incomplete_reasons@).push(which@ + " Git blob byte limit reached at "@ + path@),
            final(self).findings == old(self).findings,
            final(self).changed_blobs == old(self).changed_blobs,
    {
        if len > MAX_OBJECT_BYTES || used.saturating_add(len) > MAX_CHANGED_BYTES {
            let mut note = owned(which);
            push_str(&mut note, " Git blob byte limit reached at ");
            push_str(&mut note, path);
            let ghost before = strings_view(self.incomplete_reasons@);
            self.incomplete_reasons.push(note);
            assert(strings_view(self.incomplete_reasons@) =~= before.push(note@));
            false
        } else {
            *used = *used + len;
            true
        }
    }
}

/// The most commits that history analysis reads, by profile.
pub open spec fn history_commit_limit(quick: bool) -> usize {
    if quick { 10 } else { 100 }
}

/// The most tree entries that history analysis reads, by profile.
pub open spec fn history_entry_limit(quick: bool) -> usize {
    if quick { 100000 } else { 1000000 }
}

/// The most parents of one commit that history analysis follows.
pub const MAX_COMMIT_PARENTS: usize = 64;

/// Where history analysis stands: how many commits it read, under which
/// limits, what it found and why it is incomplete.
pub struct HistoryWalk {
    pub commits: usize,
    pub max_commits: usize,
    pub max_entries: usize,
    pub findings: Vec<Finding>,
    pub incomplete_reasons: Vec<String>,
}

impl HistoryWalk {
    /// A walk that has read nothing, under the profile's limits.
    pub fn new(quick: bool) -> (r: HistoryWalk)
        ensures
            r.commits == 0,
            r.max_commits == history_commit_limit(quick),
            r.max_entries == history_entry_limit(quick),
            r.findings@.len() == 0 && r.incomplete_reasons@.len() == 0,
    {
        HistoryWalk {
            commits: 0,
            max_commits: if quick { 10 } else { 100 },
            max_entries: if quick { 100000 } else { 1000000 },
            findings: Vec::new(),
            incomplete_reasons: Vec::new(),
        }
    }

    /// Counts the next commit, unless the commit limit is reached, which is
    /// recorded instead and ends the walk; says whether the commit is read.
    pub fn admit_commit(&mut self) -> (r: bool)
        ensures
            r == (old(self).commits < old(self).max_commits),
            r ==> final(self).commits == old(self).commits + 1
                && final(self).incomplete_reasons == old(self).incomplete_reasons,
            !r ==> final(self).commits == old(self).commits
                && strings_view(final(self).incomplete_reasons@) == strings_view(old(self).incomplete_reasons@)
                    .push("Git history commit limit of "@ + decimal(old(self).max_commits as nat) + " reached"@),
            final(self).max_commits == old(self).max_commits,
            final(self).max_entries == old(self).max_entries,
            final(self).findings == old(self).findings,
    {
        if self.commits >= self.max_commits {
            let mut note = owned("Git history commit limit of ");
            push_decimal(&mut note, self.max_commits as u64);
            push_str(&mut note, " reached");
            let ghost before = strings_view(self.incomplete_reasons@);
            self.incomplete_reasons.push(note);
            assert(strings_view(self.incomplete_reasons@) =~= before.push(note@));
            false
        } else {
            self.commits = self.commits + 1;
            true
        }
    }

    /// How many of a commit's `parents` are followed: at most
    /// `MAX_COMMIT_PARENTS`; when there are more, that is recorded.
    pub fn parents_to_follow(&mut self, parents: usize, commit: &str) -> (r: usize)
        ensures
            r == if parents > MAX_COMMIT_PARENTS { MAX_COMMIT_PARENTS } else { parents },
            parents > MAX_COMMIT_PARENTS ==> strings_view(final(self).incomplete_reasons@)
                == strings_view(old(self).incomplete_reasons@).push("commit parent limit of 64 reached at "@ + commit@),
            parents <= MAX_COMMIT_PARENTS ==> final(self).incomplete_reasons == old(self).incomplete_reasons,
            final(self).commits == old(self).commits,
            final(self).max_commits == old(self).max_commits,
            final(self).max_entries == old(self).max_entries,
            final(self).findings == old(self).findings,
    {
        if parents > MAX_COMMIT_PARENTS {
            let mut note = owned("commit parent limit of 64 reached at ");
            push_str(&mut note, commit);
            let ghost before = strings_view(self.incomplete_reasons@);
            self.incomplete_reasons.push(note);
            assert(strings_view(self.incomplete_reasons@) =~= before.push(note@));
            MAX_COMMIT_PARENTS
        } else {
            parents
        }
    }

    /// Takes a commit's changes, marked as historical, within the history
    /// finding limit.
    pub fn add_changes(&mut self, commit: &str, changes: ChangeSet)
        ensures
            ({
                let n = old(self).findings@.len();
                let all = changes.findings@;
                let added = history_added(n, all.len());
                let reasons = strings_view(old(self).incomplete_reasons@) + strings_view(changes.incomplete_reasons@);
                &&& final(self).findings@.len() == n + added
                &&& final(self).findings@.subrange(0, n as int) == old(self).findings@
                &&& forall|k: int| 0 <= k < added ==> (#[trigger] final(self).findings@[n + k])@ == historical(all[k].1@, commit@)
                &&& strings_view(final(self).incomplete_reasons@) == if all.len() > 0 && n + added >= MAX_HISTORY_FINDINGS {
                        reasons.push(history_limit_message())
                    } else {
                        reasons
                    }
            }),
            final(self).commits == old(self).commits,
            final(self).max_commits == old(self).max_commits,
            final(self).max_entries == old(self).max_entries,
    {
        append_history_findings(&mut self.findings, &mut self.incomplete_reasons, commit, changes);
    }

    /// After a commit, whether the walk goes on: it stops, recording why,
    /// once `entries` tree entries used up the entry limit.
    pub fn within_entries(&mut self, entries: usize) -> (r: bool)
        ensures
            r == (entries < old(self).max_entries),
            r ==> final(self).incomplete_reasons == old(self).incomplete_reasons,
            !r ==> strings_view(final(self).incomplete_reasons@) == strings_view(old(self).incomplete_reasons@)
                .push("Git history tree-entry limit of "@ + decimal(old(self).max_entries as nat) + " reached"@),
            final(self).commits == old(self).commits,
            final(self).max_commits == old(self).max_commits,
            final(self).max_entries == old(self).max_entries,
            final(self).findings == old(self).findings,
    {
        if entries >= self.max_entries {
            let mut note = owned("Git history tree-entry limit of ");
            push_decimal(&mut note, self.max_entries as u64);
            push_str(&mut note, " reached");
            let ghost before = strings_view(self.incomplete_reasons@);
            self.incomplete_reasons.push(note);
            assert(strings_view(self.incomplete_reasons@) =~= before.push(note@));
            false
        } else {
            true
        }
    }
}

/// A name that a Git tree entry may have: not empty, `.` or `..`, and with
/// neither a slash nor a control character.
pub open spec fn tree_name_ok(name: Seq<char>) -> bool {
    &&& name.len() > 0
    &&& !name.contains('/')
    &&& forall|i: int| 0 <= i < name.len() ==> !crate::text::is_control(#[trigger] name[i])
    &&& name != seq!['.']
    &&& name != seq!['.', '.']
}

/// Whether a Git tree entry's name may be taken as a path component.
pub fn tree_name_valid(name: &str) -> (r: bool)
    ensures
        r == tree_name_ok(name@),
{
    let v = chars_of(name);
    if v.len() == 0 {
        return false;
    }
    if v.len() == 1 && v[0] == '.' {
        assert(name@ =~= seq!['.']);
        return false;
    }
    if v.len() == 2 && v[0] == '.' && v[1] == '.' {
        assert(name@ =~= seq!['.', '.']);
        return false;
    }
    assert(name@ != seq!['.']) by {
        if name@ =~= seq!['.'] { assert(v@[0] == '.'); }
    }
    assert(name@ != seq!['.', '.']) by {
        if name@ =~= seq!['.', '.'] { assert(v@[0] == '.' && v@[1] == '.'); }
    }
    let mut i: usize = 0;
    while i < v.len()
        invariant
            i <= v@.len(),
            v@ == name@,
            forall|j: int| 0 <= j < i ==> v@[j] != '/' && !crate::text::is_control(#[trigger] v@[j]),
        decreases v.len() - i,
    {
        if v[i] == '/' || crate::text::char_is_control(v[i]) {
            assert(v@[i as int] == '/' ==> name@.contains('/'));
            return false;
        }
        i = i + 1;
    }
    true
}

/// A tree entry's path: its name under the prefix.
pub open spec fn tree_path_of(prefix: Seq<char>, name: Seq<char>) -> Seq<char> {
    if prefix.len() == 0 { name } else { prefix + seq!['/'] + name }
}

/// A tree entry's path: its name under the prefix.
pub fn tree_path(prefix: &str, name: &str) -> (r: String)
    ensures
        r@ == tree_path_of(prefix@, name@),
{
    if chars_of(prefix).len() == 0 {
        owned(name)
    } else {
        let mut p = owned(prefix);
        crate::text::push_char(&mut p, '/');
        push_str(&mut p, name);
        p
    }
}

/// A Git configuration that names one of the redirecting words, in any
/// ASCII case.
pub open spec fn config_redirects(config: Seq<u8>) -> bool {
    exists|t: int, i: int| 0 <= t < 4 && #[trigger] crate::scanner::js::extract::ci_at(config, redirect_byte_terms()[t], i)
}

/// The redirecting words as bytes.
pub open spec fn redirect_byte_terms() -> Seq<Seq<u8>> {
    seq![seq![0x69u8, 0x6eu8, 0x63u8, 0x6cu8, 0x75u8, 0x64u8, 0x65u8],
        seq![0x77u8, 0x6fu8, 0x72u8, 0x6bu8, 0x74u8, 0x72u8, 0x65u8, 0x65u8],
        seq![0x61u8, 0x6cu8, 0x74u8, 0x65u8, 0x72u8, 0x6eu8, 0x61u8, 0x74u8, 0x65u8, 0x73u8],
        seq![0x67u8, 0x69u8, 0x74u8, 0x64u8, 0x69u8, 0x72u8]]
}

/// Whether a Git configuration redirects paths or includes other files:
/// it names `include`, `worktree`, `alternates` or `gitdir`, in any case.
pub fn redirects_paths(config: &[u8]) -> (r: bool)
    ensures
        r == config_redirects(config@),
{
    let mut t: usize = 0;
    while t < 4
        invariant
            t <= 4,
            forall|u: int, i: int| 0 <= u < t ==> !#[trigger] crate::scanner::js::extract::ci_at(config@, redirect_byte_terms()[u], i),
        decreases 4 - t,
    {
        let term: Vec<u8> = if t == 0 {
            vec![0x69u8, 0x6eu8, 0x63u8, 0x6cu8, 0x75u8, 0x64u8, 0x65u8]
        } else if t == 1 {
            vec![0x77u8, 0x6fu8, 0x72u8, 0x6bu8, 0x74u8, 0x72u8, 0x65u8, 0x65u8]
        } else if t == 2 {
            vec![0x61u8, 0x6cu8, 0x74u8, 0x65u8, 0x72u8, 0x6eu8, 0x61u8, 0x74u8, 0x65u8, 0x73u8]
        } else {
            vec![0x67u8, 0x69u8, 0x74u8, 0x64u8, 0x69u8, 0x72u8]
        };
        assert(term@ =~= redirect_byte_terms()[t as int]);
        if crate::scanner::js::extract::find_ci(config, term.as_slice(), 0).is_some() {
            return true;
        }
        t = t + 1;
    }
    false
}

/// What a diff report says: the range, how many blobs changed, each new
/// finding with its path or that there is none, and why coverage is
/// incomplete.
pub open spec fn diff_text_of(base: Seq<char>, head: Seq<char>, changed: nat,
    findings: Seq<(String, Finding)>, incomplete: Seq<String>) -> Seq<char> {
    "Git diff "@ + base + ".."@ + head + "\nChanged blobs: "@ + decimal(changed) + "\n"@
        + diff_lines(findings)
        + (if findings.len() == 0 { "No new scanner findings were identified in changed blobs.\n"@ } else { Seq::empty() })
        + (if incomplete.len() > 0 { "Coverage: INCOMPLETE\n"@ + reason_lines(incomplete) } else { Seq::empty() })
}

/// One line for each new finding: its id and path.
pub open spec fn diff_lines(findings: Seq<(String, Finding)>) -> Seq<char>
    decreases findings.len(),
{
    if findings.len() == 0 {
        Seq::empty()
    } else {
        diff_lines(findings.drop_last()) + "+ "@ + findings.last().1.id@ + "  "@ + findings.last().0@ + "\n"@
    }
}

/// One line for each reason.
pub open spec fn reason_lines(reasons: Seq<String>) -> Seq<char>
    decreases reasons.len(),
{
    if reasons.len() == 0 {
        Seq::empty()
    } else {
        reason_lines(reasons.drop_last()) + "- "@ + reasons.last()@ + "\n"@
    }
}

/// The text of a diff report, and whether its coverage is incomplete.
pub fn diff_report(base: &str, head: &str, changes: &ChangeSet) -> (r: (String, bool))
    ensures
        r.0@ == diff_text_of(base@, head@, changes.changed_blobs as nat, changes.findings@, changes.incomplete_reasons@),
        r.1 == (changes.incomplete_reasons@.len() > 0),
{
    let mut out = owned("Git diff ");
    push_str(&mut out, base);
    push_str(&mut out, "..");
    push_str(&mut out, head);
    push_str(&mut out, "\nChanged blobs: ");
    push_decimal(&mut out, changes.changed_blobs as u64);
    push_str(&mut out, "\n");
    let ghost head_text = out@;
    assert(head_text =~= "Git diff "@ + base@ + ".."@ + head@ + "\nChanged blobs: "@ + decimal(changes.changed_blobs as nat) + "\n"@);
    let mut i: usize = 0;
    while i < changes.findings.len()
        invariant
            i <= changes.findings@.len(),
            out@ == head_text + diff_lines(changes.findings@.subrange(0, i as int)),
        decreases changes.findings.len() - i,
    {
        let (path, finding) = &changes.findings[i];
        push_str(&mut out, "+ ");
        push_str(&mut out, finding.id.as_str());
        push_str(&mut out, "  ");
        push_str(&mut out, path.as_str());
        push_str(&mut out, "\n");
        assert(changes.findings@.subrange(0, i + 1).drop_last() =~= changes.findings@.subrange(0, i as int));
        assert(out@ =~= head_text + diff_lines(changes.findings@.subrange(0, i + 1)));
        i = i + 1;
    }
    assert(changes.findings@.subrange(0, changes.findings@.len() as int) =~= changes.findings@);
    let ghost body = out@;
    if changes.findings.len() == 0 {
        push_str(&mut out, "No new scanner findings were identified in changed blobs.\n");
    }
    let ghost with_none = out@;
    assert(with_none =~= body + (if changes.findings@.len() == 0 { "No new scanner findings were identified in changed blobs.\n"@ } else { Seq::empty() }));
    let incomplete = changes.incomplete_reasons.len() > 0;
    if incomplete {
        push_str(&mut out, "Coverage: INCOMPLETE\n");
        let ghost start = out@;
        let mut k: usize = 0;
        while k < changes.incomplete_reasons.len()
            invariant
                k <= changes.incomplete_reasons@.len(),
                out@ == start + reason_lines(changes.incomplete_reasons@.subrange(0, k as int)),
            decreases changes.incomplete_reasons.len() - k,
        {
            push_str(&mut out, "- ");
            push_str(&mut out, changes.incomplete_reasons[k].as_str());
            push_str(&mut out, "\n");
            assert(changes.incomplete_reasons@.subrange(0, k + 1).drop_last() =~= changes.incomplete_reasons@.subrange(0, k as int));
            assert(out@ =~= start + reason_lines(changes.incomplete_reasons@.subrange(0, k + 1)));
            k = k + 1;
        }
        assert(changes.incomplete_reasons@.subrange(0, changes.incomplete_reasons@.len() as int) =~= changes.incomplete_reasons@);
    }
    assert(out@ =~= with_none + (if changes.incomplete_reasons@.len() > 0 { "Coverage: INCOMPLETE\n"@ + reason_lines(changes.incomplete_reasons@) } else { Seq::empty() }));
    (out, incomplete)
}


/// The keys of `s` are in strict order, so each occurs once.
pub open spec fn keys_sorted(s: Seq<(Seq<char>, FindingView)>) -> bool {
    forall|i: int, j: int| 0 <= i < j < s.len() ==> seq_lt((#[trigger] s[i]).0, (#[trigger] s[j]).0)
}

proof fn lemma_put_keyed(s: Seq<(Seq<char>, FindingView)>, key: Seq<char>, f: FindingView)
    requires
        keys_sorted(s),
    ensures
        keys_sorted(put_keyed(s, key, f)),
        put_keyed(s, key, f).contains((key, f)),
        forall|e: (Seq<char>, FindingView)| put_keyed(s, key, f).contains(e)
            ==> e == (key, f) || (s.contains(e) && e.0 != key),
        forall|e: (Seq<char>, FindingView)| s.contains(e) && e.0 != key ==> put_keyed(s, key, f).contains(e),
    decreases s.len(),
{
    let r = put_keyed(s, key, f);
    if s.len() == 0 {
        assert(r[0] == (key, f));
    } else {
        let d = s.drop_last();
        let last = s.last();
        assert(s =~= d.push(last));
        assert(s[s.len() - 1] == last);
        assert(keys_sorted(d)) by {
            assert forall|i: int, j: int| 0 <= i < j < d.len() implies seq_lt((#[trigger] d[i]).0, (#[trigger] d[j]).0) by {
                assert(d[i] == s[i] && d[j] == s[j]);
            }
        }
        assert forall|i: int| 0 <= i < d.len() implies seq_lt((#[trigger] d[i]).0, last.0) by {
            assert(d[i] == s[i]);
        }
        lemma_seq_lt_irreflexive(key);
        if seq_lt(key, last.0) {
            lemma_put_keyed(d, key, f);
            let r1 = put_keyed(d, key, f);
            assert(r == r1.push(last));
            assert forall|i: int| 0 <= i < r1.len() implies seq_lt((#[trigger] r1[i]).0, last.0) by {
                assert(r1.contains(r1[i]));
                if r1[i] != (key, f) {
                    assert(d.contains(r1[i]));
                    let k = choose|k: int| 0 <= k < d.len() && d[k] == r1[i];
                }
            }
            assert forall|i: int, j: int| 0 <= i < j < r.len() implies seq_lt((#[trigger] r[i]).0, (#[trigger] r[j]).0) by {
                assert(r[i] == r1[i]);
                if j < r1.len() {
                    assert(r[j] == r1[j]);
                } else {
                    assert(r[j] == last);
                }
            }
            let k = choose|k: int| 0 <= k < r1.len() && r1[k] == (key, f);
            assert(r[k] == (key, f));
            assert forall|e: (Seq<char>, FindingView)| r.contains(e) implies e == (key, f) || (s.contains(e) && e.0 != key) by {
                let k = choose|k: int| 0 <= k < r.len() && r[k] == e;
                if k < r1.len() {
                    assert(r1[k] == e);
                    assert(r1.contains(e));
                    if e != (key, f) {
                        assert(d.contains(e));
                        let m = choose|m: int| 0 <= m < d.len() && d[m] == e;
                        assert(s[m] == e);
                    }
                } else {
                    assert(e == last);
                }
            }
            assert forall|e: (Seq<char>, FindingView)| s.contains(e) && e.0 != key implies r.contains(e) by {
                let k = choose|k: int| 0 <= k < s.len() && s[k] == e;
                if k < d.len() {
                    assert(d[k] == e);
                    assert(d.contains(e));
                    let m = choose|m: int| 0 <= m < r1.len() && r1[m] == e;
                    assert(r[m] == e);
                } else {
                    assert(r[r1.len() as int] == e);
                }
            }
        } else if key == last.0 {
            assert(r == d.push((key, f)));
            assert forall|i: int, j: int| 0 <= i < j < r.len() implies seq_lt((#[trigger] r[i]).0, (#[trigger] r[j]).0) by {
                assert(r[i] == d[i]);
                if j < d.len() {
                    assert(r[j] == d[j]);
                }
            }
            assert(r[d.len() as int] == (key, f));
            assert forall|e: (Seq<char>, FindingView)| r.contains(e) implies e == (key, f) || (s.contains(e) && e.0 != key) by {
                let k = choose|k: int| 0 <= k < r.len() && r[k] == e;
                if k < d.len() {
                    assert(d[k] == e);
                    assert(s[k] == e);
                }
            }
            assert forall|e: (Seq<char>, FindingView)| s.contains(e) && e.0 != key implies r.contains(e) by {
                let k = choose|k: int| 0 <= k < s.len() && s[k] == e;
                assert(k < d.len());
                assert(r[k] == e);
            }
        } else {
            lemma_seq_lt_total(key, last.0);
            assert(r == s.push((key, f)));
            assert forall|i: int| 0 <= i < s.len() implies seq_lt((#[trigger] s[i]).0, key) by {
                if i < d.len() {
                    assert(d[i] == s[i]);
                    lemma_seq_lt_transitive(s[i].0, last.0, key);
                }
            }
            assert forall|i: int, j: int| 0 <= i < j < r.len() implies seq_lt((#[trigger] r[i]).0, (#[trigger] r[j]).0) by {
                assert(r[i] == s[i]);
                if j < s.len() {
                    assert(r[j] == s[j]);
                }
            }
            assert(r[s.len() as int] == (key, f));
            assert forall|e: (Seq<char>, FindingView)| r.contains(e) implies e == (key, f) || (s.contains(e) && e.0 != key) by {
                let k = choose|k: int| 0 <= k < r.len() && r[k] == e;
                if k < s.len() {
                    assert(s[k] == e);
                }
            }
            assert forall|e: (Seq<char>, FindingView)| s.contains(e) && e.0 != key implies r.contains(e) by {
                let k = choose|k: int| 0 <= k < s.len() && s[k] == e;
                assert(r[k] == e);
            }
        }
    }
}

proof fn lemma_keyed(current: Seq<FindingView>)
    ensures
        keys_sorted(keyed(current)),
        forall|e: (Seq<char>, FindingView)| keyed(current).contains(e)
            ==> current.contains(e.1) && e.0 == finding_key_of(e.1),
        forall|i: int| 0 <= i < current.len() ==> exists|k: int| 0 <= k < keyed(current).len()
            && (#[trigger] keyed(current)[k]).0 == finding_key_of(#[trigger] current[i]),
    decreases current.len(),
{
    if current.len() > 0 {
        let d = current.drop_last();
        let last = current.last();
        let kd = keyed(d);
        lemma_keyed(d);
        lemma_put_keyed(kd, finding_key_of(last), last);
        let r = keyed(current);
        assert(current[current.len() - 1] == last);
        assert forall|e: (Seq<char>, FindingView)| r.contains(e) implies current.contains(e.1) && e.0 == finding_key_of(e.1) by {
            if e != (finding_key_of(last), last) {
                assert(kd.contains(e));
                assert(d.contains(e.1));
                let m = choose|m: int| 0 <= m < d.len() && d[m] == e.1;
                assert(current[m] == e.1);
            }
        }
        let w = choose|k: int| 0 <= k < r.len() && r[k] == (finding_key_of(last), last);
        assert forall|i: int| 0 <= i < current.len() implies exists|k: int| 0 <= k < r.len()
            && (#[trigger] r[k]).0 == finding_key_of(#[trigger] current[i]) by {
            if i < d.len() {
                assert(d[i] == current[i]);
                let k = choose|k: int| 0 <= k < kd.len() && (#[trigger] kd[k]).0 == finding_key_of(d[i]);
                assert(kd.contains(kd[k]));
                if kd[k].0 != finding_key_of(last) {
                    assert(r.contains(kd[k]));
                    let m = choose|m: int| 0 <= m < r.len() && r[m] == kd[k];
                    assert(r[m].0 == finding_key_of(current[i]));
                } else {
                    assert(r[w].0 == finding_key_of(current[i]));
                }
            } else {
                assert(r[w].0 == finding_key_of(current[i]));
            }
        }
    }
}

proof fn lemma_filter_keys_sorted(s: Seq<(Seq<char>, FindingView)>, pred: spec_fn((Seq<char>, FindingView)) -> bool)
    requires
        keys_sorted(s),
    ensures
        keys_sorted(s.filter(pred)),
    decreases s.len(),
{
    reveal(Seq::filter);
    if s.len() > 0 {
        let d = s.drop_last();
        assert(keys_sorted(d)) by {
            assert forall|i: int, j: int| 0 <= i < j < d.len() implies seq_lt((#[trigger] d[i]).0, (#[trigger] d[j]).0) by {
                assert(d[i] == s[i] && d[j] == s[j]);
            }
        }
        lemma_filter_keys_sorted(d, pred);
        let fd = d.filter(pred);
        if pred(s.last()) {
            let r = fd.push(s.last());
            assert forall|i: int, j: int| 0 <= i < j < r.len() implies seq_lt((#[trigger] r[i]).0, (#[trigger] r[j]).0) by {
                assert(r[i] == fd[i]);
                if j < fd.len() {
                    assert(r[j] == fd[j]);
                } else {
                    assert(fd.contains(fd[i]));
                    d.lemma_filter_contains_rev(pred, fd[i]);
                    let m = choose|m: int| 0 <= m < d.len() && d[m] == fd[i];
                    assert(s[m] == d[m]);
                    assert(s[s.len() - 1] == s.last());
                }
            }
        }
    }
}

/// What a diff reports of a file: the findings of the newer revision whose
/// key no finding of the older revision has, each key once and in key
/// order, each with its key, and every such key.
pub proof fn lemma_introduced(current: Seq<FindingView>, previous: Seq<FindingView>)
    ensures
        keys_sorted(introduced(current, previous)),
        forall|e: (Seq<char>, FindingView)| #[trigger] introduced(current, previous).contains(e)
            ==> current.contains(e.1) && e.0 == finding_key_of(e.1)
                && forall|j: int| 0 <= j < previous.len() ==> finding_key_of(#[trigger] previous[j]) != e.0,
        forall|i: int| 0 <= i < current.len()
            && (forall|j: int| 0 <= j < previous.len() ==> finding_key_of(#[trigger] previous[j]) != finding_key_of(current[i]))
            ==> exists|k: int| 0 <= k < introduced(current, previous).len()
                && (#[trigger] introduced(current, previous)[k]).0 == finding_key_of(#[trigger] current[i]),
{
    let pk = previous.map_values(|f: FindingView| finding_key_of(f));
    let pred = |e: (Seq<char>, FindingView)| !pk.contains(e.0);
    let kc = keyed(current);
    let r = introduced(current, previous);
    assert(r == kc.filter(pred));
    lemma_keyed(current);
    lemma_filter_keys_sorted(kc, pred);
    assert forall|e: (Seq<char>, FindingView)| #[trigger] r.contains(e) implies current.contains(e.1)
        && e.0 == finding_key_of(e.1)
        && forall|j: int| 0 <= j < previous.len() ==> finding_key_of(#[trigger] previous[j]) != e.0 by {
        kc.lemma_filter_contains_rev(pred, e);
        let k = choose|k: int| 0 <= k < r.len() && r[k] == e;
        kc.lemma_filter_pred(pred, k);
        assert forall|j: int| 0 <= j < previous.len() implies finding_key_of(#[trigger] previous[j]) != e.0 by {
            assert(pk[j] == finding_key_of(previous[j]));
        }
    }
    assert forall|i: int| 0 <= i < current.len()
        && (forall|j: int| 0 <= j < previous.len() ==> finding_key_of(#[trigger] previous[j]) != finding_key_of(current[i]))
        implies exists|k: int| 0 <= k < r.len() && (#[trigger] r[k]).0 == finding_key_of(#[trigger] current[i]) by {
        let k = choose|k: int| 0 <= k < kc.len() && (#[trigger] kc[k]).0 == finding_key_of(current[i]);
        assert(!pk.contains(kc[k].0)) by {
            if pk.contains(kc[k].0) {
                let j = choose|j: int| 0 <= j < pk.len() && pk[j] == kc[k].0;
                assert(pk[j] == finding_key_of(previous[j]));
            }
        }
        kc.lemma_filter_contains(pred, k);
        let m = choose|m: int| 0 <= m < r.len() && r[m] == kc[k];
        assert(r[m].0 == finding_key_of(current[i]));
    }
}

} // verus!
