//! The orders in which a report lists its findings, files and dependencies.
use vstd::prelude::*;
use crate::model::{
    DependencyRecord, FileRecord, Finding, FindingView, findings_view, severity_rank,
};
use crate::text::{
    chars_lt, chars_of, eq_chars, lemma_seq_lt_asymmetric, lemma_seq_lt_irreflexive,
    lemma_seq_lt_total, lemma_seq_lt_transitive, seq_lt,
};

verus! {

/// `a` comes before `b` as optional strings: nothing first.
pub open spec fn opt_lt(a: Option<Seq<char>>, b: Option<Seq<char>>) -> bool {
    match (a, b) {
        (None, Some(_)) => true,
        (Some(x), Some(y)) => seq_lt(x, y),
        _ => false,
    }
}

/// A finding comes first by higher severity, then by file, then by id.
pub open spec fn finding_before(a: FindingView, b: FindingView) -> bool {
    severity_rank(a.severity) > severity_rank(b.severity)
        || (severity_rank(a.severity) == severity_rank(b.severity)
            && (opt_lt(a.file, b.file) || (a.file == b.file && seq_lt(a.id, b.id))))
}

/// `x` put into `s` after every element that it does not come before.
pub open spec fn insert_finding(s: Seq<FindingView>, x: FindingView) -> Seq<FindingView>
    decreases s.len(),
{
    if s.len() == 0 {
        seq![x]
    } else if finding_before(x, s.last()) {
        insert_finding(s.drop_last(), x).push(s.last())
    } else {
        s.push(x)
    }
}

/// The findings in report order; findings that neither comes before keep
/// their order.
pub open spec fn findings_in_order(s: Seq<FindingView>) -> Seq<FindingView>
    decreases s.len(),
{
    if s.len() == 0 {
        s
    } else {
        insert_finding(findings_in_order(s.drop_last()), s.last())
    }
}

/// Inserting at `j` is `insert_finding` when `x` comes before every element
/// from `j` on and not before the one at `j - 1`.
proof fn lemma_insert_finding_at(s: Seq<FindingView>, x: FindingView, j: int)
    requires
        0 <= j <= s.len(),
        forall|i: int| j <= i < s.len() ==> finding_before(x, #[trigger] s[i]),
        j > 0 ==> !finding_before(x, s[j - 1]),
    ensures
        insert_finding(s, x) == s.insert(j, x),
    decreases s.len(),
{
    if s.len() == 0 {
        assert(s.insert(j, x) =~= seq![x]);
    } else if j == s.len() {
        assert(s.insert(j, x) =~= s.push(x));
    } else {
        lemma_insert_finding_at(s.drop_last(), x, j);
        assert(s.insert(j, x) =~= s.drop_last().insert(j, x).push(s.last()));
    }
}

/// What a finding is ordered by, ready to compare.
struct FindingKey {
    rank: u8,
    file: Option<Vec<char>>,
    id: Vec<char>,
}

spec fn key_matches(k: FindingKey, f: FindingView) -> bool {
    &&& k.rank as nat == severity_rank(f.severity)
    &&& match (k.file, f.file) {
        (Some(a), Some(b)) => a@ == b,
        (None, None) => true,
        _ => false,
    }
    &&& k.id@ == f.id
}

fn finding_key(f: &Finding) -> (k: FindingKey)
    ensures
        key_matches(k, f@),
{
    FindingKey {
        rank: f.severity.rank(),
        file: match &f.file {
            Some(p) => Some(chars_of(p.as_str())),
            None => None,
        },
        id: chars_of(f.id.as_str()),
    }
}

fn key_before(a: &FindingKey, b: &FindingKey, Ghost(fa): Ghost<FindingView>, Ghost(fb): Ghost<FindingView>) -> (r: bool)
    requires
        key_matches(*a, fa),
        key_matches(*b, fb),
    ensures
        r == finding_before(fa, fb),
{
    if a.rank != b.rank {
        return a.rank > b.rank;
    }
    let (file_lt, file_eq) = match (&a.file, &b.file) {
        (None, Some(_)) => (true, false),
        (Some(x), Some(y)) => (chars_lt(x, y), eq_chars(x, y)),
        (None, None) => (false, true),
        (Some(_), None) => (false, false),
    };
    file_lt || (file_eq && chars_lt(&a.id, &b.id))
}

/// The findings in report order.
pub fn order_findings(findings: Vec<Finding>) -> (r: Vec<Finding>)
    ensures
        findings_view(r@) == findings_in_order(findings_view(findings@)),
{
    let ghost all = findings_view(findings@);
    let mut rest = findings;
    let mut stack: Vec<Finding> = Vec::new();
    while rest.len() > 0
        invariant
            all == findings_view(rest@) + findings_view(stack@.reverse()),
        decreases rest.len(),
    {
        let ghost r0 = rest@;
        let ghost s0 = stack@;
        let x = rest.pop().unwrap();
        stack.push(x);
        assert(stack@.reverse() =~= seq![x] + s0.reverse());
        assert(r0 =~= rest@.push(x));
        assert(findings_view(r0) + findings_view(s0.reverse()) =~= findings_view(rest@) + findings_view(stack@.reverse()));
    }
    assert(all =~= findings_view(stack@.reverse()));
    let mut out: Vec<Finding> = Vec::new();
    let mut keys: Vec<FindingKey> = Vec::new();
    assert(all.take(0) =~= Seq::<FindingView>::empty());
    assert(findings_view(out@) =~= findings_in_order(all.take(0)));
    while stack.len() > 0
        invariant
            stack@.len() <= all.len(),
            all.subrange(all.len() - stack@.len(), all.len() as int) == findings_view(stack@.reverse()),
            findings_view(out@) == findings_in_order(all.take(all.len() - stack@.len())),
            keys@.len() == out@.len(),
            forall|i: int| 0 <= i < keys@.len() ==> key_matches(#[trigger] keys@[i], out@[i]@),
        decreases stack.len(),
    {
        let ghost k = all.len() - stack@.len();
        let ghost s0 = stack@;
        let x = stack.pop().unwrap();
        assert(s0.reverse() =~= seq![x] + stack@.reverse());
        assert(findings_view(s0.reverse()) =~= seq![x@] + findings_view(stack@.reverse()));
        assert(all.subrange(k, all.len() as int)[0] == all[k]);
        assert(all[k] == x@);
        assert(all.subrange(k + 1, all.len() as int) =~= all.subrange(k, all.len() as int).drop_first());
        assert(all.take(k + 1).drop_last() =~= all.take(k));
        let ghost ov = findings_view(out@);
        let kx = finding_key(&x);
        let mut j: usize = out.len();
        while j > 0 && key_before(&kx, &keys[j - 1], Ghost(x@), Ghost(out@[j - 1]@))
            invariant
                j <= out@.len(),
                keys@.len() == out@.len(),
                ov == findings_view(out@),
                key_matches(kx, x@),
                forall|i: int| 0 <= i < keys@.len() ==> key_matches(#[trigger] keys@[i], out@[i]@),
                forall|i: int| j <= i < ov.len() ==> finding_before(x@, #[trigger] ov[i]),
            decreases j,
        {
            j = j - 1;
        }
        proof {
            lemma_insert_finding_at(ov, x@, j as int);
        }
        let ghost oo = out@;
        let ghost ko = keys@;
        out.insert(j, x);
        keys.insert(j, kx);
        assert(findings_view(out@) =~= ov.insert(j as int, x@));
        assert forall|i: int| 0 <= i < keys@.len() implies key_matches(#[trigger] keys@[i], out@[i]@) by {
            if i < j {
                assert(keys@[i] == ko[i] && out@[i] == oo[i]);
            } else if i > j {
                assert(keys@[i] == ko[i - 1] && out@[i] == oo[i - 1]);
            }
        }
    }
    assert(all.take(all.len() as int) =~= all);
    out
}

/// `x` put into `s` after every record whose path it does not come before.
pub open spec fn insert_file(s: Seq<FileRecord>, x: FileRecord) -> Seq<FileRecord>
    decreases s.len(),
{
    if s.len() == 0 {
        seq![x]
    } else if seq_lt(x.path@, s.last().path@) {
        insert_file(s.drop_last(), x).push(s.last())
    } else {
        s.push(x)
    }
}

/// The records ordered by path; records with one path keep their order.
pub open spec fn files_in_order(s: Seq<FileRecord>) -> Seq<FileRecord>
    decreases s.len(),
{
    if s.len() == 0 {
        s
    } else {
        insert_file(files_in_order(s.drop_last()), s.last())
    }
}

proof fn lemma_insert_file_at(s: Seq<FileRecord>, x: FileRecord, j: int)
    requires
        0 <= j <= s.len(),
        forall|i: int| j <= i < s.len() ==> seq_lt(x.path@, (#[trigger] s[i]).path@),
        j > 0 ==> !seq_lt(x.path@, s[j - 1].path@),
    ensures
        insert_file(s, x) == s.insert(j, x),
    decreases s.len(),
{
    if s.len() == 0 {
        assert(s.insert(j, x) =~= seq![x]);
    } else if j == s.len() {
        assert(s.insert(j, x) =~= s.push(x));
    } else {
        lemma_insert_file_at(s.drop_last(), x, j);
        assert(s.insert(j, x) =~= s.drop_last().insert(j, x).push(s.last()));
    }
}

/// The records ordered by path.
pub fn order_files(files: Vec<FileRecord>) -> (r: Vec<FileRecord>)
    ensures
        r@ == files_in_order(files@),
{
    let ghost all = files@;
    let mut rest = files;
    let mut stack: Vec<FileRecord> = Vec::new();
    while rest.len() > 0
        invariant
            all == rest@ + stack@.reverse(),
        decreases rest.len(),
    {
        let ghost r0 = rest@;
        let ghost s0 = stack@;
        let x = rest.pop().unwrap();
        stack.push(x);
        assert(stack@.reverse() =~= seq![x] + s0.reverse());
        assert(r0 =~= rest@.push(x));
        assert(all =~= rest@ + stack@.reverse());
    }
    assert(all =~= stack@.reverse());
    let mut out: Vec<FileRecord> = Vec::new();
    let mut keys: Vec<Vec<char>> = Vec::new();
    assert(all.take(0) =~= Seq::<FileRecord>::empty());
    while stack.len() > 0
        invariant
            stack@.len() <= all.len(),
            all.subrange(all.len() - stack@.len(), all.len() as int) == stack@.reverse(),
            out@ == files_in_order(all.take(all.len() - stack@.len())),
            keys@.len() == out@.len(),
            forall|i: int| 0 <= i < keys@.len() ==> (#[trigger] keys@[i])@ == out@[i].path@,
        decreases stack.len(),
    {
        let ghost k = all.len() - stack@.len();
        let ghost s0 = stack@;
        let x = stack.pop().unwrap();
        assert(s0.reverse() =~= seq![x] + stack@.reverse());
        assert(all.subrange(k, all.len() as int)[0] == all[k]);
        assert(all[k] == x);
        assert(all.subrange(k + 1, all.len() as int) =~= all.subrange(k, all.len() as int).drop_first());
        assert(all.take(k + 1).drop_last() =~= all.take(k));
        let ghost oo = out@;
        let kx = chars_of(x.path.as_str());
        let mut j: usize = out.len();
        while j > 0 && chars_lt(&kx, &keys[j - 1])
            invariant
                j <= out@.len(),
                keys@.len() == out@.len(),
                oo == out@,
                kx@ == x.path@,
                forall|i: int| 0 <= i < keys@.len() ==> (#[trigger] keys@[i])@ == out@[i].path@,
                forall|i: int| j <= i < oo.len() ==> seq_lt(x.path@, (#[trigger] oo[i]).path@),
            decreases j,
        {
            j = j - 1;
        }
        proof {
            lemma_insert_file_at(oo, x, j as int);
        }
        let ghost ko = keys@;
        out.insert(j, x);
        keys.insert(j, kx);
        assert forall|i: int| 0 <= i < keys@.len() implies (#[trigger] keys@[i])@ == out@[i].path@ by {
            if i < j {
                assert(keys@[i] == ko[i] && out@[i] == oo[i]);
            } else if i > j {
                assert(keys@[i] == ko[i - 1] && out@[i] == oo[i - 1]);
            }
        }
    }
    assert(all.take(all.len() as int) =~= all);
    out
}

/// `a` comes before `b` by ecosystem, name, version (none first) and
/// source file.
pub open spec fn dependency_before(a: DependencyRecord, b: DependencyRecord) -> bool {
    seq_lt(a.ecosystem@, b.ecosystem@)
        || (a.ecosystem@ == b.ecosystem@ && (seq_lt(a.name@, b.name@)
        || (a.name@ == b.name@ && (opt_lt(a@.version, b@.version)
        || (a@.version == b@.version && seq_lt(a.source_file@, b.source_file@))))))
}

/// `a` and `b` name one dependency: ecosystem, name, version and source file agree.
pub open spec fn same_dependency(a: DependencyRecord, b: DependencyRecord) -> bool {
    a.ecosystem@ == b.ecosystem@ && a.name@ == b.name@ && a@.version == b@.version
        && a.source_file@ == b.source_file@
}

/// `x` put into `s` in order, unless a record of the same dependency is met
/// on the way from the back.
pub open spec fn insert_dependency(s: Seq<DependencyRecord>, x: DependencyRecord) -> Seq<DependencyRecord>
    decreases s.len(),
{
    if s.len() == 0 {
        seq![x]
    } else if dependency_before(x, s.last()) {
        insert_dependency(s.drop_last(), x).push(s.last())
    } else if same_dependency(x, s.last()) {
        s
    } else {
        s.push(x)
    }
}

/// The dependencies in order, each once: the first record of each.
pub open spec fn unique_dependencies(s: Seq<DependencyRecord>) -> Seq<DependencyRecord>
    decreases s.len(),
{
    if s.len() == 0 {
        s
    } else {
        insert_dependency(unique_dependencies(s.drop_last()), s.last())
    }
}

proof fn lemma_insert_dependency_at(s: Seq<DependencyRecord>, x: DependencyRecord, j: int)
    requires
        0 <= j <= s.len(),
        forall|i: int| j <= i < s.len() ==> dependency_before(x, #[trigger] s[i]),
        j > 0 ==> !dependency_before(x, s[j - 1]),
    ensures
        j > 0 && same_dependency(x, s[j - 1]) ==> insert_dependency(s, x) == s,
        !(j > 0 && same_dependency(x, s[j - 1])) ==> insert_dependency(s, x) == s.insert(j, x),
    decreases s.len(),
{
    if s.len() == 0 {
        assert(s.insert(j, x) =~= seq![x]);
    } else if j == s.len() {
        assert(s.insert(j, x) =~= s.push(x));
    } else {
        lemma_insert_dependency_at(s.drop_last(), x, j);
        assert(s.insert(j, x) =~= s.drop_last().insert(j, x).push(s.last()));
        if j > 0 && same_dependency(x, s[j - 1]) {
            assert(s.drop_last()[j - 1] == s[j - 1]);
            assert(s.drop_last().push(s.last()) =~= s);
        }
    }
}

/// What a dependency is ordered by, ready to compare.
struct DependencyKey {
    ecosystem: Vec<char>,
    name: Vec<char>,
    version: Option<Vec<char>>,
    source: Vec<char>,
}

spec fn dependency_key_matches(k: DependencyKey, d: DependencyRecord) -> bool {
    &&& k.ecosystem@ == d.ecosystem@
    &&& k.name@ == d.name@
    &&& match (k.version, d@.version) {
        (Some(a), Some(b)) => a@ == b,
        (None, None) => true,
        _ => false,
    }
    &&& k.source@ == d.source_file@
}

fn dependency_key(d: &DependencyRecord) -> (k: DependencyKey)
    ensures
        dependency_key_matches(k, *d),
{
    DependencyKey {
        ecosystem: chars_of(d.ecosystem.as_str()),
        name: chars_of(d.name.as_str()),
        version: match &d.version {
            Some(v) => Some(chars_of(v.as_str())),
            None => None,
        },
        source: chars_of(d.source_file.as_str()),
    }
}

fn opt_chars_order(a: &Option<Vec<char>>, b: &Option<Vec<char>>) -> (r: (bool, bool))
    ensures
        r.0 == opt_lt(match a { Some(x) => Some(x@), None => None }, match b { Some(x) => Some(x@), None => None }),
        r.1 == ((match a { Some(x) => Some(x@), None => None }) == (match b { Some(x) => Some(x@), None => None })),
{
    match (a, b) {
        (None, Some(_)) => (true, false),
        (Some(x), Some(y)) => (chars_lt(x, y), eq_chars(x, y)),
        (None, None) => (false, true),
        (Some(_), None) => (false, false),
    }
}

fn dependency_key_order(a: &DependencyKey, b: &DependencyKey, Ghost(da): Ghost<DependencyRecord>, Ghost(db): Ghost<DependencyRecord>) -> (r: (bool, bool))
    requires
        dependency_key_matches(*a, da),
        dependency_key_matches(*b, db),
    ensures
        r.0 == dependency_before(da, db),
        r.1 == same_dependency(da, db),
{
    let (vl, ve) = opt_chars_order(&a.version, &b.version);
    let eco_eq = eq_chars(&a.ecosystem, &b.ecosystem);
    let name_eq = eq_chars(&a.name, &b.name);
    let source_eq = eq_chars(&a.source, &b.source);
    let before = chars_lt(&a.ecosystem, &b.ecosystem)
        || (eco_eq && (chars_lt(&a.name, &b.name)
        || (name_eq && (vl || (ve && chars_lt(&a.source, &b.source))))));
    (before, eco_eq && name_eq && ve && source_eq)
}

/// The dependencies in order, each once: the first record of each.
pub fn deduplicate_dependencies(dependencies: Vec<DependencyRecord>) -> (r: Vec<DependencyRecord>)
    ensures
        r@ == unique_dependencies(dependencies@),
{
    let ghost all = dependencies@;
    let mut rest = dependencies;
    let mut stack: Vec<DependencyRecord> = Vec::new();
    while rest.len() > 0
        invariant
            all == rest@ + stack@.reverse(),
        decreases rest.len(),
    {
        let ghost r0 = rest@;
        let ghost s0 = stack@;
        let x = rest.pop().unwrap();
        stack.push(x);
        assert(stack@.reverse() =~= seq![x] + s0.reverse());
        assert(r0 =~= rest@.push(x));
        assert(all =~= rest@ + stack@.reverse());
    }
    assert(all =~= stack@.reverse());
    let mut out: Vec<DependencyRecord> = Vec::new();
    let mut keys: Vec<DependencyKey> = Vec::new();
    assert(all.take(0) =~= Seq::<DependencyRecord>::empty());
    while stack.len() > 0
        invariant
            stack@.len() <= all.len(),
            all.subrange(all.len() - stack@.len(), all.len() as int) == stack@.reverse(),
            out@ == unique_dependencies(all.take(all.len() - stack@.len())),
            keys@.len() == out@.len(),
            forall|i: int| 0 <= i < keys@.len() ==> dependency_key_matches(#[trigger] keys@[i], out@[i]),
        decreases stack.len(),
    {
        let ghost k = all.len() - stack@.len();
        let ghost s0 = stack@;
        let x = stack.pop().unwrap();
        assert(s0.reverse() =~= seq![x] + stack@.reverse());
        assert(all.subrange(k, all.len() as int)[0] == all[k]);
        assert(all[k] == x);
        assert(all.subrange(k + 1, all.len() as int) =~= all.subrange(k, all.len() as int).drop_first());
        assert(all.take(k + 1).drop_last() =~= all.take(k));
        let ghost oo = out@;
        let kx = dependency_key(&x);
        let mut j: usize = out.len();
        let mut same = false;
        let mut stop = false;
        while j > 0 && !stop
            invariant
                j <= out@.len(),
                keys@.len() == out@.len(),
                oo == out@,
                stop ==> j > 0 && !dependency_before(x, oo[j - 1]) && same == same_dependency(x, oo[j - 1]),
                !stop ==> !same,
                dependency_key_matches(kx, x),
                forall|i: int| 0 <= i < keys@.len() ==> dependency_key_matches(#[trigger] keys@[i], out@[i]),
                forall|i: int| j <= i < oo.len() ==> dependency_before(x, #[trigger] oo[i]),
            decreases j, if stop { 0int } else { 1int },
        {
            let (before, equal) = dependency_key_order(&kx, &keys[j - 1], Ghost(x), Ghost(out@[j - 1]));
            if before {
                j = j - 1;
            } else {
                stop = true;
                same = equal;
            }
        }
        proof {
            lemma_insert_dependency_at(oo, x, j as int);
        }
        if !(j > 0 && same) {
            let ghost ko = keys@;
            out.insert(j, x);
            keys.insert(j, kx);
            assert forall|i: int| 0 <= i < keys@.len() implies dependency_key_matches(#[trigger] keys@[i], out@[i]) by {
                if i < j {
                    assert(keys@[i] == ko[i] && out@[i] == oo[i]);
                } else if i > j {
                    assert(keys@[i] == ko[i - 1] && out@[i] == oo[i - 1]);
                }
            }
        }
    }
    assert(all.take(all.len() as int) =~= all);
    out
}

proof fn lemma_opt_lt_facts(a: Option<Seq<char>>, b: Option<Seq<char>>, c: Option<Seq<char>>)
    ensures
        !opt_lt(a, a),
        opt_lt(a, b) ==> !opt_lt(b, a),
        opt_lt(a, b) && opt_lt(b, c) ==> opt_lt(a, c),
        a != b ==> opt_lt(a, b) || opt_lt(b, a),
{
    if let Some(x) = a {
        lemma_seq_lt_irreflexive(x);
        if let Some(y) = b {
            if seq_lt(x, y) {
                lemma_seq_lt_asymmetric(x, y);
            }
            if x != y {
                lemma_seq_lt_total(x, y);
            }
            if let Some(z) = c {
                if seq_lt(x, y) && seq_lt(y, z) {
                    lemma_seq_lt_transitive(x, y, z);
                }
            }
        }
    }
}

proof fn lemma_seq_lt_facts(a: Seq<char>, b: Seq<char>, c: Seq<char>)
    ensures
        !seq_lt(a, a),
        seq_lt(a, b) ==> !seq_lt(b, a),
        seq_lt(a, b) && seq_lt(b, c) ==> seq_lt(a, c),
        a != b ==> seq_lt(a, b) || seq_lt(b, a),
{
    lemma_seq_lt_irreflexive(a);
    if seq_lt(a, b) {
        lemma_seq_lt_asymmetric(a, b);
        if seq_lt(b, c) {
            lemma_seq_lt_transitive(a, b, c);
        }
    }
    if a != b {
        lemma_seq_lt_total(a, b);
    }
}

/// No finding of `s` comes before one that precedes it in `s`.
pub open spec fn findings_sorted(s: Seq<FindingView>) -> bool {
    forall|i: int, j: int| 0 <= i < j < s.len() ==> !finding_before(#[trigger] s[j], #[trigger] s[i])
}

proof fn lemma_finding_before_facts(a: FindingView, b: FindingView, c: FindingView)
    ensures
        finding_before(a, b) ==> !finding_before(b, a),
        !finding_before(a, b) && !finding_before(b, c) ==> !finding_before(a, c),
{
    lemma_opt_lt_facts(a.file, b.file, c.file);
    lemma_opt_lt_facts(b.file, c.file, a.file);
    lemma_opt_lt_facts(c.file, a.file, b.file);
    lemma_opt_lt_facts(b.file, a.file, c.file);
    lemma_opt_lt_facts(a.file, c.file, b.file);
    lemma_opt_lt_facts(c.file, b.file, a.file);
    lemma_seq_lt_facts(a.id, b.id, c.id);
    lemma_seq_lt_facts(b.id, c.id, a.id);
    lemma_seq_lt_facts(c.id, a.id, b.id);
    lemma_seq_lt_facts(b.id, a.id, c.id);
    lemma_seq_lt_facts(a.id, c.id, b.id);
    lemma_seq_lt_facts(c.id, b.id, a.id);
}

proof fn lemma_insert_finding_sorted(s: Seq<FindingView>, x: FindingView)
    requires
        findings_sorted(s),
    ensures
        findings_sorted(insert_finding(s, x)),
        insert_finding(s, x).to_multiset() == s.to_multiset().insert(x),
    decreases s.len(),
{
    broadcast use vstd::seq_lib::group_to_multiset_ensures;
    if s.len() == 0 {
        assert(seq![x] =~= Seq::<FindingView>::empty().push(x));
    } else {
        let d = s.drop_last();
        let last = s.last();
        assert(s =~= d.push(last));
        assert(findings_sorted(d)) by {
            assert forall|i: int, j: int| 0 <= i < j < d.len() implies !finding_before(#[trigger] d[j], #[trigger] d[i]) by {
                assert(d[i] == s[i] && d[j] == s[j]);
            }
        }
        if finding_before(x, last) {
            lemma_insert_finding_sorted(d, x);
            let r1 = insert_finding(d, x);
            let r = r1.push(last);
            assert forall|i: int| 0 <= i < r1.len() implies !finding_before(last, #[trigger] r1[i]) by {
                assert(r1.contains(r1[i]));
                assert(r1.to_multiset().count(r1[i]) > 0);
                if r1[i] == x {
                    lemma_finding_before_facts(x, last, x);
                } else {
                    assert(d.to_multiset().count(r1[i]) > 0);
                    assert(d.contains(r1[i]));
                    let k = choose|k: int| 0 <= k < d.len() && d[k] == r1[i];
                    assert(s[k] == d[k]);
                    assert(s[s.len() - 1] == last);
                }
            }
            assert forall|i: int, j: int| 0 <= i < j < r.len() implies !finding_before(#[trigger] r[j], #[trigger] r[i]) by {
                if j < r1.len() {
                    assert(r[i] == r1[i] && r[j] == r1[j]);
                } else {
                    assert(r[i] == r1[i] && r[j] == last);
                }
            }
            assert(r.to_multiset() == r1.to_multiset().insert(last));
            assert(s.to_multiset() == d.to_multiset().insert(last));
            assert(r.to_multiset() =~= s.to_multiset().insert(x));
        } else {
            let r = s.push(x);
            assert forall|i: int, j: int| 0 <= i < j < r.len() implies !finding_before(#[trigger] r[j], #[trigger] r[i]) by {
                if j < s.len() {
                    assert(r[i] == s[i] && r[j] == s[j]);
                } else if i < s.len() - 1 {
                    assert(r[i] == s[i] && r[j] == x);
                    assert(s[s.len() - 1] == last);
                    lemma_finding_before_facts(x, last, s[i]);
                } else {
                    assert(r[i] == last && r[j] == x);
                }
            }
        }
    }
}

/// A report's findings are in order: none comes before a finding listed
/// ahead of it (by severity, then file, then id), and they are the findings
/// given, each as often as it was given.
pub proof fn lemma_findings_in_order(s: Seq<FindingView>)
    ensures
        findings_sorted(findings_in_order(s)),
        findings_in_order(s).to_multiset() == s.to_multiset(),
    decreases s.len(),
{
    broadcast use vstd::seq_lib::group_to_multiset_ensures;
    if s.len() > 0 {
        lemma_findings_in_order(s.drop_last());
        lemma_insert_finding_sorted(findings_in_order(s.drop_last()), s.last());
        assert(s =~= s.drop_last().push(s.last()));
    }
}

/// No record of `s` has a path before that of a record listed ahead of it.
pub open spec fn files_sorted(s: Seq<FileRecord>) -> bool {
    forall|i: int, j: int| 0 <= i < j < s.len() ==> !seq_lt((#[trigger] s[j]).path@, (#[trigger] s[i]).path@)
}

proof fn lemma_insert_file_sorted(s: Seq<FileRecord>, x: FileRecord)
    requires
        files_sorted(s),
    ensures
        files_sorted(insert_file(s, x)),
        insert_file(s, x).to_multiset() == s.to_multiset().insert(x),
    decreases s.len(),
{
    broadcast use vstd::seq_lib::group_to_multiset_ensures;
    if s.len() == 0 {
        assert(seq![x] =~= Seq::<FileRecord>::empty().push(x));
    } else {
        let d = s.drop_last();
        let last = s.last();
        assert(s =~= d.push(last));
        assert(files_sorted(d)) by {
            assert forall|i: int, j: int| 0 <= i < j < d.len() implies !seq_lt((#[trigger] d[j]).path@, (#[trigger] d[i]).path@) by {
                assert(d[i] == s[i] && d[j] == s[j]);
            }
        }
        if seq_lt(x.path@, last.path@) {
            lemma_insert_file_sorted(d, x);
            let r1 = insert_file(d, x);
            let r = r1.push(last);
            assert forall|i: int| 0 <= i < r1.len() implies !seq_lt(last.path@, (#[trigger] r1[i]).path@) by {
                assert(r1.contains(r1[i]));
                assert(r1.to_multiset().count(r1[i]) > 0);
                if r1[i] == x {
                    lemma_seq_lt_facts(x.path@, last.path@, x.path@);
                } else {
                    assert(d.to_multiset().count(r1[i]) > 0);
                    assert(d.contains(r1[i]));
                    let k = choose|k: int| 0 <= k < d.len() && d[k] == r1[i];
                    assert(s[k] == d[k]);
                    assert(s[s.len() - 1] == last);
                }
            }
            assert forall|i: int, j: int| 0 <= i < j < r.len() implies !seq_lt((#[trigger] r[j]).path@, (#[trigger] r[i]).path@) by {
                if j < r1.len() {
                    assert(r[i] == r1[i] && r[j] == r1[j]);
                } else {
                    assert(r[i] == r1[i] && r[j] == last);
                }
            }
            assert(r.to_multiset() == r1.to_multiset().insert(last));
            assert(s.to_multiset() == d.to_multiset().insert(last));
            assert(r.to_multiset() =~= s.to_multiset().insert(x));
        } else {
            let r = s.push(x);
            assert forall|i: int, j: int| 0 <= i < j < r.len() implies !seq_lt((#[trigger] r[j]).path@, (#[trigger] r[i]).path@) by {
                if j < s.len() {
                    assert(r[i] == s[i] && r[j] == s[j]);
                } else if i < s.len() - 1 {
                    assert(r[i] == s[i] && r[j] == x);
                    assert(s[s.len() - 1] == last);
                    lemma_seq_lt_facts(x.path@, last.path@, s[i].path@);
                    lemma_seq_lt_facts(s[i].path@, x.path@, last.path@);
                    lemma_seq_lt_facts(last.path@, s[i].path@, x.path@);
                    lemma_seq_lt_facts(s[i].path@, last.path@, x.path@);
                    lemma_seq_lt_facts(x.path@, s[i].path@, last.path@);
                } else {
                    assert(r[i] == last && r[j] == x);
                }
            }
        }
    }
}

/// A report's file records are ordered by path, and they are the records
/// given, each as often as it was given.
pub proof fn lemma_files_in_order(s: Seq<FileRecord>)
    ensures
        files_sorted(files_in_order(s)),
        files_in_order(s).to_multiset() == s.to_multiset(),
    decreases s.len(),
{
    broadcast use vstd::seq_lib::group_to_multiset_ensures;
    if s.len() > 0 {
        lemma_files_in_order(s.drop_last());
        lemma_insert_file_sorted(files_in_order(s.drop_last()), s.last());
        assert(s =~= s.drop_last().push(s.last()));
    }
}

/// Each dependency of `s` comes before every one listed after it.
pub open spec fn dependencies_sorted(s: Seq<DependencyRecord>) -> bool {
    forall|i: int, j: int| 0 <= i < j < s.len() ==> dependency_before(#[trigger] s[i], #[trigger] s[j])
}

proof fn lemma_dependency_before_facts(a: DependencyRecord, b: DependencyRecord, c: DependencyRecord)
    ensures
        !dependency_before(a, a),
        dependency_before(a, b) ==> !same_dependency(a, b),
        dependency_before(a, b) && dependency_before(b, c) ==> dependency_before(a, c),
        !dependency_before(a, b) && !same_dependency(a, b) ==> dependency_before(b, a),
{
    lemma_seq_lt_facts(a.ecosystem@, b.ecosystem@, c.ecosystem@);
    lemma_seq_lt_facts(b.ecosystem@, a.ecosystem@, c.ecosystem@);
    lemma_seq_lt_facts(a.name@, b.name@, c.name@);
    lemma_seq_lt_facts(b.name@, a.name@, c.name@);
    lemma_opt_lt_facts(a@.version, b@.version, c@.version);
    lemma_opt_lt_facts(b@.version, a@.version, c@.version);
    lemma_seq_lt_facts(a.source_file@, b.source_file@, c.source_file@);
    lemma_seq_lt_facts(b.source_file@, a.source_file@, c.source_file@);
}

proof fn lemma_insert_dependency_sorted(s: Seq<DependencyRecord>, x: DependencyRecord)
    requires
        dependencies_sorted(s),
    ensures
        dependencies_sorted(insert_dependency(s, x)),
        forall|e: DependencyRecord| insert_dependency(s, x).contains(e) ==> s.contains(e) || e == x,
        forall|e: DependencyRecord| s.contains(e) ==> insert_dependency(s, x).contains(e),
        exists|k: int| 0 <= k < insert_dependency(s, x).len()
            && same_dependency(x, #[trigger] insert_dependency(s, x)[k]),
    decreases s.len(),
{
    if s.len() == 0 {
        assert(insert_dependency(s, x)[0] == x);
    } else {
        let d = s.drop_last();
        let last = s.last();
        assert(s =~= d.push(last));
        assert(dependencies_sorted(d)) by {
            assert forall|i: int, j: int| 0 <= i < j < d.len() implies dependency_before(#[trigger] d[i], #[trigger] d[j]) by {
                assert(d[i] == s[i] && d[j] == s[j]);
            }
        }
        if dependency_before(x, last) {
            lemma_insert_dependency_sorted(d, x);
            let r1 = insert_dependency(d, x);
            let r = r1.push(last);
            assert forall|i: int| 0 <= i < r1.len() implies dependency_before(#[trigger] r1[i], last) by {
                assert(r1.contains(r1[i]));
                if r1[i] != x {
                    assert(d.contains(r1[i]));
                    let k = choose|k: int| 0 <= k < d.len() && d[k] == r1[i];
                    assert(s[k] == d[k]);
                    assert(s[s.len() - 1] == last);
                }
            }
            assert forall|i: int, j: int| 0 <= i < j < r.len() implies dependency_before(#[trigger] r[i], #[trigger] r[j]) by {
                if j < r1.len() {
                    assert(r[i] == r1[i] && r[j] == r1[j]);
                } else {
                    assert(r[i] == r1[i] && r[j] == last);
                }
            }
            assert forall|e: DependencyRecord| r.contains(e) implies s.contains(e) || e == x by {
                let k = choose|k: int| 0 <= k < r.len() && r[k] == e;
                if k < r1.len() {
                    assert(r1[k] == e);
                    assert(r1.contains(e));
                    if e != x {
                        assert(d.contains(e));
                        let m = choose|m: int| 0 <= m < d.len() && d[m] == e;
                        assert(s[m] == e);
                    }
                } else {
                    assert(s[s.len() - 1] == e);
                }
            }
            assert forall|e: DependencyRecord| s.contains(e) implies r.contains(e) by {
                let k = choose|k: int| 0 <= k < s.len() && s[k] == e;
                if k < d.len() {
                    assert(d[k] == e);
                    assert(d.contains(e));
                    let m = choose|m: int| 0 <= m < r1.len() && r1[m] == e;
                    assert(r[m] == e);
                } else {
                    assert(r[r1.len() as int] == e);
                }
            }
            let k = choose|k: int| 0 <= k < r1.len() && same_dependency(x, #[trigger] r1[k]);
            assert(r[k] == r1[k]);
        } else if same_dependency(x, last) {
            assert(s[s.len() - 1] == last);
        } else {
            let r = s.push(x);
            lemma_dependency_before_facts(x, last, x);
            assert forall|i: int, j: int| 0 <= i < j < r.len() implies dependency_before(#[trigger] r[i], #[trigger] r[j]) by {
                if j < s.len() {
                    assert(r[i] == s[i] && r[j] == s[j]);
                } else if i < s.len() - 1 {
                    assert(r[i] == s[i] && r[j] == x);
                    assert(s[s.len() - 1] == last);
                    lemma_dependency_before_facts(s[i], last, x);
                } else {
                    assert(r[i] == last && r[j] == x);
                }
            }
            assert forall|e: DependencyRecord| r.contains(e) implies s.contains(e) || e == x by {
                let k = choose|k: int| 0 <= k < r.len() && r[k] == e;
                if k < s.len() {
                    assert(s[k] == e);
                }
            }
            assert forall|e: DependencyRecord| s.contains(e) implies r.contains(e) by {
                let k = choose|k: int| 0 <= k < s.len() && s[k] == e;
                assert(r[k] == e);
            }
            assert(r[s.len() as int] == x);
            lemma_dependency_before_facts(x, x, x);
        }
    }
}

/// The dependencies a report lists are in strict order, so no dependency
/// is listed twice; each is one of the records given, and every record given
/// names a dependency that is listed.
pub proof fn lemma_unique_dependencies(s: Seq<DependencyRecord>)
    ensures
        dependencies_sorted(unique_dependencies(s)),
        forall|i: int, j: int| 0 <= i < j < unique_dependencies(s).len()
            ==> !same_dependency(#[trigger] unique_dependencies(s)[i], #[trigger] unique_dependencies(s)[j]),
        forall|e: DependencyRecord| unique_dependencies(s).contains(e) ==> s.contains(e),
        forall|i: int| 0 <= i < s.len() ==> exists|k: int| 0 <= k < unique_dependencies(s).len()
            && same_dependency(#[trigger] s[i], #[trigger] unique_dependencies(s)[k]),
    decreases s.len(),
{
    let u = unique_dependencies(s);
    if s.len() > 0 {
        let d = s.drop_last();
        lemma_unique_dependencies(d);
        let u1 = unique_dependencies(d);
        lemma_insert_dependency_sorted(u1, s.last());
        assert forall|e: DependencyRecord| u.contains(e) implies s.contains(e) by {
            if e != s.last() {
                assert(u1.contains(e));
                assert(d.contains(e));
                let k = choose|k: int| 0 <= k < d.len() && d[k] == e;
                assert(s[k] == e);
            } else {
                assert(s[s.len() - 1] == e);
            }
        }
        assert forall|i: int| 0 <= i < s.len() implies exists|k: int| 0 <= k < u.len()
            && same_dependency(#[trigger] s[i], #[trigger] u[k]) by {
            if i < d.len() {
                assert(d[i] == s[i]);
                let k = choose|k: int| 0 <= k < u1.len() && same_dependency(d[i], #[trigger] u1[k]);
                assert(u1.contains(u1[k]));
                assert(u.contains(u1[k]));
                let m = choose|m: int| 0 <= m < u.len() && u[m] == u1[k];
                assert(same_dependency(s[i], u[m]));
            } else {
                assert(s[i] == s.last());
            }
        }
    }
    assert forall|i: int, j: int| 0 <= i < j < u.len() implies !same_dependency(#[trigger] u[i], #[trigger] u[j]) by {
        lemma_dependency_before_facts(u[i], u[j], u[j]);
    }
}

} // verus!
