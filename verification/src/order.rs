//! The order in which a report lists its findings: by check group, then by
//! entry index (Bundle-level findings first), then by path; findings that tie
//! keep the order in which the checks produced them.

use vstd::prelude::*;

use crate::report::{breaks_core, count_severity, finding_views, group_status, Check, Finding, FindingView, Severity};
use crate::text::{lemma_lex_asymmetric, lemma_lex_total, lemma_lex_transitive, lex_less, lex_lt};

verus! {

/// The rank of a check group in the order the groups run.
pub open spec fn group_rank(c: Check) -> int {
    match c {
        Check::Structure => 0,
        Check::ReferenceIntegrity => 1,
        Check::VersionPresence => 2,
        Check::Profile => 3,
    }
}

/// The entry a finding is about, with Bundle-level findings first.
pub open spec fn entry_rank(f: FindingView) -> int {
    match f.entry {
        Some(e) => e.index as int,
        None => -1,
    }
}

/// `a` is listed strictly before `b`.
pub open spec fn precedes(a: FindingView, b: FindingView) -> bool {
    ||| group_rank(a.check) < group_rank(b.check)
    ||| group_rank(a.check) == group_rank(b.check) && entry_rank(a) < entry_rank(b)
    ||| group_rank(a.check) == group_rank(b.check) && entry_rank(a) == entry_rank(b) && lex_lt(a.path, b.path)
}

/// `x` placed into the listed `s`: after every finding it does not precede.
pub open spec fn insert_sorted(s: Seq<FindingView>, x: FindingView) -> Seq<FindingView>
    decreases s.len(),
{
    if s.len() == 0 || !precedes(x, s.last()) {
        s.push(x)
    } else {
        insert_sorted(s.drop_last(), x).push(s.last())
    }
}

/// The findings in listing order (a stable insertion sort).
pub open spec fn sort_findings(fs: Seq<FindingView>) -> Seq<FindingView>
    decreases fs.len(),
{
    if fs.len() == 0 {
        Seq::empty()
    } else {
        insert_sorted(sort_findings(fs.drop_last()), fs.last())
    }
}

/// No finding is listed after one it precedes.
pub open spec fn listed_in_order(fs: Seq<FindingView>) -> bool {
    forall|i: int, j: int| 0 <= i < j < fs.len() ==> !precedes(#[trigger] fs[j], #[trigger] fs[i])
}

/// Where `insert_sorted` places `x`.
pub open spec fn insert_pos(s: Seq<FindingView>, x: FindingView) -> int
    decreases s.len(),
{
    if s.len() == 0 || !precedes(x, s.last()) {
        s.len() as int
    } else {
        insert_pos(s.drop_last(), x)
    }
}

proof fn lemma_precedes_asymmetric(a: FindingView, b: FindingView)
    ensures
        precedes(a, b) ==> !precedes(b, a),
{
    lemma_lex_asymmetric(a.path, b.path);
}

/// Not preceding is transitive.
proof fn lemma_not_precedes_transitive(a: FindingView, b: FindingView, c: FindingView)
    requires
        !precedes(a, b),
        !precedes(b, c),
    ensures
        !precedes(a, c),
{
    lemma_lex_total(a.path, b.path);
    lemma_lex_total(b.path, c.path);
    if lex_lt(a.path, c.path) && lex_lt(b.path, a.path) && lex_lt(c.path, b.path) {
        lemma_lex_transitive(c.path, b.path, a.path);
        lemma_lex_asymmetric(a.path, c.path);
    }
    if lex_lt(b.path, a.path) && lex_lt(c.path, b.path) {
        lemma_lex_transitive(c.path, b.path, a.path);
        lemma_lex_asymmetric(a.path, c.path);
    }
}

proof fn lemma_insert_shape(s: Seq<FindingView>, x: FindingView)
    ensures
        0 <= insert_pos(s, x) <= s.len(),
        insert_sorted(s, x) == s.take(insert_pos(s, x)).push(x) + s.skip(insert_pos(s, x)),
        forall|k: int| insert_pos(s, x) <= k < s.len() ==> precedes(x, #[trigger] s[k]),
        insert_pos(s, x) > 0 ==> !precedes(x, s[insert_pos(s, x) - 1]),
    decreases s.len(),
{
    let p = insert_pos(s, x);
    if s.len() == 0 || !precedes(x, s.last()) {
        assert(s.take(p) =~= s);
        assert(s.skip(p) =~= Seq::<FindingView>::empty());
        assert(s.push(x) =~= s.take(p).push(x) + s.skip(p));
    } else {
        let d = s.drop_last();
        lemma_insert_shape(d, x);
        assert(insert_sorted(s, x) =~= s.take(p).push(x) + s.skip(p));
        assert forall|k: int| p <= k < s.len() implies precedes(x, #[trigger] s[k]) by {
            if k < s.len() - 1 {
                assert(s[k] == d[k]);
            }
        }
        if p > 0 {
            assert(s[p - 1] == d[p - 1]);
        }
    }
}

/// Inserting keeps a listing in order.
proof fn lemma_insert_in_order(s: Seq<FindingView>, x: FindingView)
    requires
        listed_in_order(s),
    ensures
        listed_in_order(insert_sorted(s, x)),
{
    lemma_insert_shape(s, x);
    let p = insert_pos(s, x);
    let r = insert_sorted(s, x);
    assert forall|i: int, j: int| 0 <= i < j < r.len() implies !precedes(#[trigger] r[j], #[trigger] r[i]) by {
        let si = if i < p { i } else { i - 1 };
        let sj = if j < p { j } else { j - 1 };
        if i != p && j != p {
            assert(r[i] == s[si]);
            assert(r[j] == s[sj]);
        } else if i == p {
            assert(r[i] == x);
            assert(r[j] == s[sj]);
            lemma_precedes_asymmetric(x, s[sj]);
        } else {
            assert(r[j] == x);
            assert(r[i] == s[si]);
            assert(!precedes(x, s[p - 1]));
            if si < p - 1 {
                assert(!precedes(s[p - 1], s[si]));
                lemma_not_precedes_transitive(x, s[p - 1], s[si]);
            }
        }
    }
}

/// The sorted findings are listed in order.
pub proof fn lemma_sorted_in_order(fs: Seq<FindingView>)
    ensures
        listed_in_order(sort_findings(fs)),
    decreases fs.len(),
{
    if fs.len() > 0 {
        lemma_sorted_in_order(fs.drop_last());
        lemma_insert_in_order(sort_findings(fs.drop_last()), fs.last());
    }
}

proof fn lemma_count_concat(a: Seq<FindingView>, b: Seq<FindingView>, s: Severity)
    ensures
        count_severity(a + b, s) == count_severity(a, s) + count_severity(b, s),
    decreases b.len(),
{
    if b.len() > 0 {
        lemma_count_concat(a, b.drop_last(), s);
        assert((a + b).drop_last() =~= a + b.drop_last());
    } else {
        assert(a + b =~= a);
    }
}

proof fn lemma_insert_rearranges(sd: Seq<FindingView>, x: FindingView)
    ensures
        insert_sorted(sd, x).len() == sd.len() + 1,
        forall|i: int|
            #![trigger insert_sorted(sd, x)[i]]
            0 <= i < sd.len() + 1 ==> insert_sorted(sd, x)[i] == x || exists|j: int|
                0 <= j < sd.len() && insert_sorted(sd, x)[i] == #[trigger] sd[j],
        exists|i: int| 0 <= i < sd.len() + 1 && #[trigger] insert_sorted(sd, x)[i] == x,
        forall|j: int|
            #![trigger sd[j]]
            0 <= j < sd.len() ==> exists|i: int| 0 <= i < sd.len() + 1 && #[trigger] insert_sorted(sd, x)[i] == sd[j],
{
    lemma_insert_shape(sd, x);
    let p = insert_pos(sd, x);
    let r = insert_sorted(sd, x);
    assert(r[p] == x);
    assert forall|i: int|
        #![trigger r[i]]
        0 <= i < sd.len() + 1 implies r[i] == x || exists|j: int| 0 <= j < sd.len() && r[i] == #[trigger] sd[j] by {
        if i < p {
            assert(r[i] == sd[i]);
        } else if i > p {
            assert(r[i] == sd[i - 1]);
        }
    }
    assert forall|j: int|
        #![trigger sd[j]]
        0 <= j < sd.len() implies exists|i: int| 0 <= i < sd.len() + 1 && #[trigger] r[i] == sd[j] by {
        if j < p {
            assert(r[j] == sd[j]);
        } else {
            assert(r[j + 1] == sd[j]);
        }
    }
}

proof fn lemma_insert_count(sd: Seq<FindingView>, x: FindingView, s: Severity)
    ensures
        count_severity(insert_sorted(sd, x), s) == count_severity(sd, s) + if x.severity == s { 1nat } else { 0nat },
{
    lemma_insert_shape(sd, x);
    let p = insert_pos(sd, x);
    assert(sd =~= sd.take(p) + sd.skip(p));
    lemma_count_concat(sd.take(p), sd.skip(p), s);
    lemma_count_concat(sd.take(p).push(x), sd.skip(p), s);
    assert(sd.take(p).push(x).drop_last() =~= sd.take(p));
}

/// Sorting rearranges the findings: the same length, each listed finding is
/// one of the inputs and each input is listed, and the same severity counts.
pub proof fn lemma_sort_rearranges(fs: Seq<FindingView>)
    ensures
        sort_findings(fs).len() == fs.len(),
        forall|i: int|
            #![trigger sort_findings(fs)[i]]
            0 <= i < fs.len() ==> exists|j: int| 0 <= j < fs.len() && sort_findings(fs)[i] == #[trigger] fs[j],
        forall|j: int|
            #![trigger fs[j]]
            0 <= j < fs.len() ==> exists|i: int| 0 <= i < fs.len() && #[trigger] sort_findings(fs)[i] == fs[j],
        forall|s: Severity| #[trigger] count_severity(sort_findings(fs), s) == count_severity(fs, s),
    decreases fs.len(),
{
    if fs.len() > 0 {
        let d = fs.drop_last();
        let x = fs.last();
        let sd = sort_findings(d);
        lemma_sort_rearranges(d);
        lemma_insert_rearranges(sd, x);
        let r = sort_findings(fs);
        assert forall|i: int|
            #![trigger r[i]]
            0 <= i < fs.len() implies exists|j: int| 0 <= j < fs.len() && r[i] == #[trigger] fs[j] by {
            if r[i] == x {
                assert(fs[fs.len() - 1] == x);
            } else {
                let k = choose|k: int| 0 <= k < sd.len() && r[i] == #[trigger] sd[k];
                let j = choose|j: int| 0 <= j < d.len() && sd[k] == #[trigger] d[j];
                assert(fs[j] == d[j]);
            }
        }
        assert forall|j: int|
            #![trigger fs[j]]
            0 <= j < fs.len() implies exists|i: int| 0 <= i < fs.len() && #[trigger] r[i] == fs[j] by {
            if j == fs.len() - 1 {
                let i = choose|i: int| 0 <= i < sd.len() + 1 && #[trigger] r[i] == x;
            } else {
                assert(fs[j] == d[j]);
                let k = choose|k: int| 0 <= k < d.len() && #[trigger] sd[k] == d[j];
                let i = choose|i: int| 0 <= i < sd.len() + 1 && #[trigger] r[i] == sd[k];
            }
        }
        assert forall|s: Severity| #[trigger] count_severity(r, s) == count_severity(fs, s) by {
            lemma_insert_count(sd, x, s);
        }
    }
}

/// Sorting keeps what the report derives from the findings: the severity
/// counts, whether any finding breaks Core, and the status of each group.
pub proof fn lemma_sort_keeps(fs: Seq<FindingView>)
    ensures
        sort_findings(fs).len() == fs.len(),
        forall|s: Severity| #[trigger] count_severity(sort_findings(fs), s) == count_severity(fs, s),
        breaks_core(sort_findings(fs)) == breaks_core(fs),
        forall|c: Check| #[trigger] group_status(sort_findings(fs), c) == group_status(fs, c),
{
    lemma_sort_rearranges(fs);
    let r = sort_findings(fs);
    if breaks_core(fs) {
        let j = choose|j: int| 0 <= j < fs.len() && #[trigger] fs[j].breaks_core;
        let i = choose|i: int| 0 <= i < fs.len() && #[trigger] r[i] == fs[j];
        assert(r[i].breaks_core);
    }
    if breaks_core(r) {
        let i = choose|i: int| 0 <= i < r.len() && #[trigger] r[i].breaks_core;
        let j = choose|j: int| 0 <= j < fs.len() && r[i] == #[trigger] fs[j];
        assert(fs[j].breaks_core);
    }
    assert forall|c: Check| #[trigger] group_status(r, c) == group_status(fs, c) by {
        if exists|j: int| 0 <= j < fs.len() && #[trigger] fs[j].check == c && fs[j].severity == Severity::Error {
            let j = choose|j: int| 0 <= j < fs.len() && #[trigger] fs[j].check == c && fs[j].severity == Severity::Error;
            let i = choose|i: int| 0 <= i < fs.len() && #[trigger] r[i] == fs[j];
            assert(r[i].check == c && r[i].severity == Severity::Error);
        }
        if exists|i: int| 0 <= i < r.len() && #[trigger] r[i].check == c && r[i].severity == Severity::Error {
            let i = choose|i: int| 0 <= i < r.len() && #[trigger] r[i].check == c && r[i].severity == Severity::Error;
            let j = choose|j: int| 0 <= j < fs.len() && r[i] == #[trigger] fs[j];
            assert(fs[j].check == c && fs[j].severity == Severity::Error);
        }
    }
}

fn group_rank_of(c: Check) -> (r: u8)
    ensures
        r as int == group_rank(c),
{
    match c {
        Check::Structure => 0,
        Check::ReferenceIntegrity => 1,
        Check::VersionPresence => 2,
        Check::Profile => 3,
    }
}

/// Whether `a` is listed strictly before `b`.
fn precedes_exec(a: &Finding, b: &Finding) -> (r: bool)
    ensures
        r == precedes(a@, b@),
{
    let ga = group_rank_of(a.check);
    let gb = group_rank_of(b.check);
    if ga != gb {
        return ga < gb;
    }
    let ea: Option<usize> = match &a.entry {
        Some(e) => Some(e.index),
        None => None,
    };
    let eb: Option<usize> = match &b.entry {
        Some(e) => Some(e.index),
        None => None,
    };
    match (ea, eb) {
        (None, Some(_)) => true,
        (Some(_), None) => false,
        (Some(x), Some(y)) => {
            if x != y {
                x < y
            } else {
                lex_less(a.path.as_str(), b.path.as_str())
            }
        },
        (None, None) => lex_less(a.path.as_str(), b.path.as_str()),
    }
}

/// The findings in listing order: by check group, then entry index (Bundle
/// level first), then path; ties keep their order.
pub fn sort_findings_vec(findings: Vec<Finding>) -> (r: Vec<Finding>)
    ensures
        finding_views(r@) == sort_findings(finding_views(findings@)),
{
    let ghost fv = finding_views(findings@);
    let total = findings.len();
    assert(fv.len() == total);
    let mut rest = findings;
    let mut out: Vec<Finding> = Vec::new();
    let mut n: usize = 0;
    assert(fv.take(0) =~= Seq::<FindingView>::empty());
    assert(finding_views(out@) =~= Seq::<FindingView>::empty());
    assert(finding_views(rest@) =~= fv.skip(0));
    while rest.len() > 0
        invariant
            n <= fv.len(),
            fv.len() == total,
            finding_views(rest@) == fv.skip(n as int),
            finding_views(out@) == sort_findings(fv.take(n as int)),
        decreases rest@.len(),
    {
        let ghost rv = finding_views(rest@);
        let ghost old_rest = rest@;
        assert(rv.len() == old_rest.len());
        assert(n < fv.len());
        let x = rest.remove(0);
        assert(rest@ =~= old_rest.subrange(1, old_rest.len() as int));
        assert(rv[0] == x@);
        assert forall|k: int| 0 <= k < rest@.len() implies #[trigger] finding_views(rest@)[k] == fv.skip(n + 1)[k] by {
            assert(rest@[k] == old_rest[k + 1]);
            assert(rv[k + 1] == old_rest[k + 1]@);
            assert(rv[k + 1] == fv[n + 1 + k]);
        }
        assert(finding_views(rest@) =~= fv.skip(n + 1));
        let ghost after = fv.take(n + 1);
        assert(after.drop_last() =~= fv.take(n as int));
        assert(after.last() == x@);
        let ghost s = finding_views(out@);
        let mut p = out.len();
        assert(s.take(p as int) =~= s);
        assert(s.skip(p as int) =~= Seq::<FindingView>::empty());
        assert(insert_sorted(s, x@) =~= insert_sorted(s.take(p as int), x@) + s.skip(p as int));
        while p > 0 && precedes_exec(&x, &out[p - 1])
            invariant
                p <= out@.len(),
                s == finding_views(out@),
                insert_sorted(s, x@) == insert_sorted(s.take(p as int), x@) + s.skip(p as int),
            decreases p,
        {
            let ghost t = s.take(p as int);
            assert(t.last() == s[p - 1]);
            assert(t.drop_last() =~= s.take(p - 1));
            assert(insert_sorted(t, x@) == insert_sorted(s.take(p - 1), x@).push(s[p - 1]));
            assert(insert_sorted(s.take(p - 1), x@).push(s[p - 1]) + s.skip(p as int) =~= insert_sorted(
                s.take(p - 1),
                x@,
            ) + s.skip(p - 1));
            p = p - 1;
        }
        proof {
            let t = s.take(p as int);
            if p > 0 {
                assert(t.last() == s[p - 1]);
            }
            assert(insert_sorted(t, x@) == t.push(x@));
        }
        out.insert(p, x);
        assert(finding_views(out@) =~= s.take(p as int).push(x@) + s.skip(p as int));
        n = n + 1;
    }
    assert(fv.skip(n as int).len() == 0);
    assert(fv.take(n as int) =~= fv);
    out
}

/// `x` is one of the findings of `s`.
#[verifier::opaque]
pub open spec fn occurs_in(s: Seq<FindingView>, x: FindingView) -> bool {
    exists|j: int| 0 <= j < s.len() && s[j] == x
}

/// A listing of `fs` holds exactly the findings of `fs`, rearranged.
pub proof fn lemma_listing_rearranges(findings: Seq<Finding>, fs: Seq<FindingView>)
    requires
        finding_views(findings) == sort_findings(fs),
    ensures
        findings.len() == fs.len(),
        forall|i: int| 0 <= i < findings.len() ==> occurs_in(fs, #[trigger] findings[i]@),
        forall|j: int| 0 <= j < fs.len() ==> occurs_in(finding_views(findings), #[trigger] fs[j]),
{
    let v = finding_views(findings);
    assert(v.len() == findings.len());
    assert(sort_findings(fs).len() == fs.len()) by {
        lemma_sort_rearranges(fs);
    }
    assert forall|i: int| 0 <= i < findings.len() implies occurs_in(fs, #[trigger] findings[i]@) by {
        reveal(occurs_in);
        assert(v[i] == findings[i]@);
        lemma_sort_rearranges(fs);
        assert(sort_findings(fs)[i] == v[i]);
    }
    assert forall|j: int| 0 <= j < fs.len() implies occurs_in(v, #[trigger] fs[j]) by {
        reveal(occurs_in);
        lemma_sort_rearranges(fs);
        let i = choose|i: int| 0 <= i < fs.len() && #[trigger] sort_findings(fs)[i] == fs[j];
        assert(v[i] == sort_findings(fs)[i]);
    }
}

} // verus!
