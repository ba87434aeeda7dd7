//! Levenshtein edit distance between identifiers, for "did you mean" hints.

use vstd::prelude::*;

verus! {

pub open spec fn min2(x: nat, y: nat) -> nat {
    if x <= y { x } else { y }
}

/// The least number of single-character insertions, deletions and
/// substitutions that turn `a` into `b`.
pub open spec fn edit_distance(a: Seq<char>, b: Seq<char>) -> nat
    decreases a.len() + b.len(),
{
    if a.len() == 0 {
        b.len()
    } else if b.len() == 0 {
        a.len()
    } else {
        let cost: nat = if a.last() == b.last() { 0 } else { 1 };
        min2(
            min2(edit_distance(a.drop_last(), b) + 1, edit_distance(a, b.drop_last()) + 1),
            edit_distance(a.drop_last(), b.drop_last()) + cost,
        )
    }
}

/// The distance never exceeds the longer of the two lengths.
pub proof fn lemma_edit_distance_bound(a: Seq<char>, b: Seq<char>)
    ensures
        edit_distance(a, b) <= if a.len() >= b.len() { a.len() } else { b.len() },
    decreases a.len() + b.len(),
{
    if a.len() > 0 && b.len() > 0 {
        lemma_edit_distance_bound(a.drop_last(), b.drop_last());
    }
}

/// The distance is symmetric.
pub proof fn lemma_edit_distance_symmetric(a: Seq<char>, b: Seq<char>)
    ensures
        edit_distance(a, b) == edit_distance(b, a),
    decreases a.len() + b.len(),
{
    if a.len() > 0 && b.len() > 0 {
        lemma_edit_distance_symmetric(a.drop_last(), b);
        lemma_edit_distance_symmetric(a, b.drop_last());
        lemma_edit_distance_symmetric(a.drop_last(), b.drop_last());
    }
}

/// The distance is zero exactly between equal strings.
pub proof fn lemma_edit_distance_zero(a: Seq<char>, b: Seq<char>)
    ensures
        (edit_distance(a, b) == 0) == (a == b),
    decreases a.len() + b.len(),
{
    if a.len() > 0 && b.len() > 0 {
        lemma_edit_distance_zero(a.drop_last(), b.drop_last());
        if a == b {
            assert(a.drop_last() == b.drop_last());
        }
        if edit_distance(a, b) == 0 {
            assert(a.drop_last() == b.drop_last());
            assert(a.last() == b.last());
            assert(a =~= a.drop_last().push(a.last()));
            assert(b =~= b.drop_last().push(b.last()));
        }
    } else if a.len() == 0 && b.len() == 0 {
        assert(a =~= b);
    } else if a.len() == 0 {
        assert(a != b);
    } else {
        assert(a != b);
    }
}

/// The distance is at least the difference of the lengths.
pub proof fn lemma_edit_distance_lower(a: Seq<char>, b: Seq<char>)
    ensures
        a.len() - b.len() <= edit_distance(a, b),
        b.len() - a.len() <= edit_distance(a, b),
    decreases a.len() + b.len(),
{
    if a.len() > 0 && b.len() > 0 {
        lemma_edit_distance_lower(a.drop_last(), b);
        lemma_edit_distance_lower(a, b.drop_last());
        lemma_edit_distance_lower(a.drop_last(), b.drop_last());
    }
}

/// One step: dropping the last character of either side changes the
/// distance by at most one.
proof fn lemma_edit_distance_step(a: Seq<char>, c: Seq<char>)
    requires
        a.len() > 0,
    ensures
        edit_distance(a, c) <= edit_distance(a.drop_last(), c) + 1,
        edit_distance(c, a) <= edit_distance(c, a.drop_last()) + 1,
{
    if c.len() == 0 {
        assert(edit_distance(a, c) == a.len());
        assert(edit_distance(a.drop_last(), c) == a.len() - 1);
        assert(edit_distance(c, a.drop_last()) == a.len() - 1);
    }
}

/// The triangle inequality.
pub proof fn lemma_edit_distance_triangle(a: Seq<char>, b: Seq<char>, c: Seq<char>)
    ensures
        edit_distance(a, c) <= edit_distance(a, b) + edit_distance(b, c),
    decreases a.len() + b.len() + c.len(),
{
    if b.len() == 0 {
        lemma_edit_distance_bound(a, c);
    } else if a.len() == 0 {
        lemma_edit_distance_lower(b, c);
    } else if c.len() == 0 {
        lemma_edit_distance_lower(a, b);
    } else {
        let a1 = a.drop_last();
        let b1 = b.drop_last();
        let c1 = c.drop_last();
        let dab = edit_distance(a, b);
        let dbc = edit_distance(b, c);
        let xy: nat = if a.last() == b.last() { 0 } else { 1 };
        let yz: nat = if b.last() == c.last() { 0 } else { 1 };
        let xz: nat = if a.last() == c.last() { 0 } else { 1 };
        assert(xz <= xy + yz);
        lemma_edit_distance_step(a, c);
        lemma_edit_distance_step(c, a);
        if dab == edit_distance(a1, b) + 1 {
            lemma_edit_distance_triangle(a1, b, c);
        } else if dbc == edit_distance(b, c1) + 1 {
            lemma_edit_distance_triangle(a, b, c1);
        } else if dab == edit_distance(a, b1) + 1 && dbc == edit_distance(b1, c) + 1 {
            lemma_edit_distance_triangle(a, b1, c);
        } else if dab == edit_distance(a, b1) + 1 {
            assert(dbc == edit_distance(b1, c1) + yz);
            lemma_edit_distance_triangle(a, b1, c1);
        } else if dbc == edit_distance(b1, c) + 1 {
            assert(dab == edit_distance(a1, b1) + xy);
            lemma_edit_distance_triangle(a1, b1, c);
        } else {
            assert(dab == edit_distance(a1, b1) + xy);
            assert(dbc == edit_distance(b1, c1) + yz);
            lemma_edit_distance_triangle(a1, b1, c1);
        }
    }
}

/// Edit distance is a metric on strings, bounded below by the difference of
/// the lengths and above by the longer length.
pub proof fn law_edit_distance(a: Seq<char>, b: Seq<char>, c: Seq<char>)
    ensures
        edit_distance(a, b) == edit_distance(b, a),
        (edit_distance(a, b) == 0) == (a == b),
        edit_distance(a, c) <= edit_distance(a, b) + edit_distance(b, c),
        a.len() - b.len() <= edit_distance(a, b),
        b.len() - a.len() <= edit_distance(a, b),
        edit_distance(a, b) <= if a.len() >= b.len() { a.len() } else { b.len() },
{
    lemma_edit_distance_symmetric(a, b);
    lemma_edit_distance_zero(a, b);
    lemma_edit_distance_triangle(a, b, c);
    lemma_edit_distance_lower(a, b);
    lemma_edit_distance_bound(a, b);
}

/// Copies the characters of `s` into a vector.
pub fn chars_of(s: &str) -> (r: Vec<char>)
    ensures
        r@ == s@,
{
    let n = s.unicode_len();
    let mut out: Vec<char> = Vec::new();
    let mut i: usize = 0;
    while i < n
        invariant
            n == s@.len(),
            i <= n,
            out@ == s@.take(i as int),
        decreases n - i,
    {
        out.push(s.get_char(i));
        assert(s@.take(i + 1) =~= s@.take(i as int).push(s@[i as int]));
        i = i + 1;
    }
    assert(s@.take(n as int) =~= s@);
    out
}

/// Classic Levenshtein edit distance, computed row by row.
pub fn levenshtein(a: &str, b: &str) -> (r: usize)
    ensures
        r == edit_distance(a@, b@),
{
    let a: Vec<char> = chars_of(a);
    let b: Vec<char> = chars_of(b);
    let ghost sa = a@;
    let ghost sb = b@;
    let blen = b.len();
    let mut prev: Vec<usize> = Vec::new();
    prev.push(0);
    let mut j: usize = 0;
    while j < blen
        invariant
            blen == sb.len(),
            j <= blen,
            prev@.len() == j + 1,
            forall|k: int| 0 <= k <= j ==> prev@[k] == edit_distance(Seq::empty(), sb.take(k)),
        decreases blen - j,
    {
        prev.push(j + 1);
        assert(edit_distance(Seq::empty(), sb.take(j + 1)) == j + 1);
        j = j + 1;
    }
    let mut i: usize = 0;
    while i < a.len()
        invariant
            sa == a@,
            sb == b@,
            blen == sb.len(),
            i <= sa.len(),
            prev@.len() == blen + 1,
            forall|k: int| 0 <= k <= blen ==> prev@[k] == edit_distance(sa.take(i as int), sb.take(k)),
        decreases sa.len() - i,
    {
        let ghost ra = sa.take(i + 1);
        assert(ra.drop_last() =~= sa.take(i as int));
        let mut cur: Vec<usize> = Vec::new();
        cur.push(i + 1);
        assert(sb.take(0) =~= Seq::<char>::empty());
        assert(edit_distance(ra, sb.take(0)) == i + 1);
        let ca = a[i];
        let mut j: usize = 0;
        while j < blen
            invariant
                sa == a@,
                sb == b@,
                blen == sb.len(),
                i < sa.len(),
                i < a.len(),
                ra == sa.take(i + 1),
                ra.drop_last() == sa.take(i as int),
                ca == sa[i as int],
                j <= blen,
                prev@.len() == blen + 1,
                forall|k: int| 0 <= k <= blen ==> prev@[k] == edit_distance(sa.take(i as int), sb.take(k)),
                cur@.len() == j + 1,
                forall|k: int| 0 <= k <= j ==> cur@[k] == edit_distance(ra, sb.take(k)),
            decreases blen - j,
        {
            let ghost rb = sb.take(j + 1);
            assert(rb.drop_last() =~= sb.take(j as int));
            assert(ra.last() == ca);
            assert(rb.last() == sb[j as int]);
            let cost: usize = if ca == b[j] { 0 } else { 1 };
            let del = prev[j + 1];
            let ins = cur[j];
            let sub = prev[j];
            proof {
                lemma_edit_distance_bound(sa.take(i as int), sb.take(j as int));
                assert(sa.take(i as int).len() == i);
                assert(sb.take(j as int).len() == j);
                assert(sub <= i || sub <= j);
            }
            let s = sub + cost;
            let m = if del <= ins { del } else { ins };
            let v = if m < s { m + 1 } else { s };
            assert(v == edit_distance(ra, rb));
            cur.push(v);
            j = j + 1;
        }
        prev = cur;
        i = i + 1;
    }
    assert(sa.take(sa.len() as int) =~= sa);
    assert(sb.take(blen as int) =~= sb);
    prev[blen]
}

} // verus!
