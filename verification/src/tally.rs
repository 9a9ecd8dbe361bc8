//! Counting texts: a table with one entry per distinct text and its number of occurrences,
//! and the two orders in which such tables are listed.
use vstd::prelude::*;

use crate::text::{lemma_lex_irreflexive, lemma_lex_total, lemma_lex_transitive, lex_less, lex_lt};

verus! {

/// How many times `k` occurs in `s`.
pub open spec fn occurrences(s: Seq<Seq<char>>, k: Seq<char>) -> nat
    decreases s.len(),
{
    if s.len() == 0 {
        0
    } else {
        occurrences(s.drop_last(), k) + if s.last() == k { 1nat } else { 0nat }
    }
}

/// A text occurs no more often than the list is long.
pub proof fn lemma_occurrences_bound(s: Seq<Seq<char>>, k: Seq<char>)
    ensures
        occurrences(s, k) <= s.len(),
    decreases s.len(),
{
    if s.len() > 0 {
        lemma_occurrences_bound(s.drop_last(), k);
    }
}

/// The texts and counts of a table.
pub open spec fn table_view(t: Seq<(Vec<char>, usize)>) -> Seq<(Seq<char>, usize)> {
    t.map_values(|e: (Vec<char>, usize)| (e.0@, e.1))
}

/// No text has two entries.
pub open spec fn texts_distinct(t: Seq<(Seq<char>, usize)>) -> bool {
    forall|i: int, j: int| 0 <= i < t.len() && 0 <= j < t.len() && #[trigger] t[i].0 == #[trigger] t[j].0 ==> i == j
}

/// `t` counts the texts of `s`: one entry for each text that occurs, holding its number of
/// occurrences.
pub open spec fn tallies(t: Seq<(Seq<char>, usize)>, s: Seq<Seq<char>>) -> bool {
    &&& texts_distinct(t)
    &&& forall|i: int| 0 <= i < t.len() ==> #[trigger] t[i].1 == occurrences(s, t[i].0) && t[i].1 > 0
    &&& forall|k: Seq<char>| occurrences(s, k) > 0 ==> exists|i: int| 0 <= i < t.len() && #[trigger] t[i].0 == k
}

/// Whether entry `x` is listed before entry `y`: by text in the order of texts, or, when
/// `by_count`, by count from most to fewest and by text among equal counts.
pub open spec fn ranks_before(x: (Seq<char>, usize), y: (Seq<char>, usize), by_count: bool) -> bool {
    if by_count {
        x.1 > y.1 || (x.1 == y.1 && lex_lt(x.0, y.0))
    } else {
        lex_lt(x.0, y.0)
    }
}

/// Every entry of `t` is listed before every later one.
pub open spec fn listed_in_order(t: Seq<(Seq<char>, usize)>, by_count: bool) -> bool {
    forall|i: int, j: int| 0 <= i < j < t.len() ==> ranks_before(#[trigger] t[i], #[trigger] t[j], by_count)
}

proof fn lemma_ranks_total(x: (Seq<char>, usize), y: (Seq<char>, usize), by_count: bool)
    requires
        x.0 != y.0,
    ensures
        ranks_before(x, y, by_count) || ranks_before(y, x, by_count),
{
    lemma_lex_total(x.0, y.0);
}

proof fn lemma_ranks_transitive(x: (Seq<char>, usize), y: (Seq<char>, usize), z: (Seq<char>, usize), by_count: bool)
    requires
        ranks_before(x, y, by_count),
        ranks_before(y, z, by_count),
    ensures
        ranks_before(x, z, by_count),
{
    if lex_lt(x.0, y.0) && lex_lt(y.0, z.0) {
        lemma_lex_transitive(x.0, y.0, z.0);
    }
}

/// Counts one more occurrence of `k` in a table that counts `s`.
pub fn tally_add(t: &mut Vec<(Vec<char>, usize)>, k: Vec<char>, Ghost(s): Ghost<Seq<Seq<char>>>)
    requires
        tallies(table_view(old(t)@), s),
        occurrences(s, k@) < usize::MAX,
    ensures
        tallies(table_view(final(t)@), s.push(k@)),
{
    let ghost s2 = s.push(k@);
    let ghost v0 = table_view(t@);
    assert forall|q: Seq<char>| #[trigger] occurrences(s2, q) == occurrences(s, q) + if q == k@ { 1nat } else { 0nat } by {
        assert(s2.drop_last() =~= s);
    }
    let mut i: usize = 0;
    while i < t.len()
        invariant
            i <= t@.len(),
            t@ == old(t)@,
            v0 == table_view(t@),
            forall|j: int| 0 <= j < i ==> v0[j].0 != k@,
            tallies(v0, s),
            occurrences(s, k@) < usize::MAX,
            s2 == s.push(k@),
            forall|q: Seq<char>| #[trigger] occurrences(s2, q) == occurrences(s, q) + if q == k@ { 1nat } else { 0nat },
        decreases t.len() - i,
    {
        if crate::text::eq_chars(t[i].0.as_slice(), k.as_slice()) {
            let c = t[i].1;
            proof {
                assert(v0[i as int].0 == k@);
                assert(v0[i as int].1 == c);
                assert(c == occurrences(s, k@));
            }
            let entry = (k, c + 1);
            t.set(i, entry);
            proof {
                let v = table_view(t@);
                assert forall|j: int| 0 <= j < v.len() implies #[trigger] v[j] == if j == i { (k@, (c + 1) as usize) } else { v0[j] } by {}
                assert forall|a: int, b: int| 0 <= a < v.len() && 0 <= b < v.len() && #[trigger] v[a].0 == #[trigger] v[b].0 implies a == b by {
                    assert(v[a].0 == v0[a].0);
                    assert(v[b].0 == v0[b].0);
                }
                assert forall|q: Seq<char>| occurrences(s2, q) > 0 implies exists|j: int| 0 <= j < v.len() && #[trigger] v[j].0 == q by {
                    if q == k@ {
                        assert(v[i as int].0 == q);
                    } else {
                        let j = choose|j: int| 0 <= j < v0.len() && #[trigger] v0[j].0 == q;
                        assert(v[j].0 == q);
                    }
                }
                assert forall|j: int| 0 <= j < v.len() implies #[trigger] v[j].1 == occurrences(s2, v[j].0) && v[j].1 > 0 by {
                    assert(v0[j].1 == occurrences(s, v0[j].0));
                    assert(occurrences(s2, v[j].0) == occurrences(s, v[j].0) + if v[j].0 == k@ { 1nat } else { 0nat });
                    if j != i {
                        assert(v0[j].0 != k@) by {
                            if v0[j].0 == k@ {
                                assert(v0[j].0 == v0[i as int].0);
                            }
                        }
                    }
                }
            }
            return;
        }
        i = i + 1;
    }
    let ghost kv = k@;
    t.push((k, 1));
    proof {
        let v = table_view(t@);
        assert(v.len() == v0.len() + 1);
        assert forall|j: int| 0 <= j < v.len() implies #[trigger] v[j] == if j == v0.len() { (kv, 1usize) } else { v0[j] } by {}
        assert(occurrences(s, kv) == 0) by {
            if occurrences(s, kv) > 0 {
                let j = choose|j: int| 0 <= j < v0.len() && #[trigger] v0[j].0 == kv;
            }
        }
        assert forall|a: int, b: int| 0 <= a < v.len() && 0 <= b < v.len() && #[trigger] v[a].0 == #[trigger] v[b].0 implies a == b by {}
        assert forall|q: Seq<char>| occurrences(s2, q) > 0 implies exists|j: int| 0 <= j < v.len() && #[trigger] v[j].0 == q by {
            if q == kv {
                assert(v[v0.len() as int].0 == q);
            } else {
                let j = choose|j: int| 0 <= j < v0.len() && #[trigger] v0[j].0 == q;
                assert(v[j].0 == q);
            }
        }
        assert forall|j: int| 0 <= j < v.len() implies #[trigger] v[j].1 == occurrences(s2, v[j].0) && v[j].1 > 0 by {
            if j < v0.len() {
                assert(v[j] == v0[j]);
            }
        }
    }
}

/// A copy of `s`.
pub fn copy_chars(s: &[char]) -> (r: Vec<char>)
    ensures
        r@ == s@,
{
    let mut r: Vec<char> = Vec::new();
    let mut i: usize = 0;
    while i < s.len()
        invariant
            i <= s@.len(),
            r@ == s@.take(i as int),
        decreases s.len() - i,
    {
        r.push(s[i]);
        i = i + 1;
        assert(r@ =~= s@.take(i as int));
    }
    assert(s@.take(i as int) =~= s@);
    r
}

fn ranks_before_exec(x: &(Vec<char>, usize), y: &(Vec<char>, usize), by_count: bool) -> (r: bool)
    ensures
        r == ranks_before((x.0@, x.1), (y.0@, y.1), by_count),
{
    if by_count {
        if x.1 != y.1 {
            return x.1 > y.1;
        }
    }
    lex_less(x.0.as_slice(), y.0.as_slice())
}

/// The entries of a table listed in order: by text, or, when `by_count`, by count from most
/// to fewest and by text among equal counts. The result holds the same entries.
pub fn list_in_order(entries: Vec<(Vec<char>, usize)>, by_count: bool) -> (r: Vec<(Vec<char>, usize)>)
    requires
        texts_distinct(table_view(entries@)),
    ensures
        table_view(r@).len() == table_view(entries@).len(),
        forall|e: (Seq<char>, usize)| #[trigger] table_view(r@).contains(e) == table_view(entries@).contains(e),
        texts_distinct(table_view(r@)),
        listed_in_order(table_view(r@), by_count),
{
    let ghost input = table_view(entries@);
    let mut out: Vec<(Vec<char>, usize)> = Vec::new();
    let mut rest = entries;
    let mut n: usize = 0;
    let total = rest.len();
    while n < total
        invariant
            total == input.len(),
            n <= total,
            table_view(rest@) == input,
            texts_distinct(input),
            table_view(out@).len() == n,
            forall|e: (Seq<char>, usize)| #[trigger] table_view(out@).contains(e) == input.take(n as int).contains(e),
            texts_distinct(table_view(out@)),
            listed_in_order(table_view(out@), by_count),
        decreases total - n,
    {
        let x = (copy_chars(rest[n].0.as_slice()), rest[n].1);
        let ghost xv = (x.0@, x.1);
        let ghost ov = table_view(out@);
        proof {
            assert(input[n as int] == xv);
            assert forall|j: int| 0 <= j < ov.len() implies ov[j].0 != xv.0 by {
                assert(ov.contains(ov[j]));
                let m = choose|m: int| 0 <= m < n && #[trigger] input.take(n as int)[m] == ov[j];
                assert(input[m] == ov[j]);
                if ov[j].0 == xv.0 {
                    assert(input[m].0 == input[n as int].0);
                }
            }
        }
        let mut p: usize = 0;
        while p < out.len() && !ranks_before_exec(&x, &out[p], by_count)
            invariant
                p <= out@.len(),
                ov == table_view(out@),
                xv == (x.0@, x.1),
                forall|j: int| 0 <= j < p ==> ranks_before(#[trigger] ov[j], xv, by_count),
                forall|j: int| 0 <= j < ov.len() ==> ov[j].0 != xv.0,
            decreases out.len() - p,
        {
            proof {
                assert(ov[p as int] == (out@[p as int].0@, out@[p as int].1));
                lemma_ranks_total(xv, ov[p as int], by_count);
            }
            p = p + 1;
        }
        proof {
            if p < out@.len() {
                assert(ov[p as int] == (out@[p as int].0@, out@[p as int].1));
            }
        }
        out.insert(p, x);
        proof {
            let nv = table_view(out@);
            assert(nv =~= ov.insert(p as int, xv));
            assert forall|j: int| 0 <= j < nv.len() implies #[trigger] nv[j] == if j < p { ov[j] } else if j == p { xv } else { ov[j - 1] } by {}
            assert forall|a: int, b: int| 0 <= a < b < nv.len() implies ranks_before(#[trigger] nv[a], #[trigger] nv[b], by_count) by {
                if b < p {
                } else if b == p {
                } else if a < p {
                    // nv[a] before x, and x before ov[p] up to nv[b]
                    lemma_ranks_transitive(nv[a], xv, ov[p as int], by_count);
                    if b - 1 > p {
                        lemma_ranks_transitive(nv[a], ov[p as int], ov[b - 1], by_count);
                    }
                } else if a == p {
                    if b - 1 > p {
                        lemma_ranks_transitive(xv, ov[p as int], ov[b - 1], by_count);
                    }
                } else {
                }
            }
            assert forall|a: int, b: int| 0 <= a < nv.len() && 0 <= b < nv.len() && #[trigger] nv[a].0 == #[trigger] nv[b].0 implies a == b by {
                if a != b {
                    let lo = if a < b { a } else { b };
                    let hi = if a < b { b } else { a };
                    assert(ranks_before(nv[lo], nv[hi], by_count));
                    lemma_lex_irreflexive(nv[lo].0);
                }
            }
            let t1 = input.take(n + 1);
            let t0 = input.take(n as int);
            assert forall|e: (Seq<char>, usize)| #[trigger] nv.contains(e) == t1.contains(e) by {
                assert(t1 =~= t0.push(xv));
                if nv.contains(e) {
                    let j = choose|j: int| 0 <= j < nv.len() && #[trigger] nv[j] == e;
                    if j < p {
                        assert(ov.contains(ov[j]));
                    } else if j > p {
                        assert(ov.contains(ov[j - 1]));
                    }
                    if e != xv {
                        assert(t0.contains(e));
                        let m = choose|m: int| 0 <= m < t0.len() && #[trigger] t0[m] == e;
                        assert(t1[m] == e);
                    } else {
                        assert(t1[n as int] == e);
                    }
                }
                if t1.contains(e) {
                    let m = choose|m: int| 0 <= m < t1.len() && #[trigger] t1[m] == e;
                    if m < n {
                        assert(t0[m] == e);
                        assert(ov.contains(e));
                        let j = choose|j: int| 0 <= j < ov.len() && #[trigger] ov[j] == e;
                        if j < p {
                            assert(nv[j] == e);
                        } else {
                            assert(nv[j + 1] == e);
                        }
                    } else {
                        assert(nv[p as int] == e);
                    }
                }
            }
        }
        n = n + 1;
    }
    proof {
        assert(input.take(n as int) =~= input);
    }
    out
}

} // verus!
