//! Lexicographic order on character sequences, and sorted listings without repeats.

use vstd::prelude::*;
use crate::text::{rows, string_of};

verus! {

/// Lexicographic order by code point, the order of `String`'s `Ord`.
pub open spec fn seq_lt(a: Seq<char>, b: Seq<char>) -> bool
    decreases a.len(),
{
    if a.len() == 0 {
        b.len() > 0
    } else if b.len() == 0 {
        false
    } else if a[0] != b[0] {
        (a[0] as int) < (b[0] as int)
    } else {
        seq_lt(a.drop_first(), b.drop_first())
    }
}

/// Every element is smaller than every later one: sorted, and so without repeats.
pub open spec fn strictly_sorted(s: Seq<Seq<char>>) -> bool {
    forall|i: int, j: int| 0 <= i < j < s.len() ==> seq_lt(#[trigger] s[i], #[trigger] s[j])
}

/// The character sequences held by a vector of strings.
pub open spec fn views(v: Seq<String>) -> Seq<Seq<char>> {
    v.map_values(|s: String| s@)
}

/// `v` lists the elements of `set` in increasing order, each once.
pub open spec fn sorted_listing(v: Seq<String>, set: Set<Seq<char>>) -> bool {
    &&& strictly_sorted(views(v))
    &&& views(v).no_duplicates()
    &&& views(v).to_set() == set
}

pub proof fn lemma_lt_irreflexive(a: Seq<char>)
    ensures
        !seq_lt(a, a),
    decreases a.len(),
{
    if a.len() > 0 {
        lemma_lt_irreflexive(a.drop_first());
    }
}

pub proof fn lemma_lt_transitive(a: Seq<char>, b: Seq<char>, c: Seq<char>)
    requires
        seq_lt(a, b),
        seq_lt(b, c),
    ensures
        seq_lt(a, c),
    decreases a.len(),
{
    if a.len() > 0 && a[0] == b[0] && b[0] == c[0] {
        lemma_lt_transitive(a.drop_first(), b.drop_first(), c.drop_first());
    }
}

pub proof fn lemma_lt_total(a: Seq<char>, b: Seq<char>)
    requires
        a != b,
    ensures
        seq_lt(a, b) || seq_lt(b, a),
    decreases a.len(),
{
    if a.len() > 0 && b.len() > 0 && a[0] == b[0] {
        if a.drop_first() == b.drop_first() {
            assert(a =~= seq![a[0]] + a.drop_first());
            assert(b =~= seq![b[0]] + b.drop_first());
        }
        lemma_lt_total(a.drop_first(), b.drop_first());
    } else if a.len() == 0 && b.len() == 0 {
        assert(a =~= b);
    }
}

pub proof fn lemma_lt_asymmetric(a: Seq<char>, b: Seq<char>)
    requires
        seq_lt(a, b),
    ensures
        !seq_lt(b, a),
{
    if seq_lt(b, a) {
        lemma_lt_transitive(a, b, a);
        lemma_lt_irreflexive(a);
    }
}

proof fn lemma_sorted_no_duplicates(s: Seq<Seq<char>>)
    requires
        strictly_sorted(s),
    ensures
        s.no_duplicates(),
{
    assert forall|i: int, j: int| 0 <= i < s.len() && 0 <= j < s.len() && i != j implies s[i]
        != s[j] by {
        if i < j {
            assert(seq_lt(s[i], s[j]));
        } else {
            assert(seq_lt(s[j], s[i]));
        }
        lemma_lt_irreflexive(s[i]);
    }
}

/// Whether `a` comes strictly before `b`.
pub fn less_than(a: &Vec<char>, b: &Vec<char>) -> (r: bool)
    ensures
        r == seq_lt(a@, b@),
{
    let mut i: usize = 0;
    assert(a@.subrange(0, a.len() as int) =~= a@);
    assert(b@.subrange(0, b.len() as int) =~= b@);
    while i < a.len() && i < b.len() && a[i] == b[i]
        invariant
            i <= a.len(),
            i <= b.len(),
            seq_lt(a@, b@) == seq_lt(a@.subrange(i as int, a.len() as int), b@.subrange(
                i as int,
                b.len() as int,
            )),
        decreases a.len() - i,
    {
        let ghost sa = a@.subrange(i as int, a.len() as int);
        let ghost sb = b@.subrange(i as int, b.len() as int);
        assert(sa.drop_first() =~= a@.subrange(i + 1, a.len() as int));
        assert(sb.drop_first() =~= b@.subrange(i + 1, b.len() as int));
        i = i + 1;
    }
    let ghost sa = a@.subrange(i as int, a.len() as int);
    let ghost sb = b@.subrange(i as int, b.len() as int);
    if i == a.len() {
        i < b.len()
    } else if i == b.len() {
        false
    } else {
        assert(sa[0] == a@[i as int] && sb[0] == b@[i as int]);
        a[i] < b[i]
    }
}

/// Adds `x` to the sorted vector `v`, unless it is there already.
pub fn insert_sorted(v: &mut Vec<Vec<char>>, x: Vec<char>)
    requires
        strictly_sorted(rows(old(v)@)),
    ensures
        strictly_sorted(rows(final(v)@)),
        rows(final(v)@).to_set() == rows(old(v)@).to_set().insert(x@),
{
    let ghost before = rows(v@);
    let mut p: usize = 0;
    while p < v.len() && less_than(&v[p], &x)
        invariant
            p <= v.len(),
            rows(v@) == before,
            strictly_sorted(before),
            forall|k: int| 0 <= k < p ==> seq_lt(#[trigger] before[k], x@),
        decreases v.len() - p,
    {
        p = p + 1;
    }
    if p < v.len() && !less_than(&x, &v[p]) {
        proof {
            assert(before[p as int] == v@[p as int]@);
            if before[p as int] != x@ {
                lemma_lt_total(before[p as int], x@);
            }
            assert(before.to_set().insert(x@) =~= before.to_set());
        }
        return;
    }
    proof {
        if p < v.len() {
            assert(before[p as int] == v@[p as int]@);
            lemma_lt_asymmetric(x@, before[p as int]);
        }
    }
    let ghost xv = x@;
    v.insert(p, x);
    let ghost after = rows(v@);
    assert(after =~= before.insert(p as int, xv));
    assert forall|i: int, j: int| 0 <= i < j < after.len() implies seq_lt(
        #[trigger] after[i],
        #[trigger] after[j],
    ) by {
        if j < p {
        } else if j == p {
        } else if i < p {
            assert(after[j] == before[j - 1]);
            assert(seq_lt(before[i], xv));
            if j - 1 > p {
                assert(seq_lt(before[p as int], before[j - 1]));
                lemma_lt_transitive(xv, before[p as int], before[j - 1]);
            }
            lemma_lt_transitive(before[i], xv, before[j - 1]);
        } else if i == p {
            if j - 1 > p {
                assert(seq_lt(before[p as int], before[j - 1]));
                lemma_lt_transitive(xv, before[p as int], before[j - 1]);
            }
        } else {
            assert(after[i] == before[i - 1]);
            assert(after[j] == before[j - 1]);
        }
    }
    assert(after.to_set() =~= before.to_set().insert(xv)) by {
        assert forall|e: Seq<char>| after.to_set().contains(e) implies before.to_set().insert(
            xv,
        ).contains(e) by {
            let k = choose|k: int| 0 <= k < after.len() && after[k] == e;
            if k < p {
                assert(before[k] == e);
            } else if k > p {
                assert(before[k - 1] == e);
            }
        }
        assert forall|e: Seq<char>| before.to_set().insert(xv).contains(e) implies after.to_set().contains(e) by {
            if e == xv {
                assert(after[p as int] == e);
            } else {
                let k = choose|k: int| 0 <= k < before.len() && before[k] == e;
                if k < p {
                    assert(after[k] == e);
                } else {
                    assert(after[k + 1] == e);
                }
            }
        }
    }
}

/// The strings spelled by `v`, in the same order.
pub fn strings_of(v: &Vec<Vec<char>>) -> (r: Vec<String>)
    ensures
        views(r@) == rows(v@),
{
    let mut r: Vec<String> = Vec::new();
    let mut i: usize = 0;
    while i < v.len()
        invariant
            i <= v.len(),
            views(r@) == rows(v@).subrange(0, i as int),
        decreases v.len() - i,
    {
        let s = string_of(&v[i]);
        let ghost before = views(r@);
        r.push(s);
        assert(views(r@) =~= before.push(v@[i as int]@));
        assert(rows(v@).subrange(0, i + 1) =~= rows(v@).subrange(0, i as int).push(v@[i as int]@));
        i = i + 1;
    }
    assert(rows(v@).subrange(0, v.len() as int) =~= rows(v@));
    r
}

/// The listing of a sorted vector of character vectors as strings.
pub fn listing_of(v: &Vec<Vec<char>>, Ghost(set): Ghost<Set<Seq<char>>>) -> (r: Vec<String>)
    requires
        strictly_sorted(rows(v@)),
        rows(v@).to_set() == set,
    ensures
        sorted_listing(r@, set),
{
    let r = strings_of(v);
    proof {
        lemma_sorted_no_duplicates(views(r@));
    }
    r
}

} // verus!
