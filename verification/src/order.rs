//! Stable ordering of keyed items, as `slice::sort_by_key` orders them.
use vstd::prelude::*;

verus! {

/// Insert `x` into `s` after every element whose key is not greater than
/// the key of `x` (so equal keys keep their arrival order).
pub open spec fn insert_stable<T>(s: Seq<(i64, T)>, x: (i64, T)) -> Seq<(i64, T)>
    decreases s.len(),
{
    if s.len() == 0 {
        seq![x]
    } else if s.last().0 <= x.0 {
        s.push(x)
    } else {
        insert_stable(s.drop_last(), x).push(s.last())
    }
}

/// Stable sort by key: items with smaller keys come first, items with equal
/// keys keep their relative order.
pub open spec fn sort_stable<T>(s: Seq<(i64, T)>) -> Seq<(i64, T)>
    decreases s.len(),
{
    if s.len() == 0 {
        Seq::empty()
    } else {
        insert_stable(sort_stable(s.drop_last()), s.last())
    }
}

/// Keys are in non-decreasing order.
pub open spec fn keys_sorted<T>(s: Seq<(i64, T)>) -> bool {
    forall|i: int, j: int| 0 <= i <= j < s.len() ==> s[i].0 <= s[j].0
}

/// Number of trailing elements of `s` whose key exceeds `k`.
spec fn greater_suffix<T>(s: Seq<(i64, T)>, k: i64) -> nat
    decreases s.len(),
{
    if s.len() == 0 || s.last().0 <= k {
        0
    } else {
        1 + greater_suffix(s.drop_last(), k)
    }
}

proof fn lemma_insert_is_splice<T>(s: Seq<(i64, T)>, x: (i64, T))
    ensures
        greater_suffix(s, x.0) <= s.len(),
        insert_stable(s, x) == s.take(s.len() - greater_suffix(s, x.0)).push(x) + s.skip(
            s.len() - greater_suffix(s, x.0),
        ),
    decreases s.len(),
{
    if s.len() == 0 {
        assert(seq![x] =~= s.take(0).push(x) + s.skip(0));
    } else if s.last().0 <= x.0 {
        assert(s.push(x) =~= s.take(s.len() as int).push(x) + s.skip(s.len() as int));
    } else {
        let t = s.drop_last();
        lemma_insert_is_splice(t, x);
        let p = t.len() - greater_suffix(t, x.0);
        assert(s.len() - greater_suffix(s, x.0) == p);
        assert(t.take(p) =~= s.take(p));
        assert(t.skip(p).push(s.last()) =~= s.skip(p));
        assert(insert_stable(s, x) =~= s.take(p).push(x) + s.skip(p));
    }
}

proof fn lemma_insert_sorted<T>(s: Seq<(i64, T)>, x: (i64, T))
    requires
        keys_sorted(s),
    ensures
        keys_sorted(insert_stable(s, x)),
        insert_stable(s, x).len() == s.len() + 1,
        insert_stable(s, x).to_multiset() == s.to_multiset().insert(x),
    decreases s.len(),
{
    broadcast use vstd::seq_lib::group_to_multiset_ensures;

    if s.len() == 0 {
        assert(seq![x] =~= Seq::<(i64, T)>::empty().push(x));
    } else if s.last().0 <= x.0 {
    } else {
        let t = s.drop_last();
        assert(keys_sorted(t));
        lemma_insert_sorted(t, x);
        let u = insert_stable(t, x);
        assert forall|i: int, j: int| 0 <= i <= j < u.push(s.last()).len() implies u.push(
            s.last(),
        )[i].0 <= u.push(s.last())[j].0 by {
            if j == u.len() {
                if i < u.len() {
                    // every element of u is either x or an element of t
                    assert(u.to_multiset().count(u[i]) > 0);
                    assert(u.to_multiset() == t.to_multiset().insert(x));
                    if u[i] != x {
                        assert(t.to_multiset().count(u[i]) > 0);
                        assert(t.contains(u[i]));
                        let k = choose|k: int| 0 <= k < t.len() && t[k] == u[i];
                        assert(s[k] == t[k]);
                    }
                }
            }
        }
        assert(s =~= t.push(s.last()));
    }
}

/// Law: the stable sort orders keys and keeps exactly the same items.
pub proof fn lemma_sort_stable_sorted<T>(s: Seq<(i64, T)>)
    ensures
        keys_sorted(sort_stable(s)),
        sort_stable(s).len() == s.len(),
        sort_stable(s).to_multiset() == s.to_multiset(),
    decreases s.len(),
{
    broadcast use vstd::seq_lib::group_to_multiset_ensures;

    if s.len() > 0 {
        lemma_sort_stable_sorted(s.drop_last());
        lemma_insert_sorted(sort_stable(s.drop_last()), s.last());
        assert(s =~= s.drop_last().push(s.last()));
    }
}

/// Sort keyed items stably by key.
pub fn sort_by_key_stable<T>(items: Vec<(i64, T)>) -> (r: Vec<(i64, T)>)
    ensures
        r@ == sort_stable(items@),
{
    let ghost orig = items@;
    let mut rest = items;
    let mut out: Vec<(i64, T)> = Vec::new();
    let ghost mut k: int = 0;
    while rest.len() > 0
        invariant
            0 <= k <= orig.len(),
            rest@ == orig.skip(k),
            out@ == sort_stable(orig.take(k)),
        decreases rest.len(),
    {
        let x = rest.remove(0);
        proof {
            assert(orig.take(k + 1).drop_last() =~= orig.take(k));
            assert(orig.take(k + 1).last() == x);
            lemma_insert_is_splice(out@, x);
        }
        // find the insertion point: after every element whose key is <= x's
        let mut p: usize = out.len();
        while p > 0 && out[p - 1].0 > x.0
            invariant
                0 <= p <= out@.len(),
                out@.len() - p == greater_suffix(out@.take(out@.len() as int), x.0) - greater_suffix(
                    out@.take(p as int),
                    x.0,
                ),
                forall|j: int| p <= j < out@.len() ==> out@[j].0 > x.0,
            decreases p,
        {
            proof {
                assert(out@.take(p as int).drop_last() =~= out@.take(p - 1));
            }
            p = p - 1;
        }
        proof {
            let s = out@;
            // p is exactly where the recursive insertion would place x
            assert(s.take(s.len() as int) =~= s);
            if p > 0 {
                assert(s.take(p as int).last().0 <= x.0);
            }
            assert(greater_suffix(s.take(p as int), x.0) == 0);
        }
        out.insert(p, x);
        proof {
            k = k + 1;
            assert(rest@ =~= orig.skip(k));
        }
    }
    proof {
        assert(orig.take(k) =~= orig);
    }
    out
}


/// Where [`insert_stable`] places `x` in `s`.
pub open spec fn insertion_point<T>(s: Seq<(i64, T)>, x: (i64, T)) -> int {
    s.len() - greater_suffix_len(s, x.0)
}

/// Number of trailing elements of `s` whose key exceeds `k`.
pub open spec fn greater_suffix_len<T>(s: Seq<(i64, T)>, k: i64) -> nat
    decreases s.len(),
{
    if s.len() == 0 || s.last().0 <= k {
        0
    } else {
        1 + greater_suffix_len(s.drop_last(), k)
    }
}

/// [`insert_stable`] splices `x` in at [`insertion_point`].
pub proof fn lemma_insert_splice_public<T>(s: Seq<(i64, T)>, x: (i64, T))
    ensures
        0 <= insertion_point(s, x) <= s.len(),
        insert_stable(s, x) == s.take(insertion_point(s, x)).push(x) + s.skip(insertion_point(s, x)),
    decreases s.len(),
{
    if s.len() == 0 {
        assert(seq![x] =~= s.take(0).push(x) + s.skip(0));
    } else if s.last().0 <= x.0 {
        assert(s.push(x) =~= s.take(s.len() as int).push(x) + s.skip(s.len() as int));
    } else {
        let t = s.drop_last();
        lemma_insert_splice_public(t, x);
        let p = insertion_point(t, x);
        assert(insertion_point(s, x) == p);
        assert(t.take(p) =~= s.take(p));
        assert(t.skip(p).push(s.last()) =~= s.skip(p));
        assert(insert_stable(s, x) =~= s.take(p).push(x) + s.skip(p));
    }
}
} // verus!
