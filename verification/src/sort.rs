//! A stable insertion sort by a textual key, with its specification.
use vstd::prelude::*;
use crate::text::{views, lex_lt, str_lt, lemma_lex_asymmetric, lemma_lex_transitive, lemma_lex_total};

verus! {

/// Values that are ordered by a textual key of their view.
pub trait Keyed: View + Sized {
    /// The key by which a value with view `v` is ordered.
    spec fn key_of(v: Self::V) -> Seq<char>;

    /// Whether the key of `self` comes strictly before the key of `other`.
    fn key_lt(&self, other: &Self) -> (r: bool)
        ensures
            r == lex_lt(Self::key_of(self@), Self::key_of(other@)),
    ;
}

impl Keyed for String {
    open spec fn key_of(v: Seq<char>) -> Seq<char> {
        v
    }

    fn key_lt(&self, other: &Self) -> (r: bool) {
        str_lt(self.as_str(), other.as_str())
    }
}

/// `x` inserted into `r` after every element whose key is not greater.
pub open spec fn insert_by_key<T: Keyed>(r: Seq<T::V>, x: T::V) -> Seq<T::V>
    decreases r.len(),
{
    if r.len() == 0 {
        seq![x]
    } else if lex_lt(T::key_of(x), T::key_of(r.last())) {
        insert_by_key::<T>(r.drop_last(), x).push(r.last())
    } else {
        r.push(x)
    }
}

/// `s` stably sorted by key: the elements inserted one after another.
pub open spec fn sort_by_key<T: Keyed>(s: Seq<T::V>) -> Seq<T::V>
    decreases s.len(),
{
    if s.len() == 0 {
        seq![]
    } else {
        insert_by_key::<T>(sort_by_key::<T>(s.drop_last()), s.last())
    }
}

/// Keys never decrease along `s`.
pub open spec fn sorted_by_key<T: Keyed>(s: Seq<T::V>) -> bool {
    forall|i: int, j: int|
        0 <= i < j < s.len() ==> !lex_lt(T::key_of(#[trigger] s[j]), T::key_of(#[trigger] s[i]))
}

proof fn lemma_insert_shape<T: Keyed>(r: Seq<T::V>, x: T::V, p: int)
    requires
        0 < p <= r.len(),
        lex_lt(T::key_of(x), T::key_of(r[p - 1])),
    ensures
        insert_by_key::<T>(r.take(p), x) == insert_by_key::<T>(r.take(p - 1), x).push(r[p - 1]),
{
    assert(r.take(p).drop_last() =~= r.take(p - 1));
}

/// Inserts `x` into `r` after every element whose key is not greater.
pub fn insert_sorted<T: Keyed>(r: &mut Vec<T>, x: T)
    ensures
        views(final(r)@) == insert_by_key::<T>(views(old(r)@), x@),
{
    let ghost orig = views(r@);
    let mut p: usize = r.len();
    assert(orig.take(p as int) =~= orig);
    assert(orig.skip(p as int) =~= Seq::<T::V>::empty());
    while p > 0 && x.key_lt(&r[p - 1])
        invariant
            views(r@) == orig,
            p <= orig.len(),
            insert_by_key::<T>(orig, x@) == insert_by_key::<T>(orig.take(p as int), x@) + orig.skip(
                p as int,
            ),
        decreases p,
    {
        proof {
            lemma_insert_shape::<T>(orig, x@, p as int);
            assert(insert_by_key::<T>(orig.take(p - 1), x@).push(orig[p - 1]) + orig.skip(p as int)
                =~= insert_by_key::<T>(orig.take(p - 1), x@) + orig.skip(p - 1));
        }
        p = p - 1;
    }
    proof {
        if p > 0 {
            assert(orig.take(p as int).drop_last() =~= orig.take(p - 1));
        }
        assert(insert_by_key::<T>(orig.take(p as int), x@) == orig.take(p as int).push(x@));
    }
    r.insert(p, x);
    assert(views(r@) =~= orig.take(p as int).push(x@) + orig.skip(p as int));
}

/// Sorts `v` stably by key.
pub fn sort_by_keys<T: Keyed>(v: Vec<T>) -> (r: Vec<T>)
    ensures
        views(r@) == sort_by_key::<T>(views(v@)),
{
    let ghost orig = views(v@);
    let n = v.len();
    let mut rest = v;
    let mut r: Vec<T> = Vec::new();
    let mut k: usize = 0;
    assert(orig.skip(0) =~= orig);
    assert(views(r@) =~= Seq::<T::V>::empty());
    while rest.len() > 0
        invariant
            k + rest@.len() == orig.len(),
            orig.len() == n,
            views(rest@) == orig.skip(k as int),
            views(r@) == sort_by_key::<T>(orig.take(k as int)),
        decreases rest@.len(),
    {
        let ghost before = rest@;
        let x = rest.remove(0);
        assert(views(before)[0] == before[0]@);
        assert(views(before)[0] == orig[k as int]);
        assert forall|i: int| 0 <= i < rest@.len() implies #[trigger] views(rest@)[i] == orig[k + 1 + i] by {
            assert(rest@[i] == before[i + 1]);
            assert(views(before)[i + 1] == before[i + 1]@);
        }
        assert(orig.take(k + 1).drop_last() =~= orig.take(k as int));
        insert_sorted(&mut r, x);
        k = k + 1;
        assert(views(rest@) =~= orig.skip(k as int));
    }
    assert(orig.take(k as int) =~= orig);
    r
}

/// Inserting into a sorted sequence gives a sorted sequence holding the same
/// elements and the new one.
pub proof fn lemma_insert_sorted<T: Keyed>(r: Seq<T::V>, x: T::V)
    requires
        sorted_by_key::<T>(r),
    ensures
        sorted_by_key::<T>(insert_by_key::<T>(r, x)),
        insert_by_key::<T>(r, x).to_multiset() == r.to_multiset().insert(x),
        insert_by_key::<T>(r, x).len() == r.len() + 1,
    decreases r.len(),
{
    broadcast use vstd::seq_lib::group_to_multiset_ensures;

    if r.len() == 0 {
        assert(seq![x] =~= Seq::<T::V>::empty().push(x));
    } else if lex_lt(T::key_of(x), T::key_of(r.last())) {
        let q = r.drop_last();
        let l = r.last();
        assert(sorted_by_key::<T>(q));
        lemma_insert_sorted::<T>(q, x);
        let s = insert_by_key::<T>(q, x);
        assert(r =~= q.push(l));
        assert forall|i: int, j: int| 0 <= i < j < s.push(l).len() implies !lex_lt(
            T::key_of(#[trigger] s.push(l)[j]),
            T::key_of(#[trigger] s.push(l)[i]),
        ) by {
            if j == s.len() {
                let e = s[i];
                assert(s.to_multiset().count(e) > 0);
                if e == x {
                    lemma_lex_asymmetric(T::key_of(x), T::key_of(l));
                } else {
                    assert(q.to_multiset().insert(x).count(e) > 0);
                    assert(q.to_multiset().count(e) > 0);
                    assert(q.contains(e));
                    let k = choose|k: int| 0 <= k < q.len() && q[k] == e;
                    assert(r[k] == e);
                    assert(!lex_lt(T::key_of(r[r.len() - 1]), T::key_of(r[k])));
                }
            } else {
                assert(s.push(l)[j] == s[j]);
                assert(s.push(l)[i] == s[i]);
            }
        }
    } else {
        let l = r.last();
        assert forall|i: int, j: int| 0 <= i < j < r.push(x).len() implies !lex_lt(
            T::key_of(#[trigger] r.push(x)[j]),
            T::key_of(#[trigger] r.push(x)[i]),
        ) by {
            if j == r.len() {
                let ki = T::key_of(r[i]);
                let kl = T::key_of(l);
                let kx = T::key_of(x);
                if i < r.len() - 1 {
                    assert(!lex_lt(T::key_of(r[r.len() - 1]), ki));
                    lemma_lex_total(ki, kl);
                    lemma_lex_transitive(kx, ki, kl);
                }
            } else {
                assert(r.push(x)[j] == r[j]);
                assert(r.push(x)[i] == r[i]);
            }
        }
    }
}

/// `sort_by_key` orders by key and keeps exactly the elements it was given.
pub proof fn lemma_sort_by_key<T: Keyed>(s: Seq<T::V>)
    ensures
        sorted_by_key::<T>(sort_by_key::<T>(s)),
        sort_by_key::<T>(s).to_multiset() == s.to_multiset(),
        sort_by_key::<T>(s).len() == s.len(),
    decreases s.len(),
{
    broadcast use vstd::seq_lib::group_to_multiset_ensures;

    if s.len() > 0 {
        lemma_sort_by_key::<T>(s.drop_last());
        lemma_insert_sorted::<T>(sort_by_key::<T>(s.drop_last()), s.last());
        assert(s =~= s.drop_last().push(s.last()));
    }
}


/// Keys strictly increase along `s`.
pub open spec fn strictly_sorted_by_key<T: Keyed>(s: Seq<T::V>) -> bool {
    forall|i: int, j: int| 0 <= i < j < s.len() ==> lex_lt(T::key_of(#[trigger] s[i]), T::key_of(#[trigger] s[j]))
}

/// Whether some element of `s` has the key `k`.
pub open spec fn has_key<T: Keyed>(s: Seq<T::V>, k: Seq<char>) -> bool {
    exists|i: int| 0 <= i < s.len() && T::key_of(#[trigger] s[i]) == k
}

/// Inserting an element with a new key into a sequence with strictly
/// increasing keys keeps the keys strictly increasing, and the keys are the
/// old ones and the new one.
pub proof fn lemma_insert_strict<T: Keyed>(r: Seq<T::V>, x: T::V)
    requires
        strictly_sorted_by_key::<T>(r),
        !has_key::<T>(r, T::key_of(x)),
    ensures
        strictly_sorted_by_key::<T>(insert_by_key::<T>(r, x)),
        forall|k: Seq<char>|
            has_key::<T>(insert_by_key::<T>(r, x), k) <==> (has_key::<T>(r, k) || k == T::key_of(x)),
    decreases r.len(),
{
    let kx = T::key_of(x);
    if r.len() == 0 {
        let t = insert_by_key::<T>(r, x);
        assert forall|k: Seq<char>| has_key::<T>(t, k) <==> (has_key::<T>(r, k) || k == kx) by {
            if k == kx {
                assert(t[0] == x);
            }
        }
    } else {
        let q = r.drop_last();
        let l = r.last();
        let kl = T::key_of(l);
        assert forall|i: int| 0 <= i < q.len() implies lex_lt(T::key_of(#[trigger] q[i]), kl) by {
            assert(q[i] == r[i]);
            assert(r[r.len() - 1] == l);
        }
        if lex_lt(kx, kl) {
            assert(strictly_sorted_by_key::<T>(q)) by {
                assert forall|i: int, j: int| 0 <= i < j < q.len() implies lex_lt(
                    T::key_of(#[trigger] q[i]),
                    T::key_of(#[trigger] q[j]),
                ) by {
                    assert(q[i] == r[i] && q[j] == r[j]);
                }
            }
            assert(!has_key::<T>(q, kx)) by {
                if has_key::<T>(q, kx) {
                    let i = choose|i: int| 0 <= i < q.len() && T::key_of(#[trigger] q[i]) == kx;
                    assert(r[i] == q[i]);
                }
            }
            lemma_insert_strict::<T>(q, x);
            let t = insert_by_key::<T>(q, x);
            assert forall|i: int| 0 <= i < t.len() implies lex_lt(T::key_of(#[trigger] t[i]), kl) by {
                assert(has_key::<T>(t, T::key_of(t[i])));
                if T::key_of(t[i]) != kx {
                    assert(has_key::<T>(q, T::key_of(t[i])));
                    let k = choose|k: int| 0 <= k < q.len() && T::key_of(#[trigger] q[k]) == T::key_of(t[i]);
                    assert(lex_lt(T::key_of(q[k]), kl));
                }
            }
            let u = t.push(l);
            assert forall|i: int, j: int| 0 <= i < j < u.len() implies lex_lt(
                T::key_of(#[trigger] u[i]),
                T::key_of(#[trigger] u[j]),
            ) by {
                assert(u[i] == t[i]);
                if j < t.len() {
                    assert(u[j] == t[j]);
                }
            }
            assert forall|k: Seq<char>| has_key::<T>(u, k) <==> (has_key::<T>(r, k) || k == kx) by {
                if has_key::<T>(u, k) {
                    let i = choose|i: int| 0 <= i < u.len() && T::key_of(#[trigger] u[i]) == k;
                    if i < t.len() {
                        assert(u[i] == t[i]);
                        assert(has_key::<T>(t, k));
                        if has_key::<T>(q, k) {
                            let m = choose|m: int| 0 <= m < q.len() && T::key_of(#[trigger] q[m]) == k;
                            assert(r[m] == q[m]);
                        }
                    } else {
                        assert(r[r.len() - 1] == l);
                    }
                }
                if has_key::<T>(r, k) {
                    let i = choose|i: int| 0 <= i < r.len() && T::key_of(#[trigger] r[i]) == k;
                    if i < r.len() - 1 {
                        assert(q[i] == r[i]);
                        assert(T::key_of(q[i]) == k);
                        assert(has_key::<T>(q, k));
                        assert(has_key::<T>(t, k));
                        let m = choose|m: int| 0 <= m < t.len() && T::key_of(#[trigger] t[m]) == k;
                        assert(u[m] == t[m]);
                    } else {
                        assert(u[t.len() as int] == l);
                    }
                }
                if k == kx {
                    assert(has_key::<T>(t, k));
                    let m = choose|m: int| 0 <= m < t.len() && T::key_of(#[trigger] t[m]) == k;
                    assert(u[m] == t[m]);
                }
            }
        } else {
            assert(kx != kl) by {
                assert(T::key_of(r[r.len() - 1]) == kl);
            }
            lemma_lex_total(kx, kl);
            let u = r.push(x);
            assert forall|i: int, j: int| 0 <= i < j < u.len() implies lex_lt(
                T::key_of(#[trigger] u[i]),
                T::key_of(#[trigger] u[j]),
            ) by {
                assert(u[i] == r[i]);
                if j < r.len() {
                    assert(u[j] == r[j]);
                } else if i < r.len() - 1 {
                    lemma_lex_transitive(T::key_of(r[i]), kl, kx);
                }
            }
            assert forall|k: Seq<char>| has_key::<T>(u, k) <==> (has_key::<T>(r, k) || k == kx) by {
                if has_key::<T>(u, k) {
                    let i = choose|i: int| 0 <= i < u.len() && T::key_of(#[trigger] u[i]) == k;
                    if i < r.len() {
                        assert(u[i] == r[i]);
                    }
                }
                if has_key::<T>(r, k) {
                    let i = choose|i: int| 0 <= i < r.len() && T::key_of(#[trigger] r[i]) == k;
                    assert(u[i] == r[i]);
                }
                if k == kx {
                    assert(u[r.len() as int] == x);
                }
            }
        }
    }
}

/// Sorting a sequence whose keys are pairwise distinct gives strictly
/// increasing keys, with the same keys as before.
pub proof fn lemma_sort_strict<T: Keyed>(s: Seq<T::V>)
    requires
        forall|i: int, j: int| 0 <= i < j < s.len() ==> T::key_of(#[trigger] s[i]) != T::key_of(#[trigger] s[j]),
    ensures
        strictly_sorted_by_key::<T>(sort_by_key::<T>(s)),
        forall|k: Seq<char>| has_key::<T>(sort_by_key::<T>(s), k) <==> has_key::<T>(s, k),
    decreases s.len(),
{
    if s.len() > 0 {
        let p = s.drop_last();
        assert forall|i: int, j: int| 0 <= i < j < p.len() implies T::key_of(#[trigger] p[i]) != T::key_of(
            #[trigger] p[j],
        ) by {
            assert(p[i] == s[i] && p[j] == s[j]);
        }
        lemma_sort_strict::<T>(p);
        let kx = T::key_of(s.last());
        assert(!has_key::<T>(p, kx)) by {
            if has_key::<T>(p, kx) {
                let i = choose|i: int| 0 <= i < p.len() && T::key_of(#[trigger] p[i]) == kx;
                assert(s[i] == p[i]);
                assert(s[s.len() - 1] == s.last());
            }
        }
        lemma_insert_strict::<T>(sort_by_key::<T>(p), s.last());
        assert forall|k: Seq<char>| has_key::<T>(sort_by_key::<T>(s), k) <==> has_key::<T>(s, k) by {
            if has_key::<T>(p, k) {
                let i = choose|i: int| 0 <= i < p.len() && T::key_of(#[trigger] p[i]) == k;
                assert(s[i] == p[i]);
            }
            if has_key::<T>(s, k) {
                let i = choose|i: int| 0 <= i < s.len() && T::key_of(#[trigger] s[i]) == k;
                if i < s.len() - 1 {
                    assert(p[i] == s[i]);
                }
            }
            if k == kx {
                assert(s[s.len() - 1] == s.last());
            }
        }
    } else {
        assert(sort_by_key::<T>(s) =~= s);
    }
}

} // verus!
