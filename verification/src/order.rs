//! Stable sorting by an integer key.
use vstd::prelude::*;

verus! {

/// Values that are ordered by an integer.
pub trait Keyed: Copy {
    spec fn key(&self) -> int;

    /// Whether `self` comes strictly after `other`.
    fn after(&self, other: &Self) -> (r: bool)
        ensures
            r == (self.key() > other.key()),
    ;
}

impl Keyed for u32 {
    open spec fn key(&self) -> int {
        *self as int
    }

    fn after(&self, other: &Self) -> (r: bool) {
        *self > *other
    }
}

/// Keys never decrease along `s`.
pub open spec fn is_sorted<T: Keyed>(s: Seq<T>) -> bool {
    forall|i: int, j: int| 0 <= i <= j < s.len() ==> (#[trigger] s[i]).key() <= (#[trigger] s[j]).key()
}

/// Where `k` goes in `s`: behind everything that it does not come before,
/// looked for from the end.
pub open spec fn slot_for<T: Keyed>(s: Seq<T>, k: int) -> int
    decreases s.len(),
{
    if s.len() > 0 && s.last().key() > k {
        slot_for(s.drop_last(), k)
    } else {
        s.len() as int
    }
}

/// `s` in key order, values with equal keys in the order they had.
pub open spec fn sorted<T: Keyed>(s: Seq<T>) -> Seq<T>
    decreases s.len(),
{
    if s.len() == 0 {
        s
    } else {
        let t = sorted(s.drop_last());
        t.insert(slot_for(t, s.last().key()), s.last())
    }
}

proof fn lemma_slot<T: Keyed>(s: Seq<T>, k: int)
    ensures
        0 <= slot_for(s, k) <= s.len(),
        forall|i: int| slot_for(s, k) <= i < s.len() ==> (#[trigger] s[i]).key() > k,
        slot_for(s, k) > 0 ==> s[slot_for(s, k) - 1].key() <= k,
    decreases s.len(),
{
    if s.len() > 0 && s.last().key() > k {
        let p = s.drop_last();
        lemma_slot(p, k);
        assert forall|i: int| slot_for(s, k) <= i < s.len() implies (#[trigger] s[i]).key() > k by {
            if i < p.len() {
                assert(p[i] == s[i]);
            }
        }
    }
}

proof fn lemma_insert_sorted<T: Keyed>(t: Seq<T>, x: T)
    requires
        is_sorted(t),
    ensures
        is_sorted(t.insert(slot_for(t, x.key()), x)),
{
    let k = x.key();
    let p = slot_for(t, k);
    lemma_slot(t, k);
    let u = t.insert(p, x);
    assert forall|i: int, j: int| 0 <= i <= j < u.len() implies (#[trigger] u[i]).key() <= (
    #[trigger] u[j]).key() by {
        let oi = if i < p {
            i
        } else {
            i - 1
        };
        let oj = if j < p {
            j
        } else {
            j - 1
        };
        if i != p {
            assert(u[i] == t[oi]);
        }
        if j != p {
            assert(u[j] == t[oj]);
        }
        if i < p {
            assert(t[i].key() <= t[p - 1].key());
        }
    }
}

/// The sorted sequence is sorted and has the values it had before.
pub proof fn law_sorted_is_a_sorted_permutation<T: Keyed>(s: Seq<T>)
    ensures
        is_sorted(sorted(s)),
        sorted(s).len() == s.len(),
        sorted(s).to_multiset() == s.to_multiset(),
    decreases s.len(),
{
    if s.len() > 0 {
        let p = s.drop_last();
        law_sorted_is_a_sorted_permutation(p);
        let t = sorted(p);
        let x = s.last();
        lemma_slot(t, x.key());
        lemma_insert_sorted(t, x);
        let q = slot_for(t, x.key());
        vstd::seq_lib::to_multiset_insert(t, q, x);
        assert(s =~= p.push(x));
        vstd::seq_lib::to_multiset_build(p, x);
    }
}

/// Sorting what is sorted changes nothing; so sorting twice is sorting once.
pub proof fn law_sorting_is_idempotent<T: Keyed>(s: Seq<T>)
    ensures
        is_sorted(s) ==> sorted(s) == s,
        sorted(sorted(s)) == sorted(s),
{
    law_sorted_is_a_sorted_permutation(s);
    if is_sorted(s) {
        lemma_sorted_fixed(s);
    }
    lemma_sorted_fixed(sorted(s));
}

proof fn lemma_sorted_fixed<T: Keyed>(s: Seq<T>)
    requires
        is_sorted(s),
    ensures
        sorted(s) == s,
    decreases s.len(),
{
    if s.len() > 0 {
        let p = s.drop_last();
        assert forall|i: int, j: int| 0 <= i <= j < p.len() implies (#[trigger] p[i]).key() <= (
        #[trigger] p[j]).key() by {
            assert(p[i] == s[i] && p[j] == s[j]);
        }
        lemma_sorted_fixed(p);
        let k = s.last().key();
        lemma_slot(p, k);
        if slot_for(p, k) < p.len() {
            assert(p[p.len() - 1].key() > k);
            assert(s[p.len() - 1].key() <= s[s.len() - 1].key());
        }
        assert(p.insert(p.len() as int, s.last()) =~= s);
    }
}

/// Values with one key keep the order they had.
pub proof fn law_sorting_is_stable<T: Keyed>(s: Seq<T>, k: int)
    ensures
        sorted(s).filter(|x: T| x.key() == k) == s.filter(|x: T| x.key() == k),
    decreases s.len(),
{
    let f = |x: T| x.key() == k;
    if s.len() > 0 {
        let p = s.drop_last();
        law_sorting_is_stable(p, k);
        law_sorted_is_a_sorted_permutation(p);
        let t = sorted(p);
        let x = s.last();
        let q = slot_for(t, x.key());
        lemma_slot(t, x.key());
        let (a, b) = (t.take(q), t.skip(q));
        assert(t =~= a + b);
        assert(t.insert(q, x) =~= a.push(x) + b);
        Seq::filter_distributes_over_add(a, b, f);
        Seq::filter_distributes_over_add(a.push(x), b, f);
        Seq::filter_distributes_over_add(a, seq![x], f);
        Seq::filter_distributes_over_add(p, seq![x], f);
        assert(a.push(x) =~= a + seq![x]);
        assert(s =~= p + seq![x]);
        if x.key() == k {
            lemma_filter_none(b, f);
        } else {
            lemma_filter_none(seq![x], f);
        }
        assert(a.filter(f) + Seq::<T>::empty() =~= a.filter(f));
        assert(p.filter(f) + Seq::<T>::empty() =~= p.filter(f));
        assert((a.filter(f) + seq![x].filter(f)) + b.filter(f) =~= sorted(s).filter(f));
        assert(sorted(s).filter(f) =~= s.filter(f));
    }
}

proof fn lemma_filter_none<T>(s: Seq<T>, f: spec_fn(T) -> bool)
    requires
        forall|i: int| 0 <= i < s.len() ==> !f(#[trigger] s[i]),
    ensures
        s.filter(f) == Seq::<T>::empty(),
    decreases s.len(),
{
    reveal(Seq::filter);
    if s.len() > 0 {
        let p = s.drop_last();
        assert forall|i: int| 0 <= i < p.len() implies !f(#[trigger] p[i]) by {
            assert(p[i] == s[i]);
        }
        lemma_filter_none(p, f);
        assert(!f(s[s.len() - 1]));
    }
}

/// Stable insertion sort, searching from the end: linear on sorted input.
pub fn sort<T: Keyed>(v: &Vec<T>) -> (r: Vec<T>)
    ensures
        r@ == sorted(v@),
{
    let mut out: Vec<T> = Vec::new();
    let mut i: usize = 0;
    while i < v.len()
        invariant
            i <= v.len(),
            out@ == sorted(v@.take(i as int)),
            out@.len() == i,
        decreases v.len() - i,
    {
        let x: T = v[i];
        let mut p: usize = out.len();
        let ghost k = x.key();
        assert(out@.take(p as int) =~= out@);
        while p > 0 && out[p - 1].after(&x)
            invariant
                p <= out@.len(),
                k == x.key(),
                slot_for(out@.take(p as int), k) == slot_for(out@, k),
            decreases p,
        {
            assert(out@.take(p as int).drop_last() =~= out@.take(p - 1));
            p = p - 1;
        }
        proof {
            lemma_slot(out@, k);
            let t = out@.take(p as int);
            if p > 0 {
                assert(t.last() == out@[p - 1]);
            }
            assert(slot_for(t, k) == p);
            assert(v@.take(i + 1).drop_last() =~= v@.take(i as int));
        }
        out.insert(p, x);
        i = i + 1;
    }
    assert(v@.take(i as int) =~= v@);
    out
}

/// A strictly ascending list of numbers below `n` has at most `n` of them.
pub proof fn lemma_ascending_len(s: Seq<u32>, n: int)
    requires
        forall|i: int, j: int| 0 <= i < j < s.len() ==> s[i] < s[j],
        forall|i: int| 0 <= i < s.len() ==> #[trigger] s[i] < n,
        0 <= n,
    ensures
        s.len() <= n,
    decreases s.len(),
{
    if s.len() > 0 {
        let p = s.drop_last();
        let last = s[s.len() - 1] as int;
        assert forall|i: int| 0 <= i < p.len() implies #[trigger] p[i] < last by {
            assert(p[i] == s[i]);
        }
        lemma_ascending_len(p, last);
    }
}

/// Two strictly ascending sequences with the same members are the same.
pub proof fn lemma_ascending_unique(a: Seq<u32>, b: Seq<u32>)
    requires
        forall|i: int, j: int| 0 <= i < j < a.len() ==> a[i] < a[j],
        forall|i: int, j: int| 0 <= i < j < b.len() ==> b[i] < b[j],
        forall|x: u32| a.contains(x) <==> b.contains(x),
    ensures
        a == b,
    decreases a.len(),
{
    if a.len() == 0 {
        if b.len() > 0 {
            assert(b.contains(b[0]));
            assert(a.contains(b[0]));
        }
        assert(a =~= b);
    } else {
        assert(a.contains(a[a.len() - 1]));
        assert(b.contains(a[a.len() - 1]));
        assert(b.len() > 0);
        assert(b.contains(b[b.len() - 1]));
        assert(a.contains(b[b.len() - 1]));
        let (la, lb) = (a.last(), b.last());
        let ib = b.index_of(la);
        let ia = a.index_of(lb);
        assert(la == lb);
        let (p, q) = (a.drop_last(), b.drop_last());
        assert forall|x: u32| p.contains(x) <==> q.contains(x) by {
            if p.contains(x) {
                let i = p.index_of(x);
                assert(a[i] == x);
                assert(a.contains(x));
                assert(b.contains(x));
                let j = b.index_of(x);
                assert(x < la);
                assert(q[j] == x);
            }
            if q.contains(x) {
                let i = q.index_of(x);
                assert(b[i] == x);
                assert(b.contains(x));
                assert(a.contains(x));
                let j = a.index_of(x);
                assert(x < lb);
                assert(p[j] == x);
            }
        }
        lemma_ascending_unique(p, q);
        assert(a =~= p.push(la));
        assert(b =~= q.push(lb));
    }
}

} // verus!
