//! Total orders and the sort that the deterministic lists are built with.

use vstd::prelude::*;

verus! {

/// A type with a linear order on its values.
pub trait Ranked: Copy {
    /// Whether `a` comes no later than `b`.
    spec fn ranks(a: Self, b: Self) -> bool;

    /// The four laws of a linear order, for any three values.
    proof fn linear(a: Self, b: Self, c: Self)
        ensures
            Self::ranks(a, a),
            Self::ranks(a, b) || Self::ranks(b, a),
            Self::ranks(a, b) && Self::ranks(b, a) ==> a == b,
            Self::ranks(a, b) && Self::ranks(b, c) ==> Self::ranks(a, c),
    ;

    /// Decide [`Ranked::ranks`].
    fn ranks_before(&self, other: &Self) -> (r: bool)
        ensures
            r == Self::ranks(*self, *other),
    ;
}

impl Ranked for u32 {
    open spec fn ranks(a: Self, b: Self) -> bool {
        a <= b
    }

    proof fn linear(a: Self, b: Self, c: Self) {
    }

    fn ranks_before(&self, other: &Self) -> (r: bool) {
        *self <= *other
    }
}

/// Every element comes no later than those behind it.
pub open spec fn ascending<T: Ranked>(s: Seq<T>) -> bool {
    forall|i: int, j: int| 0 <= i < j < s.len() ==> #[trigger] T::ranks(s[i], s[j])
}

/// Ascending, and no element occurs twice.
pub open spec fn strictly_ascending<T: Ranked>(s: Seq<T>) -> bool {
    forall|i: int, j: int|
        0 <= i < j < s.len() ==> #[trigger] T::ranks(s[i], s[j]) && s[i] != s[j]
}

/// Merge two ascending runs.
fn merge_runs<T: Ranked>(a: &Vec<T>, b: &Vec<T>) -> (out: Vec<T>)
    requires
        ascending(a@),
        ascending(b@),
    ensures
        ascending(out@),
        out@.to_multiset() == a@.to_multiset().add(b@.to_multiset()),
{
    let mut out: Vec<T> = Vec::new();
    let mut i: usize = 0;
    let mut j: usize = 0;
    assert(a@.subrange(0, 0) =~= Seq::<T>::empty());
    assert(b@.subrange(0, 0) =~= Seq::<T>::empty());
    assert(out@.to_multiset() =~= a@.subrange(0, 0).to_multiset().add(
        b@.subrange(0, 0).to_multiset(),
    )) by {
        broadcast use vstd::seq_lib::group_to_multiset_ensures;

        Seq::<T>::empty().to_multiset_ensures();
        assert(Seq::<T>::empty().to_multiset().len() == 0);
        assert(Seq::<T>::empty().to_multiset() =~= vstd::multiset::Multiset::empty());
    }
    while i < a.len() || j < b.len()
        invariant
            i <= a.len(),
            j <= b.len(),
            ascending(a@),
            ascending(b@),
            ascending(out@),
            forall|p: int, q: int|
                0 <= p < out.len() && i <= q < a.len() ==> #[trigger] T::ranks(out@[p], a@[q]),
            forall|p: int, q: int|
                0 <= p < out.len() && j <= q < b.len() ==> #[trigger] T::ranks(out@[p], b@[q]),
            out@.to_multiset() == a@.subrange(0, i as int).to_multiset().add(
                b@.subrange(0, j as int).to_multiset(),
            ),
        decreases a.len() - i + b.len() - j,
    {
        let from_a: bool = if j >= b.len() {
            true
        } else if i >= a.len() {
            false
        } else {
            a[i].ranks_before(&b[j])
        };
        let ghost before = out@;
        if from_a {
            proof {
                let x = a@[i as int];
                T::linear(x, x, x);
                assert forall|q: int| i + 1 <= q < a.len() implies T::ranks(x, #[trigger] a@[q]) by {}
                assert forall|q: int| j <= q < b.len() implies T::ranks(x, #[trigger] b@[q]) by {
                    T::linear(x, b@[j as int], b@[q]);
                    if j < q {
                        assert(T::ranks(b@[j as int], b@[q]));
                    }
                }
                broadcast use vstd::seq_lib::group_to_multiset_ensures;

                assert(a@.subrange(0, i + 1) =~= a@.subrange(0, i as int).push(x));
                assert(before.push(x).to_multiset() =~= a@.subrange(0, i + 1).to_multiset().add(
                    b@.subrange(0, j as int).to_multiset(),
                ));
            }
            out.push(a[i]);
            i = i + 1;
        } else {
            proof {
                let x = b@[j as int];
                assert forall|q: int| j + 1 <= q < b.len() implies T::ranks(x, #[trigger] b@[q]) by {}
                assert forall|q: int| i <= q < a.len() implies T::ranks(x, #[trigger] a@[q]) by {
                    T::linear(x, a@[i as int], a@[q]);
                    if i < q {
                        assert(T::ranks(a@[i as int], a@[q]));
                    }
                }
                broadcast use vstd::seq_lib::group_to_multiset_ensures;

                assert(b@.subrange(0, j + 1) =~= b@.subrange(0, j as int).push(x));
                assert(before.push(x).to_multiset() =~= a@.subrange(
                    0,
                    i as int,
                ).to_multiset().add(b@.subrange(0, j + 1).to_multiset()));
            }
            out.push(b[j]);
            j = j + 1;
        }
    }
    assert(a@.subrange(0, i as int) =~= a@);
    assert(b@.subrange(0, j as int) =~= b@);
    out
}

/// The elements `lo..hi` of `v`, ascending.
fn sort_range<T: Ranked>(v: &Vec<T>, lo: usize, hi: usize) -> (out: Vec<T>)
    requires
        lo <= hi <= v.len(),
    ensures
        ascending(out@),
        out@.to_multiset() == v@.subrange(lo as int, hi as int).to_multiset(),
    decreases hi - lo,
{
    if hi - lo <= 1 {
        let mut out: Vec<T> = Vec::new();
        if lo < hi {
            out.push(v[lo]);
        }
        assert(out@ =~= v@.subrange(lo as int, hi as int));
        out
    } else {
        let mid: usize = lo + (hi - lo) / 2;
        let left = sort_range(v, lo, mid);
        let right = sort_range(v, mid, hi);
        proof {
            let l = v@.subrange(lo as int, mid as int);
            let r = v@.subrange(mid as int, hi as int);
            vstd::seq_lib::lemma_multiset_commutative(l, r);
            assert(l + r =~= v@.subrange(lo as int, hi as int));
        }
        merge_runs(&left, &right)
    }
}

/// The elements of `v` in ascending order, each as often as it occurs in `v`.
pub fn sorted<T: Ranked>(v: &Vec<T>) -> (out: Vec<T>)
    ensures
        ascending(out@),
        out@.to_multiset() == v@.to_multiset(),
        out.len() == v.len(),
        forall|x: T| #[trigger] out@.contains(x) <==> v@.contains(x),
{
    let out = sort_range(v, 0, v.len());
    proof {
        assert(v@.subrange(0, v.len() as int) =~= v@);
        out@.to_multiset_ensures();
        v@.to_multiset_ensures();
        assert forall|x: T| #[trigger] out@.contains(x) <==> v@.contains(x) by {
            assert(out@.contains(x) <==> out@.to_multiset().count(x) > 0);
            assert(v@.contains(x) <==> v@.to_multiset().count(x) > 0);
        }
    }
    out
}

/// An ascending sequence without repetitions is strictly ascending.
pub proof fn lemma_ascending_distinct<T: Ranked>(s: Seq<T>)
    requires
        ascending(s),
        s.no_duplicates(),
    ensures
        strictly_ascending(s),
{
    assert forall|i: int, j: int| 0 <= i < j < s.len() implies #[trigger] T::ranks(s[i], s[j])
        && s[i] != s[j] by {
        assert(s[i] != s[j]);
    }
}

/// In a strictly ascending sequence an element occurs at one index only.
pub proof fn lemma_strict_index<T: Ranked>(s: Seq<T>, i: int, j: int)
    requires
        strictly_ascending(s),
        0 <= i < s.len(),
        0 <= j < s.len(),
        s[i] == s[j],
    ensures
        i == j,
{
    if i < j {
        assert(T::ranks(s[i], s[j]));
    }
    if j < i {
        assert(T::ranks(s[j], s[i]));
    }
}

/// Two strictly ascending sequences with the same elements are the same.
pub proof fn lemma_strictly_ascending_unique<T: Ranked>(s: Seq<T>, t: Seq<T>)
    requires
        strictly_ascending(s),
        strictly_ascending(t),
        forall|x: T| #[trigger] s.contains(x) <==> t.contains(x),
    ensures
        s == t,
    decreases s.len(),
{
    if s.len() == 0 {
        if t.len() > 0 {
            assert(t.contains(t[0]));
            assert(s.contains(t[0]));
        }
        assert(s =~= t);
    } else {
        assert(s.contains(s[0]));
        let k = choose|k: int| 0 <= k < t.len() && t[k] == s[0];
        assert(t.contains(t[0]) && s.contains(t[0]));
        let m = choose|m: int| 0 <= m < s.len() && s[m] == t[0];
        T::linear(s[0], t[0], t[0]);
        if k > 0 && m > 0 {
            assert(T::ranks(t[0], t[k]));
            assert(T::ranks(s[0], s[m]));
            assert(s[0] != s[m]);
            assert(false);
        }
        assert(s[0] == t[0]);
        let s1 = s.subrange(1, s.len() as int);
        let t1 = t.subrange(1, t.len() as int);
        assert forall|i: int, j: int| 0 <= i < j < s1.len() implies #[trigger] T::ranks(s1[i], s1[j])
            && s1[i] != s1[j] by {
            assert(T::ranks(s[i + 1], s[j + 1]));
        }
        assert forall|i: int, j: int| 0 <= i < j < t1.len() implies #[trigger] T::ranks(t1[i], t1[j])
            && t1[i] != t1[j] by {
            assert(T::ranks(t[i + 1], t[j + 1]));
        }
        assert forall|x: T| #[trigger] s1.contains(x) <==> t1.contains(x) by {
            if s1.contains(x) {
                let i = choose|i: int| 0 <= i < s1.len() && s1[i] == x;
                assert(s[i + 1] == x);
                assert(s.contains(x));
                assert(T::ranks(s[0], s[i + 1]));
                let j = choose|j: int| 0 <= j < t.len() && t[j] == x;
                assert(j > 0);
                assert(t1[j - 1] == x);
            }
            if t1.contains(x) {
                let i = choose|i: int| 0 <= i < t1.len() && t1[i] == x;
                assert(t[i + 1] == x);
                assert(t.contains(x) && s.contains(x));
                assert(T::ranks(t[0], t[i + 1]));
                let j = choose|j: int| 0 <= j < s.len() && s[j] == x;
                assert(j > 0);
                assert(s1[j - 1] == x);
            }
        }
        lemma_strictly_ascending_unique(s1, t1);
        assert(s =~= seq![s[0]] + s1);
        assert(t =~= seq![t[0]] + t1);
    }
}

} // verus!
