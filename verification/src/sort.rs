//! Stable sorting of the lists the broadcast shows.
use std::cmp::Ordering;

use vstd::prelude::*;

verus! {

/// A type whose values are ordered for display: `le` is a total preorder.
pub trait SortKey: Sized {
    spec fn le_spec(&self, other: &Self) -> bool;

    /// Any two values are ordered one way or the other.
    proof fn lemma_le_total(a: &Self, b: &Self)
        ensures
            a.le_spec(b) || b.le_spec(a),
    ;

    /// The order is transitive.
    proof fn lemma_le_transitive(a: &Self, b: &Self, c: &Self)
        requires
            a.le_spec(b),
            b.le_spec(c),
        ensures
            a.le_spec(c),
    ;

    fn le(&self, other: &Self) -> (r: bool)
        ensures
            r == self.le_spec(other),
    ;
}

/// `t` with `x` inserted behind the last element that is not after it,
/// where `t` is sorted.
pub open spec fn insert_sorted<T: SortKey>(t: Seq<T>, x: T) -> Seq<T>
    decreases t.len(),
{
    if t.len() == 0 {
        seq![x]
    } else if t.last().le_spec(&x) {
        t.push(x)
    } else {
        insert_sorted(t.drop_last(), x).push(t.last())
    }
}

/// The stable sort of a sequence: equal elements keep their order.
pub open spec fn stable_sorted<T: SortKey>(s: Seq<T>) -> Seq<T>
    decreases s.len(),
{
    if s.len() == 0 {
        s
    } else {
        insert_sorted(stable_sorted(s.drop_last()), s.last())
    }
}

/// The place where `insert_sorted` puts `x`: behind the last element,
/// counted from the end, that is not after it.
pub open spec fn insert_place<T: SortKey>(t: Seq<T>, x: T) -> int
    decreases t.len(),
{
    if t.len() == 0 {
        0
    } else if t.last().le_spec(&x) {
        t.len() as int
    } else {
        insert_place(t.drop_last(), x)
    }
}

proof fn lemma_insert_sorted_place<T: SortKey>(t: Seq<T>, x: T)
    ensures
        0 <= insert_place(t, x) <= t.len(),
        insert_sorted(t, x) =~= t.subrange(0, insert_place(t, x)).push(x) + t.subrange(
            insert_place(t, x),
            t.len() as int,
        ),
        forall|j: int| insert_place(t, x) <= j < t.len() ==> !t[j].le_spec(&x),
        insert_place(t, x) > 0 ==> t[insert_place(t, x) - 1].le_spec(&x),
    decreases t.len(),
{
    if t.len() > 0 && !t.last().le_spec(&x) {
        let u = t.drop_last();
        lemma_insert_sorted_place(u, x);
        let p = insert_place(u, x);
        assert(t.subrange(0, p) =~= u.subrange(0, p));
        assert(t.subrange(p, t.len() as int) =~= u.subrange(p, u.len() as int).push(t.last()));
        assert forall|j: int| p <= j < t.len() implies !t[j].le_spec(&x) by {
            if j < t.len() - 1 {
                assert(t[j] == u[j]);
            }
        }
        if p > 0 {
            assert(t[p - 1] == u[p - 1]);
        }
    }
}

/// Sorts stably by `le`.
pub fn stable_sort<T: SortKey>(v: Vec<T>) -> (r: Vec<T>)
    ensures
        r@ == stable_sorted(v@),
{
    let mut v = v;
    let ghost original = v@;
    let mut out: Vec<T> = Vec::new();
    let n = v.len();
    let mut done: usize = 0;
    while done < n
        invariant
            done <= n,
            n == original.len(),
            v@ =~= original.subrange(done as int, n as int),
            out@ == stable_sorted(original.subrange(0, done as int)),
        decreases n - done,
    {
        let x = v.remove(0);
        proof {
            assert(original.subrange(0, done + 1).drop_last() =~= original.subrange(0, done as int));
            assert(original.subrange(0, done + 1).last() == x);
            lemma_insert_sorted_place(out@, x);
        }
        let mut p = out.len();
        while p > 0 && !out[p - 1].le(&x)
            invariant
                p <= out.len(),
                insert_place(out@, x) <= p,
                forall|j: int| p <= j < out.len() ==> !out@[j].le_spec(&x),
                insert_place(out@, x) > 0 ==> out@[insert_place(out@, x) - 1].le_spec(&x),
                0 <= insert_place(out@, x) <= out@.len(),
                forall|j: int| insert_place(out@, x) <= j < out@.len() ==> !out@[j].le_spec(&x),
            decreases p,
        {
            p = p - 1;
        }
        proof {
            if p > insert_place(out@, x) {
                assert(!out@[p - 1].le_spec(&x));
            }
            assert(p == insert_place(out@, x));
        }
        let ghost before = out@;
        out.insert(p, x);
        proof {
            assert(out@ =~= before.subrange(0, p as int).push(x) + before.subrange(p as int, before.len() as int));
        }
        done = done + 1;
    }
    proof {
        assert(original.subrange(0, n as int) =~= original);
    }
    out
}

/// Whether `a` and `b` are tied: each comes before the other.
pub open spec fn tied<T: SortKey>(a: T, b: T) -> bool {
    a.le_spec(&b) && b.le_spec(&a)
}

/// The elements of a sequence tied with `x`, in order.
pub open spec fn ties_of<T: SortKey>(s: Seq<T>, x: T) -> Seq<T> {
    s.filter(|y: T| tied(y, x))
}

/// Sorting is stable: the elements tied with any value come out in the order
/// they went in.
pub proof fn lemma_stable_sorted_keeps_ties<T: SortKey>(s: Seq<T>, x: T)
    ensures
        ties_of(stable_sorted(s), x) == ties_of(s, x),
    decreases s.len(),
{
    let pred = |y: T| tied(y, x);
    if s.len() > 0 {
        let u = s.drop_last();
        let z = s.last();
        let t = stable_sorted(u);
        lemma_stable_sorted_keeps_ties(u, x);
        assert(u.push(z) =~= s);
        u.lemma_filter_push(z, pred);
        lemma_insert_sorted_place(t, z);
        let p = insert_place(t, z);
        let a = t.subrange(0, p);
        let b = t.subrange(p, t.len() as int);
        assert(t =~= a + b);
        Seq::filter_distributes_over_add(a, b, pred);
        Seq::filter_distributes_over_add(a.push(z), b, pred);
        a.lemma_filter_push(z, pred);
        if pred(z) {
            assert forall|i: int| 0 <= i < b.len() implies !pred(#[trigger] b[i]) by {
                assert(b[i] == t[p + i]);
                if pred(b[i]) {
                    T::lemma_le_transitive(&b[i], &x, &z);
                }
            }
            assert(b.filter(pred).len() == 0) by {
                if b.filter(pred).len() > 0 {
                    let w = b.filter(pred)[0];
                    assert(b.filter(pred).contains(w));
                    b.lemma_filter_contains_rev(pred, w);
                }
            }
            assert(b.filter(pred) =~= Seq::<T>::empty());
        }
    } else {
        assert(ties_of(stable_sorted(s), x) =~= ties_of(s, x));
    }
}

/// The order of two values by `le`: equal where each comes before the other,
/// less where only `a` comes before `b`, greater where `a` does not come
/// before `b`.
pub fn le_order<T: SortKey>(a: &T, b: &T) -> (r: Ordering)
    ensures
        (r == Ordering::Equal) == (a.le_spec(b) && b.le_spec(a)),
        (r == Ordering::Less) == (a.le_spec(b) && !b.le_spec(a)),
        (r == Ordering::Greater) == !a.le_spec(b),
{
    if a.le(b) {
        if b.le(a) {
            Ordering::Equal
        } else {
            Ordering::Less
        }
    } else {
        Ordering::Greater
    }
}

/// Sorts by `le_order` with itertools' `Itertools::sorted_by`, which sorts
/// with std's `slice::sort_by` and is documented as stable. As `le` is a
/// total preorder (`SortKey`'s lemmas), `le_order` is a total order of its
/// classes, on which `sort_by` does not panic, and the stable sort by it is
/// `stable_sorted`.
#[verifier::external_body]
pub fn sorted_by_order<T: SortKey>(v: Vec<T>) -> (r: Vec<T>)
    ensures
        r@ == stable_sorted(v@),
{
    itertools::Itertools::sorted_by(v.into_iter(), |a, b| le_order(a, b)).collect()
}

/// Whether a sequence is ordered by `le`.
pub open spec fn is_sorted<T: SortKey>(s: Seq<T>) -> bool {
    forall|i: int, j: int| 0 <= i < j < s.len() ==> #[trigger] s[i].le_spec(&s[j])
}

proof fn lemma_insert_sorted_sorted<T: SortKey>(t: Seq<T>, x: T)
    requires
        is_sorted(t),
    ensures
        is_sorted(insert_sorted(t, x)),
        insert_sorted(t, x).to_multiset() =~= t.to_multiset().insert(x),
{
    lemma_insert_sorted_place(t, x);
    let p = insert_place(t, x);
    let r = insert_sorted(t, x);
    assert(r.len() == t.len() + 1);
    assert forall|i: int| 0 <= i < r.len() implies #[trigger] r[i] == (if i < p { t[i] } else if i == p { x } else { t[i - 1] }) by {
    }
    assert forall|i: int, j: int| 0 <= i < j < r.len() implies #[trigger] r[i].le_spec(&r[j]) by {
        if j < p {
        } else if j == p {
            if i < p - 1 {
                T::lemma_le_transitive(&t[i], &t[p - 1], &x);
            }
        } else if i == p {
            T::lemma_le_total(&t[j - 1], &x);
        } else if i < p {
            T::lemma_le_total(&t[j - 1], &x);
            if p > 0 && i < p - 1 {
                T::lemma_le_transitive(&t[i], &t[p - 1], &x);
            }
            if i < p - 1 || p > 0 {
                T::lemma_le_transitive(&t[i], &x, &t[j - 1]);
            }
        } else {
        }
    }
    let a = t.subrange(0, p);
    let b = t.subrange(p, t.len() as int);
    assert(t =~= a + b);
    vstd::seq_lib::lemma_multiset_commutative(a.push(x), b);
    vstd::seq_lib::lemma_multiset_commutative(a, b);
    assert(a.push(x).to_multiset() =~= a.to_multiset().insert(x)) by {
        a.to_multiset_ensures();
    }
}

/// Sorting orders a sequence by `le` and keeps its elements: the result is
/// sorted and a permutation of the input.
pub proof fn lemma_stable_sorted<T: SortKey>(s: Seq<T>)
    ensures
        is_sorted(stable_sorted(s)),
        stable_sorted(s).to_multiset() =~= s.to_multiset(),
    decreases s.len(),
{
    if s.len() > 0 {
        lemma_stable_sorted(s.drop_last());
        lemma_insert_sorted_sorted(stable_sorted(s.drop_last()), s.last());
        assert(s =~= s.drop_last().push(s.last()));
        s.drop_last().to_multiset_ensures();
    } else {
        assert(s.to_multiset() =~= vstd::multiset::Multiset::empty()) by {
            s.to_multiset_ensures();
        }
    }
}

} // verus!
