//! Sequences with the same members, each as often, in whatever order.

use vstd::multiset::{group_multiset_axioms, Multiset};
use vstd::prelude::*;
use vstd::seq_lib::{
    lemma_flatten_concat, lemma_multiset_commutative, to_multiset_build, to_multiset_contains,
    to_multiset_len, to_multiset_remove,
};

verus! {

proof fn lemma_remove_permuted<T>(a: Seq<T>, b: Seq<T>) -> (at: int)
    requires
        a.len() > 0,
        a.to_multiset() == b.to_multiset(),
    ensures
        0 <= at < b.len(),
        b[at] == a.last(),
        a.drop_last().to_multiset() == b.remove(at).to_multiset(),
{
    to_multiset_contains(a, a.last());
    to_multiset_contains(b, a.last());
    assert(a[a.len() - 1] == a.last());
    assert(a.contains(a.last()));
    let at = choose|at: int| 0 <= at < b.len() && b[at] == a.last();
    to_multiset_remove(b, at);
    to_multiset_remove(a, a.len() - 1);
    assert(a.remove(a.len() - 1) =~= a.drop_last());
    at
}

/// Applying a function keeps a permutation one.
pub proof fn lemma_map_permuted<T, U>(a: Seq<T>, b: Seq<T>, f: spec_fn(T) -> U)
    requires
        a.to_multiset() == b.to_multiset(),
    ensures
        a.map_values(f).to_multiset() == b.map_values(f).to_multiset(),
    decreases a.len(),
{
    to_multiset_len(a);
    to_multiset_len(b);
    if a.len() == 0 {
        assert(a.map_values(f) =~= b.map_values(f));
    } else {
        let x = a.last();
        let at = lemma_remove_permuted(a, b);
        lemma_map_permuted(a.drop_last(), b.remove(at), f);
        assert(a.map_values(f) =~= a.drop_last().map_values(f).push(f(x)));
        to_multiset_build(a.drop_last().map_values(f), f(x));
        assert(b.map_values(f).remove(at) =~= b.remove(at).map_values(f));
        to_multiset_remove(b.map_values(f), at);
        to_multiset_contains(b.map_values(f), f(x));
        assert(b.map_values(f)[at] == f(x));
        assert(b.map_values(f).contains(f(x)));
        broadcast use group_multiset_axioms;

        assert(a.map_values(f).to_multiset() =~= b.map_values(f).to_multiset());
    }
}

/// Filtering keeps a permutation one.
pub proof fn lemma_filter_permuted<T>(a: Seq<T>, b: Seq<T>, p: spec_fn(T) -> bool)
    requires
        a.to_multiset() == b.to_multiset(),
    ensures
        a.filter(p).to_multiset() == b.filter(p).to_multiset(),
{
    lemma_filter_multiset(a, p);
    lemma_filter_multiset(b, p);
}

/// Filtering a sequence keeps of every member as many as there are, or none.
pub proof fn lemma_filter_multiset<T>(s: Seq<T>, p: spec_fn(T) -> bool)
    ensures
        s.filter(p).to_multiset() == s.to_multiset().filter(p),
    decreases s.len(),
{
    broadcast use group_multiset_axioms;

    if s.len() == 0 {
        assert(s.filter(p) =~= s);
        to_multiset_len(s);
        assert(s.to_multiset() =~= Multiset::<T>::empty());
        assert(s.to_multiset().filter(p) =~= s.to_multiset());
    } else {
        let init = s.drop_last();
        lemma_filter_multiset(init, p);
        assert(init.push(s.last()) =~= s);
        init.lemma_filter_push(s.last(), p);
        to_multiset_build(init, s.last());
        to_multiset_build(init.filter(p), s.last());
        assert(s.filter(p).to_multiset() =~= s.to_multiset().filter(p));
    }
}

/// Lists in another order hold the same members, one after the other.
pub proof fn lemma_flatten_permuted<T>(a: Seq<Seq<T>>, b: Seq<Seq<T>>)
    requires
        a.to_multiset() == b.to_multiset(),
    ensures
        a.flatten().to_multiset() == b.flatten().to_multiset(),
    decreases a.len(),
{
    to_multiset_len(a);
    to_multiset_len(b);
    if a.len() == 0 {
        assert(a =~= b);
    } else {
        let x = a.last();
        let init = a.drop_last();
        let at = lemma_remove_permuted(a, b);
        let front = b.take(at);
        let back = b.skip(at + 1);
        lemma_flatten_permuted(init, b.remove(at));
        assert(b.remove(at) =~= front + back);
        assert(b =~= front.push(x) + back);
        assert(init.push(x) =~= a);
        init.lemma_flatten_push(x);
        front.lemma_flatten_push(x);
        lemma_flatten_concat(front, back);
        lemma_flatten_concat(front.push(x), back);
        lemma_multiset_commutative(init.flatten(), x);
        lemma_multiset_commutative(front.flatten(), back.flatten());
        lemma_multiset_commutative(front.flatten(), x);
        lemma_multiset_commutative(front.flatten() + x, back.flatten());
        broadcast use group_multiset_axioms;

        assert(a.flatten().to_multiset() =~= b.flatten().to_multiset());
    }
}

/// A permutation is as long and has the same members.
pub proof fn lemma_same_members<T>(a: Seq<T>, b: Seq<T>)
    requires
        a.to_multiset() == b.to_multiset(),
    ensures
        a.len() == b.len(),
        forall|x: T| a.contains(x) <==> #[trigger] b.contains(x),
{
    to_multiset_len(a);
    to_multiset_len(b);
    assert forall|x: T| a.contains(x) <==> #[trigger] b.contains(x) by {
        to_multiset_contains(a, x);
        to_multiset_contains(b, x);
    }
}

} // verus!
