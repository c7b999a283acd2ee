//! Facts about filtering sequences, and the stable ordering of a sequence by
//! a byte-sized key.
use vstd::prelude::*;
use vstd::multiset::Multiset;

verus! {

/// The elements of `s` whose key is below `k`, grouped by key in increasing
/// order, each group in the order the elements have in `s`.
pub open spec fn keyed_prefix<A>(s: Seq<A>, key: spec_fn(A) -> u8, k: nat) -> Seq<A>
    decreases k,
{
    if k == 0 {
        Seq::empty()
    } else {
        keyed_prefix(s, key, (k - 1) as nat) + s.filter(|x: A| key(x) == k - 1)
    }
}

/// `s` ordered by `key`, elements with equal keys keeping their order: what a
/// stable sort by `key` gives.
pub open spec fn stable_sort_by_key<A>(s: Seq<A>, key: spec_fn(A) -> u8) -> Seq<A> {
    keyed_prefix(s, key, 256)
}

/// Filtering twice keeps what both predicates keep.
pub proof fn lemma_filter_filter<A>(s: Seq<A>, p: spec_fn(A) -> bool, q: spec_fn(A) -> bool)
    ensures
        s.filter(p).filter(q) == s.filter(|x: A| p(x) && q(x)),
    decreases s.len(),
{
    reveal(Seq::filter);
    if s.len() > 0 {
        lemma_filter_filter(s.drop_last(), p, q);
        let x = s.last();
        let r = |y: A| p(y) && q(y);
        if p(x) {
            assert(s.filter(p) == s.drop_last().filter(p).push(x));
            assert(s.filter(p).drop_last() =~= s.drop_last().filter(p));
        } else {
            assert(s.filter(p) == s.drop_last().filter(p));
        }
    } else {
        assert(s.filter(p).len() == 0);
    }
}

/// Two predicates that agree on every element filter alike.
pub proof fn lemma_filter_congruent<A>(s: Seq<A>, p: spec_fn(A) -> bool, q: spec_fn(A) -> bool)
    requires
        forall|x: A| #[trigger] p(x) == q(x),
    ensures
        s.filter(p) == s.filter(q),
{
    assert(p =~= q);
}

/// A predicate that holds of every element keeps the whole sequence.
pub proof fn lemma_filter_keeps_all<A>(s: Seq<A>, p: spec_fn(A) -> bool)
    requires
        forall|i: int| 0 <= i < s.len() ==> #[trigger] p(s[i]),
    ensures
        s.filter(p) == s,
    decreases s.len(),
{
    reveal(Seq::filter);
    if s.len() > 0 {
        lemma_filter_keeps_all(s.drop_last(), p);
        assert(s.drop_last().push(s.last()) =~= s);
    }
}

/// A predicate that holds of no element keeps nothing.
pub proof fn lemma_filter_keeps_none<A>(s: Seq<A>, p: spec_fn(A) -> bool)
    requires
        forall|i: int| 0 <= i < s.len() ==> !#[trigger] p(s[i]),
    ensures
        s.filter(p) == Seq::<A>::empty(),
    decreases s.len(),
{
    reveal(Seq::filter);
    if s.len() > 0 {
        lemma_filter_keeps_none(s.drop_last(), p);
    }
}

/// Filtering a prefix one element longer.
pub proof fn lemma_filter_take_step<A>(s: Seq<A>, p: spec_fn(A) -> bool, i: int)
    requires
        0 <= i < s.len(),
    ensures
        s.take(i + 1).filter(p) == if p(s[i]) {
            s.take(i).filter(p).push(s[i])
        } else {
            s.take(i).filter(p)
        },
{
    assert(s.take(i + 1) =~= s.take(i).push(s[i]));
    s.take(i).lemma_filter_push(s[i], p);
}

/// No two elements of `s` share a key.
pub open spec fn keys_unique<A>(s: Seq<A>, key: spec_fn(A) -> u8) -> bool {
    forall|i: int, j: int| 0 <= i < j < s.len() ==> key(s[i]) != key(s[j])
}

/// With unique keys, the elements with key `v` are the one element that has
/// it, or none.
pub proof fn lemma_filter_unique_key<A>(s: Seq<A>, key: spec_fn(A) -> u8, v: int)
    requires
        keys_unique(s, key),
    ensures
        forall|i: int|
            0 <= i < s.len() && key(s[i]) == v ==> s.filter(|x: A| key(x) == v) == seq![s[i]],
        (forall|i: int| 0 <= i < s.len() ==> key(s[i]) != v) ==> s.filter(|x: A| key(x) == v)
            == Seq::<A>::empty(),
    decreases s.len(),
{
    reveal(Seq::filter);
    let p = |x: A| key(x) == v;
    if s.len() > 0 {
        let r = s.drop_last();
        assert(keys_unique(r, key));
        lemma_filter_unique_key(r, key, v);
        if key(s.last()) == v {
            assert forall|i: int| 0 <= i < r.len() implies key(r[i]) != v by {
                assert(key(s[i]) != key(s[s.len() - 1]));
            }
            assert(r.filter(p) == Seq::<A>::empty());
            assert(s.filter(p) =~= seq![s.last()]);
            assert forall|i: int| 0 <= i < s.len() && key(s[i]) == v implies s.filter(p) == seq![
                s[i],
            ] by {
                if i < s.len() - 1 {
                    assert(key(s[i]) != key(s[s.len() - 1]));
                }
            }
        } else {
            assert(s.filter(p) == r.filter(p));
            assert forall|i: int| 0 <= i < s.len() && key(s[i]) == v implies s.filter(p) == seq![
                s[i],
            ] by {
                assert(i < s.len() - 1);
                assert(r[i] == s[i]);
            }
        }
    }
}

/// Two arrangements of the same elements, keys unique, are ordered by key
/// into the same sequence.
pub proof fn law_sort_forgets_arrival_order<A>(s1: Seq<A>, s2: Seq<A>, key: spec_fn(A) -> u8)
    requires
        keys_unique(s1, key),
        keys_unique(s2, key),
        s1.to_multiset() == s2.to_multiset(),
    ensures
        stable_sort_by_key(s1, key) == stable_sort_by_key(s2, key),
{
    lemma_keyed_prefix_same(s1, s2, key, 256);
}

proof fn lemma_keyed_prefix_same<A>(s1: Seq<A>, s2: Seq<A>, key: spec_fn(A) -> u8, k: nat)
    requires
        keys_unique(s1, key),
        keys_unique(s2, key),
        s1.to_multiset() == s2.to_multiset(),
    ensures
        keyed_prefix(s1, key, k) == keyed_prefix(s2, key, k),
    decreases k,
{
    broadcast use vstd::seq_lib::group_to_multiset_ensures;

    if k > 0 {
        let kk = (k - 1) as nat;
        lemma_keyed_prefix_same(s1, s2, key, kk);
        let v: int = k - 1;
        lemma_filter_unique_key(s1, key, v);
        lemma_filter_unique_key(s2, key, v);
        let p = |x: A| key(x) == v;
        let q = |x: A| key(x) == k - 1;
        lemma_filter_congruent(s1, p, q);
        lemma_filter_congruent(s2, p, q);
        if exists|i: int| 0 <= i < s1.len() && key(s1[i]) == v {
            let i = choose|i: int| 0 <= i < s1.len() && key(s1[i]) == v;
            assert(s1.to_multiset().count(s1[i]) > 0);
            assert(s2.contains(s1[i]));
            let j = choose|j: int| 0 <= j < s2.len() && s2[j] == s1[i];
            assert(s1.filter(p) == s2.filter(p));
        } else if exists|j: int| 0 <= j < s2.len() && key(s2[j]) == v {
            let j = choose|j: int| 0 <= j < s2.len() && key(s2[j]) == v;
            assert(s2.to_multiset().count(s2[j]) > 0);
            assert(s1.contains(s2[j]));
        } else {
            assert(s1.filter(p) == s2.filter(p));
        }
    }
}

proof fn lemma_filter_split<A>(s: Seq<A>, p: spec_fn(A) -> bool, q: spec_fn(A) -> bool, r: spec_fn(A) -> bool)
    requires
        forall|x: A| #[trigger] r(x) == (p(x) || q(x)),
        forall|x: A| !(#[trigger] p(x) && q(x)),
    ensures
        s.filter(r).to_multiset() == s.filter(p).to_multiset().add(s.filter(q).to_multiset()),
    decreases s.len(),
{
    broadcast use vstd::seq_lib::group_to_multiset_ensures;

    if s.len() == 0 {
        reveal(Seq::filter);
        assert(s.filter(r).to_multiset() =~= Multiset::empty());
        assert(s.filter(p).to_multiset() =~= Multiset::empty());
        assert(s.filter(q).to_multiset() =~= Multiset::empty());
    } else {
        let rest = s.drop_last();
        let x = s.last();
        lemma_filter_split(rest, p, q, r);
        assert(rest.push(x) =~= s);
        rest.lemma_filter_push(x, p);
        rest.lemma_filter_push(x, q);
        rest.lemma_filter_push(x, r);
        assert(s.filter(r).to_multiset() =~= s.filter(p).to_multiset().add(s.filter(q).to_multiset()));
    }
}

proof fn lemma_keyed_prefix_elements<A>(s: Seq<A>, key: spec_fn(A) -> u8, k: nat)
    ensures
        keyed_prefix(s, key, k).to_multiset() == s.filter(|x: A| key(x) < k).to_multiset(),
    decreases k,
{
    if k == 0 {
        lemma_filter_keeps_none(s, |x: A| key(x) < k);
        assert(keyed_prefix(s, key, k).to_multiset() =~= Seq::<A>::empty().to_multiset());
    } else {
        let kk = (k - 1) as nat;
        lemma_keyed_prefix_elements(s, key, kk);
        let p = |x: A| key(x) < kk;
        let q = |x: A| key(x) == k - 1;
        let r = |x: A| key(x) < k;
        lemma_filter_split(s, p, q, r);
        vstd::seq_lib::lemma_multiset_commutative(keyed_prefix(s, key, kk), s.filter(q));
    }
}

/// Ordering by key keeps every element: the result holds the same elements.
pub proof fn lemma_sort_keeps_elements<A>(s: Seq<A>, key: spec_fn(A) -> u8)
    ensures
        stable_sort_by_key(s, key).to_multiset() == s.to_multiset(),
{
    lemma_keyed_prefix_elements(s, key, 256);
    lemma_filter_keeps_all(s, |x: A| key(x) < 256nat);
}

} // verus!
