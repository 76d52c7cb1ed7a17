//! Small facts about sequences used by the workflow proofs.
use vstd::prelude::*;
use vstd::set_lib::lemma_len_subset;

verus! {

/// A duplicate-free sequence whose elements all occur in `b` is no longer than `b`.
pub proof fn lemma_unique_within_len<A>(a: Seq<A>, b: Seq<A>)
    requires
        a.no_duplicates(),
        forall|i: int| 0 <= i < a.len() ==> b.contains(#[trigger] a[i]),
    ensures
        a.len() <= b.len(),
{
    broadcast use vstd::seq_lib::group_seq_properties;
    broadcast use vstd::set::group_set_axioms;

    a.unique_seq_to_set();
    b.lemma_cardinality_of_set();
    assert forall|x: A| a.to_set().contains(x) implies b.to_set().contains(x) by {
        let i = a.index_of(x);
        assert(b.contains(a[i]));
    }
    vstd::seq_lib::seq_to_set_is_finite(b);
    lemma_len_subset(a.to_set(), b.to_set());
}

/// Everything a filter keeps comes from the filtered sequence.
pub proof fn lemma_filter_within<A>(s: Seq<A>, pred: spec_fn(A) -> bool)
    ensures
        forall|i: int| 0 <= i < s.filter(pred).len() ==> s.contains(#[trigger] s.filter(pred)[i]),
    decreases s.len(),
{
    reveal(Seq::filter);
    if s.len() > 0 {
        let rest = s.drop_last();
        lemma_filter_within(rest, pred);
        assert forall|i: int| 0 <= i < s.filter(pred).len() implies s.contains(
            #[trigger] s.filter(pred)[i],
        ) by {
            if i < rest.filter(pred).len() {
                let x = rest.filter(pred)[i];
                assert(s.filter(pred)[i] == x);
                let j = rest.index_of(x);
                assert(s[j] == x);
            } else {
                assert(s.filter(pred)[i] == s.last());
                assert(s[s.len() - 1] == s.last());
            }
        }
    }
}

/// A duplicate-free `a` inside a duplicate-free `b` of the same length holds all of `b`.
pub proof fn lemma_unique_same_len_covers<A>(a: Seq<A>, b: Seq<A>, x: A)
    requires
        a.no_duplicates(),
        b.no_duplicates(),
        forall|i: int| 0 <= i < a.len() ==> b.contains(#[trigger] a[i]),
        a.len() == b.len(),
        b.contains(x),
    ensures
        a.contains(x),
{
    if !a.contains(x) {
        let k = b.index_of(x);
        let c = b.remove(k);
        assert forall|i: int| 0 <= i < a.len() implies c.contains(#[trigger] a[i]) by {
            assert(b.contains(a[i]));
            let j = b.index_of(a[i]);
            if j < k {
                assert(c[j] == a[i]);
            } else {
                assert(j != k);
                assert(c[j - 1] == a[i]);
            }
        }
        lemma_unique_within_len(a, c);
    }
}


/// What a pushed sequence contains.
pub proof fn lemma_push_contains<A>(s: Seq<A>, x: A)
    ensures
        forall|k: A| #[trigger] s.push(x).contains(k) <==> (s.contains(k) || k == x),
{
    assert forall|k: A| #[trigger] s.push(x).contains(k) <==> (s.contains(k) || k == x) by {
        if s.push(x).contains(k) {
            let j = choose|j: int| 0 <= j < s.push(x).len() && s.push(x)[j] == k;
            if j < s.len() {
                assert(s[j] == k);
            }
        }
        if s.contains(k) {
            let j = choose|j: int| 0 <= j < s.len() && s[j] == k;
            assert(s.push(x)[j] == k);
        }
        if k == x {
            assert(s.push(x)[s.len() as int] == k);
        }
    }
}

/// Removing a position of a sequence without duplicates removes exactly
/// its element and keeps the rest free of duplicates.
pub proof fn lemma_remove_unique<A>(s: Seq<A>, i: int)
    requires
        s.no_duplicates(),
        0 <= i < s.len(),
    ensures
        s.remove(i).no_duplicates(),
        forall|k: A| #[trigger] s.remove(i).contains(k) <==> (s.contains(k) && k != s[i]),
{
    let t = s.remove(i);
    assert forall|a: int, b: int| 0 <= a < b < t.len() implies t[a] != t[b] by {
        let a0 = if a < i { a } else { a + 1 };
        let b0 = if b < i { b } else { b + 1 };
        assert(t[a] == s[a0]);
        assert(t[b] == s[b0]);
    }
    assert forall|k: A| #[trigger] t.contains(k) <==> (s.contains(k) && k != s[i]) by {
        if t.contains(k) {
            let j = choose|j: int| 0 <= j < t.len() && t[j] == k;
            let j0 = if j < i { j } else { j + 1 };
            assert(s[j0] == k);
            assert(j0 != i);
        }
        if s.contains(k) && k != s[i] {
            let j = choose|j: int| 0 <= j < s.len() && s[j] == k;
            assert(j != i);
            let j1 = if j < i { j } else { j - 1 };
            assert(t[j1] == k);
        }
    }
}

} // verus!
