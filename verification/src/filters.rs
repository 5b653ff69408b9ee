//! What `Seq::filter` keeps and what it drops.

use vstd::prelude::*;

verus! {

/// The items that `pred` does not hold of.
pub open spec fn except<T>(pred: spec_fn(T) -> bool) -> spec_fn(T) -> bool {
    |x: T| !pred(x)
}

/// What `filter` keeps, it keeps in order: two items of the result stand in
/// the sequence too, at the places returned, in the same order.
pub proof fn lemma_filter_pair<T>(s: Seq<T>, pred: spec_fn(T) -> bool, i: int, j: int) -> (r: (
    int,
    int,
))
    requires
        0 <= i < j < s.filter(pred).len(),
    ensures
        0 <= r.0 < r.1 < s.len(),
        s[r.0] == s.filter(pred)[i],
        s[r.1] == s.filter(pred)[j],
    decreases s.len(),
{
    reveal(Seq::filter);
    let t = s.drop_last();
    let f = t.filter(pred);
    if j < f.len() {
        lemma_filter_pair(t, pred, i, j)
    } else {
        (lemma_filter_source(t, pred, i), s.len() - 1)
    }
}

/// What `filter` keeps was in the sequence, at the place returned, and `pred`
/// holds of it.
pub proof fn lemma_filter_source<T>(s: Seq<T>, pred: spec_fn(T) -> bool, i: int) -> (a: int)
    requires
        0 <= i < s.filter(pred).len(),
    ensures
        0 <= a < s.len(),
        s[a] == s.filter(pred)[i],
        pred(s[a]),
{
    let f = s.filter(pred);
    s.lemma_filter_pred(pred, i);
    assert(f.contains(f[i]));
    s.lemma_filter_contains_rev(pred, f[i]);
    choose|a: int| 0 <= a < s.len() && s[a] == f[i]
}

/// Whatever `pred` holds of is still there after `filter`, at the place
/// returned.
pub proof fn lemma_filter_target<T>(s: Seq<T>, pred: spec_fn(T) -> bool, a: int) -> (i: int)
    requires
        0 <= a < s.len(),
        pred(s[a]),
    ensures
        0 <= i < s.filter(pred).len(),
        s.filter(pred)[i] == s[a],
{
    let f = s.filter(pred);
    s.lemma_filter_contains(pred, a);
    choose|i: int| 0 <= i < f.len() && f[i] == s[a]
}

/// Where `pred` holds of nothing in the sequence, `filter` keeps nothing.
pub proof fn lemma_filter_none<T>(s: Seq<T>, pred: spec_fn(T) -> bool)
    requires
        forall|a: int| 0 <= a < s.len() ==> !pred(#[trigger] s[a]),
    ensures
        s.filter(pred) == Seq::<T>::empty(),
{
    if s.filter(pred).len() > 0 {
        let a = lemma_filter_source(s, pred, 0);
    }
}

/// Where `pred` holds of everything in the sequence, `filter` keeps it all.
pub proof fn lemma_filter_every<T>(s: Seq<T>, pred: spec_fn(T) -> bool)
    requires
        forall|a: int| 0 <= a < s.len() ==> pred(#[trigger] s[a]),
    ensures
        s.filter(pred) == s,
    decreases s.len(),
{
    reveal(Seq::filter);
    if s.len() > 0 {
        lemma_filter_every(s.drop_last(), pred);
        assert(s.drop_last().push(s.last()) == s);
    }
}

} // verus!
