//! The natural order of edges is an order: where the keys are ordered as a
//! total order is, sorting edges by it puts them in order and is stable.

use crate::algorithms::precedes_naturally;
use crate::sorting::strict_weak_order;
use crate::types::Edge;
use crate::types::Key;
use crate::types::Weight;
use std::cmp::Ordering;
use vstd::laws_cmp::obeys_cmp;
use vstd::laws_cmp::obeys_cmp_ord;
use vstd::laws_cmp::obeys_cmp_partial_ord;
use vstd::laws_cmp::obeys_partial_cmp_spec_properties;
use vstd::laws_eq::obeys_eq_spec_properties;
use vstd::prelude::*;
use vstd::std_specs::cmp::OrdSpec;
use vstd::std_specs::cmp::PartialEqSpec;
use vstd::std_specs::cmp::PartialOrdSpec;

verus! {

/// Whether `a` is less than `b` as keys are compared.
pub open spec fn key_less<K: Key>(a: K, b: K) -> bool {
    a.partial_cmp_spec(&b) == Some(Ordering::Less)
}

/// Keys that are ordered as a total order is: of two keys exactly one is
/// less than the other, or they are equal; being less carries over from key
/// to key, and equal keys stand alike to every other key.
pub proof fn lemma_keys_are_ordered<K: Key>(a: K, b: K, c: K)
    requires
        obeys_cmp::<K>(),
    ensures
        key_less(a, b) ==> !key_less(b, a) && !a.eq_spec(&b),
        key_less(a, b) || key_less(b, a) || a.eq_spec(&b),
        a.eq_spec(&b) ==> b.eq_spec(&a),
        a.eq_spec(&a),
        a.eq_spec(&b) && b.eq_spec(&c) ==> a.eq_spec(&c),
        key_less(a, b) && key_less(b, c) ==> key_less(a, c),
        a.eq_spec(&b) && key_less(b, c) ==> key_less(a, c),
        key_less(a, b) && b.eq_spec(&c) ==> key_less(a, c),
{
    reveal(obeys_eq_spec_properties);
    reveal(obeys_partial_cmp_spec_properties);
    reveal(obeys_cmp_partial_ord);
    reveal(obeys_cmp_ord);
    assert(a.partial_cmp_spec(&b) == Some(a.cmp_spec(&b)));
    assert(b.partial_cmp_spec(&a) == Some(b.cmp_spec(&a)));
    assert(a.partial_cmp_spec(&c) == Some(a.cmp_spec(&c)));
    assert(c.partial_cmp_spec(&a) == Some(c.cmp_spec(&a)));
    assert(b.partial_cmp_spec(&c) == Some(b.cmp_spec(&c)));
    assert(c.partial_cmp_spec(&b) == Some(c.cmp_spec(&b)));
    assert(a.partial_cmp_spec(&a) == Some(a.cmp_spec(&a)));
}

/// Where the keys are ordered as a total order is, the natural order of
/// edges is the strict part of a total preorder: edges tie when they lead
/// from equal keys to equal keys.
pub proof fn lemma_natural_order_is_strict_weak<K: Key, W: Weight>()
    requires
        obeys_cmp::<K>(),
    ensures
        strict_weak_order(precedes_naturally::<K, W>()),
{
    let precedes = precedes_naturally::<K, W>();
    assert forall|a: Edge<K, W>, b: Edge<K, W>| #[trigger] precedes(a, b) implies !precedes(
        b,
        a,
    ) by {
        lemma_keys_are_ordered(*a.from(), *b.from(), *a.from());
        lemma_keys_are_ordered(*b.from(), *a.from(), *b.from());
        lemma_keys_are_ordered(*a.to(), *b.to(), *a.to());
        lemma_keys_are_ordered(*b.to(), *a.to(), *b.to());
    }
    assert forall|a: Edge<K, W>, b: Edge<K, W>, c: Edge<K, W>|
        !(#[trigger] precedes(b, a)) && !(#[trigger] precedes(c, b)) implies !precedes(c, a) by {
        lemma_keys_are_ordered(*a.from(), *b.from(), *c.from());
        lemma_keys_are_ordered(*c.from(), *b.from(), *a.from());
        lemma_keys_are_ordered(*b.from(), *a.from(), *c.from());
        lemma_keys_are_ordered(*b.from(), *c.from(), *a.from());
        lemma_keys_are_ordered(*a.from(), *c.from(), *b.from());
        lemma_keys_are_ordered(*c.from(), *a.from(), *b.from());
        lemma_keys_are_ordered(*a.to(), *b.to(), *c.to());
        lemma_keys_are_ordered(*c.to(), *b.to(), *a.to());
        lemma_keys_are_ordered(*b.to(), *a.to(), *c.to());
        lemma_keys_are_ordered(*b.to(), *c.to(), *a.to());
        lemma_keys_are_ordered(*a.to(), *c.to(), *b.to());
        lemma_keys_are_ordered(*c.to(), *a.to(), *b.to());
    }
}

} // verus!
