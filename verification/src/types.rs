//! The entities a graph is made of: vertices and edges, and the capabilities
//! their keys, values and weights must have.

use std::cmp::Ordering;
use std::fmt::Display;
use std::hash::Hash;
use vstd::prelude::*;
use vstd::std_specs::cmp::PartialEqSpec;
use vstd::std_specs::cmp::PartialEqSpecImpl;
use vstd::std_specs::cmp::PartialOrdIs;
use vstd::std_specs::cmp::PartialOrdSpec;
use vstd::std_specs::cmp::PartialOrdSpecImpl;

verus! {

/// What a type needs to serve as the key of a vertex.
pub trait Key: Clone + Copy + PartialEq + Eq + PartialOrd + Ord + Hash + Display {

}

impl<T: Copy + Hash + Ord + Display> Key for T {

}

/// What a type needs to serve as the value carried by a vertex.
pub trait Value: Clone + Copy + Default + PartialEq + Display {

}

impl<T: Copy + Default + PartialEq + Display> Value for T {

}

/// What a type needs to serve as the weight carried by an edge.
pub trait Weight: Clone + Copy + Default + PartialEq + PartialOrd + Display {

}

impl<T: Copy + Default + PartialEq + PartialOrd + Display> Weight for T {

}

/// The laws a key type is expected to obey: its `==` holds of two keys exactly
/// when they are the same value, and its comparisons are functions of the two
/// keys. The integer types obey them, and so do references to a type that does.
pub open spec fn obeys_key_laws<K: Key>() -> bool {
    &&& K::obeys_eq_spec()
    &&& K::obeys_partial_cmp_spec()
    &&& forall|a: K, b: K| #[trigger] a.eq_spec(&b) <==> a == b
}

/// A vertex: a key, which alone identifies it, and a value.
#[derive(Debug)]
pub struct Vertex<K: Key, V: Value> {
    key: K,
    value: V,
}

/// An edge from one key to another, carrying a weight. The two keys alone
/// identify it.
#[derive(Debug)]
pub struct Edge<K: Key, W: Weight = i8> {
    from: K,
    to: K,
    weight: W,
}

impl<K: Key, V: Value> Clone for Vertex<K, V> {
    fn clone(&self) -> (r: Self)
        ensures
            r == *self,
    {
        *self
    }
}

impl<K: Key, V: Value> Copy for Vertex<K, V> {

}

impl<K: Key, V: Value> PartialEq for Vertex<K, V> {
    /// Two vertices are equal when their keys are.
    fn eq(&self, other: &Self) -> (r: bool) {
        self.key == other.key
    }
}

impl<K: Key, V: Value> PartialEqSpecImpl for Vertex<K, V> {
    open spec fn obeys_eq_spec() -> bool {
        K::obeys_eq_spec()
    }

    open spec fn eq_spec(&self, other: &Self) -> bool {
        self.key().eq_spec(other.key())
    }
}

impl<K: Key, V: Value> Eq for Vertex<K, V> {

}

impl<K: Key, V: Value> PartialOrd for Vertex<K, V> {
    /// Vertices are ordered as their keys are.
    fn partial_cmp(&self, other: &Self) -> (r: Option<Ordering>) {
        self.key.partial_cmp(&other.key)
    }
}

impl<K: Key, V: Value> PartialOrdSpecImpl for Vertex<K, V> {
    open spec fn obeys_partial_cmp_spec() -> bool {
        K::obeys_partial_cmp_spec()
    }

    open spec fn partial_cmp_spec(&self, other: &Self) -> Option<Ordering> {
        self.key().partial_cmp_spec(other.key())
    }
}

impl<K: Key, V: Value> Vertex<K, V> {
    /// The key of the vertex, in specifications.
    pub closed spec fn spec_key(&self) -> &K {
        &self.key
    }

    /// The value of the vertex, in specifications.
    pub closed spec fn spec_value(&self) -> &V {
        &self.value
    }

    /// Two vertices with the same key and the same value are the same vertex.
    pub proof fn lemma_same_parts(self, other: Self)
        requires
            self.key() == other.key(),
            self.value() == other.value(),
        ensures
            self == other,
    {
    }

    /// Create a new vertex with the default value.
    pub fn new(key: K) -> (r: Self)
        ensures
            r.key() == key,
            call_ensures(V::default, (), *r.value()),
    {
        Vertex { key, value: V::default() }
    }

    /// Create a new vertex with a value.
    pub fn with_value(key: K, value: V) -> (r: Self)
        ensures
            r.key() == key,
            r.value() == value,
    {
        Vertex { key, value }
    }

    /// Get the key of the vertex.
    #[verifier::when_used_as_spec(spec_key)]
    pub fn key(&self) -> (r: &K)
        ensures
            r == self.key(),
    {
        &self.key
    }

    /// Get the value of the vertex.
    #[verifier::when_used_as_spec(spec_value)]
    pub fn value(&self) -> (r: &V)
        ensures
            r == self.value(),
    {
        &self.value
    }

    /// Set the value of the vertex. The key stays as it is.
    pub fn set_value(&mut self, value: V)
        ensures
            final(self).key() == old(self).key(),
            final(self).value() == value,
    {
        self.value = value
    }
}

impl<K: Key, W: Weight> Clone for Edge<K, W> {
    fn clone(&self) -> (r: Self)
        ensures
            r == *self,
    {
        *self
    }
}

impl<K: Key, W: Weight> Copy for Edge<K, W> {

}

impl<K: Key, W: Weight> PartialEq for Edge<K, W> {
    /// Two edges are equal when they lead from the same key to the same key.
    fn eq(&self, other: &Self) -> (r: bool) {
        self.from == other.from && self.to == other.to
    }
}

impl<K: Key, W: Weight> PartialEqSpecImpl for Edge<K, W> {
    open spec fn obeys_eq_spec() -> bool {
        K::obeys_eq_spec()
    }

    open spec fn eq_spec(&self, other: &Self) -> bool {
        self.from().eq_spec(other.from()) && self.to().eq_spec(other.to())
    }
}

impl<K: Key, W: Weight> Eq for Edge<K, W> {

}

/// The natural order of edges: by origin first, then by destination. The
/// weight plays no part.
pub open spec fn natural_order<K: Key, W: Weight>(a: Edge<K, W>, b: Edge<K, W>) -> Ordering {
    if a.from().is_lt(b.from()) || (a.from().eq_spec(b.from()) && a.to().is_lt(b.to())) {
        Ordering::Less
    } else if a.from().eq_spec(b.from()) && a.to().eq_spec(b.to()) {
        Ordering::Equal
    } else {
        Ordering::Greater
    }
}

impl<K: Key, W: Weight> PartialOrd for Edge<K, W> {
    /// Edges are ordered by origin first, then by destination.
    fn partial_cmp(&self, other: &Self) -> (r: Option<Ordering>) {
        Some(self.natural_cmp(other))
    }
}

impl<K: Key, W: Weight> PartialOrdSpecImpl for Edge<K, W> {
    open spec fn obeys_partial_cmp_spec() -> bool {
        K::obeys_eq_spec() && K::obeys_partial_cmp_spec()
    }

    open spec fn partial_cmp_spec(&self, other: &Self) -> Option<Ordering> {
        Some(natural_order(*self, *other))
    }
}

impl<K: Key, W: Weight> Edge<K, W> {
    /// The origin of the edge, in specifications.
    pub closed spec fn spec_from(&self) -> &K {
        &self.from
    }

    /// The destination of the edge, in specifications.
    pub closed spec fn spec_to(&self) -> &K {
        &self.to
    }

    /// The weight of the edge, in specifications.
    pub closed spec fn spec_weight(&self) -> &W {
        &self.weight
    }

    /// Two edges with the same origin, destination and weight are the same edge.
    pub proof fn lemma_same_parts(self, other: Self)
        requires
            self.from() == other.from(),
            self.to() == other.to(),
            self.weight() == other.weight(),
        ensures
            self == other,
    {
    }

    /// Create a new edge with the default weight.
    pub fn new(from: K, to: K) -> (r: Self)
        ensures
            r.from() == from,
            r.to() == to,
            call_ensures(W::default, (), *r.weight()),
    {
        Edge { from, to, weight: W::default() }
    }

    /// Create a new edge with a weight.
    pub fn with_weight(from: K, to: K, weight: W) -> (r: Self)
        ensures
            r.from() == from,
            r.to() == to,
            r.weight() == weight,
    {
        Edge { from, to, weight }
    }

    /// How the edge stands to `other` in the natural order of edges: by
    /// origin first, then by destination. The answer can be relied on where
    /// the keys obey their laws.
    pub fn natural_cmp(&self, other: &Self) -> (o: Ordering)
        ensures
            K::obeys_eq_spec() && K::obeys_partial_cmp_spec() ==> o == natural_order(*self, *other),
    {
        if self.from < other.from || (self.from == other.from && self.to < other.to) {
            Ordering::Less
        } else if self.from == other.from && self.to == other.to {
            Ordering::Equal
        } else {
            Ordering::Greater
        }
    }

    /// Get the origin.
    #[verifier::when_used_as_spec(spec_from)]
    pub fn from(&self) -> (r: &K)
        ensures
            r == self.from(),
    {
        &self.from
    }

    /// Get the destination.
    #[verifier::when_used_as_spec(spec_to)]
    pub fn to(&self) -> (r: &K)
        ensures
            r == self.to(),
    {
        &self.to
    }

    /// Get the weight.
    #[verifier::when_used_as_spec(spec_weight)]
    pub fn weight(&self) -> (r: &W)
        ensures
            r == self.weight(),
    {
        &self.weight
    }
}

} // verus!
