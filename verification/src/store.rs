//! What the graphs share: searching and copying the vectors in which they
//! keep their vertices and edges.

use crate::filters::except;
use crate::model::edges_among;
use crate::model::key_among;
use crate::model::keys_among;
use crate::model::link_among;
use crate::model::links;
use crate::types::obeys_key_laws;
use crate::types::Edge;
use crate::types::Key;
use crate::types::Value;
use crate::types::Vertex;
use crate::types::Weight;
use vstd::prelude::*;

verus! {

/// A copy of `items`.
pub fn copy_of<T: Copy>(items: &Vec<T>) -> (r: Vec<T>)
    ensures
        r@ == items@,
{
    let mut out: Vec<T> = Vec::new();
    let mut i: usize = 0;
    while i < items.len()
        invariant
            i <= items.len(),
            out@ == items@.take(i as int),
        decreases items.len() - i,
    {
        out.push(items[i]);
        i += 1;
    }
    out
}

/// Copies of the items of `items` in two vectors: first those that `select`
/// rejects, then those that it accepts. Each keeps the order of `items`.
pub fn split<T: Copy, F: Fn(&T) -> bool>(
    items: &Vec<T>,
    select: F,
    Ghost(pred): Ghost<spec_fn(T) -> bool>,
) -> (r: (Vec<T>, Vec<T>))
    requires
        forall|x: &T| #[trigger] select.requires((x,)),
        forall|x: &T, b: bool| #[trigger] select.ensures((x,), b) ==> b == pred(*x),
    ensures
        r.0@ == items@.filter(except(pred)),
        r.1@ == items@.filter(pred),
{
    let mut rejected: Vec<T> = Vec::new();
    let mut accepted: Vec<T> = Vec::new();
    let mut i: usize = 0;
    proof {
        reveal(Seq::filter);
    }
    while i < items.len()
        invariant
            i <= items.len(),
            forall|x: &T| #[trigger] select.requires((x,)),
            forall|x: &T, b: bool| #[trigger] select.ensures((x,), b) ==> b == pred(*x),
            rejected@ == items@.take(i as int).filter(except(pred)),
            accepted@ == items@.take(i as int).filter(pred),
        decreases items.len() - i,
    {
        let item = items[i];
        proof {
            let before = items@.take(i as int);
            assert(items@.take(i + 1) == before.push(item));
            before.lemma_filter_push(item, pred);
            before.lemma_filter_push(item, except(pred));
        }
        if select(&item) {
            accepted.push(item);
        } else {
            rejected.push(item);
        }
        i += 1;
    }
    assert(items@.take(i as int) == items@);
    (rejected, accepted)
}

/// Whether `key` is one of `keys`. The answer can be relied on where the keys
/// obey their laws.
pub fn find_key<K: Key>(keys: &Vec<K>, key: &K) -> (r: bool)
    ensures
        obeys_key_laws::<K>() ==> r == keys@.contains(*key),
{
    let mut i: usize = 0;
    while i < keys.len()
        invariant
            i <= keys.len(),
            obeys_key_laws::<K>() ==> forall|j: int| 0 <= j < i ==> keys@[j] != *key,
        decreases keys.len() - i,
    {
        if keys[i] == *key {
            return true;
        }
        i += 1;
    }
    false
}

/// Where in `vertices` the vertex with this key stands, if there is one. The
/// answer can be relied on where the keys obey their laws.
pub fn find_vertex<K: Key, V: Value>(vertices: &Vec<Vertex<K, V>>, key: &K) -> (r: Option<usize>)
    ensures
        r matches Some(i) ==> i < vertices.len(),
        obeys_key_laws::<K>() ==> match r {
            Some(i) => vertices@[i as int].key() == key,
            None => forall|j: int|
                0 <= j < vertices.len() ==> (#[trigger] vertices@[j]).key() != key,
        },
{
    let mut i: usize = 0;
    while i < vertices.len()
        invariant
            i <= vertices.len(),
            obeys_key_laws::<K>() ==> forall|j: int|
                0 <= j < i ==> (#[trigger] vertices@[j]).key() != key,
        decreases vertices.len() - i,
    {
        if *vertices[i].key() == *key {
            return Some(i);
        }
        i += 1;
    }
    None
}

/// Where in `edges` an edge that joins `a` to `b` stands, if there is one.
/// The answer can be relied on where the keys obey their laws.
pub fn find_edge<K: Key, W: Weight>(edges: &Vec<Edge<K, W>>, a: &K, b: &K, directed: bool) -> (r:
    Option<usize>)
    ensures
        r matches Some(i) ==> i < edges.len(),
        obeys_key_laws::<K>() ==> match r {
            Some(i) => links(edges@[i as int], *a, *b, directed),
            None => forall|j: int|
                0 <= j < edges.len() ==> !links(#[trigger] edges@[j], *a, *b, directed),
        },
{
    let mut i: usize = 0;
    while i < edges.len()
        invariant
            i <= edges.len(),
            obeys_key_laws::<K>() ==> forall|j: int|
                0 <= j < i ==> !links(#[trigger] edges@[j], *a, *b, directed),
        decreases edges.len() - i,
    {
        let e = &edges[i];
        if (*e.from() == *a && *e.to() == *b) || (!directed && *e.from() == *b && *e.to() == *a) {
            return Some(i);
        }
        i += 1;
    }
    None
}

/// Whether every key of `vertices` is the key of one of `others`. The answer
/// can be relied on where the keys obey their laws.
pub fn keys_within<K: Key, V: Value>(
    vertices: &Vec<Vertex<K, V>>,
    others: &Vec<Vertex<K, V>>,
) -> (r: bool)
    ensures
        obeys_key_laws::<K>() ==> r == keys_among(vertices@, others@),
{
    let mut i: usize = 0;
    while i < vertices.len()
        invariant
            i <= vertices.len(),
            obeys_key_laws::<K>() ==> forall|j: int|
                0 <= j < i ==> key_among(others@, *(#[trigger] vertices@[j]).key()),
        decreases vertices.len() - i,
    {
        if find_vertex(others, vertices[i].key()).is_none() {
            return false;
        }
        i += 1;
    }
    true
}

/// Whether every edge of `edges` leads from and to the keys that one of
/// `others` leads from and to. The answer can be relied on where the keys obey
/// their laws.
pub fn edges_within<K: Key, W: Weight>(edges: &Vec<Edge<K, W>>, others: &Vec<Edge<K, W>>) -> (r:
    bool)
    ensures
        obeys_key_laws::<K>() ==> r == edges_among(edges@, others@),
{
    let mut i: usize = 0;
    while i < edges.len()
        invariant
            i <= edges.len(),
            obeys_key_laws::<K>() ==> forall|j: int|
                0 <= j < i ==> link_among(
                    others@,
                    *(#[trigger] edges@[j]).from(),
                    *edges@[j].to(),
                    true,
                ),
        decreases edges.len() - i,
    {
        if find_edge(others, edges[i].from(), edges[i].to(), true).is_none() {
            return false;
        }
        i += 1;
    }
    true
}

} // verus!
