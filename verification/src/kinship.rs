//! Successors and predecessors: for each vertex of a graph, the edges that
//! originate at it and the edges that arrive at it.

use crate::any_graph::AnyGraph;
use crate::model::entering;
use crate::model::enters;
use crate::model::leaves;
use crate::model::leaving;
use crate::model::GraphView;
use crate::store::copy_of;
use crate::store::split;
use crate::types::obeys_key_laws;
use crate::types::Edge;
use crate::types::Key;
use crate::types::Value;
use crate::types::Vertex;
use crate::types::Weight;
use vstd::prelude::*;

verus! {

/// What is kept for each vertex of a graph: the vertices in the order of the
/// graph, each with what belongs to it. An entry is found by the key of its
/// vertex.
pub struct VertexMap<K: Key, V: Value, T> {
    entries: Vec<(Vertex<K, V>, T)>,
}

/// What is kept for each key of a graph: the keys in the order of the graph,
/// each with what belongs to it.
pub struct KeyMap<K: Key, T> {
    entries: Vec<(K, T)>,
}

impl<K: Key, V: Value, T> View for VertexMap<K, V, T> {
    type V = Seq<(Vertex<K, V>, T)>;

    closed spec fn view(&self) -> Seq<(Vertex<K, V>, T)> {
        self.entries@
    }
}

impl<K: Key, T> View for KeyMap<K, T> {
    type V = Seq<(K, T)>;

    closed spec fn view(&self) -> Seq<(K, T)> {
        self.entries@
    }
}

impl<K: Key, V: Value, T> VertexMap<K, V, T> {
    /// How many vertices the map has an entry for.
    pub fn len(&self) -> (r: usize)
        ensures
            r == self@.len(),
    {
        self.entries.len()
    }

    /// What belongs to the vertex that has the key of `vertex`: `None` where
    /// no entry has that key, else what the first such entry holds.
    pub fn get(&self, vertex: &Vertex<K, V>) -> (r: Option<&T>)
        requires
            obeys_key_laws::<K>(),
        ensures
            match r {
                Some(found) => exists|i: int|
                    {
                        &&& 0 <= i < self@.len()
                        &&& (#[trigger] self@[i]).0.key() == vertex.key()
                        &&& *found == self@[i].1
                        &&& forall|j: int|
                            0 <= j < i ==> (#[trigger] self@[j]).0.key() != vertex.key()
                    },
                None => forall|i: int|
                    0 <= i < self@.len() ==> (#[trigger] self@[i]).0.key() != vertex.key(),
            },
    {
        let mut i: usize = 0;
        while i < self.entries.len()
            invariant
                i <= self.entries.len(),
                obeys_key_laws::<K>(),
                forall|j: int| 0 <= j < i ==> (#[trigger] self@[j]).0.key() != vertex.key(),
            decreases self.entries.len() - i,
        {
            if *self.entries[i].0.key() == *vertex.key() {
                assert(self@[i as int].0.key() == vertex.key());
                return Some(&self.entries[i].1);
            }
            i += 1;
        }
        None
    }

    /// Whether the map has an entry for the key of `vertex`.
    pub fn contains_key(&self, vertex: &Vertex<K, V>) -> (r: bool)
        requires
            obeys_key_laws::<K>(),
        ensures
            r <==> exists|i: int|
                0 <= i < self@.len() && (#[trigger] self@[i]).0.key() == vertex.key(),
    {
        self.get(vertex).is_some()
    }
}

impl<K: Key, T> KeyMap<K, T> {
    /// How many keys the map has an entry for.
    pub fn len(&self) -> (r: usize)
        ensures
            r == self@.len(),
    {
        self.entries.len()
    }

    /// What belongs to `key`: `None` where no entry has that key, else what
    /// the first such entry holds.
    pub fn get(&self, key: &K) -> (r: Option<&T>)
        requires
            obeys_key_laws::<K>(),
        ensures
            match r {
                Some(found) => exists|i: int|
                    {
                        &&& 0 <= i < self@.len()
                        &&& (#[trigger] self@[i]).0 == key
                        &&& *found == self@[i].1
                        &&& forall|j: int| 0 <= j < i ==> (#[trigger] self@[j]).0 != key
                    },
                None => forall|i: int| 0 <= i < self@.len() ==> (#[trigger] self@[i]).0 != key,
            },
    {
        let mut i: usize = 0;
        while i < self.entries.len()
            invariant
                i <= self.entries.len(),
                obeys_key_laws::<K>(),
                forall|j: int| 0 <= j < i ==> (#[trigger] self@[j]).0 != key,
            decreases self.entries.len() - i,
        {
            if self.entries[i].0 == *key {
                assert(self@[i as int].0 == key);
                return Some(&self.entries[i].1);
            }
            i += 1;
        }
        None
    }

    /// Whether the map has an entry for `key`.
    pub fn contains_key(&self, key: &K) -> (r: bool)
        requires
            obeys_key_laws::<K>(),
        ensures
            r <==> exists|i: int| 0 <= i < self@.len() && (#[trigger] self@[i]).0 == key,
    {
        self.get(key).is_some()
    }
}

/// The kin of `key` in `graph`: its successors where `outgoing` holds, else
/// its predecessors.
pub open spec fn kin<K: Key, V: Value, W: Weight>(
    graph: GraphView<K, V, W>,
    key: K,
    outgoing: bool,
) -> Seq<Edge<K, W>> {
    if outgoing {
        graph.successors(key)
    } else {
        graph.predecessors(key)
    }
}

/// Whether `entries` holds, for each vertex of `graph` and in the same order,
/// the vertex and its kin, in the order of the graph.
pub open spec fn lists_by_vertex<K: Key, V: Value, W: Weight>(
    entries: Seq<(Vertex<K, V>, Vec<Edge<K, W>>)>,
    graph: GraphView<K, V, W>,
    outgoing: bool,
) -> bool {
    &&& entries.len() == graph.vertices.len()
    &&& forall|i: int|
        0 <= i < entries.len() ==> (#[trigger] entries[i]).0 == graph.vertices[i]
            && entries[i].1@ == kin(graph, *graph.vertices[i].key(), outgoing)
}

/// Whether `entries` holds, for each vertex of `graph` and in the same order,
/// the key of the vertex and its kin, in the order of the graph.
pub open spec fn lists_by_key<K: Key, V: Value, W: Weight>(
    entries: Seq<(K, Vec<Edge<K, W>>)>,
    graph: GraphView<K, V, W>,
    outgoing: bool,
) -> bool {
    &&& entries.len() == graph.vertices.len()
    &&& forall|i: int|
        0 <= i < entries.len() ==> (#[trigger] entries[i]).0 == graph.vertices[i].key()
            && entries[i].1@ == kin(graph, *graph.vertices[i].key(), outgoing)
}

/// Whether `entries` holds, for each vertex of `graph` and in the same order,
/// the key of the vertex and the vertex.
pub open spec fn vertices_by_key<K: Key, V: Value, W: Weight>(
    entries: Seq<(K, Vertex<K, V>)>,
    graph: GraphView<K, V, W>,
) -> bool {
    &&& entries.len() == graph.vertices.len()
    &&& forall|i: int|
        0 <= i < entries.len() ==> (#[trigger] entries[i]).0 == graph.vertices[i].key()
            && entries[i].1 == graph.vertices[i]
}

/// For each of `vertices`, its kin among `edges`: the edges that originate at
/// it where `outgoing` holds, else the edges that arrive at it.
pub fn edge_lists<K: Key, V: Value, W: Weight>(
    vertices: &Vec<Vertex<K, V>>,
    edges: &Vec<Edge<K, W>>,
    outgoing: bool,
    directed: bool,
) -> (r: VertexMap<K, V, Vec<Edge<K, W>>>)
    requires
        obeys_key_laws::<K>(),
    ensures
        lists_by_vertex(r@, GraphView { vertices: vertices@, edges: edges@, directed }, outgoing),
{
    let ghost graph = GraphView { vertices: vertices@, edges: edges@, directed };
    let mut entries: Vec<(Vertex<K, V>, Vec<Edge<K, W>>)> = Vec::new();
    let mut i: usize = 0;
    while i < vertices.len()
        invariant
            i <= vertices.len(),
            obeys_key_laws::<K>(),
            graph == (GraphView { vertices: vertices@, edges: edges@, directed }),
            entries@.len() == i,
            forall|j: int|
                0 <= j < i ==> (#[trigger] entries@[j]).0 == vertices@[j] && entries@[j].1@ == kin(
                    graph,
                    *vertices@[j].key(),
                    outgoing,
                ),
        decreases vertices.len() - i,
    {
        let vertex = vertices[i];
        let key = *vertex.key();
        let is_kin = |e: &Edge<K, W>| -> (b: bool)
            ensures
                b == if outgoing {
                    leaves(*e, key, directed)
                } else {
                    enters(*e, key, directed)
                },
            {
                if outgoing {
                    *e.from() == key || (!directed && *e.to() == key)
                } else {
                    *e.to() == key || (!directed && *e.from() == key)
                }
            };
        let ghost pred = if outgoing {
            leaving(key, directed)
        } else {
            entering(key, directed)
        };
        let (_, list) = split(edges, is_kin, Ghost(pred));
        entries.push((vertex, list));
        i += 1;
    }
    VertexMap { entries }
}

/// The lists of `map`, each under the key of its vertex.
pub fn lists_under_keys<K: Key, V: Value, W: Weight>(
    map: &VertexMap<K, V, Vec<Edge<K, W>>>,
) -> (r: KeyMap<K, Vec<Edge<K, W>>>)
    ensures
        r@.len() == map@.len(),
        forall|i: int|
            0 <= i < r@.len() ==> (#[trigger] r@[i]).0 == map@[i].0.key() && r@[i].1@
                == map@[i].1@,
{
    let mut entries: Vec<(K, Vec<Edge<K, W>>)> = Vec::new();
    let mut i: usize = 0;
    while i < map.entries.len()
        invariant
            i <= map.entries.len(),
            entries@.len() == i,
            forall|j: int|
                0 <= j < i ==> (#[trigger] entries@[j]).0 == map@[j].0.key() && entries@[j].1@
                    == map@[j].1@,
        decreases map.entries.len() - i,
    {
        let key = *map.entries[i].0.key();
        let list = copy_of(&map.entries[i].1);
        entries.push((key, list));
        i += 1;
    }
    KeyMap { entries }
}

/// Each of `vertices` under its key.
pub fn vertices_under_keys<K: Key, V: Value>(vertices: &Vec<Vertex<K, V>>) -> (r: KeyMap<
    K,
    Vertex<K, V>,
>)
    ensures
        r@.len() == vertices@.len(),
        forall|i: int|
            0 <= i < r@.len() ==> (#[trigger] r@[i]).0 == vertices@[i].key() && r@[i].1
                == vertices@[i],
{
    let mut entries: Vec<(K, Vertex<K, V>)> = Vec::new();
    let mut i: usize = 0;
    while i < vertices.len()
        invariant
            i <= vertices.len(),
            entries@.len() == i,
            forall|j: int|
                0 <= j < i ==> (#[trigger] entries@[j]).0 == vertices@[j].key() && entries@[j].1
                    == vertices@[j],
        decreases vertices.len() - i,
    {
        let vertex = vertices[i];
        entries.push((*vertex.key(), vertex));
        i += 1;
    }
    KeyMap { entries }
}

/// An interface for getting the successors and predecessors of each [`Vertex`].
pub trait Kinship<K: Key, V: Value, W: Weight>: AnyGraph<K, V, W> {
    /// Get the successors of each vertex: the edges that originate at it.
    fn successors(&self) -> (r: VertexMap<K, V, Vec<Edge<K, W>>>)
        requires
            obeys_key_laws::<K>(),
        ensures
            lists_by_vertex(r@, self@, true),
    ;

    /// Get the predecessors of each vertex: the edges that arrive at it.
    fn predecessors(&self) -> (r: VertexMap<K, V, Vec<Edge<K, W>>>)
        requires
            obeys_key_laws::<K>(),
        ensures
            lists_by_vertex(r@, self@, false),
    ;

    /// Get the successors of each vertex where the key is a [`Key`].
    fn successors_as_key_and_edges(&self) -> (r: KeyMap<K, Vec<Edge<K, W>>>)
        requires
            obeys_key_laws::<K>(),
        ensures
            lists_by_key(r@, self@, true),
    {
        lists_under_keys(&self.successors())
    }

    /// Get the predecessors of each vertex where the key is a [`Key`].
    fn predecessors_as_key_and_edges(&self) -> (r: KeyMap<K, Vec<Edge<K, W>>>)
        requires
            obeys_key_laws::<K>(),
        ensures
            lists_by_key(r@, self@, false),
    {
        lists_under_keys(&self.predecessors())
    }

    /// Get the map of key and vertex.
    fn key_vertex_map(&self) -> (r: KeyMap<K, Vertex<K, V>>)
        ensures
            vertices_by_key(r@, self@),
    {
        vertices_under_keys(&self.vertices())
    }
}

} // verus!
