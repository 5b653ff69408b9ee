//! The mathematical model of a graph: the sequence of its vertices, the
//! sequence of its edges, and what each operation makes of them.

use crate::any_graph::GraphError;
use crate::filters::except;
use crate::filters::lemma_filter_every;
use crate::filters::lemma_filter_none;
use crate::filters::lemma_filter_pair;
use crate::filters::lemma_filter_source;
use crate::filters::lemma_filter_target;
use crate::types::Edge;
use crate::types::Key;
use crate::types::Value;
use crate::types::Vertex;
use crate::types::Weight;
use vstd::prelude::*;

verus! {

/// Whether `e` joins `a` to `b`: it leads from `a` to `b`, or, where the
/// direction does not count, from `b` to `a`.
pub open spec fn links<K: Key, W: Weight>(e: Edge<K, W>, a: K, b: K, directed: bool) -> bool {
    (e.from() == a && e.to() == b) || (!directed && e.from() == b && e.to() == a)
}

/// Whether `key` is one of the two ends of `e`.
pub open spec fn touches<K: Key, W: Weight>(e: Edge<K, W>, key: K) -> bool {
    e.from() == key || e.to() == key
}

/// Whether `e` originates at `key`. Where the direction does not count, an
/// edge originates at both of its ends.
pub open spec fn leaves<K: Key, W: Weight>(e: Edge<K, W>, key: K, directed: bool) -> bool {
    e.from() == key || (!directed && e.to() == key)
}

/// Whether `e` arrives at `key`. Where the direction does not count, an edge
/// arrives at both of its ends.
pub open spec fn enters<K: Key, W: Weight>(e: Edge<K, W>, key: K, directed: bool) -> bool {
    e.to() == key || (!directed && e.from() == key)
}

/// The vertices whose key is `key`.
pub open spec fn keyed<K: Key, V: Value>(key: K) -> spec_fn(Vertex<K, V>) -> bool {
    |v: Vertex<K, V>| v.key() == key
}

/// The edges that join `a` to `b`.
pub open spec fn linking<K: Key, W: Weight>(a: K, b: K, directed: bool) -> spec_fn(
    Edge<K, W>,
) -> bool {
    |e: Edge<K, W>| links(e, a, b, directed)
}

/// The edges that have `key` at one end.
pub open spec fn touching<K: Key, W: Weight>(key: K) -> spec_fn(Edge<K, W>) -> bool {
    |e: Edge<K, W>| touches(e, key)
}

/// The edges that originate at `key`.
pub open spec fn leaving<K: Key, W: Weight>(key: K, directed: bool) -> spec_fn(
    Edge<K, W>,
) -> bool {
    |e: Edge<K, W>| leaves(e, key, directed)
}

/// The edges that arrive at `key`.
pub open spec fn entering<K: Key, W: Weight>(key: K, directed: bool) -> spec_fn(
    Edge<K, W>,
) -> bool {
    |e: Edge<K, W>| enters(e, key, directed)
}

/// Whether one of `vertices` has this key.
pub open spec fn key_among<K: Key, V: Value>(vertices: Seq<Vertex<K, V>>, key: K) -> bool {
    exists|i: int| 0 <= i < vertices.len() && (#[trigger] vertices[i]).key() == key
}

/// Whether one of `edges` joins `a` to `b`.
pub open spec fn link_among<K: Key, W: Weight>(
    edges: Seq<Edge<K, W>>,
    a: K,
    b: K,
    directed: bool,
) -> bool {
    exists|i: int| 0 <= i < edges.len() && links(#[trigger] edges[i], a, b, directed)
}

/// Whether every key of `vertices` is the key of one of `others`.
pub open spec fn keys_among<K: Key, V: Value>(
    vertices: Seq<Vertex<K, V>>,
    others: Seq<Vertex<K, V>>,
) -> bool {
    forall|i: int| 0 <= i < vertices.len() ==> key_among(others, *(#[trigger] vertices[i]).key())
}

/// Whether every edge of `edges` leads from and to the keys that one of
/// `others` leads from and to.
pub open spec fn edges_among<K: Key, W: Weight>(
    edges: Seq<Edge<K, W>>,
    others: Seq<Edge<K, W>>,
) -> bool {
    forall|i: int|
        0 <= i < edges.len() ==> link_among(
            others,
            *(#[trigger] edges[i]).from(),
            *edges[i].to(),
            true,
        )
}

/// What a graph holds: its vertices and its edges, each in the order in which
/// they were added, and whether the direction of an edge counts.
pub struct GraphView<K: Key, V: Value, W: Weight> {
    pub vertices: Seq<Vertex<K, V>>,
    pub edges: Seq<Edge<K, W>>,
    pub directed: bool,
}

impl<K: Key, V: Value, W: Weight> GraphView<K, V, W> {
    /// The graph without vertices or edges.
    pub open spec fn empty(directed: bool) -> Self {
        GraphView { vertices: Seq::empty(), edges: Seq::empty(), directed }
    }

    /// Whether a vertex with this key is in the graph.
    pub open spec fn has_key(self, key: K) -> bool {
        key_among(self.vertices, key)
    }

    /// Whether an edge that joins `a` to `b` is in the graph.
    pub open spec fn has_link(self, a: K, b: K) -> bool {
        link_among(self.edges, a, b, self.directed)
    }

    /// The vertex of the graph that has this key.
    pub open spec fn vertex_of(self, key: K) -> Vertex<K, V> {
        let i = choose|i: int|
            0 <= i < self.vertices.len() && (#[trigger] self.vertices[i]).key() == key;
        self.vertices[i]
    }

    /// The edge of the graph that joins `a` to `b`.
    pub open spec fn edge_of(self, a: K, b: K) -> Edge<K, W> {
        let i = choose|i: int|
            0 <= i < self.edges.len() && links(#[trigger] self.edges[i], a, b, self.directed);
        self.edges[i]
    }

    /// No two vertices have the same key.
    pub open spec fn distinct_keys(self) -> bool {
        forall|i: int, j: int|
            0 <= i < j < self.vertices.len() ==> (#[trigger] self.vertices[i]).key() != (
            #[trigger] self.vertices[j]).key()
    }

    /// No two edges join the same keys. Where the direction does not count,
    /// this rules out an edge and its reverse as well.
    pub open spec fn distinct_links(self) -> bool {
        forall|i: int, j: int|
            0 <= i < j < self.edges.len() ==> !links(
                #[trigger] self.edges[i],
                *(#[trigger] self.edges[j]).from(),
                *self.edges[j].to(),
                self.directed,
            )
    }

    /// Both ends of every edge are keys of vertices of the graph.
    pub open spec fn closed(self) -> bool {
        forall|i: int|
            0 <= i < self.edges.len() ==> self.has_key(*(#[trigger] self.edges[i]).from())
                && self.has_key(*self.edges[i].to())
    }

    /// What holds of every graph: keys identify vertices, pairs of keys
    /// identify edges, and no edge refers to a vertex that is not there.
    pub open spec fn wf(self) -> bool {
        &&& self.distinct_keys()
        &&& self.distinct_links()
        &&& self.closed()
    }

    /// Add a vertex. Its key must be new.
    pub open spec fn add_vertex(self, vertex: Vertex<K, V>) -> Result<Self, GraphError> {
        if self.has_key(*vertex.key()) {
            Err(GraphError::VertexAlreadyExists)
        } else {
            Ok(GraphView { vertices: self.vertices.push(vertex), ..self })
        }
    }

    /// Remove the vertex with this key, and with it every edge that has the
    /// key at one end. Gives the new graph, the vertex and those edges.
    pub open spec fn remove_vertex(self, key: K) -> Result<
        (Self, Vertex<K, V>, Seq<Edge<K, W>>),
        GraphError,
    > {
        if !self.has_key(key) {
            Err(GraphError::VertexDoesNotExist)
        } else {
            Ok(
                (
                    GraphView {
                        vertices: self.vertices.filter(except(keyed(key))),
                        edges: self.edges.filter(except(touching(key))),
                        ..self
                    },
                    self.vertex_of(key),
                    self.edges.filter(touching(key)),
                ),
            )
        }
    }

    /// Remove everything. Gives the empty graph, the vertices and the edges.
    pub open spec fn remove_all_vertices(self) -> (Self, Seq<Vertex<K, V>>, Seq<Edge<K, W>>) {
        (Self::empty(self.directed), self.vertices, self.edges)
    }

    /// Add an edge. Both ends must be in the graph, and no edge may join
    /// them yet.
    pub open spec fn add_edge(self, edge: Edge<K, W>) -> Result<Self, GraphError> {
        if !self.has_key(*edge.from()) || !self.has_key(*edge.to()) {
            Err(GraphError::VertexDoesNotExist)
        } else if self.has_link(*edge.from(), *edge.to()) {
            Err(GraphError::EdgeAlreadyExists)
        } else {
            Ok(GraphView { edges: self.edges.push(edge), ..self })
        }
    }

    /// Remove the edge that joins `a` to `b`. Gives the new graph and the
    /// edge as it was stored.
    pub open spec fn remove_edge(self, a: K, b: K) -> Result<(Self, Edge<K, W>), GraphError> {
        if !self.has_link(a, b) {
            Err(GraphError::EdgeDoesNotExist)
        } else {
            Ok(
                (
                    GraphView {
                        edges: self.edges.filter(except(linking(a, b, self.directed))),
                        ..self
                    },
                    self.edge_of(a, b),
                ),
            )
        }
    }

    /// Remove every edge. Gives the new graph and the edges.
    pub open spec fn remove_all_edges(self) -> (Self, Seq<Edge<K, W>>) {
        (GraphView { edges: Seq::empty(), ..self }, self.edges)
    }

    /// Remove the edges that have `key` at one end. Gives the new graph and
    /// those edges.
    pub open spec fn remove_all_edges_where(self, key: K) -> Result<
        (Self, Seq<Edge<K, W>>),
        GraphError,
    > {
        if !self.has_key(key) {
            Err(GraphError::VertexDoesNotExist)
        } else {
            Ok(
                (
                    GraphView { edges: self.edges.filter(except(touching(key))), ..self },
                    self.edges.filter(touching(key)),
                ),
            )
        }
    }

    /// Remove the edges that originate at `key`. Gives the new graph and
    /// those edges.
    pub open spec fn remove_all_edges_from(self, key: K) -> Result<
        (Self, Seq<Edge<K, W>>),
        GraphError,
    > {
        if !self.has_key(key) {
            Err(GraphError::VertexDoesNotExist)
        } else {
            Ok(
                (
                    GraphView {
                        edges: self.edges.filter(except(leaving(key, self.directed))),
                        ..self
                    },
                    self.edges.filter(leaving(key, self.directed)),
                ),
            )
        }
    }

    /// The edges that originate at `key`, in the order of the graph.
    pub open spec fn successors(self, key: K) -> Seq<Edge<K, W>> {
        self.edges.filter(leaving(key, self.directed))
    }

    /// The edges that arrive at `key`, in the order of the graph.
    pub open spec fn predecessors(self, key: K) -> Seq<Edge<K, W>> {
        self.edges.filter(entering(key, self.directed))
    }

    /// Whether two graphs have the same keys and the same edges between
    /// them. Values, weights and the order of storage play no part, the
    /// direction of an edge does.
    pub open spec fn same_content(self, other: Self) -> bool {
        &&& keys_among(self.vertices, other.vertices)
        &&& keys_among(other.vertices, self.vertices)
        &&& edges_among(self.edges, other.edges)
        &&& edges_among(other.edges, self.edges)
    }
}

impl<K: Key, V: Value, W: Weight> GraphView<K, V, W> {
    /// In a graph whose keys are distinct, the vertex of a key is the one
    /// vertex that has it.
    pub proof fn lemma_vertex_of(self, i: int)
        requires
            self.distinct_keys(),
            0 <= i < self.vertices.len(),
        ensures
            self.vertex_of(*self.vertices[i].key()) == self.vertices[i],
    {
        let key = *self.vertices[i].key();
        let j = choose|j: int|
            0 <= j < self.vertices.len() && (#[trigger] self.vertices[j]).key() == key;
        if j < i {
            assert(self.vertices[j].key() != self.vertices[i].key());
        } else if i < j {
            assert(self.vertices[i].key() != self.vertices[j].key());
        }
    }

    /// In a graph whose links are distinct, the edge that joins two keys is
    /// the one edge that does.
    pub proof fn lemma_edge_of(self, i: int, a: K, b: K)
        requires
            self.distinct_links(),
            0 <= i < self.edges.len(),
            links(self.edges[i], a, b, self.directed),
        ensures
            self.edge_of(a, b) == self.edges[i],
            forall|j: int|
                0 <= j < self.edges.len() && links(#[trigger] self.edges[j], a, b, self.directed)
                    ==> j == i,
    {
        assert forall|j: int|
            0 <= j < self.edges.len() && links(
                #[trigger] self.edges[j],
                a,
                b,
                self.directed,
            ) implies j == i by {
            if j < i {
                assert(!links(
                    self.edges[j],
                    *self.edges[i].from(),
                    *self.edges[i].to(),
                    self.directed,
                ));
            } else if i < j {
                assert(!links(
                    self.edges[i],
                    *self.edges[j].from(),
                    *self.edges[j].to(),
                    self.directed,
                ));
            }
        }
    }

    /// Adding a vertex with a new key keeps the graph well formed.
    pub proof fn lemma_add_vertex_wf(self, vertex: Vertex<K, V>)
        requires
            self.wf(),
            !self.has_key(*vertex.key()),
        ensures
            (GraphView { vertices: self.vertices.push(vertex), ..self }).wf(),
    {
        let next = GraphView { vertices: self.vertices.push(vertex), ..self };
        assert forall|i: int| 0 <= i < next.edges.len() implies next.has_key(
            *(#[trigger] next.edges[i]).from(),
        ) && next.has_key(*next.edges[i].to()) by {
            self.lemma_has_key_after_push(vertex, *self.edges[i].from());
            self.lemma_has_key_after_push(vertex, *self.edges[i].to());
        }
        assert forall|i: int, j: int| 0 <= i < j < next.vertices.len() implies (
        #[trigger] next.vertices[i]).key() != (#[trigger] next.vertices[j]).key() by {
            if j == self.vertices.len() {
                assert(self.vertices[i].key() != vertex.key());
            } else {
                assert(self.vertices[i].key() != self.vertices[j].key());
            }
        }
    }

    /// A key is in the graph after a vertex was added if it was there before
    /// or is the key of that vertex.
    pub proof fn lemma_has_key_after_push(self, vertex: Vertex<K, V>, key: K)
        ensures
            (GraphView { vertices: self.vertices.push(vertex), ..self }).has_key(key) <==> (
            self.has_key(key) || vertex.key() == key),
    {
        let next = GraphView { vertices: self.vertices.push(vertex), ..self };
        if self.has_key(key) {
            let i = choose|i: int|
                0 <= i < self.vertices.len() && (#[trigger] self.vertices[i]).key() == key;
            assert(next.vertices[i].key() == key);
        }
        if vertex.key() == key {
            assert(next.vertices[self.vertices.len() as int].key() == key);
        }
        if next.has_key(key) {
            let i = choose|i: int|
                0 <= i < next.vertices.len() && (#[trigger] next.vertices[i]).key() == key;
            if i < self.vertices.len() {
                assert(self.vertices[i].key() == key);
            }
        }
    }

    /// Adding an edge between two keys of the graph that nothing joins yet
    /// keeps the graph well formed.
    pub proof fn lemma_add_edge_wf(self, edge: Edge<K, W>)
        requires
            self.wf(),
            self.has_key(*edge.from()),
            self.has_key(*edge.to()),
            !self.has_link(*edge.from(), *edge.to()),
        ensures
            (GraphView { edges: self.edges.push(edge), ..self }).wf(),
    {
        let next = GraphView { edges: self.edges.push(edge), ..self };
        assert forall|i: int, j: int| 0 <= i < j < next.edges.len() implies !links(
            #[trigger] next.edges[i],
            *(#[trigger] next.edges[j]).from(),
            *next.edges[j].to(),
            next.directed,
        ) by {
            if j == self.edges.len() {
                assert(!links(self.edges[i], *edge.from(), *edge.to(), self.directed));
            } else {
                assert(!links(
                    self.edges[i],
                    *self.edges[j].from(),
                    *self.edges[j].to(),
                    self.directed,
                ));
            }
        }
        assert forall|i: int| 0 <= i < next.edges.len() implies next.has_key(
            *(#[trigger] next.edges[i]).from(),
        ) && next.has_key(*next.edges[i].to()) by {
            let e = next.edges[i];
            if i < self.edges.len() {
                assert(e == self.edges[i]);
                assert(self.has_key(*self.edges[i].from()) && self.has_key(*self.edges[i].to()));
            } else {
                assert(e == edge);
            }
        }
    }

    /// Keeping only some of the edges keeps the graph well formed.
    pub proof fn lemma_filter_edges_wf(self, pred: spec_fn(Edge<K, W>) -> bool)
        requires
            self.wf(),
        ensures
            (GraphView { edges: self.edges.filter(pred), ..self }).wf(),
    {
        let next = GraphView { edges: self.edges.filter(pred), ..self };
        assert forall|i: int, j: int| 0 <= i < j < next.edges.len() implies !links(
            #[trigger] next.edges[i],
            *(#[trigger] next.edges[j]).from(),
            *next.edges[j].to(),
            next.directed,
        ) by {
            let (a, b) = lemma_filter_pair(self.edges, pred, i, j);
            assert(!links(
                self.edges[a],
                *self.edges[b].from(),
                *self.edges[b].to(),
                self.directed,
            ));
        }
        assert forall|i: int| 0 <= i < next.edges.len() implies next.has_key(
            *(#[trigger] next.edges[i]).from(),
        ) && next.has_key(*next.edges[i].to()) by {
            let a = lemma_filter_source(self.edges, pred, i);
            assert(self.has_key(*self.edges[a].from()) && self.has_key(*self.edges[a].to()));
        }
    }

    /// Removing a vertex together with the edges at it keeps the graph well
    /// formed.
    pub proof fn lemma_remove_vertex_wf(self, key: K)
        requires
            self.wf(),
        ensures
            (GraphView {
                vertices: self.vertices.filter(except(keyed(key))),
                edges: self.edges.filter(except(touching(key))),
                ..self
            }).wf(),
    {
        let kept = self.vertices.filter(except(keyed(key)));
        let mid = GraphView { edges: self.edges.filter(except(touching(key))), ..self };
        let next = GraphView { vertices: kept, ..mid };
        self.lemma_filter_edges_wf(except(touching(key)));
        assert forall|i: int, j: int| 0 <= i < j < kept.len() implies (#[trigger] kept[i]).key()
            != (#[trigger] kept[j]).key() by {
            let (a, b) = lemma_filter_pair(self.vertices, except(keyed(key)), i, j);
            assert(self.vertices[a].key() != self.vertices[b].key());
        }
        assert forall|i: int| 0 <= i < next.edges.len() implies next.has_key(
            *(#[trigger] next.edges[i]).from(),
        ) && next.has_key(*next.edges[i].to()) by {
            let e = next.edges[i];
            let a = lemma_filter_source(self.edges, except(touching(key)), i);
            assert(!touches(e, key));
            assert(self.has_key(*self.edges[a].from()) && self.has_key(*self.edges[a].to()));
            self.lemma_has_key_after_removal(key, *e.from());
            self.lemma_has_key_after_removal(key, *e.to());
        }
    }

    /// After the vertex of `key` was removed, the graph has the keys it had
    /// before, but for `key`.
    pub proof fn lemma_has_key_after_removal(self, key: K, other: K)
        ensures
            (GraphView { vertices: self.vertices.filter(except(keyed(key))), ..self }).has_key(
                other,
            ) <==> (self.has_key(other) && other != key),
    {
        let kept = self.vertices.filter(except(keyed(key)));
        let next = GraphView { vertices: kept, ..self };
        if self.has_key(other) && other != key {
            let a = choose|a: int|
                0 <= a < self.vertices.len() && (#[trigger] self.vertices[a]).key() == other;
            let i = lemma_filter_target(self.vertices, except(keyed(key)), a);
            assert(next.vertices[i].key() == other);
        }
        if next.has_key(other) {
            let i = choose|i: int| 0 <= i < kept.len() && (#[trigger] kept[i]).key() == other;
            let a = lemma_filter_source(self.vertices, except(keyed(key)), i);
            assert(self.vertices[a].key() == other);
        }
    }
}

impl<K: Key, V: Value, W: Weight> GraphView<K, V, W> {
    /// No edge of a well formed graph refers to a vertex that is not in the
    /// graph: both of its ends are keys of vertices of the graph.
    pub proof fn lemma_edges_join_vertices(self, edge: Edge<K, W>)
        requires
            self.wf(),
            self.edges.contains(edge),
        ensures
            self.has_key(*edge.from()),
            self.has_key(*edge.to()),
    {
        let i = choose|i: int| 0 <= i < self.edges.len() && self.edges[i] == edge;
        assert(self.has_key(*self.edges[i].from()) && self.has_key(*self.edges[i].to()));
    }

    /// A well formed graph in which the direction does not count never holds
    /// an edge and its reverse as two edges.
    pub proof fn lemma_no_reverse_pair(self, i: int, j: int)
        requires
            self.wf(),
            !self.directed,
            0 <= i < self.edges.len(),
            0 <= j < self.edges.len(),
            i != j,
        ensures
            !(self.edges[i].from() == self.edges[j].to() && self.edges[i].to()
                == self.edges[j].from()),
    {
        if i < j {
            assert(!links(
                self.edges[i],
                *self.edges[j].from(),
                *self.edges[j].to(),
                self.directed,
            ));
        } else {
            assert(!links(
                self.edges[j],
                *self.edges[i].from(),
                *self.edges[i].to(),
                self.directed,
            ));
        }
    }

    /// Whatever an operation makes of a well formed graph is a well formed
    /// graph, and so is the empty graph.
    pub proof fn lemma_operations_keep_wf(self, vertex: Vertex<K, V>, edge: Edge<K, W>, key: K)
        requires
            self.wf(),
        ensures
            Self::empty(self.directed).wf(),
            self.add_vertex(vertex) matches Ok(graph) ==> graph.wf(),
            self.remove_vertex(key) matches Ok(removal) ==> removal.0.wf(),
            self.remove_all_vertices().0.wf(),
            self.add_edge(edge) matches Ok(graph) ==> graph.wf(),
            self.remove_edge(*edge.from(), *edge.to()) matches Ok(removal) ==> removal.0.wf(),
            self.remove_all_edges().0.wf(),
            self.remove_all_edges_where(key) matches Ok(removal) ==> removal.0.wf(),
            self.remove_all_edges_from(key) matches Ok(removal) ==> removal.0.wf(),
    {
        if !self.has_key(*vertex.key()) {
            self.lemma_add_vertex_wf(vertex);
        }
        self.lemma_remove_vertex_wf(key);
        if self.add_edge(edge) is Ok {
            self.lemma_add_edge_wf(edge);
        }
        self.lemma_filter_edges_wf(except(linking(*edge.from(), *edge.to(), self.directed)));
        self.lemma_filter_edges_wf(except(touching(key)));
        self.lemma_filter_edges_wf(except(leaving(key, self.directed)));
    }

    /// Removing all edges twice is removing them once: both times the
    /// vertices stay and no edge is left, and the second time nothing is
    /// removed.
    pub proof fn lemma_remove_all_edges_twice(self)
        ensures
            self.remove_all_edges().0.vertices == self.vertices,
            self.remove_all_edges().0.edges == Seq::<Edge<K, W>>::empty(),
            self.remove_all_edges().1 == self.edges,
            self.remove_all_edges().0.remove_all_edges().0 == self.remove_all_edges().0,
            self.remove_all_edges().0.remove_all_edges().1 == Seq::<Edge<K, W>>::empty(),
    {
    }

    /// Adding a vertex and then removing it gives the graph back: the same
    /// vertices and edges in the same order, the vertex as it was added, and
    /// no removed edge.
    pub proof fn lemma_add_then_remove_vertex(self, vertex: Vertex<K, V>)
        requires
            self.wf(),
            !self.has_key(*vertex.key()),
        ensures
            self.add_vertex(vertex) matches Ok(added) && added.remove_vertex(*vertex.key())
                == Ok::<_, GraphError>((self, vertex, Seq::<Edge<K, W>>::empty())),
    {
        let key = *vertex.key();
        let added = GraphView { vertices: self.vertices.push(vertex), ..self };
        self.lemma_add_vertex_wf(vertex);
        assert(added.vertices[self.vertices.len() as int].key() == key);
        added.lemma_vertex_of(self.vertices.len() as int);
        self.vertices.lemma_filter_push(vertex, except(keyed(key)));
        lemma_filter_every(self.vertices, except(keyed(key)));
        assert forall|i: int| 0 <= i < self.edges.len() implies !touches(
            #[trigger] self.edges[i],
            key,
        ) by {
            assert(self.has_key(*self.edges[i].from()) && self.has_key(*self.edges[i].to()));
        }
        lemma_filter_every(self.edges, except(touching(key)));
        lemma_filter_none(self.edges, touching(key));
    }
}

} // verus!
