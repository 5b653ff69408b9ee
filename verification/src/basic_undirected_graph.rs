//! An undirected graph kept in two vectors.

use crate::algorithms::Algorithms;
use crate::any_graph::AnyGraph;
use crate::any_graph::GraphError;
use crate::any_graph::UndirectedGraph;
use crate::filters::except;
use crate::kinship::edge_lists;
use crate::kinship::Kinship;
use crate::kinship::VertexMap;
use crate::model::entering;
use crate::model::keyed;
use crate::model::leaving;
use crate::model::linking;
use crate::model::links;
use crate::model::touches;
use crate::model::touching;
use crate::model::GraphView;
use crate::store::copy_of;
use crate::store::edges_within;
use crate::store::find_edge;
use crate::store::find_vertex;
use crate::store::keys_within;
use crate::store::split;
use crate::types::obeys_key_laws;
use crate::types::Edge;
use crate::types::Key;
use crate::types::Value;
use crate::types::Vertex;
use crate::types::Weight;
use vstd::prelude::*;
use vstd::std_specs::cmp::PartialEqSpecImpl;

verus! {

/// A basic implementation of an undirected graph.
/// It allows loops, but no two edges that join the same keys.
pub struct BasicUndirectedGraph<K: Key, V: Value, W: Weight = i8> {
    vertices: Vec<Vertex<K, V>>,
    edges: Vec<Edge<K, W>>,
}

impl<K: Key, V: Value, W: Weight> View for BasicUndirectedGraph<K, V, W> {
    type V = GraphView<K, V, W>;

    closed spec fn view(&self) -> GraphView<K, V, W> {
        GraphView { vertices: self.vertices@, edges: self.edges@, directed: false }
    }
}

impl<K: Key, V: Value, W: Weight> Clone for BasicUndirectedGraph<K, V, W> {
    fn clone(&self) -> (r: Self)
        ensures
            r@ == self@,
    {
        BasicUndirectedGraph { vertices: copy_of(&self.vertices), edges: copy_of(&self.edges) }
    }
}

impl<K: Key, V: Value, W: Weight> PartialEq for BasicUndirectedGraph<K, V, W> {
    /// Two graphs are equal when they have the same keys and the same edges
    /// between them.
    fn eq(&self, other: &Self) -> (r: bool) {
        keys_within(&self.vertices, &other.vertices) && keys_within(
            &other.vertices,
            &self.vertices,
        ) && edges_within(&self.edges, &other.edges) && edges_within(&other.edges, &self.edges)
    }
}

impl<K: Key, V: Value, W: Weight> PartialEqSpecImpl for BasicUndirectedGraph<K, V, W> {
    open spec fn obeys_eq_spec() -> bool {
        obeys_key_laws::<K>()
    }

    open spec fn eq_spec(&self, other: &Self) -> bool {
        self@.same_content(other@)
    }
}

impl<K: Key, V: Value, W: Weight> AnyGraph<K, V, W> for BasicUndirectedGraph<K, V, W> {
    proof fn clone_keeps_view(&self, other: &Self) {
    }

    /// Get the vertices of the graph.
    /// Complexity: O(V).
    fn vertices(&self) -> (r: Vec<Vertex<K, V>>) {
        copy_of(&self.vertices)
    }

    /// Get the edges of the graph.
    /// Complexity: O(E).
    fn edges(&self) -> (r: Vec<Edge<K, W>>) {
        copy_of(&self.edges)
    }

    /// Add a new vertex then return the new graph.
    /// Complexity: O(V + E).
    fn add_vertex(&self, vertex: Vertex<K, V>) -> (r: Result<Self, GraphError>) {
        if find_vertex(&self.vertices, vertex.key()).is_some() {
            return Err(GraphError::VertexAlreadyExists);
        }
        let mut new_graph = self.clone();
        new_graph.vertices.push(vertex);
        proof {
            self@.lemma_add_vertex_wf(vertex);
        }
        Ok(new_graph)
    }

    /// Remove a vertex then return the new graph, the deleted vertex and its edges.
    /// Complexity: O(V + E).
    fn remove_vertex(&self, vertex: &Vertex<K, V>) -> (r: Result<
        (Self, Vertex<K, V>, Vec<Edge<K, W>>),
        GraphError,
    >) {
        let key = *vertex.key();
        match find_vertex(&self.vertices, &key) {
            Some(found) => {
                let removed_vertex = self.vertices[found];
                let has_key = |v: &Vertex<K, V>| -> (b: bool)
                    ensures
                        b == (v.key() == key),
                    { *v.key() == key };
                let (vertices, _) = split(&self.vertices, has_key, Ghost(keyed(key)));
                let new_graph = BasicUndirectedGraph { vertices, edges: copy_of(&self.edges) };
                let (new_graph, removed_edges) = new_graph.internal_remove_all_edges_where_vertex(
                    &removed_vertex,
                );
                proof {
                    self@.lemma_vertex_of(found as int);
                    self@.lemma_remove_vertex_wf(key);
                }
                Ok((new_graph, removed_vertex, removed_edges))
            },
            None => Err(GraphError::VertexDoesNotExist),
        }
    }

    /// Remove all vertices then return the new graph, the deleted vertices and
    /// all the edges.
    /// Complexity: O(V + E).
    fn remove_all_vertices(&self) -> (r: Result<
        (Self, Vec<Vertex<K, V>>, Vec<Edge<K, W>>),
        GraphError,
    >) {
        let new_graph = BasicUndirectedGraph::new();
        let vertices = self.vertices();
        let edges = self.edges();

        Ok((new_graph, vertices, edges))
    }

    /// Add a new edge then return the new graph.
    /// Complexity: O(V + E).
    fn add_edge(&self, edge: Edge<K, W>) -> (r: Result<Self, GraphError>) {
        if find_vertex(&self.vertices, edge.from()).is_none() || find_vertex(
            &self.vertices,
            edge.to(),
        ).is_none() {
            return Err(GraphError::VertexDoesNotExist);
        }
        if find_edge(&self.edges, edge.from(), edge.to(), false).is_some() {
            return Err(GraphError::EdgeAlreadyExists);
        }
        let mut new_graph = self.clone();
        new_graph.edges.push(edge);
        proof {
            self@.lemma_add_edge_wf(edge);
        }
        Ok(new_graph)
    }

    /// Remove an existing edge then return the new graph and the deleted edge.
    /// Complexity: O(V + E).
    fn remove_edge(&self, edge: &Edge<K, W>) -> (r: Result<(Self, Edge<K, W>), GraphError>) {
        let from = *edge.from();
        let to = *edge.to();
        match find_edge(&self.edges, &from, &to, false) {
            Some(found) => {
                let removed_edge = self.edges[found];
                let is_link = |e: &Edge<K, W>| -> (b: bool)
                    ensures
                        b == links(*e, from, to, false),
                    {
                        (*e.from() == from && *e.to() == to) || (*e.from() == to && *e.to()
                            == from)
                    };
                let (edges, _) = split(&self.edges, is_link, Ghost(linking(from, to, false)));
                proof {
                    self@.lemma_edge_of(found as int, from, to);
                    self@.lemma_filter_edges_wf(except(linking(from, to, false)));
                }
                let vertices = copy_of(&self.vertices);
                Ok((BasicUndirectedGraph { vertices, edges }, removed_edge))
            },
            None => Err(GraphError::EdgeDoesNotExist),
        }
    }

    /// Remove all the edges then return the new graph and all the deleted edges.
    /// Complexity: O(V + E).
    fn remove_all_edges(&self) -> (r: Result<(Self, Vec<Edge<K, W>>), GraphError>) {
        let vertices = copy_of(&self.vertices);
        let new_graph = BasicUndirectedGraph { vertices, edges: Vec::new() };
        let edges = self.edges();

        Ok((new_graph, edges))
    }

    /// Remove all existing edges from or to a given vertex, then return the new
    /// graph and the deleted edges.
    /// Complexity: O(V + E).
    fn remove_all_edges_where_vertex(&self, vertex: &Vertex<K, V>) -> (r: Result<
        (Self, Vec<Edge<K, W>>),
        GraphError,
    >) {
        if find_vertex(&self.vertices, vertex.key()).is_none() {
            return Err(GraphError::VertexDoesNotExist);
        }
        proof {
            self@.lemma_filter_edges_wf(except(touching(*vertex.key())));
        }
        Ok(self.internal_remove_all_edges_where_vertex(vertex))
    }

    /// Remove all existing edges from a given vertex, then return the new graph
    /// and the deleted edges.
    /// In an undirected graph these are the edges that have the vertex at
    /// either end.
    /// Complexity: O(V + E).
    fn remove_all_edges_from_vertex(&self, vertex: &Vertex<K, V>) -> (r: Result<
        (Self, Vec<Edge<K, W>>),
        GraphError,
    >) {
        proof {
            assert(leaving::<K, W>(*vertex.key(), false) =~= touching(*vertex.key()));
            assert(except(leaving::<K, W>(*vertex.key(), false)) =~= except(
                touching(*vertex.key()),
            ));
        }
        self.remove_all_edges_where_vertex(vertex)
    }
}

impl<K: Key, V: Value, W: Weight> Kinship<K, V, W> for BasicUndirectedGraph<K, V, W> {
    /// Get the successors of each vertex.
    /// Complexity: O(V * E).
    fn successors(&self) -> (r: VertexMap<K, V, Vec<Edge<K, W>>>) {
        edge_lists(&self.vertices, &self.edges, true, false)
    }

    /// Get the predecessors of each vertex. In an undirected graph they are
    /// its successors.
    /// Complexity: O(V * E).
    fn predecessors(&self) -> (r: VertexMap<K, V, Vec<Edge<K, W>>>) {
        proof {
            assert forall|key: K| #[trigger]
                entering::<K, W>(key, false) =~= leaving::<K, W>(key, false) by {
            }
        }
        self.successors()
    }
}

impl<K: Key, V: Value, W: Weight> Algorithms<K, V, W> for BasicUndirectedGraph<K, V, W> {

}

impl<K: Key, V: Value, W: Weight> UndirectedGraph<K, V, W> for BasicUndirectedGraph<K, V, W> {
    proof fn direction_does_not_count(&self) {
    }
}

impl<K: Key, V: Value, W: Weight> BasicUndirectedGraph<K, V, W> {
    /// Create a new undirected graph.
    /// Complexity: O(1)
    pub fn new() -> (r: Self)
        ensures
            r@ == GraphView::<K, V, W>::empty(false),
            r@.wf(),
    {
        BasicUndirectedGraph { vertices: Vec::new(), edges: Vec::new() }
    }

    /// The graph without the edges that have the key of `vertex` at one end,
    /// and those edges. Whether the vertex is in the graph is not looked at.
    fn internal_remove_all_edges_where_vertex(&self, vertex: &Vertex<K, V>) -> (r: (
        Self,
        Vec<Edge<K, W>>,
    ))
        requires
            obeys_key_laws::<K>(),
        ensures
            r.0@.vertices == self@.vertices,
            r.0@.edges == self@.edges.filter(except(touching(*vertex.key()))),
            r.0@.directed == self@.directed,
            r.1@ == self@.edges.filter(touching(*vertex.key())),
    {
        let key = *vertex.key();
        let touches_key = |e: &Edge<K, W>| -> (b: bool)
            ensures
                b == touches(*e, key),
            { *e.from() == key || *e.to() == key };
        let (edges, removed_edges) = split(&self.edges, touches_key, Ghost(touching(key)));
        (BasicUndirectedGraph { vertices: copy_of(&self.vertices), edges }, removed_edges)
    }
}

} // verus!
