//! The operations every graph offers, and the errors they report.

use crate::model::GraphView;
use crate::types::obeys_key_laws;
use crate::types::Edge;
use crate::types::Key;
use crate::types::Value;
use crate::types::Vertex;
use crate::types::Weight;
use vstd::prelude::*;

verus! {

/// Why an operation on a graph was refused.
#[derive(Debug, Clone, Copy, PartialEq, Eq, Structural)]
pub enum GraphError {
    Unknown,
    VertexAlreadyExists,
    EdgeAlreadyExists,
    VertexDoesNotExist,
    EdgeDoesNotExist,
    LoopCreated,
    CycleCreated,
}

impl GraphError {
    /// The text that describes the error, in specifications.
    pub open spec fn spec_message(&self) -> &'static str {
        match self {
            GraphError::VertexAlreadyExists => "the vertex already exists in the graph",
            GraphError::VertexDoesNotExist => "the vertex doesn't exists in the graph",
            GraphError::EdgeAlreadyExists => "the edge already exists in the graph",
            GraphError::EdgeDoesNotExist => "the edge doesn't exists in the graph",
            GraphError::LoopCreated => "a loop is created",
            GraphError::CycleCreated => "a cycle is created",
            GraphError::Unknown => "an unknown error has happened",
        }
    }

    /// The text that describes the error.
    #[verifier::when_used_as_spec(spec_message)]
    pub fn message(&self) -> (r: &'static str)
        ensures
            r == self.message(),
    {
        match self {
            GraphError::VertexAlreadyExists => "the vertex already exists in the graph",
            GraphError::VertexDoesNotExist => "the vertex doesn't exists in the graph",
            GraphError::EdgeAlreadyExists => "the edge already exists in the graph",
            GraphError::EdgeDoesNotExist => "the edge doesn't exists in the graph",
            GraphError::LoopCreated => "a loop is created",
            GraphError::CycleCreated => "a cycle is created",
            GraphError::Unknown => "an unknown error has happened",
        }
    }

    /// The text that describes the error, as an owned string.
    pub fn to_string(&self) -> (r: String)
        ensures
            r@ == self.message()@,
    {
        self.message().to_owned()
    }
}

/// An interface used for describing any kind of graph.
///
/// A graph is a value: no operation changes it. An operation that adds or
/// removes something gives a new graph and leaves the one it was called on as
/// it was. What a graph holds is its view, and each operation does to the view
/// what the operation of the same name does in [`GraphView`].
///
/// `K` is the type of the keys, `V` of the values that the vertices carry and
/// `W` of the weights that the edges carry.
pub trait AnyGraph<K: Key, V: Value, W: Weight>: Sized + Clone + PartialEq + View<
    V = GraphView<K, V, W>,
> {
    /// A clone of a graph holds what the graph holds.
    proof fn clone_keeps_view(&self, other: &Self)
        requires
            cloned(*self, *other),
        ensures
            other@ == self@,
    ;

    /// Get the vertices of the graph.
    fn vertices(&self) -> (r: Vec<Vertex<K, V>>)
        ensures
            r@ == self@.vertices,
    ;

    /// Get the edges of the graph.
    fn edges(&self) -> (r: Vec<Edge<K, W>>)
        ensures
            r@ == self@.edges,
    ;

    /// Add a new vertex then return the new graph.
    fn add_vertex(&self, vertex: Vertex<K, V>) -> (r: Result<Self, GraphError>)
        requires
            obeys_key_laws::<K>(),
            self@.wf(),
        ensures
            match r {
                Ok(graph) => self@.add_vertex(vertex) == Ok::<GraphView<K, V, W>, GraphError>(
                    graph@,
                ) && graph@.wf(),
                Err(error) => self@.add_vertex(vertex) == Err::<GraphView<K, V, W>, GraphError>(
                    error,
                ),
            },
    ;

    /// Remove a vertex then return the new graph, the deleted vertex and its edges.
    fn remove_vertex(&self, vertex: &Vertex<K, V>) -> (r: Result<
        (Self, Vertex<K, V>, Vec<Edge<K, W>>),
        GraphError,
    >)
        requires
            obeys_key_laws::<K>(),
            self@.wf(),
        ensures
            match r {
                Ok((graph, removed_vertex, removed_edges)) => self@.remove_vertex(*vertex.key())
                    == Ok::<_, GraphError>((graph@, removed_vertex, removed_edges@))
                    && graph@.wf(),
                Err(error) => self@.remove_vertex(*vertex.key()) == Err::<
                    (GraphView<K, V, W>, Vertex<K, V>, Seq<Edge<K, W>>),
                    GraphError,
                >(error),
            },
    ;

    /// Remove a vertex by its key then return the new graph, the deleted vertex
    /// and its edges.
    fn remove_vertex_where_key(&self, key: K) -> (r: Result<
        (Self, Vertex<K, V>, Vec<Edge<K, W>>),
        GraphError,
    >)
        requires
            obeys_key_laws::<K>(),
            self@.wf(),
        ensures
            match r {
                Ok((graph, removed_vertex, removed_edges)) => self@.remove_vertex(key) == Ok::<
                    _,
                    GraphError,
                >((graph@, removed_vertex, removed_edges@)) && graph@.wf(),
                Err(error) => self@.remove_vertex(key) == Err::<
                    (GraphView<K, V, W>, Vertex<K, V>, Seq<Edge<K, W>>),
                    GraphError,
                >(error),
            },
    {
        self.remove_vertex(&Vertex::new(key))
    }

    /// Remove all vertices then return the new graph, the deleted vertices and
    /// all the edges.
    fn remove_all_vertices(&self) -> (r: Result<
        (Self, Vec<Vertex<K, V>>, Vec<Edge<K, W>>),
        GraphError,
    >)
        ensures
            r matches Ok((graph, removed_vertices, removed_edges)) && self@.remove_all_vertices()
                == (graph@, removed_vertices@, removed_edges@) && graph@.wf(),
    ;

    /// Add a new edge then return the new graph.
    fn add_edge(&self, edge: Edge<K, W>) -> (r: Result<Self, GraphError>)
        requires
            obeys_key_laws::<K>(),
            self@.wf(),
        ensures
            match r {
                Ok(graph) => self@.add_edge(edge) == Ok::<GraphView<K, V, W>, GraphError>(graph@)
                    && graph@.wf(),
                Err(error) => self@.add_edge(edge) == Err::<GraphView<K, V, W>, GraphError>(
                    error,
                ),
            },
    ;

    /// Add a new edge between 2 keys then return the new graph. The edge
    /// carries the default weight.
    fn add_edge_between_keys(&self, key_from: K, key_to: K) -> (r: Result<Self, GraphError>)
        requires
            obeys_key_laws::<K>(),
            self@.wf(),
        ensures
            match r {
                Ok(graph) => graph@.wf() && exists|edge: Edge<K, W>|
                    {
                        &&& #[trigger] self@.add_edge(edge) == Ok::<
                            GraphView<K, V, W>,
                            GraphError,
                        >(graph@)
                        &&& edge.from() == key_from
                        &&& edge.to() == key_to
                        &&& call_ensures(W::default, (), *edge.weight())
                    },
                Err(error) => forall|edge: Edge<K, W>|
                    edge.from() == key_from && edge.to() == key_to ==> #[trigger] self@.add_edge(
                        edge,
                    ) == Err::<GraphView<K, V, W>, GraphError>(error),
            },
    {
        self.add_edge(Edge::new(key_from, key_to))
    }

    /// Remove an existing edge then return the new graph and the deleted edge.
    fn remove_edge(&self, edge: &Edge<K, W>) -> (r: Result<(Self, Edge<K, W>), GraphError>)
        requires
            obeys_key_laws::<K>(),
            self@.wf(),
        ensures
            match r {
                Ok((graph, removed_edge)) => self@.remove_edge(*edge.from(), *edge.to()) == Ok::<
                    _,
                    GraphError,
                >((graph@, removed_edge)) && graph@.wf(),
                Err(error) => self@.remove_edge(*edge.from(), *edge.to()) == Err::<
                    (GraphView<K, V, W>, Edge<K, W>),
                    GraphError,
                >(error),
            },
    ;

    /// Remove an existing edge by its keys, then return the new graph and the
    /// deleted edge.
    fn remove_edge_where_keys(&self, key_from: K, key_to: K) -> (r: Result<
        (Self, Edge<K, W>),
        GraphError,
    >)
        requires
            obeys_key_laws::<K>(),
            self@.wf(),
        ensures
            match r {
                Ok((graph, removed_edge)) => self@.remove_edge(key_from, key_to) == Ok::<
                    _,
                    GraphError,
                >((graph@, removed_edge)) && graph@.wf(),
                Err(error) => self@.remove_edge(key_from, key_to) == Err::<
                    (GraphView<K, V, W>, Edge<K, W>),
                    GraphError,
                >(error),
            },
    {
        self.remove_edge(&Edge::new(key_from, key_to))
    }

    /// Remove all the edges then return the new graph and all the deleted edges.
    fn remove_all_edges(&self) -> (r: Result<(Self, Vec<Edge<K, W>>), GraphError>)
        requires
            self@.wf(),
        ensures
            r matches Ok((graph, removed_edges)) && self@.remove_all_edges() == (
                graph@,
                removed_edges@,
            ) && graph@.wf(),
    ;

    /// Remove all existing edges from or to a given vertex, then return the new
    /// graph and the deleted edges.
    fn remove_all_edges_where_vertex(&self, vertex: &Vertex<K, V>) -> (r: Result<
        (Self, Vec<Edge<K, W>>),
        GraphError,
    >)
        requires
            obeys_key_laws::<K>(),
            self@.wf(),
        ensures
            match r {
                Ok((graph, removed_edges)) => self@.remove_all_edges_where(*vertex.key()) == Ok::<
                    _,
                    GraphError,
                >((graph@, removed_edges@)) && graph@.wf(),
                Err(error) => self@.remove_all_edges_where(*vertex.key()) == Err::<
                    (GraphView<K, V, W>, Seq<Edge<K, W>>),
                    GraphError,
                >(error),
            },
    ;

    /// Remove all existing edges from or to a given key, then return the new
    /// graph and the deleted edges.
    fn remove_all_edges_where_key(&self, key_from: K) -> (r: Result<
        (Self, Vec<Edge<K, W>>),
        GraphError,
    >)
        requires
            obeys_key_laws::<K>(),
            self@.wf(),
        ensures
            match r {
                Ok((graph, removed_edges)) => self@.remove_all_edges_where(key_from) == Ok::<
                    _,
                    GraphError,
                >((graph@, removed_edges@)) && graph@.wf(),
                Err(error) => self@.remove_all_edges_where(key_from) == Err::<
                    (GraphView<K, V, W>, Seq<Edge<K, W>>),
                    GraphError,
                >(error),
            },
    {
        self.remove_all_edges_where_vertex(&Vertex::new(key_from))
    }

    /// Remove all existing edges from a given vertex, then return the new graph
    /// and the deleted edges.
    fn remove_all_edges_from_vertex(&self, vertex: &Vertex<K, V>) -> (r: Result<
        (Self, Vec<Edge<K, W>>),
        GraphError,
    >)
        requires
            obeys_key_laws::<K>(),
            self@.wf(),
        ensures
            match r {
                Ok((graph, removed_edges)) => self@.remove_all_edges_from(*vertex.key()) == Ok::<
                    _,
                    GraphError,
                >((graph@, removed_edges@)) && graph@.wf(),
                Err(error) => self@.remove_all_edges_from(*vertex.key()) == Err::<
                    (GraphView<K, V, W>, Seq<Edge<K, W>>),
                    GraphError,
                >(error),
            },
    ;

    /// Remove all existing edges from a given key, then return the new graph and
    /// the deleted edges.
    fn remove_all_edges_from_key(&self, key_from: K) -> (r: Result<
        (Self, Vec<Edge<K, W>>),
        GraphError,
    >)
        requires
            obeys_key_laws::<K>(),
            self@.wf(),
        ensures
            match r {
                Ok((graph, removed_edges)) => self@.remove_all_edges_from(key_from) == Ok::<
                    _,
                    GraphError,
                >((graph@, removed_edges@)) && graph@.wf(),
                Err(error) => self@.remove_all_edges_from(key_from) == Err::<
                    (GraphView<K, V, W>, Seq<Edge<K, W>>),
                    GraphError,
                >(error),
            },
    {
        self.remove_all_edges_from_vertex(&Vertex::new(key_from))
    }
}

/// A graph in which the direction of an edge counts: an edge from `a` to `b`
/// and one from `b` to `a` are two edges.
pub trait DirectedGraph<K: Key, V: Value, W: Weight>: AnyGraph<K, V, W> {
    /// The view of such a graph says that the direction counts.
    proof fn direction_counts(&self)
        ensures
            self@.directed,
    ;
}

/// A graph in which the direction of an edge does not count: an edge between
/// `a` and `b` is the same whichever end it is said to lead from.
pub trait UndirectedGraph<K: Key, V: Value, W: Weight>: AnyGraph<K, V, W> {
    /// The view of such a graph says that the direction does not count.
    proof fn direction_does_not_count(&self)
        ensures
            !self@.directed,
    ;
}

} // verus!
