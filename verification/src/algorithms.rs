//! The algorithms that every graph offers: searching it breadth first and
//! depth first.

use crate::any_graph::AnyGraph;
use crate::kinship::Kinship;
use crate::model::GraphView;
use crate::search::search_graph;
use crate::sorting::computes;
use crate::types::natural_order;
use crate::types::obeys_key_laws;
use crate::types::Edge;
use crate::types::Key;
use crate::types::Value;
use crate::types::Vertex;
use crate::types::Weight;
use std::cmp::Ordering;
use vstd::prelude::*;

verus! {

/// Why an algorithm could not run.
#[derive(Debug, Clone, Copy, PartialEq, Eq, Structural)]
pub enum AlgorithmError {
    Unknown,
    VertexNotInGraph,
}

impl AlgorithmError {
    /// The text that describes the error, in specifications.
    pub open spec fn spec_message(&self) -> &'static str {
        match self {
            AlgorithmError::Unknown => "an unknown error has happened",
            AlgorithmError::VertexNotInGraph => "the vertex isn't in the graph",
        }
    }

    /// The text that describes the error.
    #[verifier::when_used_as_spec(spec_message)]
    pub fn message(&self) -> (r: &'static str)
        ensures
            r == self.message(),
    {
        match self {
            AlgorithmError::Unknown => "an unknown error has happened",
            AlgorithmError::VertexNotInGraph => "the vertex isn't in the graph",
        }
    }

    /// The text that describes the error, as an owned string.
    pub fn to_string(&self) -> (r: String)
        ensures
            r@ == self.message()@,
    {
        self.message().to_owned()
    }
}

/// Whether `precedes` is the relation that `order` follows: whatever `order`
/// answers of two edges, `precedes` holds of them exactly when the answer is
/// that the first comes before the second.
pub open spec fn follows<K: Key, W: Weight, F: Fn(&Edge<K, W>, &Edge<K, W>) -> Ordering>(
    order: &F,
    precedes: spec_fn(Edge<K, W>, Edge<K, W>) -> bool,
) -> bool {
    forall|a: &Edge<K, W>, b: &Edge<K, W>, o: Ordering| #[trigger]
        order.ensures((a, b), o) ==> (o == Ordering::Less) == precedes(*a, *b)
}

/// The relation of the natural order of edges: an edge precedes another when
/// its origin is less, or the origins are equal and its destination is less.
pub open spec fn precedes_naturally<K: Key, W: Weight>() -> spec_fn(
    Edge<K, W>,
    Edge<K, W>,
) -> bool {
    |a: Edge<K, W>, b: Edge<K, W>| natural_order(a, b) == Ordering::Less
}

impl<K: Key, V: Value, W: Weight> GraphView<K, V, W> {
    /// Search the graph breadth first from `start`.
    pub open spec fn bfs(
        self,
        start: K,
        precedes: spec_fn(Edge<K, W>, Edge<K, W>) -> bool,
    ) -> Result<Self, AlgorithmError> {
        self.search(start, precedes, true)
    }

    /// Search the graph depth first from `start`.
    pub open spec fn dfs(
        self,
        start: K,
        precedes: spec_fn(Edge<K, W>, Edge<K, W>) -> bool,
    ) -> Result<Self, AlgorithmError> {
        self.search(start, precedes, false)
    }

    /// Search the graph breadth first from its first vertex, with the edges
    /// in their natural order. A graph without vertices is its own result.
    pub open spec fn simple_bfs(self) -> Self {
        if self.vertices.len() == 0 {
            self
        } else {
            self.searched(*self.vertices[0].key(), precedes_naturally(), true)
        }
    }

    /// Search the graph depth first from its first vertex, with the edges in
    /// their natural order. A graph without vertices is its own result.
    pub open spec fn simple_dfs(self) -> Self {
        if self.vertices.len() == 0 {
            self
        } else {
            self.searched(*self.vertices[0].key(), precedes_naturally(), false)
        }
    }
}

/// An interface describing all the algorithms that can be used on any kind of graph.
pub trait Algorithms<K: Key, V: Value, W: Weight>: AnyGraph<K, V, W> + Kinship<K, V, W> {
    /// Search the graph breadth first and return the discovered graph.
    /// The search starts at the first vertex of the graph and treats the
    /// edges in their natural order. A graph without vertices has been
    /// searched already: the result is a copy of it.
    fn simple_bfs(&self) -> (r: Result<Self, AlgorithmError>)
        requires
            obeys_key_laws::<K>(),
            self@.wf(),
        ensures
            r matches Ok(found) && found@ == self@.simple_bfs() && found@.wf(),
    {
        let vertices = self.vertices();
        return if vertices.len() > 0 {
            let natural = |a: &Edge<K, W>, b: &Edge<K, W>| -> (o: Ordering)
                ensures
                    o == natural_order(*a, *b),
                { a.natural_cmp(b) };
            proof {
                assert(self@.has_key(*self@.vertices[0].key()));
                assert(follows(&natural, precedes_naturally::<K, W>()));
            }
            self.bfs(&vertices[0], natural)
        } else {
            let copy = self.clone();
            proof {
                self.clone_keeps_view(&copy);
            }
            Ok(copy)
        };
    }

    /// Search the graph breadth first from a starting vertex and return the
    /// discovered graph: the vertices of the graph with the edges that the
    /// search followed. The search fails where the starting vertex is not in
    /// the graph. The edges that originate at a vertex are treated in the
    /// order that `sorting_edges_fn` gives them: the result is that of the
    /// search by whatever relation `sorting_edges_fn` follows.
    fn bfs<F: Fn(&Edge<K, W>, &Edge<K, W>) -> Ordering>(
        &self,
        starting_vertex: &Vertex<K, V>,
        sorting_edges_fn: F,
    ) -> (r: Result<Self, AlgorithmError>)
        requires
            obeys_key_laws::<K>(),
            self@.wf(),
            forall|a: &Edge<K, W>, b: &Edge<K, W>| #[trigger] sorting_edges_fn.requires((a, b)),
        ensures
            match r {
                Ok(found) => {
                    &&& self@.has_key(*starting_vertex.key())
                    &&& found@.wf()
                    &&& found@.vertices == self@.vertices
                    &&& found@.directed == self@.directed
                    &&& forall|i: int|
                        0 <= i < found@.edges.len() ==> self@.edges.contains(
                            #[trigger] found@.edges[i],
                        )
                    &&& forall|precedes: spec_fn(Edge<K, W>, Edge<K, W>) -> bool| #[trigger]
                        follows(&sorting_edges_fn, precedes) ==> self@.bfs(
                            *starting_vertex.key(),
                            precedes,
                        ) == Ok::<GraphView<K, V, W>, AlgorithmError>(found@)
                },
                Err(error) => !self@.has_key(*starting_vertex.key()) && error
                    == AlgorithmError::VertexNotInGraph,
            },
    {
        let ghost answers = |a: Edge<K, W>, b: Edge<K, W>, o: Ordering|
            sorting_edges_fn.ensures((&a, &b), o);
        let less = |a: &Edge<K, W>, b: &Edge<K, W>| -> (r: bool)
            ensures
                exists|o: Ordering| #[trigger] answers(*a, *b, o) && r == (o == Ordering::Less),
            {
                let o = sorting_edges_fn(a, b);
                assert(answers(*a, *b, o));
                match o {
                    Ordering::Less => true,
                    _ => false,
                }
            };
        proof {
            assert forall|precedes: spec_fn(Edge<K, W>, Edge<K, W>) -> bool| #[trigger]
                follows(&sorting_edges_fn, precedes) implies computes(&less, precedes) by {
            }
        }
        search_graph(self, starting_vertex, less, true)
    }

    /// Search the graph depth first and return the discovered graph.
    /// The search starts at the first vertex of the graph and treats the
    /// edges in their natural order. A graph without vertices has been
    /// searched already: the result is a copy of it.
    fn simple_dfs(&self) -> (r: Result<Self, AlgorithmError>)
        requires
            obeys_key_laws::<K>(),
            self@.wf(),
        ensures
            r matches Ok(found) && found@ == self@.simple_dfs() && found@.wf(),
    {
        let vertices = self.vertices();
        return if vertices.len() > 0 {
            let natural = |a: &Edge<K, W>, b: &Edge<K, W>| -> (o: Ordering)
                ensures
                    o == natural_order(*a, *b),
                { a.natural_cmp(b) };
            proof {
                assert(self@.has_key(*self@.vertices[0].key()));
                assert(follows(&natural, precedes_naturally::<K, W>()));
            }
            self.dfs(&vertices[0], natural)
        } else {
            let copy = self.clone();
            proof {
                self.clone_keeps_view(&copy);
            }
            Ok(copy)
        };
    }

    /// Search the graph depth first from a starting vertex and return the
    /// discovered graph: the vertices of the graph with the edges that the
    /// search followed. The search fails where the starting vertex is not in
    /// the graph. The edges that originate at a vertex are treated in the
    /// order that `sorting_edges_fn` gives them: the result is that of the
    /// search by whatever relation `sorting_edges_fn` follows.
    fn dfs<F: Fn(&Edge<K, W>, &Edge<K, W>) -> Ordering>(
        &self,
        starting_vertex: &Vertex<K, V>,
        sorting_edges_fn: F,
    ) -> (r: Result<Self, AlgorithmError>)
        requires
            obeys_key_laws::<K>(),
            self@.wf(),
            forall|a: &Edge<K, W>, b: &Edge<K, W>| #[trigger] sorting_edges_fn.requires((a, b)),
        ensures
            match r {
                Ok(found) => {
                    &&& self@.has_key(*starting_vertex.key())
                    &&& found@.wf()
                    &&& found@.vertices == self@.vertices
                    &&& found@.directed == self@.directed
                    &&& forall|i: int|
                        0 <= i < found@.edges.len() ==> self@.edges.contains(
                            #[trigger] found@.edges[i],
                        )
                    &&& forall|precedes: spec_fn(Edge<K, W>, Edge<K, W>) -> bool| #[trigger]
                        follows(&sorting_edges_fn, precedes) ==> self@.dfs(
                            *starting_vertex.key(),
                            precedes,
                        ) == Ok::<GraphView<K, V, W>, AlgorithmError>(found@)
                },
                Err(error) => !self@.has_key(*starting_vertex.key()) && error
                    == AlgorithmError::VertexNotInGraph,
            },
    {
        let ghost answers = |a: Edge<K, W>, b: Edge<K, W>, o: Ordering|
            sorting_edges_fn.ensures((&a, &b), o);
        let less = |a: &Edge<K, W>, b: &Edge<K, W>| -> (r: bool)
            ensures
                exists|o: Ordering| #[trigger] answers(*a, *b, o) && r == (o == Ordering::Less),
            {
                let o = sorting_edges_fn(a, b);
                assert(answers(*a, *b, o));
                match o {
                    Ordering::Less => true,
                    _ => false,
                }
            };
        proof {
            assert forall|precedes: spec_fn(Edge<K, W>, Edge<K, W>) -> bool| #[trigger]
                follows(&sorting_edges_fn, precedes) implies computes(&less, precedes) by {
            }
        }
        search_graph(self, starting_vertex, less, false)
    }
}

/// Searching a graph again finds the same: two runs of `simple_bfs` on a
/// graph give graphs with the same vertices and the same edges in the same
/// order, and so do two runs of `simple_dfs`.
pub proof fn lemma_simple_search_repeats<K: Key, V: Value, W: Weight, G: Algorithms<K, V, W>>(
    graph: G,
    first: Result<G, AlgorithmError>,
    second: Result<G, AlgorithmError>,
)
    requires
        obeys_key_laws::<K>(),
        graph@.wf(),
        (call_ensures(G::simple_bfs, (&graph,), first) && call_ensures(
            G::simple_bfs,
            (&graph,),
            second,
        )) || (call_ensures(G::simple_dfs, (&graph,), first) && call_ensures(
            G::simple_dfs,
            (&graph,),
            second,
        )),
    ensures
        first matches Ok(a) && second matches Ok(b) && a@ == b@,
{
}

} // verus!
