//! Searching a graph from a vertex, breadth first or depth first: what the
//! search finds, and the search itself.

use crate::algorithms::AlgorithmError;
use crate::any_graph::AnyGraph;
use crate::any_graph::GraphError;
use crate::filters::lemma_filter_source;
use crate::kinship::lists_by_key;
use crate::kinship::Kinship;
use crate::model::leaves;
use crate::model::leaving;
use crate::model::links;
use crate::model::GraphView;
use crate::sorting::computes;
use crate::sorting::lemma_sort_by_keeps;
use crate::sorting::sort_by;
use crate::sorting::sorted_by;
use crate::store::find_key;
use crate::store::find_vertex;
use crate::types::obeys_key_laws;
use crate::types::Edge;
use crate::types::Key;
use crate::types::Value;
use crate::types::Vertex;
use crate::types::Weight;
use std::collections::VecDeque;
use vstd::prelude::*;
use vstd::seq_lib::seq_to_set_is_finite;
use vstd::set_lib::lemma_len_subset;

verus! {

/// How far a search has come.
#[verifier::reject_recursive_types(K)]
pub struct SearchState<K: Key, W: Weight> {
    /// The keys that were reached and whose edges are still to be followed,
    /// in the order in which they were reached.
    pub frontier: Seq<K>,
    /// The keys that were reached.
    pub visited: Set<K>,
    /// The edges by which keys were reached, in the order in which they were
    /// followed.
    pub tree: Seq<Edge<K, W>>,
}

impl<K: Key, W: Weight> SearchState<K, W> {
    /// Where a search from `start` begins: `start` is reached, and nothing else.
    pub open spec fn begin(start: K) -> Self {
        SearchState { frontier: seq![start], visited: set![start], tree: Seq::empty() }
    }

    /// Look at one edge. Where it leads to a key not reached yet, the edge is
    /// followed: the key is reached, and waits for its own edges to be
    /// followed. Else nothing changes.
    pub open spec fn visit(self, edge: Edge<K, W>) -> Self {
        if self.visited.contains(*edge.to()) {
            self
        } else {
            SearchState {
                frontier: self.frontier.push(*edge.to()),
                visited: self.visited.insert(*edge.to()),
                tree: self.tree.push(edge),
            }
        }
    }

    /// Look at each of `edges` in turn.
    pub open spec fn visit_all(self, edges: Seq<Edge<K, W>>) -> Self
        decreases edges.len(),
    {
        if edges.len() == 0 {
            self
        } else {
            self.visit_all(edges.drop_last()).visit(edges.last())
        }
    }
}

impl<K: Key, V: Value, W: Weight> GraphView<K, V, W> {
    /// One round of a search: a key leaves the frontier, the first that was
    /// reached where `fifo` holds, else the last, and its successors are
    /// looked at in the order that `precedes` gives them.
    pub open spec fn search_round(
        self,
        state: SearchState<K, W>,
        precedes: spec_fn(Edge<K, W>, Edge<K, W>) -> bool,
        fifo: bool,
    ) -> SearchState<K, W> {
        let current = if fifo {
            state.frontier.first()
        } else {
            state.frontier.last()
        };
        let rest = if fifo {
            state.frontier.drop_first()
        } else {
            state.frontier.drop_last()
        };
        (SearchState { frontier: rest, ..state }).visit_all(
            sort_by(self.successors(current), precedes),
        )
    }

    /// Rounds of a search, until the frontier is empty or `rounds` are done.
    pub open spec fn search_rounds(
        self,
        state: SearchState<K, W>,
        precedes: spec_fn(Edge<K, W>, Edge<K, W>) -> bool,
        fifo: bool,
        rounds: nat,
    ) -> SearchState<K, W>
        decreases rounds,
    {
        if rounds == 0 || state.frontier.len() == 0 {
            state
        } else {
            self.search_rounds(
                self.search_round(state, precedes, fifo),
                precedes,
                fifo,
                (rounds - 1) as nat,
            )
        }
    }

    /// What a search from `start` finds: the vertices of the graph and, of
    /// its edges, those that the search followed, in the order in which it
    /// followed them. A round for each vertex is enough to empty the frontier.
    pub open spec fn searched(
        self,
        start: K,
        precedes: spec_fn(Edge<K, W>, Edge<K, W>) -> bool,
        fifo: bool,
    ) -> Self {
        GraphView {
            edges: self.search_rounds(
                SearchState::begin(start),
                precedes,
                fifo,
                self.vertices.len(),
            ).tree,
            ..self
        }
    }

    /// Search the graph from `start`: breadth first where `fifo` holds, else
    /// depth first. The search fails where no vertex has the key `start`.
    pub open spec fn search(
        self,
        start: K,
        precedes: spec_fn(Edge<K, W>, Edge<K, W>) -> bool,
        fifo: bool,
    ) -> Result<Self, AlgorithmError> {
        if !self.has_key(start) {
            Err(AlgorithmError::VertexNotInGraph)
        } else {
            Ok(self.searched(start, precedes, fifo))
        }
    }

    /// What holds of a search of a well formed graph after `done` rounds:
    /// every key that was reached is in the graph and has left the frontier
    /// or is in it, once; the edges that were followed are edges of the graph
    /// and join keys that were reached; and the vertices with those edges are
    /// a well formed graph.
    pub open spec fn searching(self, state: SearchState<K, W>, done: nat) -> bool {
        &&& state.visited.finite()
        &&& done + state.frontier.len() == state.visited.len()
        &&& forall|key: K| #[trigger] state.visited.contains(key) ==> self.has_key(key)
        &&& forall|i: int|
            0 <= i < state.frontier.len() ==> state.visited.contains(#[trigger] state.frontier[i])
        &&& forall|i: int|
            0 <= i < state.tree.len() ==> self.edges.contains(#[trigger] state.tree[i])
                && state.visited.contains(*state.tree[i].from()) && state.visited.contains(
                *state.tree[i].to(),
            )
        &&& (GraphView { edges: state.tree, ..self }).wf()
    }

    /// A search begins in a state of which `searching` holds.
    pub proof fn lemma_search_begins(self, start: K)
        requires
            self.wf(),
            self.has_key(start),
        ensures
            self.searching(SearchState::begin(start), 0),
    {
        let state = SearchState::<K, W>::begin(start);
        assert(state.visited.len() == 1);
    }

    /// No more keys are reached than the graph has vertices.
    pub proof fn lemma_search_bound(self, state: SearchState<K, W>, done: nat)
        requires
            self.searching(state, done),
        ensures
            done + state.frontier.len() <= self.vertices.len(),
    {
        let keys = self.vertices.map_values(|v: Vertex<K, V>| *v.key());
        seq_to_set_is_finite(keys);
        keys.lemma_cardinality_of_set();
        assert forall|key: K| state.visited.contains(key) implies keys.to_set().contains(key) by {
            let i = choose|i: int|
                0 <= i < self.vertices.len() && (#[trigger] self.vertices[i]).key() == key;
            assert(keys[i] == key);
        }
        lemma_len_subset(state.visited, keys.to_set());
    }

    /// Taking a key from the frontier keeps `searching`, with one more round
    /// done.
    pub proof fn lemma_search_takes(self, state: SearchState<K, W>, done: nat, fifo: bool)
        requires
            self.searching(state, done),
            state.frontier.len() > 0,
        ensures
            self.searching(
                SearchState {
                    frontier: if fifo {
                        state.frontier.drop_first()
                    } else {
                        state.frontier.drop_last()
                    },
                    ..state
                },
                done + 1,
            ),
    {
        let rest = if fifo {
            state.frontier.drop_first()
        } else {
            state.frontier.drop_last()
        };
        assert forall|i: int| 0 <= i < rest.len() implies state.visited.contains(
            #[trigger] rest[i],
        ) by {
            if fifo {
                assert(rest[i] == state.frontier[i + 1]);
            } else {
                assert(rest[i] == state.frontier[i]);
            }
        }
    }

    /// Looking at an edge of the graph that starts at a key that was reached
    /// keeps `searching`. Where the edge is followed, it can be added to the
    /// edges that were followed before.
    pub proof fn lemma_search_visits(self, state: SearchState<K, W>, done: nat, edge: Edge<K, W>)
        requires
            self.wf(),
            self.searching(state, done),
            self.edges.contains(edge),
            !state.visited.contains(*edge.to()) ==> state.visited.contains(*edge.from()),
        ensures
            self.searching(state.visit(edge), done),
            !state.visited.contains(*edge.to()) ==> (GraphView {
                edges: state.tree,
                ..self
            }).add_edge(edge) == Ok::<Self, GraphError>(
                GraphView { edges: state.visit(edge).tree, ..self },
            ),
    {
        self.lemma_edges_join_vertices(edge);
        if !state.visited.contains(*edge.to()) {
            let before = GraphView { edges: state.tree, ..self };
            let after = state.visit(edge);
            assert forall|i: int| 0 <= i < state.tree.len() implies !links(
                #[trigger] state.tree[i],
                *edge.from(),
                *edge.to(),
                self.directed,
            ) by {
                assert(state.visited.contains(*state.tree[i].from()));
                assert(state.visited.contains(*state.tree[i].to()));
            }
            assert(!before.has_link(*edge.from(), *edge.to()));
            before.lemma_add_edge_wf(edge);
            assert forall|i: int| 0 <= i < after.frontier.len() implies after.visited.contains(
                #[trigger] after.frontier[i],
            ) by {
                if i < state.frontier.len() {
                    assert(state.visited.contains(state.frontier[i]));
                }
            }
            assert forall|i: int| 0 <= i < after.tree.len() implies self.edges.contains(
                #[trigger] after.tree[i],
            ) && after.visited.contains(*after.tree[i].from()) && after.visited.contains(
                *after.tree[i].to(),
            ) by {
                if i < state.tree.len() {
                    assert(self.edges.contains(state.tree[i]));
                    assert(state.visited.contains(*state.tree[i].from()));
                    assert(state.visited.contains(*state.tree[i].to()));
                }
            }
        }
    }

    /// The successors of a key are edges of the graph that originate at
    /// that key.
    pub proof fn lemma_successors_leave(self, key: K, edge: Edge<K, W>)
        requires
            self.successors(key).contains(edge),
        ensures
            self.edges.contains(edge),
            leaves(edge, key, self.directed),
    {
        let list = self.successors(key);
        let i = choose|i: int| 0 <= i < list.len() && list[i] == edge;
        let a = lemma_filter_source(self.edges, leaving(key, self.directed), i);
    }

    /// Looking at edges of the graph that originate at a key that was
    /// reached keeps `searching`, and the key among those reached.
    pub proof fn lemma_search_visits_all(
        self,
        state: SearchState<K, W>,
        done: nat,
        edges: Seq<Edge<K, W>>,
        key: K,
    )
        requires
            self.wf(),
            self.searching(state, done),
            state.visited.contains(key),
            forall|i: int|
                0 <= i < edges.len() ==> self.edges.contains(#[trigger] edges[i]) && leaves(
                    edges[i],
                    key,
                    self.directed,
                ),
        ensures
            self.searching(state.visit_all(edges), done),
            state.visit_all(edges).visited.contains(key),
        decreases edges.len(),
    {
        if edges.len() > 0 {
            let rest = edges.drop_last();
            assert forall|i: int| 0 <= i < rest.len() implies self.edges.contains(
                #[trigger] rest[i],
            ) && leaves(rest[i], key, self.directed) by {
                assert(rest[i] == edges[i]);
            }
            self.lemma_search_visits_all(state, done, rest, key);
            assert(leaves(edges[edges.len() - 1], key, self.directed));
            self.lemma_search_visits(state.visit_all(rest), done, edges.last());
        }
    }

    /// A round of a search of a well formed graph keeps `searching`, with
    /// one more round done.
    pub proof fn lemma_search_round(
        self,
        state: SearchState<K, W>,
        done: nat,
        precedes: spec_fn(Edge<K, W>, Edge<K, W>) -> bool,
        fifo: bool,
    )
        requires
            self.wf(),
            self.searching(state, done),
            state.frontier.len() > 0,
        ensures
            self.searching(self.search_round(state, precedes, fifo), done + 1),
    {
        let current = if fifo {
            state.frontier.first()
        } else {
            state.frontier.last()
        };
        let taken = SearchState {
            frontier: if fifo {
                state.frontier.drop_first()
            } else {
                state.frontier.drop_last()
            },
            ..state
        };
        self.lemma_search_takes(state, done, fifo);
        assert(state.visited.contains(current)) by {
            if fifo {
                assert(current == state.frontier[0]);
            } else {
                assert(current == state.frontier[state.frontier.len() - 1]);
            }
        }
        let list = self.successors(current);
        let holds = |edge: Edge<K, W>|
            self.edges.contains(edge) && leaves(edge, current, self.directed);
        assert forall|i: int| 0 <= i < list.len() implies holds(#[trigger] list[i]) by {
            assert(list.contains(list[i]));
            self.lemma_successors_leave(current, list[i]);
        }
        lemma_sort_by_keeps(list, precedes, holds);
        let sorted = sort_by(list, precedes);
        assert forall|i: int| 0 <= i < sorted.len() implies self.edges.contains(
            #[trigger] sorted[i],
        ) && leaves(sorted[i], current, self.directed) by {
            assert(holds(sorted[i]));
        }
        self.lemma_search_visits_all(taken, done + 1, sorted, current);
    }

    /// Rounds of a search of a well formed graph keep `searching`, and where
    /// there are as many as there are vertices still to reach, they empty the
    /// frontier.
    pub proof fn lemma_search_rounds(
        self,
        state: SearchState<K, W>,
        done: nat,
        precedes: spec_fn(Edge<K, W>, Edge<K, W>) -> bool,
        fifo: bool,
        rounds: nat,
    ) -> (end: nat)
        requires
            self.wf(),
            self.searching(state, done),
            done + rounds >= self.vertices.len(),
        ensures
            self.searching(self.search_rounds(state, precedes, fifo, rounds), end),
            self.search_rounds(state, precedes, fifo, rounds).frontier.len() == 0,
        decreases rounds,
    {
        self.lemma_search_bound(state, done);
        if state.frontier.len() == 0 {
            done
        } else {
            self.lemma_search_round(state, done, precedes, fifo);
            self.lemma_search_rounds(
                self.search_round(state, precedes, fifo),
                done + 1,
                precedes,
                fifo,
                (rounds - 1) as nat,
            )
        }
    }

    /// A search of a well formed graph from one of its keys comes to an end
    /// within a round for each vertex: the frontier is empty then. What it
    /// finds is a well formed graph, and its edges are edges of the graph.
    pub proof fn lemma_search_ends(
        self,
        start: K,
        precedes: spec_fn(Edge<K, W>, Edge<K, W>) -> bool,
        fifo: bool,
    )
        requires
            self.wf(),
            self.has_key(start),
        ensures
            self.search_rounds(
                SearchState::begin(start),
                precedes,
                fifo,
                self.vertices.len(),
            ).frontier.len() == 0,
            self.search(start, precedes, fifo) matches Ok(found) && found.wf() && forall|i: int|
                0 <= i < found.edges.len() ==> self.edges.contains(#[trigger] found.edges[i]),
    {
        self.lemma_search_begins(start);
        let end = self.lemma_search_rounds(
            SearchState::begin(start),
            0,
            precedes,
            fifo,
            self.vertices.len(),
        );
    }
}

/// Search `graph` from `starting_vertex`: breadth first where `fifo` holds,
/// else depth first. The successors of a vertex are looked at in the order
/// that `less` gives them. The result is `graph` with, of its edges, those
/// that the search followed.
pub fn search_graph<
    K: Key,
    V: Value,
    W: Weight,
    G: Kinship<K, V, W>,
    L: Fn(&Edge<K, W>, &Edge<K, W>) -> bool,
>(graph: &G, starting_vertex: &Vertex<K, V>, less: L, fifo: bool) -> (r: Result<G, AlgorithmError>)
    requires
        obeys_key_laws::<K>(),
        graph@.wf(),
        forall|a: &Edge<K, W>, b: &Edge<K, W>| #[trigger] less.requires((a, b)),
    ensures
        match r {
            Ok(found) => {
                &&& graph@.has_key(*starting_vertex.key())
                &&& found@.wf()
                &&& found@.vertices == graph@.vertices
                &&& found@.directed == graph@.directed
                &&& forall|i: int|
                    0 <= i < found@.edges.len() ==> graph@.edges.contains(
                        #[trigger] found@.edges[i],
                    )
                &&& forall|precedes: spec_fn(Edge<K, W>, Edge<K, W>) -> bool| #[trigger]
                    computes(&less, precedes) ==> graph@.search(
                        *starting_vertex.key(),
                        precedes,
                        fifo,
                    ) == Ok::<GraphView<K, V, W>, AlgorithmError>(found@)
            },
            Err(error) => !graph@.has_key(*starting_vertex.key()) && error
                == AlgorithmError::VertexNotInGraph,
        },
{
    let start = *starting_vertex.key();
    if find_vertex(&graph.vertices(), &start).is_none() {
        return Err(AlgorithmError::VertexNotInGraph);
    }
    let mut frontier: VecDeque<K> = VecDeque::new();
    frontier.push_back(start);

    return if let Ok((mut new_graph, _)) = graph.remove_all_edges() {
        let successors = graph.successors_as_key_and_edges();
        let mut flagged: Vec<K> = Vec::new();

        flagged.push(start);

        let ghost total = graph@.vertices.len();
        let ghost mut state = SearchState::<K, W>::begin(start);
        let ghost mut done: nat = 0;
        proof {
            graph@.lemma_search_begins(start);
            assert(frontier@ == state.frontier);
            assert forall|key: K| flagged@.contains(key) <==> state.visited.contains(key) by {
                assert(flagged@[0] == start);
            }
        }
        while frontier.len() > 0
            invariant
                obeys_key_laws::<K>(),
                graph@.wf(),
                forall|a: &Edge<K, W>, b: &Edge<K, W>| #[trigger] less.requires((a, b)),
                lists_by_key(successors@, graph@, true),
                total == graph@.vertices.len(),
                graph@.searching(state, done),
                new_graph@ == (GraphView { edges: state.tree, ..graph@ }),
                frontier@ == state.frontier,
                forall|key: K| flagged@.contains(key) <==> state.visited.contains(key),
                done <= total,
                forall|precedes: spec_fn(Edge<K, W>, Edge<K, W>) -> bool| #[trigger]
                    computes(&less, precedes) ==> graph@.search_rounds(
                        SearchState::begin(start),
                        precedes,
                        fifo,
                        total,
                    ) == graph@.search_rounds(state, precedes, fifo, (total - done) as nat),
            decreases total - done,
        {
            proof {
                graph@.lemma_search_bound(state, done);
                graph@.lemma_search_takes(state, done, fifo);
            }
            let ghost taken = SearchState {
                frontier: if fifo {
                    state.frontier.drop_first()
                } else {
                    state.frontier.drop_last()
                },
                ..state
            };
            let current = if fifo {
                frontier.pop_front().unwrap()
            } else {
                frontier.pop_back().unwrap()
            };
            proof {
                assert(state.visited.contains(current)) by {
                    if fifo {
                        assert(current == state.frontier[0]);
                    } else {
                        assert(current == state.frontier[state.frontier.len() - 1]);
                    }
                }
                assert(frontier@ == taken.frontier);
                let at = choose|at: int|
                    0 <= at < graph@.vertices.len() && (#[trigger] graph@.vertices[at]).key()
                        == current;
                assert(successors@[at].0 == current);
            }
            let neighbours = sorted_by(successors.get(&current).unwrap(), &less);
            proof {
                broadcast use vstd::seq_lib::group_to_multiset_ensures;

                assert(neighbours@.to_multiset() == graph@.successors(current).to_multiset());
                assert forall|j: int| 0 <= j < neighbours.len() implies {
                    let edge = #[trigger] neighbours@[j];
                    &&& graph@.edges.contains(edge)
                    &&& leaves(edge, current, graph@.directed)
                } by {
                    assert(neighbours@.to_multiset().contains(neighbours@[j]));
                    graph@.lemma_successors_leave(current, neighbours@[j]);
                }
            }

            let ghost mut seen = taken;
            let mut i: usize = 0;
            while i < neighbours.len()
                invariant
                    obeys_key_laws::<K>(),
                    graph@.wf(),
                    i <= neighbours.len(),
                    seen == taken.visit_all(neighbours@.take(i as int)),
                    graph@.searching(seen, done + 1),
                    new_graph@ == (GraphView { edges: seen.tree, ..graph@ }),
                    frontier@ == seen.frontier,
                    forall|key: K| flagged@.contains(key) <==> seen.visited.contains(key),
                    seen.visited.contains(current),
                    forall|j: int|
                        0 <= j < neighbours.len() ==> {
                            let edge = #[trigger] neighbours@[j];
                            &&& graph@.edges.contains(edge)
                            &&& leaves(edge, current, graph@.directed)
                        },
                decreases neighbours.len() - i,
            {
                let neighbour = neighbours[i];
                proof {
                    assert(neighbours@.take(i + 1).drop_last() == neighbours@.take(i as int));
                    assert(leaves(neighbours@[i as int], current, graph@.directed));
                    graph@.lemma_search_visits(seen, done + 1, neighbour);
                }
                if !find_key(&flagged, neighbour.to()) {
                    new_graph = new_graph.add_edge(neighbour).unwrap();
                    let ghost before = flagged@;
                    flagged.push(*neighbour.to());
                    frontier.push_back(*neighbour.to());
                    proof {
                        assert forall|key: K| flagged@.contains(key) <==> seen.visit(
                            neighbour,
                        ).visited.contains(key) by {
                            if before.contains(key) {
                                let at = choose|at: int|
                                    0 <= at < before.len() && before[at] == key;
                                assert(flagged@[at] == key);
                            }
                            if key == *neighbour.to() {
                                assert(flagged@[before.len() as int] == key);
                            }
                        }
                    }
                }
                proof {
                    seen = seen.visit(neighbour);
                }
                i += 1;
            }
            proof {
                assert(neighbours@.take(i as int) == neighbours@);
                assert forall|precedes: spec_fn(Edge<K, W>, Edge<K, W>) -> bool| #[trigger]
                    computes(&less, precedes) implies graph@.search_rounds(
                    SearchState::begin(start),
                    precedes,
                    fifo,
                    total,
                ) == graph@.search_rounds(seen, precedes, fifo, (total - (done + 1)) as nat) by {
                    assert(seen == graph@.search_round(state, precedes, fifo));
                }
                state = seen;
                done = done + 1;
            }
        }
        Ok(new_graph)
    } else {
        Err(AlgorithmError::Unknown)
    };
}

} // verus!
