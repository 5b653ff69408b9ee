//! What a search reaches: the keys that a search from a key arrives at are
//! the keys that can be reached from it along the edges of the graph.

use crate::filters::lemma_filter_target;
use crate::model::leaves;
use crate::model::leaving;
use crate::model::GraphView;
use crate::search::SearchState;
use crate::sorting::lemma_sort_by_rearranges;
use crate::sorting::sort_by;
use crate::types::Edge;
use crate::types::Key;
use crate::types::Value;
use crate::types::Weight;
use vstd::prelude::*;

verus! {

/// Whether one of `edges` arrives at `key`.
pub open spec fn arrival_among<K: Key, W: Weight>(edges: Seq<Edge<K, W>>, key: K) -> bool {
    exists|i: int| 0 <= i < edges.len() && (#[trigger] edges[i]).to() == key
}

/// Whether `edges` are a tree with `root` at its root: no edge arrives at
/// `root`, no two edges arrive at the same key, and every edge originates at
/// `root` or at a key at which an edge before it arrives.
pub open spec fn rooted_tree<K: Key, W: Weight>(edges: Seq<Edge<K, W>>, root: K) -> bool {
    &&& forall|i: int| 0 <= i < edges.len() ==> (#[trigger] edges[i]).to() != root
    &&& forall|i: int, j: int|
        0 <= i < j < edges.len() ==> (#[trigger] edges[i]).to() != (#[trigger] edges[j]).to()
    &&& forall|i: int|
        0 <= i < edges.len() ==> (#[trigger] edges[i]).from() == root || arrival_among(
            edges.take(i),
            *edges[i].from(),
        )
}

impl<K: Key, W: Weight> SearchState<K, W> {
    /// Whether one of the edges that were followed arrives at `key`.
    pub open spec fn arrives_at(self, key: K) -> bool {
        arrival_among(self.tree, key)
    }
}

impl<K: Key, V: Value, W: Weight> GraphView<K, V, W> {
    /// Whether a search goes from `a` to `b` in one step: one of the
    /// successors of `a` arrives at `b`.
    pub open spec fn step(self, a: K, b: K) -> bool {
        exists|i: int|
            0 <= i < self.edges.len() && leaves(#[trigger] self.edges[i], a, self.directed)
                && self.edges[i].to() == b
    }

    /// Whether `path` is a way through the graph: each of its keys but the
    /// first is a step from the one before.
    pub open spec fn way(self, path: Seq<K>) -> bool {
        forall|i: int| 0 <= i < path.len() - 1 ==> self.step(#[trigger] path[i], path[i + 1])
    }

    /// Whether `key` can be reached from `start`: a way through the graph
    /// begins at `start` and ends at `key`.
    pub open spec fn reaches(self, start: K, key: K) -> bool {
        exists|path: Seq<K>|
            #[trigger] self.way(path) && path.len() > 0 && path.first() == start && path.last()
                == key
    }

    /// What holds of a search from `start` at any time: `start` was reached;
    /// but for `start`, the keys that were reached are those that the edges
    /// that were followed arrive at; every key that was reached can be
    /// reached from `start`; and the edges that were followed are a tree
    /// with `start` at its root.
    pub open spec fn tracing(self, state: SearchState<K, W>, start: K) -> bool {
        &&& state.visited.contains(start)
        &&& forall|key: K| #[trigger]
            state.visited.contains(key) <==> key == start || state.arrives_at(key)
        &&& forall|key: K| #[trigger] state.visited.contains(key) ==> self.reaches(start, key)
        &&& rooted_tree(state.tree, start)
    }

    /// What holds of a search from `start` between rounds: besides `tracing`,
    /// whatever is a step from a key that was reached and has left the
    /// frontier was reached too.
    pub open spec fn exploring(self, state: SearchState<K, W>, start: K) -> bool {
        &&& self.tracing(state, start)
        &&& forall|key: K, next: K|
            state.visited.contains(key) && !state.frontier.contains(key) && #[trigger] self.step(
                key,
                next,
            ) ==> state.visited.contains(next)
    }

    /// A key can be reached from itself.
    pub proof fn lemma_reaches_itself(self, key: K)
        ensures
            self.reaches(key, key),
    {
        let path = seq![key];
        assert(self.way(path));
        assert(path.first() == key && path.last() == key);
    }

    /// What is a step from a key that can be reached can be reached.
    pub proof fn lemma_reaches_a_step_on(self, start: K, key: K, next: K)
        requires
            self.reaches(start, key),
            self.step(key, next),
        ensures
            self.reaches(start, next),
    {
        let path = choose|path: Seq<K>|
            #[trigger] self.way(path) && path.len() > 0 && path.first() == start && path.last()
                == key;
        let longer = path.push(next);
        assert forall|i: int| 0 <= i < longer.len() - 1 implies self.step(
            #[trigger] longer[i],
            longer[i + 1],
        ) by {
            if i < path.len() - 1 {
                assert(self.step(path[i], path[i + 1]));
            }
        }
        assert(self.way(longer));
        assert(longer.first() == start && longer.last() == next);
    }

    /// Where a set of keys holds `start` and every step from one of its keys
    /// leads to one of its keys, it holds every key that can be reached from
    /// `start`.
    pub proof fn lemma_reaches_within(self, keys: Set<K>, start: K, key: K)
        requires
            keys.contains(start),
            forall|a: K, b: K| keys.contains(a) && #[trigger] self.step(a, b) ==> keys.contains(b),
            self.reaches(start, key),
        ensures
            keys.contains(key),
    {
        let path = choose|path: Seq<K>|
            #[trigger] self.way(path) && path.len() > 0 && path.first() == start && path.last()
                == key;
        self.lemma_way_within(keys, path, path.len() - 1);
    }

    /// Where a set of keys holds the first key of a way and every step from
    /// one of its keys leads to one of its keys, it holds every key of the way.
    pub proof fn lemma_way_within(self, keys: Set<K>, path: Seq<K>, at: int)
        requires
            self.way(path),
            0 <= at < path.len(),
            keys.contains(path.first()),
            forall|a: K, b: K| keys.contains(a) && #[trigger] self.step(a, b) ==> keys.contains(b),
        ensures
            keys.contains(path[at]),
        decreases at,
    {
        if at > 0 {
            self.lemma_way_within(keys, path, at - 1);
            assert(self.step(path[at - 1], path[at - 1 + 1]));
        }
    }

    /// A search begins in a state of which `exploring` holds.
    pub proof fn lemma_explore_begins(self, start: K)
        ensures
            self.exploring(SearchState::begin(start), start),
    {
        let state = SearchState::<K, W>::begin(start);
        self.lemma_reaches_itself(start);
        assert(state.frontier[0] == start);
    }

    /// Looking at a successor of a key that can be reached keeps `tracing`.
    /// No key that was reached is forgotten, none leaves the frontier, a key
    /// that is reached now is in the frontier, and the key at which the edge
    /// arrives was reached afterwards.
    pub proof fn lemma_trace_visits(
        self,
        state: SearchState<K, W>,
        start: K,
        current: K,
        edge: Edge<K, W>,
    )
        requires
            self.tracing(state, start),
            state.visited.contains(current),
            self.edges.contains(edge),
            leaves(edge, current, self.directed),
        ensures
            self.tracing(state.visit(edge), start),
            state.visit(edge).visited.contains(*edge.to()),
            forall|key: K| #[trigger]
                state.visited.contains(key) ==> state.visit(edge).visited.contains(key),
            forall|key: K| #[trigger]
                state.frontier.contains(key) ==> state.visit(edge).frontier.contains(key),
            forall|key: K| #[trigger]
                state.visit(edge).visited.contains(key) && !state.visited.contains(key)
                    ==> state.visit(edge).frontier.contains(key),
    {
        let after = state.visit(edge);
        if !state.visited.contains(*edge.to()) {
            let to = *edge.to();
            assert(self.step(current, to)) by {
                let i = choose|i: int| 0 <= i < self.edges.len() && self.edges[i] == edge;
                assert(leaves(self.edges[i], current, self.directed));
            }
            self.lemma_reaches_a_step_on(start, current, to);
            assert(after.tree[state.tree.len() as int].to() == to);
            assert(after.frontier[state.frontier.len() as int] == to);
            assert forall|i: int| 0 <= i < after.tree.len() implies (
            #[trigger] after.tree[i]).from() == start || arrival_among(
                after.tree.take(i),
                *after.tree[i].from(),
            ) by {
                if i < state.tree.len() {
                    assert(after.tree.take(i) == state.tree.take(i));
                    assert(after.tree[i] == state.tree[i]);
                } else {
                    assert(after.tree.take(i) == state.tree);
                    assert(edge.from() == current);
                }
            }
            assert forall|i: int, j: int| 0 <= i < j < after.tree.len() implies (
            #[trigger] after.tree[i]).to() != (#[trigger] after.tree[j]).to() by {
                if j < state.tree.len() {
                    assert(state.tree[i].to() != state.tree[j].to());
                } else {
                    assert(state.arrives_at(*state.tree[i].to()));
                }
            }
            assert forall|key: K| #[trigger]
                state.frontier.contains(key) implies after.frontier.contains(key) by {
                let i = choose|i: int| 0 <= i < state.frontier.len() && state.frontier[i] == key;
                assert(after.frontier[i] == key);
            }
            assert forall|key: K| #[trigger]
                after.visited.contains(key) <==> key == start || after.arrives_at(key) by {
                if state.arrives_at(key) {
                    let i = choose|i: int|
                        0 <= i < state.tree.len() && (#[trigger] state.tree[i]).to() == key;
                    assert(after.tree[i].to() == key);
                }
                if after.arrives_at(key) {
                    let i = choose|i: int|
                        0 <= i < after.tree.len() && (#[trigger] after.tree[i]).to() == key;
                    if i < state.tree.len() {
                        assert(state.tree[i].to() == key);
                    }
                }
            }
        }
    }

    /// Looking at successors of a key that can be reached keeps `tracing`.
    /// No key that was reached is forgotten, none leaves the frontier, a key
    /// that is reached now is in the frontier, and the keys at which the
    /// edges arrive were all reached afterwards.
    pub proof fn lemma_trace_visits_all(
        self,
        state: SearchState<K, W>,
        start: K,
        current: K,
        edges: Seq<Edge<K, W>>,
    )
        requires
            self.tracing(state, start),
            state.visited.contains(current),
            forall|i: int|
                0 <= i < edges.len() ==> self.edges.contains(#[trigger] edges[i]) && leaves(
                    edges[i],
                    current,
                    self.directed,
                ),
        ensures
            self.tracing(state.visit_all(edges), start),
            forall|i: int|
                0 <= i < edges.len() ==> state.visit_all(edges).visited.contains(
                    *(#[trigger] edges[i]).to(),
                ),
            forall|key: K| #[trigger]
                state.visited.contains(key) ==> state.visit_all(edges).visited.contains(key),
            forall|key: K| #[trigger]
                state.frontier.contains(key) ==> state.visit_all(edges).frontier.contains(key),
            forall|key: K| #[trigger]
                state.visit_all(edges).visited.contains(key) && !state.visited.contains(key)
                    ==> state.visit_all(edges).frontier.contains(key),
        decreases edges.len(),
    {
        if edges.len() > 0 {
            let rest = edges.drop_last();
            let last = edges.last();
            assert forall|i: int| 0 <= i < rest.len() implies self.edges.contains(
                #[trigger] rest[i],
            ) && leaves(rest[i], current, self.directed) by {
                assert(rest[i] == edges[i]);
            }
            self.lemma_trace_visits_all(state, start, current, rest);
            let middle = state.visit_all(rest);
            assert(self.edges.contains(edges[edges.len() - 1]));
            assert(middle.visited.contains(current));
            self.lemma_trace_visits(middle, start, current, last);
            let after = middle.visit(last);
            assert forall|i: int| 0 <= i < edges.len() implies after.visited.contains(
                *(#[trigger] edges[i]).to(),
            ) by {
                if i < rest.len() {
                    assert(middle.visited.contains(*rest[i].to()));
                }
            }
        }
    }

    /// A round of a search keeps `exploring`.
    pub proof fn lemma_explore_round(
        self,
        state: SearchState<K, W>,
        start: K,
        precedes: spec_fn(Edge<K, W>, Edge<K, W>) -> bool,
        fifo: bool,
    )
        requires
            self.exploring(state, start),
            state.frontier.len() > 0,
            forall|i: int|
                0 <= i < state.frontier.len() ==> state.visited.contains(
                    #[trigger] state.frontier[i],
                ),
        ensures
            self.exploring(self.search_round(state, precedes, fifo), start),
    {
        broadcast use vstd::seq_lib::group_to_multiset_ensures;

        let current = if fifo {
            state.frontier.first()
        } else {
            state.frontier.last()
        };
        let rest = if fifo {
            state.frontier.drop_first()
        } else {
            state.frontier.drop_last()
        };
        let taken = SearchState { frontier: rest, ..state };
        assert(state.visited.contains(current)) by {
            if fifo {
                assert(current == state.frontier[0]);
            } else {
                assert(current == state.frontier[state.frontier.len() - 1]);
            }
        }
        let list = self.successors(current);
        let sorted = sort_by(list, precedes);
        lemma_sort_by_rearranges(list, precedes);
        assert forall|i: int| 0 <= i < sorted.len() implies self.edges.contains(
            #[trigger] sorted[i],
        ) && leaves(sorted[i], current, self.directed) by {
            assert(sorted.to_multiset().count(sorted[i]) > 0);
            assert(list.contains(sorted[i]));
            self.lemma_successors_leave(current, sorted[i]);
        }
        assert(self.tracing(taken, start));
        self.lemma_trace_visits_all(taken, start, current, sorted);
        let after = taken.visit_all(sorted);
        assert forall|key: K, next: K|
            after.visited.contains(key) && !after.frontier.contains(key) && #[trigger] self.step(
                key,
                next,
            ) implies after.visited.contains(next) by {
            if key == current {
                let i = choose|i: int|
                    0 <= i < self.edges.len() && leaves(
                        #[trigger] self.edges[i],
                        current,
                        self.directed,
                    ) && self.edges[i].to() == next;
                let j = lemma_filter_target(self.edges, leaving(current, self.directed), i);
                assert(list.contains(list[j]));
                assert(sorted.to_multiset().count(list[j]) > 0);
                let at = choose|at: int| 0 <= at < sorted.len() && sorted[at] == list[j];
                assert(after.visited.contains(*sorted[at].to()));
            } else {
                assert(state.visited.contains(key));
                assert(!taken.frontier.contains(key));
                assert(!rest.contains(key));
                assert(!state.frontier.contains(key)) by {
                    if state.frontier.contains(key) {
                        let i = choose|i: int|
                            0 <= i < state.frontier.len() && state.frontier[i] == key;
                        if fifo {
                            assert(rest[i - 1] == key);
                        } else {
                            assert(rest[i] == key);
                        }
                    }
                }
                assert(state.visited.contains(next));
            }
        }
    }

    /// Rounds of a search of a well formed graph keep `exploring`.
    pub proof fn lemma_explore_rounds(
        self,
        state: SearchState<K, W>,
        start: K,
        done: nat,
        precedes: spec_fn(Edge<K, W>, Edge<K, W>) -> bool,
        fifo: bool,
        rounds: nat,
    )
        requires
            self.wf(),
            self.searching(state, done),
            self.exploring(state, start),
        ensures
            self.exploring(self.search_rounds(state, precedes, fifo, rounds), start),
        decreases rounds,
    {
        if rounds > 0 && state.frontier.len() > 0 {
            self.lemma_search_round(state, done, precedes, fifo);
            self.lemma_explore_round(state, start, precedes, fifo);
            self.lemma_explore_rounds(
                self.search_round(state, precedes, fifo),
                start,
                done + 1,
                precedes,
                fifo,
                (rounds - 1) as nat,
            );
        }
    }

    /// A search of a well formed graph finds what can be reached: the keys
    /// that can be reached from `start` are `start` itself and the keys at
    /// which the edges of the result arrive. In which order the edges are
    /// followed, and whether breadth or depth comes first, makes no difference
    /// to that.
    pub proof fn lemma_search_reaches(
        self,
        start: K,
        precedes: spec_fn(Edge<K, W>, Edge<K, W>) -> bool,
        fifo: bool,
        key: K,
    )
        requires
            self.wf(),
            self.has_key(start),
        ensures
            self.reaches(start, key) <==> key == start || exists|i: int|
                0 <= i < self.searched(start, precedes, fifo).edges.len() && (
                #[trigger] self.searched(start, precedes, fifo).edges[i]).to() == key,
    {
        let begin = SearchState::<K, W>::begin(start);
        let end = self.search_rounds(begin, precedes, fifo, self.vertices.len());
        self.lemma_search_begins(start);
        self.lemma_explore_begins(start);
        self.lemma_search_ends(start, precedes, fifo);
        self.lemma_explore_rounds(begin, start, 0, precedes, fifo, self.vertices.len());
        assert(self.searched(start, precedes, fifo).edges == end.tree);
        assert forall|a: K, b: K|
            end.visited.contains(a) && #[trigger] self.step(a, b) implies end.visited.contains(
            b,
        ) by {
            assert(!end.frontier.contains(a));
        }
        if self.reaches(start, key) {
            self.lemma_reaches_within(end.visited, start, key);
        }
        assert(end.visited.contains(key) <==> key == start || end.arrives_at(key));
    }

    /// What a search of a well formed graph finds is a tree with `start` at
    /// its root: every key but `start` is arrived at by at most one edge of
    /// the result, `start` by none, and every edge originates at `start` or
    /// at a key that an edge before it arrives at.
    pub proof fn lemma_search_finds_a_tree(
        self,
        start: K,
        precedes: spec_fn(Edge<K, W>, Edge<K, W>) -> bool,
        fifo: bool,
    )
        requires
            self.wf(),
            self.has_key(start),
        ensures
            rooted_tree(self.searched(start, precedes, fifo).edges, start),
    {
        let begin = SearchState::<K, W>::begin(start);
        self.lemma_search_begins(start);
        self.lemma_explore_begins(start);
        self.lemma_explore_rounds(begin, start, 0, precedes, fifo, self.vertices.len());
    }
}

} // verus!
