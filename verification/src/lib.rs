//! `graphific` is a graph data structure library.
//!
//! A graph is a value that no operation changes: adding or removing a vertex
//! or an edge gives a new graph. What a graph holds is described by its view,
//! a [`GraphView`], and every operation is specified by what it makes of the
//! view.

pub mod algorithms;
pub mod any_graph;
pub mod basic_directed_graph;
pub mod basic_undirected_graph;
pub mod filters;
pub mod kinship;
pub mod model;
pub mod natural;
pub mod reachability;
pub mod search;
pub mod simple_directed_graph;
pub mod sorting;
mod store;
pub mod types;

pub use self::algorithms::AlgorithmError;
pub use self::algorithms::Algorithms;

pub use self::any_graph::AnyGraph;
pub use self::any_graph::DirectedGraph;
pub use self::any_graph::GraphError;
pub use self::any_graph::UndirectedGraph;

pub use self::kinship::KeyMap;
pub use self::kinship::Kinship;
pub use self::kinship::VertexMap;

pub use self::model::GraphView;

pub use self::types::Edge;
pub use self::types::Key;
pub use self::types::Value;
pub use self::types::Vertex;
pub use self::types::Weight;

pub use self::basic_directed_graph::BasicDirectedGraph;
pub use self::basic_undirected_graph::BasicUndirectedGraph;
pub use self::simple_directed_graph::SimpleDirectedGraph;
