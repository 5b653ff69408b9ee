use graphific::{AlgorithmError, GraphError};

#[test]
fn each_graph_error_has_its_message() {
    assert_eq!(
        "the vertex already exists in the graph",
        GraphError::VertexAlreadyExists.message()
    );
    assert_eq!(
        "the vertex doesn't exists in the graph",
        GraphError::VertexDoesNotExist.message()
    );
    assert_eq!(
        "the edge already exists in the graph",
        GraphError::EdgeAlreadyExists.message()
    );
    assert_eq!(
        "the edge doesn't exists in the graph",
        GraphError::EdgeDoesNotExist.message()
    );
    assert_eq!("a loop is created", GraphError::LoopCreated.message());
    assert_eq!("a cycle is created", GraphError::CycleCreated.message());
    assert_eq!("an unknown error has happened", GraphError::Unknown.message());
}

#[test]
fn each_algorithm_error_has_its_message() {
    assert_eq!(
        "an unknown error has happened",
        AlgorithmError::Unknown.message()
    );
    assert_eq!(
        "the vertex isn't in the graph",
        AlgorithmError::VertexNotInGraph.message()
    );
}

#[test]
fn an_error_gives_its_message_as_a_string() {
    assert_eq!(
        String::from("the edge already exists in the graph"),
        GraphError::EdgeAlreadyExists.to_string()
    );
    assert_eq!(
        String::from("the vertex isn't in the graph"),
        AlgorithmError::VertexNotInGraph.to_string()
    );
}

#[test]
fn errors_compare_by_their_kind() {
    assert_eq!(GraphError::LoopCreated, GraphError::LoopCreated);
    assert_ne!(GraphError::LoopCreated, GraphError::CycleCreated);
    assert_ne!(AlgorithmError::Unknown, AlgorithmError::VertexNotInGraph);
}
