//! Errors of graph configuration and execution.
use vstd::prelude::*;

verus! {

/// Errors raised while configuring, validating or running a graph.
#[derive(Debug, Clone, PartialEq, Eq)]
pub enum GraphError {
    Config(String),
    Runtime(String),
    /// The graph was stopped; elements report this when asked to wind down.
    NotRunning,
    Element { element: String, message: String },
    Validation { path: String, message: String },
    DuplicateNode(String),
    UnknownPort { node: String, port: String },
    PortTypeMismatch { from_node: String, from_port: String, to_node: String, to_port: String },
    CycleDetected,
    UnknownFormat(String),
}

/// A graph error as plain values.
pub enum GraphErrorView {
    Config(Seq<char>),
    Runtime(Seq<char>),
    NotRunning,
    Element { element: Seq<char>, message: Seq<char> },
    Validation { path: Seq<char>, message: Seq<char> },
    DuplicateNode(Seq<char>),
    UnknownPort { node: Seq<char>, port: Seq<char> },
    PortTypeMismatch { from_node: Seq<char>, from_port: Seq<char>, to_node: Seq<char>, to_port: Seq<char> },
    CycleDetected,
    UnknownFormat(Seq<char>),
}

impl View for GraphError {
    type V = GraphErrorView;

    open spec fn view(&self) -> GraphErrorView {
        match *self {
            GraphError::Config(m) => GraphErrorView::Config(m@),
            GraphError::Runtime(m) => GraphErrorView::Runtime(m@),
            GraphError::NotRunning => GraphErrorView::NotRunning,
            GraphError::Element { element, message } => GraphErrorView::Element {
                element: element@,
                message: message@,
            },
            GraphError::Validation { path, message } => GraphErrorView::Validation { path: path@, message: message@ },
            GraphError::DuplicateNode(name) => GraphErrorView::DuplicateNode(name@),
            GraphError::UnknownPort { node, port } => GraphErrorView::UnknownPort { node: node@, port: port@ },
            GraphError::PortTypeMismatch { from_node, from_port, to_node, to_port } =>
                GraphErrorView::PortTypeMismatch {
                from_node: from_node@,
                from_port: from_port@,
                to_node: to_node@,
                to_port: to_port@,
            },
            GraphError::CycleDetected => GraphErrorView::CycleDetected,
            GraphError::UnknownFormat(path) => GraphErrorView::UnknownFormat(path@),
        }
    }
}

/// The `Display` text of a graph error.
pub open spec fn graph_error_text(e: GraphError) -> Seq<char> {
    match e {
        GraphError::Config(m) => "configuration error: "@ + m@,
        GraphError::Runtime(m) => "runtime error: "@ + m@,
        GraphError::NotRunning => "graph is not running"@,
        GraphError::Element { element, message } => "element "@ + element@ + " failed: "@
            + message@,
        GraphError::Validation { path, message } => "validation error at "@ + path@ + ": "@
            + message@,
        GraphError::DuplicateNode(name) => "duplicate node: "@ + name@,
        GraphError::UnknownPort { node, port } => "unknown port "@ + node@ + "."@ + port@,
        GraphError::PortTypeMismatch { from_node, from_port, to_node, to_port } =>
            "port type mismatch: "@ + from_node@ + "."@ + from_port@ + " -> "@ + to_node@
            + "."@ + to_port@,
        GraphError::CycleDetected => "graph contains a cycle"@,
        GraphError::UnknownFormat(path) => "unknown graph format: "@ + path@,
    }
}

impl GraphError {
    /// The human-readable rendering of the error (its `Display` text).
    pub fn message(&self) -> (r: String)
        ensures
            r@ == graph_error_text(*self),
    {
        match self {
            GraphError::Config(m) => "configuration error: ".to_owned().concat(m.as_str()),
            GraphError::Runtime(m) => "runtime error: ".to_owned().concat(m.as_str()),
            GraphError::NotRunning => "graph is not running".to_owned(),
            GraphError::Element { element, message } => "element ".to_owned().concat(
                element.as_str(),
            ).concat(" failed: ").concat(message.as_str()),
            GraphError::Validation { path, message } => "validation error at ".to_owned().concat(
                path.as_str(),
            ).concat(": ").concat(message.as_str()),
            GraphError::DuplicateNode(name) => "duplicate node: ".to_owned().concat(name.as_str()),
            GraphError::UnknownPort { node, port } => "unknown port ".to_owned().concat(
                node.as_str(),
            ).concat(".").concat(port.as_str()),
            GraphError::PortTypeMismatch { from_node, from_port, to_node, to_port } =>
                "port type mismatch: ".to_owned().concat(from_node.as_str()).concat(".").concat(
                from_port.as_str(),
            ).concat(" -> ").concat(to_node.as_str()).concat(".").concat(to_port.as_str()),
            GraphError::CycleDetected => "graph contains a cycle".to_owned(),
            GraphError::UnknownFormat(path) => "unknown graph format: ".to_owned().concat(
                path.as_str(),
            ),
        }
    }
}

} // verus!
