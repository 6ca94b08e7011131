//! Checking a graph configuration against the element kinds it may use.
use crate::graph::cycle::{cyclic, edge_names, has_cycle};
use crate::graph::element::{first_port_named, PortSchema};
use crate::graph::error::{GraphError, GraphErrorView};
use crate::graph::params::{check_params, param_violation, ParamCheck};
use crate::graph::schema::ParamField;
use crate::graph::spec::{
    execution_violation, parse_connection, texts, views, ConnectionSpec, GraphSpec, GraphView, NodeSpec, NodeView,
    ParallelType,
};
use crate::text::{decimal, decimal_spec, str_eq};
use vstd::prelude::*;

verus! {

/// An element kind as its registration declares it: its ports, its
/// parameters, and the check its nodes' parameters must pass when a graph
/// is loaded.
#[derive(Debug)]
pub struct ElementDescriptor {
    pub kind: String,
    pub input_ports: Vec<PortSchema>,
    pub output_ports: Vec<PortSchema>,
    pub params: Vec<ParamField>,
    pub validate: Option<ParamCheck>,
}

/// An index as an optional mathematical integer.
pub open spec fn opt_int(r: Option<usize>) -> Option<int> {
    match r {
        Some(i) => Some(i as int),
        None => None,
    }
}

/// `i` is the first catalog entry for `kind`.
pub open spec fn first_kind(cat: Seq<ElementDescriptor>, kind: Seq<char>, i: int) -> bool {
    &&& 0 <= i < cat.len()
    &&& cat[i].kind@ == kind
    &&& forall|j: int| 0 <= j < i ==> (#[trigger] cat[j]).kind@ != kind
}

/// The catalog entry that describes `kind`, if any.
pub open spec fn kind_index(cat: Seq<ElementDescriptor>, kind: Seq<char>) -> Option<int> {
    if exists|i: int| first_kind(cat, kind, i) {
        Some(choose|i: int| first_kind(cat, kind, i))
    } else {
        None
    }
}

/// `i` is the first node called `name`.
pub open spec fn first_node(nodes: Seq<NodeView>, name: Seq<char>, i: int) -> bool {
    &&& 0 <= i < nodes.len()
    &&& nodes[i].name == name
    &&& forall|j: int| 0 <= j < i ==> (#[trigger] nodes[j]).name != name
}

/// The node called `name`, if any.
pub open spec fn node_index(nodes: Seq<NodeView>, name: Seq<char>) -> Option<int> {
    if exists|i: int| first_node(nodes, name, i) {
        Some(choose|i: int| first_node(nodes, name, i))
    } else {
        None
    }
}

/// The port called `name`, if any.
pub open spec fn port_index(ports: Seq<PortSchema>, name: Seq<char>) -> Option<int> {
    if exists|i: int| first_port_named(ports, name, i) {
        Some(choose|i: int| first_port_named(ports, name, i))
    } else {
        None
    }
}

/// What node `i` breaks: a name used before, or a kind the catalog lacks.
pub open spec fn node_violation(nodes: Seq<NodeView>, cat: Seq<ElementDescriptor>, i: int) -> Option<GraphErrorView> {
    if exists|j: int| 0 <= j < i && (#[trigger] nodes[j]).name == nodes[i].name {
        Some(GraphErrorView::DuplicateNode(nodes[i].name))
    } else {
        match kind_index(cat, nodes[i].kind) {
            None => Some(GraphErrorView::Config("unknown element kind: "@ + nodes[i].kind)),
            Some(k) => match cat[k].validate {
                None => None,
                Some(check) => match param_violation(check, nodes[i].name, nodes[i].params) {
                    None => None,
                    Some(m) => Some(
                        GraphErrorView::Validation { path: "nodes["@ + nodes[i].name + "].params"@, message: m },
                    ),
                },
            },
        }
    }
}

/// The first violation among the first `n` nodes.
pub open spec fn nodes_violation(nodes: Seq<NodeView>, cat: Seq<ElementDescriptor>, n: int) -> Option<GraphErrorView>
    decreases n,
{
    if n <= 0 {
        None
    } else {
        match nodes_violation(nodes, cat, n - 1) {
            Some(v) => Some(v),
            None => node_violation(nodes, cat, n - 1),
        }
    }
}

/// What the instance count of node `i` breaks: zero instances, or several
/// outside pipeline execution.
pub open spec fn threads_violation_at(nodes: Seq<NodeView>, parallel: ParallelType, i: int) -> Option<GraphErrorView> {
    let path = "nodes["@ + nodes[i].name + "].threads"@;
    match nodes[i].threads {
        Some(t) => if t == 0 {
            Some(GraphErrorView::Validation { path, message: "threads must be >= 1"@ })
        } else if t > 1 && parallel != ParallelType::Pipeline {
            Some(GraphErrorView::Validation { path, message: "threads > 1 requires Pipeline execution"@ })
        } else {
            None
        },
        None => None,
    }
}

/// The first instance-count violation among the first `n` nodes.
pub open spec fn threads_violation(nodes: Seq<NodeView>, parallel: ParallelType, n: int) -> Option<GraphErrorView>
    decreases n,
{
    if n <= 0 {
        None
    } else {
        match threads_violation(nodes, parallel, n - 1) {
            Some(v) => Some(v),
            None => threads_violation_at(nodes, parallel, n - 1),
        }
    }
}

/// Connection `j` parses to an edge into port `port` of node `node`.
pub open spec fn feeds(conns: Seq<Seq<char>>, j: int, node: Seq<char>, port: Seq<char>) -> bool {
    match parse_connection(conns[j]) {
        Ok((_a, _b, c, d)) => c == node && d == port,
        Err(_) => false,
    }
}

/// What connection `k` breaks, given the nodes and the catalog.
pub open spec fn connection_violation(
    nodes: Seq<NodeView>,
    conns: Seq<Seq<char>>,
    cat: Seq<ElementDescriptor>,
    k: int,
) -> Option<GraphErrorView> {
    match parse_connection(conns[k]) {
        Err(m) => Some(GraphErrorView::Config(m)),
        Ok((fnode, fport, tnode, tport)) => {
            let path = "connections["@ + conns[k] + "]"@;
            let at = "connections["@ + decimal_spec(k as nat) + "]"@;
            match node_index(nodes, fnode) {
                None => Some(GraphErrorView::Validation { path, message: "unknown source node "@ + fnode }),
                Some(fi) => match node_index(nodes, tnode) {
                    None => Some(
                        GraphErrorView::Validation { path, message: "unknown destination node "@ + tnode },
                    ),
                    Some(ti) => match (kind_index(cat, nodes[fi].kind), kind_index(cat, nodes[ti].kind)) {
                        (Some(fk), Some(tk)) => match port_index(cat[fk].output_ports@, fport) {
                            None => Some(GraphErrorView::UnknownPort { node: fnode, port: fport }),
                            Some(op) => match port_index(cat[tk].input_ports@, tport) {
                                None => Some(GraphErrorView::UnknownPort { node: tnode, port: tport }),
                                Some(ip) => {
                                    let od = cat[fk].output_ports@[op].dtype;
                                    let id = cat[tk].input_ports@[ip].dtype;
                                    if od is Some && id is Some && od != id {
                                        Some(
                                            GraphErrorView::PortTypeMismatch {
                                                from_node: fnode,
                                                from_port: fport,
                                                to_node: tnode,
                                                to_port: tport,
                                            },
                                        )
                                    } else if exists|j: int|
                                        0 <= j < k && #[trigger] parse_connection(conns[j]) == Ok::<
                                            (Seq<char>, Seq<char>, Seq<char>, Seq<char>),
                                            Seq<char>,
                                        >((fnode, fport, tnode, tport)) {
                                        Some(
                                            GraphErrorView::Validation {
                                                path: at,
                                                message: "duplicate connection "@ + conns[k],
                                            },
                                        )
                                    } else if exists|j: int| 0 <= j < k && #[trigger] feeds(conns, j, tnode, tport) {
                                        Some(
                                            GraphErrorView::Validation {
                                                path: at,
                                                message: "input port "@ + tnode + "."@ + tport
                                                    + " already has an incoming connection"@,
                                            },
                                        )
                                    } else {
                                        None
                                    }
                                },
                            },
                        },
                        _ => None,
                    },
                },
            }
        },
    }
}

/// The first violation among the first `n` connections.
pub open spec fn connections_violation(
    nodes: Seq<NodeView>,
    conns: Seq<Seq<char>>,
    cat: Seq<ElementDescriptor>,
    n: int,
) -> Option<GraphErrorView>
    decreases n,
{
    if n <= 0 {
        None
    } else {
        match connections_violation(nodes, conns, cat, n - 1) {
            Some(v) => Some(v),
            None => connection_violation(nodes, conns, cat, n - 1),
        }
    }
}

/// The error for the first of the first `m` required input ports of node
/// `name` that no connection feeds.
pub open spec fn ports_violation(name: Seq<char>, ports: Seq<PortSchema>, conns: Seq<Seq<char>>, m: int) -> Option<
    GraphErrorView,
>
    decreases m,
{
    if m <= 0 {
        None
    } else {
        match ports_violation(name, ports, conns, m - 1) {
            Some(v) => Some(v),
            None => {
                let p = ports[m - 1];
                if p.required && !exists|j: int| 0 <= j < conns.len() && #[trigger] feeds(conns, j, name, p.name@) {
                    Some(
                        GraphErrorView::Validation {
                            path: "nodes["@ + name + "].ports["@ + p.name@ + "]"@,
                            message: "required input port "@ + name + "."@ + p.name@
                                + " has no incoming connection"@,
                        },
                    )
                } else {
                    None
                }
            },
        }
    }
}

/// The first unfed required input among the first `n` nodes.
pub open spec fn required_violation(
    nodes: Seq<NodeView>,
    conns: Seq<Seq<char>>,
    cat: Seq<ElementDescriptor>,
    n: int,
) -> Option<GraphErrorView>
    decreases n,
{
    if n <= 0 {
        None
    } else {
        match required_violation(nodes, conns, cat, n - 1) {
            Some(v) => Some(v),
            None => match kind_index(cat, nodes[n - 1].kind) {
                Some(ki) => ports_violation(
                    nodes[n - 1].name,
                    cat[ki].input_ports@,
                    conns,
                    cat[ki].input_ports@.len() as int,
                ),
                None => None,
            },
        }
    }
}

/// The edges `(from node, to node)` the connections describe.
pub open spec fn connection_edges(conns: Seq<Seq<char>>) -> Seq<(Seq<char>, Seq<char>)> {
    Seq::new(
        conns.len(),
        |k: int|
            match parse_connection(conns[k]) {
                Ok((a, _b, c, _d)) => (a, c),
                Err(_) => (Seq::empty(), Seq::empty()),
            },
    )
}

/// The first rule that graph `g` breaks against catalog `cat`, checked in
/// this order: execution settings, nodes (unique names, known kinds),
/// instance counts (at least one; several only in pipeline execution),
/// connections (well formed, known nodes and ports, matching data types, no
/// repeated connection, at most one connection into an input port),
/// required inputs fed, and no cycle unless cycles are allowed.
pub open spec fn graph_violation(g: GraphView, cat: Seq<ElementDescriptor>) -> Option<GraphErrorView> {
    match execution_violation(g.execution) {
        Some((path, message)) => Some(GraphErrorView::Validation { path, message }),
        None => match nodes_violation(g.nodes, cat, g.nodes.len() as int) {
            Some(v) => Some(v),
            None => match threads_violation(g.nodes, g.execution.parallel, g.nodes.len() as int) {
            Some(v) => Some(v),
            None => match connections_violation(g.nodes, g.connections, cat, g.connections.len() as int) {
                Some(v) => Some(v),
                None => match required_violation(g.nodes, g.connections, cat, g.nodes.len() as int) {
                    Some(v) => Some(v),
                    None => if !g.allow_cycles && cyclic(connection_edges(g.connections)) {
                        Some(GraphErrorView::CycleDetected)
                    } else {
                        None
                    },
                },
            },
            },
        },
    }
}

/// `r` reports exactly the violation `v`, or success when there is none.
pub open spec fn reports(r: Result<(), GraphError>, v: Option<GraphErrorView>) -> bool {
    match v {
        None => r is Ok,
        Some(e) => r matches Err(x) && x@ == e,
    }
}

/// The catalog entry for `kind`.
pub fn find_kind(cat: &[ElementDescriptor], kind: &str) -> (r: Option<usize>)
    ensures
        opt_int(r) == kind_index(cat@, kind@),
{
    let mut i: usize = 0;
    while i < cat.len()
        invariant
            i <= cat@.len(),
            forall|j: int| 0 <= j < i ==> (#[trigger] cat@[j]).kind@ != kind@,
        decreases cat@.len() - i,
    {
        if str_eq(cat[i].kind.as_str(), kind) {
            assert(first_kind(cat@, kind@, i as int));
            assert forall|c: int| #[trigger] first_kind(cat@, kind@, c) implies c == i by {
                if c > i {
                    assert(cat@[i as int].kind@ == kind@);
                }
            }
            return Some(i);
        }
        i += 1;
    }
    None
}

/// The node called `name`.
pub fn find_node(nodes: &[NodeSpec], name: &str) -> (r: Option<usize>)
    ensures
        opt_int(r) == node_index(views(nodes@), name@),
{
    let mut i: usize = 0;
    while i < nodes.len()
        invariant
            i <= nodes@.len(),
            forall|j: int| 0 <= j < i ==> (#[trigger] nodes@[j]).name@ != name@,
        decreases nodes@.len() - i,
    {
        if str_eq(nodes[i].name.as_str(), name) {
            assert(first_node(views(nodes@), name@, i as int));
            assert forall|c: int| #[trigger] first_node(views(nodes@), name@, c) implies c == i by {
                if c > i {
                    assert(views(nodes@)[i as int].name == name@);
                }
            }
            return Some(i);
        }
        i += 1;
    }
    None
}

/// The port called `name`.
pub fn find_port_index(ports: &[PortSchema], name: &str) -> (r: Option<usize>)
    ensures
        opt_int(r) == port_index(ports@, name@),
{
    let mut i: usize = 0;
    while i < ports.len()
        invariant
            i <= ports@.len(),
            forall|j: int| 0 <= j < i ==> (#[trigger] ports@[j]).name@ != name@,
        decreases ports@.len() - i,
    {
        if str_eq(ports[i].name, name) {
            assert(first_port_named(ports@, name@, i as int));
            assert forall|c: int| #[trigger] first_port_named(ports@, name@, c) implies c == i by {
                if c > i {
                    assert(ports@[i as int].name@ == name@);
                }
            }
            return Some(i);
        }
        i += 1;
    }
    None
}

/// Connection `j` of the graph, as parsed.
pub open spec fn parsed_as(c: ConnectionSpec, s: Seq<char>) -> bool {
    parse_connection(s) == Ok::<(Seq<char>, Seq<char>, Seq<char>, Seq<char>), Seq<char>>(
        (c.from_node@, c.from_port@, c.to_node@, c.to_port@),
    )
}

impl GraphSpec {
    /// Checks the graph against the element kinds of `catalog` and reports
    /// the first rule it breaks (see `graph_violation` for the rules and
    /// their order).
    pub fn validate(&self, catalog: &[ElementDescriptor]) -> (r: Result<(), GraphError>)
        ensures
            reports(r, graph_violation(self@, catalog@)),
    {
        match self.execution.validate() {
            Ok(()) => {},
            Err(e) => {
                return Err(e);
            },
        }
        let ghost nodes = self@.nodes;
        let ghost conns = self@.connections;
        let ghost cat = catalog@;
        let kinds = self.check_nodes(catalog);
        let kinds = match kinds {
            Ok(k) => k,
            Err(e) => {
                return Err(e);
            },
        };
        match self.check_threads() {
            Ok(()) => {},
            Err(e) => {
                return Err(e);
            },
        }
        let parsed = match self.check_connections(catalog, &kinds) {
            Ok(p) => p,
            Err(e) => {
                return Err(e);
            },
        };
        match self.check_required(catalog, &kinds, &parsed) {
            Ok(()) => {},
            Err(e) => {
                return Err(e);
            },
        }
        let mut edges: Vec<(String, String)> = Vec::new();
        let mut k: usize = 0;
        while k < parsed.len()
            invariant
                parsed@.len() == conns.len(),
                conns == self@.connections,
                forall|j: int| 0 <= j < parsed@.len() ==> parsed_as(#[trigger] parsed@[j], conns[j]),
                k <= parsed@.len(),
                edges@.len() == k,
                edge_names(edges@) == connection_edges(conns).take(k as int),
            decreases parsed@.len() - k,
        {
            edges.push((parsed[k].from_node.clone(), parsed[k].to_node.clone()));
            proof {
                let ce = connection_edges(conns);
                assert(parsed_as(parsed@[k as int], conns[k as int]));
                assert(ce[k as int] == (parsed@[k as int].from_node@, parsed@[k as int].to_node@));
                assert(edge_names(edges@)[k as int] == ce[k as int]);
                assert forall|m: int| 0 <= m < k implies edge_names(edges@)[m] == ce.take(k + 1)[m] by {
                    assert(ce.take(k as int)[m] == ce[m]);
                }
                assert(edge_names(edges@) =~= ce.take(k + 1));
            }
            k += 1;
        }
        assert(connection_edges(conns).take(k as int) =~= connection_edges(conns));
        if !self.allow_cycles && has_cycle(edges.as_slice()) {
            return Err(GraphError::CycleDetected);
        }
        Ok(())
    }

    /// Node names are unique and every kind is in the catalog; gives the
    /// catalog entry of each node.
    fn check_nodes(&self, catalog: &[ElementDescriptor]) -> (r: Result<Vec<usize>, GraphError>)
        requires
            execution_violation(self.execution) is None,
        ensures
            match nodes_violation(self@.nodes, catalog@, self@.nodes.len() as int) {
                Some(v) => r matches Err(e) && e@ == v,
                None => r matches Ok(kinds) && kinds@.len() == self@.nodes.len() && forall|j: int|
                    0 <= j < kinds@.len() ==> kind_index(catalog@, self@.nodes[j].kind) == Some(
                        #[trigger] kinds@[j] as int,
                    ),
            },
    {
        let ghost nodes = self@.nodes;
        let ghost cat = catalog@;
        let mut kinds: Vec<usize> = Vec::new();
        let mut i: usize = 0;
        while i < self.nodes.len()
            invariant
                nodes == self@.nodes,
                cat == catalog@,
                i <= nodes.len(),
                nodes_violation(nodes, cat, i as int) is None,
                kinds@.len() == i,
                forall|j: int| 0 <= j < i ==> kind_index(cat, nodes[j].kind) == Some(#[trigger] kinds@[j] as int),
            decreases nodes.len() - i,
        {
            assert(nodes_violation(nodes, cat, i + 1) == node_violation(nodes, cat, i as int));
            if name_used_before(self.nodes.as_slice(), i) {
                proof {
                    let j = choose|j: int| 0 <= j < i && (#[trigger] self.nodes@[j]).name@ == self.nodes@[i as int].name@;
                    assert(nodes[j].name == nodes[i as int].name);
                    assert(nodes_violation(nodes, cat, i + 1) == node_violation(nodes, cat, i as int));
                    lemma_nodes_violation_stays(nodes, cat, i + 1, nodes.len() as int);
                }
                return Err(GraphError::DuplicateNode(self.nodes[i].name.clone()));
            }
            match find_kind(catalog, self.nodes[i].kind.as_str()) {
                None => {
                    proof {
                        lemma_nodes_violation_stays(nodes, cat, i + 1, nodes.len() as int);
                    }
                    return Err(
                        GraphError::Config("unknown element kind: ".to_owned().concat(self.nodes[i].kind.as_str())),
                    );
                },
                Some(ki) => {
                    match catalog[ki].validate {
                        None => {},
                        Some(check) => match check_params(check, self.nodes[i].name.as_str(), &self.nodes[i].params) {
                            Ok(()) => {},
                            Err(m) => {
                                proof {
                                    lemma_nodes_violation_stays(nodes, cat, i + 1, nodes.len() as int);
                                }
                                let path = "nodes[".to_string().concat(self.nodes[i].name.as_str()).concat("].params");
                                assert(path@ =~= "nodes["@ + nodes[i as int].name + "].params"@);
                                return Err(GraphError::Validation { path, message: m });
                            },
                        },
                    }
                    kinds.push(ki);
                },
            }
            assert(node_violation(nodes, cat, i as int) is None);
            i += 1;
        }
        Ok(kinds)
    }
}

impl GraphSpec {
    /// Every connection parses, joins known nodes and ports of matching data
    /// types, is not repeated and feeds a port nothing else feeds; gives the
    /// parsed connections.
    fn check_connections(&self, catalog: &[ElementDescriptor], kinds: &Vec<usize>) -> (r: Result<
        Vec<ConnectionSpec>,
        GraphError,
    >)
        requires
            nodes_violation(self@.nodes, catalog@, self@.nodes.len() as int) is None,
            kinds@.len() == self@.nodes.len(),
            forall|j: int|
                0 <= j < kinds@.len() ==> kind_index(catalog@, self@.nodes[j].kind) == Some(
                    #[trigger] kinds@[j] as int,
                ),
        ensures
            match connections_violation(self@.nodes, self@.connections, catalog@, self@.connections.len() as int) {
                Some(v) => r matches Err(e) && e@ == v,
                None => r matches Ok(parsed) && parsed@.len() == self@.connections.len() && forall|j: int|
                    0 <= j < parsed@.len() ==> parsed_as(#[trigger] parsed@[j], self@.connections[j]),
            },
    {
        let ghost nodes = self@.nodes;
        let ghost conns = self@.connections;
        let ghost cat = catalog@;
        let ghost n = conns.len() as int;
        let mut parsed: Vec<ConnectionSpec> = Vec::new();
        let mut k: usize = 0;
        while k < self.connections.len()
            invariant
                nodes == self@.nodes,
                conns == self@.connections,
                cat == catalog@,
                n == conns.len(),
                kinds@.len() == nodes.len(),
                forall|j: int| 0 <= j < kinds@.len() ==> kind_index(cat, nodes[j].kind) == Some(#[trigger] kinds@[j] as int),
                k <= conns.len(),
                connections_violation(nodes, conns, cat, k as int) is None,
                parsed@.len() == k,
                forall|j: int| 0 <= j < k ==> parsed_as(#[trigger] parsed@[j], conns[j]),
            decreases conns.len() - k,
        {
            let conn = self.connections[k].as_str();
            proof {
                assert(connections_violation(nodes, conns, cat, k + 1) == connection_violation(nodes, conns, cat, k as int));
            }
            let c = match ConnectionSpec::parse(conn) {
                Ok(c) => c,
                Err(e) => {
                    proof { lemma_connections_violation_stays(nodes, conns, cat, k + 1, n); }
                    return Err(e);
                },
            };
            let fi = match find_node(self.nodes.as_slice(), c.from_node.as_str()) {
                Some(i) => i,
                None => {
                    proof { lemma_connections_violation_stays(nodes, conns, cat, k + 1, n); }
                    return Err(
                        GraphError::Validation {
                            path: "connections[".to_owned().concat(conn).concat("]"),
                            message: "unknown source node ".to_owned().concat(c.from_node.as_str()),
                        },
                    );
                },
            };
            let ti = match find_node(self.nodes.as_slice(), c.to_node.as_str()) {
                Some(i) => i,
                None => {
                    proof { lemma_connections_violation_stays(nodes, conns, cat, k + 1, n); }
                    return Err(
                        GraphError::Validation {
                            path: "connections[".to_owned().concat(conn).concat("]"),
                            message: "unknown destination node ".to_owned().concat(c.to_node.as_str()),
                        },
                    );
                },
            };
            let fk = kinds[fi];
            let tk = kinds[ti];
            assert(kind_index(cat, nodes[fi as int].kind) == Some(fk as int));
            assert(kind_index(cat, nodes[ti as int].kind) == Some(tk as int));
            let op = match find_port_index(catalog[fk].output_ports.as_slice(), c.from_port.as_str()) {
                Some(p) => p,
                None => {
                    proof { lemma_connections_violation_stays(nodes, conns, cat, k + 1, n); }
                    return Err(GraphError::UnknownPort { node: c.from_node.clone(), port: c.from_port.clone() });
                },
            };
            let ip = match find_port_index(catalog[tk].input_ports.as_slice(), c.to_port.as_str()) {
                Some(p) => p,
                None => {
                    proof { lemma_connections_violation_stays(nodes, conns, cat, k + 1, n); }
                    return Err(GraphError::UnknownPort { node: c.to_node.clone(), port: c.to_port.clone() });
                },
            };
            let od = catalog[fk].output_ports[op].dtype;
            let id = catalog[tk].input_ports[ip].dtype;
            match (od, id) {
                (Some(a), Some(b)) => {
                    if a != b {
                        proof { lemma_connections_violation_stays(nodes, conns, cat, k + 1, n); }
                        return Err(
                            GraphError::PortTypeMismatch {
                                from_node: c.from_node.clone(),
                                from_port: c.from_port.clone(),
                                to_node: c.to_node.clone(),
                                to_port: c.to_port.clone(),
                            },
                        );
                    }
                },
                _ => {},
            }
            match position_of_same(&parsed, &c) {
                Some(j) => {
                    proof {
                        assert(parsed_as(parsed@[j as int], conns[j as int]));
                        lemma_connections_violation_stays(nodes, conns, cat, k + 1, n);
                    }
                    return Err(
                        GraphError::Validation {
                            path: "connections[".to_owned().concat(decimal(k).as_str()).concat("]"),
                            message: "duplicate connection ".to_owned().concat(conn),
                        },
                    );
                },
                None => {},
            }
            assert forall|m: int| 0 <= m < k implies #[trigger] parse_connection(conns[m]) != Ok::<
                (Seq<char>, Seq<char>, Seq<char>, Seq<char>),
                Seq<char>,
            >((c.from_node@, c.from_port@, c.to_node@, c.to_port@)) by {
                assert(parsed_as(parsed@[m], conns[m]));
            }
            match position_feeding(&parsed, c.to_node.as_str(), c.to_port.as_str()) {
                Some(j) => {
                    proof {
                        assert(parsed_as(parsed@[j as int], conns[j as int]));
                        assert(feeds(conns, j as int, c.to_node@, c.to_port@));
                        lemma_connections_violation_stays(nodes, conns, cat, k + 1, n);
                    }
                    return Err(
                        GraphError::Validation {
                            path: "connections[".to_owned().concat(decimal(k).as_str()).concat("]"),
                            message: "input port ".to_owned().concat(c.to_node.as_str()).concat(".").concat(
                                c.to_port.as_str(),
                            ).concat(" already has an incoming connection"),
                        },
                    );
                },
                None => {},
            }
            assert forall|m: int| 0 <= m < k implies !#[trigger] feeds(conns, m, c.to_node@, c.to_port@) by {
                assert(parsed_as(parsed@[m], conns[m]));
            }
            assert(connection_violation(nodes, conns, cat, k as int) is None);
            parsed.push(c);
            k += 1;
        }
        Ok(parsed)
    }
}

/// Once a prefix reports a violation, every longer prefix reports the same.
proof fn lemma_connections_violation_stays(
    nodes: Seq<NodeView>,
    conns: Seq<Seq<char>>,
    cat: Seq<ElementDescriptor>,
    i: int,
    n: int,
)
    requires
        i <= n,
        connections_violation(nodes, conns, cat, i) is Some,
    ensures
        connections_violation(nodes, conns, cat, n) == connections_violation(nodes, conns, cat, i),
    decreases n - i,
{
    if i < n {
        lemma_connections_violation_stays(nodes, conns, cat, i, n - 1);
    }
}

/// A connection from an output port to an input port whose declared data
/// types differ makes the graph invalid: when connection `k` names two known
/// nodes of known kinds and a known port on each side, and both ports declare
/// a data type and the two differ, `validate` fails. When no earlier rule
/// fires (execution settings, nodes, instance counts, earlier connections),
/// the failure is `PortTypeMismatch` naming both ends of the connection.
pub proof fn lemma_port_type_mismatch_rejected(
    g: GraphView,
    cat: Seq<ElementDescriptor>,
    k: int,
    ends: (Seq<char>, Seq<char>, Seq<char>, Seq<char>),
    fi: int,
    ti: int,
    fk: int,
    tk: int,
    op: int,
    ip: int,
)
    requires
        0 <= k < g.connections.len(),
        parse_connection(g.connections[k]) == Ok::<(Seq<char>, Seq<char>, Seq<char>, Seq<char>), Seq<char>>(ends),
        node_index(g.nodes, ends.0) == Some(fi),
        node_index(g.nodes, ends.2) == Some(ti),
        kind_index(cat, g.nodes[fi].kind) == Some(fk),
        kind_index(cat, g.nodes[ti].kind) == Some(tk),
        port_index(cat[fk].output_ports@, ends.1) == Some(op),
        port_index(cat[tk].input_ports@, ends.3) == Some(ip),
        cat[fk].output_ports@[op].dtype is Some,
        cat[tk].input_ports@[ip].dtype is Some,
        cat[fk].output_ports@[op].dtype != cat[tk].input_ports@[ip].dtype,
    ensures
        graph_violation(g, cat) is Some,
        execution_violation(g.execution) is None && nodes_violation(g.nodes, cat, g.nodes.len() as int) is None
            && threads_violation(g.nodes, g.execution.parallel, g.nodes.len() as int) is None
            && connections_violation(g.nodes, g.connections, cat, k) is None ==> graph_violation(g, cat) == Some(
            GraphErrorView::PortTypeMismatch { from_node: ends.0, from_port: ends.1, to_node: ends.2, to_port: ends.3 },
        ),
{
    let nodes = g.nodes;
    let conns = g.connections;
    let mismatch = GraphErrorView::PortTypeMismatch {
        from_node: ends.0,
        from_port: ends.1,
        to_node: ends.2,
        to_port: ends.3,
    };
    assert(connection_violation(nodes, conns, cat, k) == Some(mismatch));
    assert(connections_violation(nodes, conns, cat, k + 1) is Some);
    lemma_connections_violation_stays(nodes, conns, cat, k + 1, conns.len() as int);
    if connections_violation(nodes, conns, cat, k) is None {
        assert(connections_violation(nodes, conns, cat, k + 1) == Some(mismatch));
    }
}

/// An input port fed by two connections makes the graph invalid: when
/// connection `k` names two known nodes of known kinds and a known port on
/// each side, and an earlier connection `j` also ends at the same input
/// port, `validate` fails (a repeated connection, a second feeder, or an
/// earlier rule).
pub proof fn lemma_doubly_fed_input_rejected(
    g: GraphView,
    cat: Seq<ElementDescriptor>,
    j: int,
    k: int,
    ends: (Seq<char>, Seq<char>, Seq<char>, Seq<char>),
    fi: int,
    ti: int,
    fk: int,
    tk: int,
)
    requires
        0 <= j < k < g.connections.len(),
        parse_connection(g.connections[k]) == Ok::<(Seq<char>, Seq<char>, Seq<char>, Seq<char>), Seq<char>>(ends),
        parse_connection(g.connections[j]) matches Ok((_a, _b, c, d)) && c == ends.2 && d == ends.3,
        node_index(g.nodes, ends.0) == Some(fi),
        node_index(g.nodes, ends.2) == Some(ti),
        kind_index(cat, g.nodes[fi].kind) == Some(fk),
        kind_index(cat, g.nodes[ti].kind) == Some(tk),
        port_index(cat[fk].output_ports@, ends.1) is Some,
        port_index(cat[tk].input_ports@, ends.3) is Some,
    ensures
        graph_violation(g, cat) is Some,
{
    let nodes = g.nodes;
    let conns = g.connections;
    assert(feeds(conns, j, ends.2, ends.3));
    assert(connection_violation(nodes, conns, cat, k) is Some);
    assert(connections_violation(nodes, conns, cat, k + 1) is Some);
    lemma_connections_violation_stays(nodes, conns, cat, k + 1, conns.len() as int);
}

/// A required input port that no connection feeds makes the graph invalid:
/// when node `i` has a kind the catalog knows, and input port `m` of that
/// kind is required, and no connection parses to an edge ending at that
/// node and port, `validate` fails.
pub proof fn lemma_unfed_required_input_rejected(g: GraphView, cat: Seq<ElementDescriptor>, i: int, ki: int, m: int)
    requires
        0 <= i < g.nodes.len(),
        kind_index(cat, g.nodes[i].kind) == Some(ki),
        0 <= m < cat[ki].input_ports@.len(),
        cat[ki].input_ports@[m].required,
        forall|j: int|
            0 <= j < g.connections.len() ==> !(#[trigger] parse_connection(g.connections[j]) matches Ok(
                (_a, _b, c, d),
            ) && c == g.nodes[i].name && d == cat[ki].input_ports@[m].name@),
    ensures
        graph_violation(g, cat) is Some,
{
    let nodes = g.nodes;
    let conns = g.connections;
    let name = nodes[i].name;
    let ports = cat[ki].input_ports@;
    assert(!exists|j: int| 0 <= j < conns.len() && #[trigger] feeds(conns, j, name, ports[m].name@)) by {
        if exists|j: int| 0 <= j < conns.len() && #[trigger] feeds(conns, j, name, ports[m].name@) {
            let j = choose|j: int| 0 <= j < conns.len() && #[trigger] feeds(conns, j, name, ports[m].name@);
            assert(parse_connection(conns[j]) matches Ok((_a, _b, c, d)) && c == name && d == ports[m].name@);
        }
    }
    assert(ports_violation(name, ports, conns, m + 1) is Some);
    lemma_ports_violation_stays(name, ports, conns, m + 1, ports.len() as int);
    assert(required_violation(nodes, conns, cat, i + 1) is Some);
    lemma_required_violation_stays(nodes, conns, cat, i + 1, nodes.len() as int);
}

impl GraphSpec {
    /// Every required input port of every node has a connection into it.
    fn check_required(&self, catalog: &[ElementDescriptor], kinds: &Vec<usize>, parsed: &Vec<ConnectionSpec>) -> (r:
        Result<(), GraphError>)
        requires
            kinds@.len() == self@.nodes.len(),
            forall|j: int|
                0 <= j < kinds@.len() ==> kind_index(catalog@, self@.nodes[j].kind) == Some(
                    #[trigger] kinds@[j] as int,
                ),
            parsed@.len() == self@.connections.len(),
            forall|j: int| 0 <= j < parsed@.len() ==> parsed_as(#[trigger] parsed@[j], self@.connections[j]),
        ensures
            reports(r, required_violation(self@.nodes, self@.connections, catalog@, self@.nodes.len() as int)),
    {
        let ghost nodes = self@.nodes;
        let ghost conns = self@.connections;
        let ghost cat = catalog@;
        let ghost n = nodes.len() as int;
        let mut i: usize = 0;
        while i < self.nodes.len()
            invariant
                nodes == self@.nodes,
                conns == self@.connections,
                cat == catalog@,
                n == nodes.len(),
                kinds@.len() == nodes.len(),
                forall|j: int| 0 <= j < kinds@.len() ==> kind_index(cat, nodes[j].kind) == Some(#[trigger] kinds@[j] as int),
                parsed@.len() == conns.len(),
                forall|j: int| 0 <= j < parsed@.len() ==> parsed_as(#[trigger] parsed@[j], conns[j]),
                i <= nodes.len(),
                required_violation(nodes, conns, cat, i as int) is None,
            decreases nodes.len() - i,
        {
            let ki = kinds[i];
            assert(kind_index(cat, nodes[i as int].kind) == Some(ki as int));
            let ghost name = nodes[i as int].name;
            let ghost ports = cat[ki as int].input_ports@;
            let ports_len = catalog[ki].input_ports.len();
            let mut m: usize = 0;
            while m < ports_len
                invariant
                    nodes == self@.nodes,
                    conns == self@.connections,
                    cat == catalog@,
                    i < nodes.len(),
                    ki < cat.len(),
                    name == nodes[i as int].name,
                    ports == cat[ki as int].input_ports@,
                    ports_len == ports.len(),
                    parsed@.len() == conns.len(),
                    forall|j: int| 0 <= j < parsed@.len() ==> parsed_as(#[trigger] parsed@[j], conns[j]),
                    m <= ports_len,
                    ports_violation(name, ports, conns, m as int) is None,
                    n == nodes.len(),
                    required_violation(nodes, conns, cat, i as int) is None,
                    kind_index(cat, nodes[i as int].kind) == Some(ki as int),
                decreases ports_len - m,
            {
                let port = catalog[ki].input_ports[m];
                if port.required {
                    match position_feeding(parsed, self.nodes[i].name.as_str(), port.name) {
                        Some(j) => {
                            assert(parsed_as(parsed@[j as int], conns[j as int]));
                            assert(feeds(conns, j as int, name, port.name@));
                        },
                        None => {
                            proof {
                                assert forall|j: int| 0 <= j < conns.len() implies !#[trigger] feeds(
                                    conns,
                                    j,
                                    name,
                                    port.name@,
                                ) by {
                                    assert(parsed_as(parsed@[j], conns[j]));
                                }
                                lemma_ports_violation_stays(name, ports, conns, m + 1, ports_len as int);
                                assert(required_violation(nodes, conns, cat, i + 1) == ports_violation(
                                    name,
                                    ports,
                                    conns,
                                    ports_len as int,
                                ));
                                lemma_required_violation_stays(nodes, conns, cat, i + 1, n);
                            }
                            let node_name = self.nodes[i].name.as_str();
                            return Err(
                                GraphError::Validation {
                                    path: "nodes[".to_owned().concat(node_name).concat("].ports[").concat(
                                        port.name,
                                    ).concat("]"),
                                    message: "required input port ".to_owned().concat(node_name).concat(".").concat(
                                        port.name,
                                    ).concat(" has no incoming connection"),
                                },
                            );
                        },
                    }
                }
                m += 1;
            }
            assert(required_violation(nodes, conns, cat, i + 1) == ports_violation(name, ports, conns, ports_len as int));
            i += 1;
        }
        Ok(())
    }
}

/// Once a prefix of ports reports a violation, every longer prefix does.
proof fn lemma_ports_violation_stays(name: Seq<char>, ports: Seq<PortSchema>, conns: Seq<Seq<char>>, i: int, n: int)
    requires
        i <= n,
        ports_violation(name, ports, conns, i) is Some,
    ensures
        ports_violation(name, ports, conns, n) == ports_violation(name, ports, conns, i),
    decreases n - i,
{
    if i < n {
        lemma_ports_violation_stays(name, ports, conns, i, n - 1);
    }
}

/// Once a prefix of nodes reports a missing input, every longer prefix does.
proof fn lemma_required_violation_stays(
    nodes: Seq<NodeView>,
    conns: Seq<Seq<char>>,
    cat: Seq<ElementDescriptor>,
    i: int,
    n: int,
)
    requires
        i <= n,
        required_violation(nodes, conns, cat, i) is Some,
    ensures
        required_violation(nodes, conns, cat, n) == required_violation(nodes, conns, cat, i),
    decreases n - i,
{
    if i < n {
        lemma_required_violation_stays(nodes, conns, cat, i, n - 1);
    }
}

impl GraphSpec {
    /// Every node runs at least one instance, and several only in pipeline
    /// execution.
    fn check_threads(&self) -> (r: Result<(), GraphError>)
        ensures
            reports(r, threads_violation(self@.nodes, self.execution.parallel, self@.nodes.len() as int)),
    {
        let ghost nodes = self@.nodes;
        let ghost n = nodes.len() as int;
        let mut i: usize = 0;
        while i < self.nodes.len()
            invariant
                nodes == self@.nodes,
                n == nodes.len(),
                i <= nodes.len(),
                threads_violation(nodes, self.execution.parallel, i as int) is None,
            decreases nodes.len() - i,
        {
            proof {
                assert(threads_violation(nodes, self.execution.parallel, i + 1) == threads_violation_at(
                    nodes,
                    self.execution.parallel,
                    i as int,
                ));
            }
            match self.nodes[i].threads {
                Some(t) => {
                    if t == 0 || (t > 1 && !matches!(self.execution.parallel, ParallelType::Pipeline)) {
                        proof {
                            lemma_threads_violation_stays(nodes, self.execution.parallel, i + 1, n);
                        }
                        let path = "nodes[".to_owned().concat(self.nodes[i].name.as_str()).concat("].threads");
                        if t == 0 {
                            return Err(GraphError::Validation { path, message: "threads must be >= 1".to_string() });
                        }
                        return Err(
                            GraphError::Validation {
                                path,
                                message: "threads > 1 requires Pipeline execution".to_string(),
                            },
                        );
                    }
                },
                None => {},
            }
            i += 1;
        }
        Ok(())
    }
}

/// Once a prefix reports a violation, every longer prefix reports the same.
proof fn lemma_threads_violation_stays(nodes: Seq<NodeView>, parallel: ParallelType, i: int, n: int)
    requires
        i <= n,
        threads_violation(nodes, parallel, i) is Some,
    ensures
        threads_violation(nodes, parallel, n) == threads_violation(nodes, parallel, i),
    decreases n - i,
{
    if i < n {
        lemma_threads_violation_stays(nodes, parallel, i, n - 1);
    }
}

/// Some node before `i` has the name of node `i`.
fn name_used_before(nodes: &[NodeSpec], i: usize) -> (r: bool)
    requires
        i < nodes@.len(),
    ensures
        r == exists|j: int| 0 <= j < i && (#[trigger] nodes@[j]).name@ == nodes@[i as int].name@,
{
    let mut j: usize = 0;
    while j < i
        invariant
            i < nodes@.len(),
            j <= i,
            forall|m: int| 0 <= m < j ==> (#[trigger] nodes@[m]).name@ != nodes@[i as int].name@,
        decreases i - j,
    {
        if str_eq(nodes[j].name.as_str(), nodes[i].name.as_str()) {
            return true;
        }
        j += 1;
    }
    false
}

/// The four names of `a` and `b` agree.
pub open spec fn same_names(a: ConnectionSpec, b: ConnectionSpec) -> bool {
    a.from_node@ == b.from_node@ && a.from_port@ == b.from_port@ && a.to_node@ == b.to_node@ && a.to_port@
        == b.to_port@
}

/// The first parsed connection with the names of `c`.
fn position_of_same(parsed: &Vec<ConnectionSpec>, c: &ConnectionSpec) -> (r: Option<usize>)
    ensures
        r matches Some(j) ==> j < parsed@.len() && same_names(parsed@[j as int], *c),
        r is None ==> forall|j: int| 0 <= j < parsed@.len() ==> !same_names(#[trigger] parsed@[j], *c),
{
    let mut j: usize = 0;
    while j < parsed.len()
        invariant
            j <= parsed@.len(),
            forall|m: int| 0 <= m < j ==> !same_names(#[trigger] parsed@[m], *c),
        decreases parsed@.len() - j,
    {
        if str_eq(parsed[j].from_node.as_str(), c.from_node.as_str()) && str_eq(
            parsed[j].from_port.as_str(),
            c.from_port.as_str(),
        ) && str_eq(parsed[j].to_node.as_str(), c.to_node.as_str()) && str_eq(
            parsed[j].to_port.as_str(),
            c.to_port.as_str(),
        ) {
            return Some(j);
        }
        j += 1;
    }
    None
}

/// The first parsed connection into port `port` of node `node`.
pub(crate) fn position_feeding(parsed: &Vec<ConnectionSpec>, node: &str, port: &str) -> (r: Option<usize>)
    ensures
        r matches Some(j) ==> j < parsed@.len() && parsed@[j as int].to_node@ == node@ && parsed@[j as int].to_port@
            == port@,
        r is None ==> forall|j: int|
            0 <= j < parsed@.len() ==> !((#[trigger] parsed@[j]).to_node@ == node@ && parsed@[j].to_port@ == port@),
{
    let mut j: usize = 0;
    while j < parsed.len()
        invariant
            j <= parsed@.len(),
            forall|m: int| 0 <= m < j ==> !((#[trigger] parsed@[m]).to_node@ == node@ && parsed@[m].to_port@ == port@),
        decreases parsed@.len() - j,
    {
        if str_eq(parsed[j].to_node.as_str(), node) && str_eq(parsed[j].to_port.as_str(), port) {
            return Some(j);
        }
        j += 1;
    }
    None
}

/// Once a prefix reports a violation, every longer prefix reports the same.
proof fn lemma_nodes_violation_stays(nodes: Seq<NodeView>, cat: Seq<ElementDescriptor>, i: int, n: int)
    requires
        i <= n,
        nodes_violation(nodes, cat, i) is Some,
    ensures
        nodes_violation(nodes, cat, n) == nodes_violation(nodes, cat, i),
    decreases n - i,
{
    if i < n {
        lemma_nodes_violation_stays(nodes, cat, i, n - 1);
    }
}

} // verus!
