//! The decisions behind building and hot-updating a running graph: how many
//! instances each node runs, which pipe carries each connection, and which
//! routes a configuration change keeps, rebuilds or drains. The driver that
//! owns threads and pipes carries them out.
use crate::graph::diff::{
    ascending, has_node, holds, insert_sorted, lemma_take_holds, merged_connections, merged_nodes, GraphDiff,
};
use crate::graph::error::{GraphError, GraphErrorView};
use crate::graph::spec::{
    parse_connection, texts, ConnectionSpec, ExecutionSpec, GraphSpec, GraphView, NodeSpec, NodeView, ParallelType,
};
use crate::graph::validate::{graph_violation, parsed_as, position_feeding, ElementDescriptor};
use crate::text::str_eq;
use vstd::prelude::*;

verus! {

/// The capacity of the pipe that carries a connection: bounded by the queue
/// capacity in pipeline execution, unbounded (`None`) otherwise.
pub fn pipe_capacity(execution: &ExecutionSpec) -> (r: Option<usize>)
    ensures
        r == (if execution.parallel == ParallelType::Pipeline {
            Some(execution.queue_capacity)
        } else {
            None
        }),
{
    match execution.parallel {
        ParallelType::Pipeline => Some(execution.queue_capacity),
        _ => None,
    }
}

/// The number of instances node `n` asks for: its thread count, and one
/// when that is unset or zero.
pub open spec fn requested_instances(n: NodeView) -> nat {
    match n.threads {
        Some(t) => if t <= 1 {
            1
        } else {
            t as nat
        },
        None => 1,
    }
}

/// How many element instances node `node` runs. `special_handle` tells
/// whether its element hands the graph a special handle (an input queue or
/// a sink collector); sources and such elements run once.
pub fn instance_count(node: &NodeSpec, special_handle: bool) -> (r: Result<usize, GraphError>)
    ensures
        ({
            let n = node@;
            if requested_instances(n) > 1 && (n.kind == "source"@ || special_handle) {
                r matches Err(e) && e@ == GraphErrorView::Config(
                    "node "@ + n.name
                        + " cannot be multi-instanced because source elements and elements with special handles are single-instance"@,
                )
            } else {
                r == Ok::<usize, GraphError>(requested_instances(n) as usize)
            }
        }),
{
    let threads = match node.threads {
        Some(t) => if t <= 1 {
            1
        } else {
            t
        },
        None => 1,
    };
    if threads > 1 && (str_eq(node.kind.as_str(), "source") || special_handle) {
        return Err(
            GraphError::Config(
                "node ".to_owned().concat(node.name.as_str()).concat(
                    " cannot be multi-instanced because source elements and elements with special handles are single-instance",
                ),
            ),
        );
    }
    Ok(threads)
}

/// Connection `j` is an edge into port `port` of node `node`.
pub open spec fn enters(conns: Seq<Seq<char>>, j: int, node: Seq<char>, port: Seq<char>) -> bool {
    match parse_connection(conns[j]) {
        Ok((_a, _b, c, d)) => c == node && d == port,
        Err(_) => false,
    }
}

/// What stops connection `k` from getting a route: it does not parse, an
/// endpoint names no node, or an earlier connection enters the same port.
pub open spec fn route_violation(nodes: Seq<NodeView>, conns: Seq<Seq<char>>, k: int) -> Option<GraphErrorView> {
    match parse_connection(conns[k]) {
        Err(m) => Some(GraphErrorView::Config(m)),
        Ok((fnode, _fport, tnode, tport)) => if !exists|i: int| 0 <= i < nodes.len() && (#[trigger] nodes[i]).name == fnode {
            Some(GraphErrorView::Config("missing source node "@ + fnode))
        } else if !exists|i: int| 0 <= i < nodes.len() && (#[trigger] nodes[i]).name == tnode {
            Some(GraphErrorView::Config("missing destination node "@ + tnode))
        } else if exists|j: int| 0 <= j < k && #[trigger] enters(conns, j, tnode, tport) {
            Some(GraphErrorView::Config("multiple inbound edges to "@ + tnode + "."@ + tport + " are not supported"@))
        } else {
            None
        },
    }
}

/// The first connection among the first `n` that gets no route.
pub open spec fn routes_violation(nodes: Seq<NodeView>, conns: Seq<Seq<char>>, n: int) -> Option<GraphErrorView>
    decreases n,
{
    if n <= 0 {
        None
    } else {
        match routes_violation(nodes, conns, n - 1) {
            Some(v) => Some(v),
            None => route_violation(nodes, conns, n - 1),
        }
    }
}

proof fn lemma_routes_violation_stays(nodes: Seq<NodeView>, conns: Seq<Seq<char>>, i: int, n: int)
    requires
        i <= n,
        routes_violation(nodes, conns, i) is Some,
    ensures
        routes_violation(nodes, conns, n) == routes_violation(nodes, conns, i),
    decreases n - i,
{
    if i < n {
        lemma_routes_violation_stays(nodes, conns, i, n - 1);
    }
}

fn node_exists(nodes: &Vec<NodeSpec>, name: &str) -> (r: bool)
    ensures
        r == exists|i: int| 0 <= i < nodes@.len() && (#[trigger] nodes@[i]).name@ == name@,
{
    let mut i: usize = 0;
    while i < nodes.len()
        invariant
            i <= nodes@.len(),
            forall|j: int| 0 <= j < i ==> (#[trigger] nodes@[j]).name@ != name@,
        decreases nodes@.len() - i,
    {
        if str_eq(nodes[i].name.as_str(), name) {
            return true;
        }
        i += 1;
    }
    false
}

/// The connections of `spec`, parsed, each with a route of its own: every
/// connection parses, joins two nodes of the graph, and enters a port that
/// no earlier connection enters.
pub fn plan_routes(spec: &GraphSpec) -> (r: Result<Vec<ConnectionSpec>, GraphError>)
    ensures
        match routes_violation(spec@.nodes, spec@.connections, spec@.connections.len() as int) {
            Some(v) => r matches Err(e) && e@ == v,
            None => r matches Ok(parsed) && parsed@.len() == spec@.connections.len() && forall|j: int|
                0 <= j < parsed@.len() ==> parsed_as(#[trigger] parsed@[j], spec@.connections[j]),
        },
{
    let ghost nodes = spec@.nodes;
    let ghost conns = spec@.connections;
    let ghost n = conns.len() as int;
    let mut parsed: Vec<ConnectionSpec> = Vec::new();
    let mut k: usize = 0;
    while k < spec.connections.len()
        invariant
            nodes == spec@.nodes,
            conns == spec@.connections,
            n == conns.len(),
            k <= conns.len(),
            routes_violation(nodes, conns, k as int) is None,
            parsed@.len() == k,
            forall|j: int| 0 <= j < k ==> parsed_as(#[trigger] parsed@[j], conns[j]),
        decreases conns.len() - k,
    {
        proof {
            assert(routes_violation(nodes, conns, k + 1) == route_violation(nodes, conns, k as int));
        }
        let c = match ConnectionSpec::parse(spec.connections[k].as_str()) {
            Ok(c) => c,
            Err(e) => {
                proof { lemma_routes_violation_stays(nodes, conns, k + 1, n); }
                return Err(e);
            },
        };
        if !node_exists(&spec.nodes, c.from_node.as_str()) {
            proof {
                assert forall|i: int| 0 <= i < nodes.len() implies (#[trigger] nodes[i]).name != c.from_node@ by {
                    assert(nodes[i] == spec.nodes@[i]@);
                }
                lemma_routes_violation_stays(nodes, conns, k + 1, n);
            }
            return Err(GraphError::Config("missing source node ".to_owned().concat(c.from_node.as_str())));
        }
        proof {
            let i = choose|i: int| 0 <= i < spec.nodes@.len() && (#[trigger] spec.nodes@[i]).name@ == c.from_node@;
            assert(nodes[i].name == c.from_node@);
        }
        if !node_exists(&spec.nodes, c.to_node.as_str()) {
            proof {
                assert forall|i: int| 0 <= i < nodes.len() implies (#[trigger] nodes[i]).name != c.to_node@ by {
                    assert(nodes[i] == spec.nodes@[i]@);
                }
                lemma_routes_violation_stays(nodes, conns, k + 1, n);
            }
            return Err(GraphError::Config("missing destination node ".to_owned().concat(c.to_node.as_str())));
        }
        proof {
            let i2 = choose|i: int| 0 <= i < spec.nodes@.len() && (#[trigger] spec.nodes@[i]).name@ == c.to_node@;
            assert(nodes[i2].name == c.to_node@);
        }
        match position_feeding(&parsed, c.to_node.as_str(), c.to_port.as_str()) {
            Some(j) => {
                proof {
                    assert(parsed_as(parsed@[j as int], conns[j as int]));
                    assert(enters(conns, j as int, c.to_node@, c.to_port@));
                    lemma_routes_violation_stays(nodes, conns, k + 1, n);
                }
                return Err(
                    GraphError::Config(
                        "multiple inbound edges to ".to_owned().concat(c.to_node.as_str()).concat(".").concat(
                            c.to_port.as_str(),
                        ).concat(" are not supported"),
                    ),
                );
            },
            None => {},
        }
        assert forall|m: int| 0 <= m < k implies !#[trigger] enters(conns, m, c.to_node@, c.to_port@) by {
            assert(parsed_as(parsed@[m], conns[m]));
        }
        parsed.push(c);
        k += 1;
    }
    Ok(parsed)
}

/// Node `name` of `nodes` takes injected tensors: it is an `input` node.
pub open spec fn input_node(nodes: Seq<NodeView>, name: Seq<char>) -> bool {
    exists|i: int| 0 <= i < nodes.len() && (#[trigger] nodes[i]).name == name && nodes[i].kind == "input"@
}

/// Tensors handed to a graph before it runs may only go to its `input`
/// nodes; the first name, in the order given, that is not one is refused.
pub fn check_injected_inputs(spec: &GraphSpec, names: &Vec<String>) -> (r: Result<(), GraphError>)
    ensures
        (forall|k: int| 0 <= k < names@.len() ==> input_node(spec@.nodes, #[trigger] names@[k]@)) ==> r is Ok,
        forall|k: int|
            0 <= k < names@.len() && !input_node(spec@.nodes, #[trigger] names@[k]@) && (forall|j: int|
                0 <= j < k ==> input_node(spec@.nodes, #[trigger] names@[j]@)) ==> (r matches Err(GraphError::Config(m))
                && m@ == "unknown input node "@ + names@[k]@ + " for injected tensors"@),
{
    let ghost nodes = spec@.nodes;
    let mut k: usize = 0;
    while k < names.len()
        invariant
            nodes == spec@.nodes,
            k <= names@.len(),
            forall|j: int| 0 <= j < k ==> input_node(nodes, #[trigger] names@[j]@),
        decreases names@.len() - k,
    {
        let mut found = false;
        let mut i: usize = 0;
        while i < spec.nodes.len()
            invariant
                nodes == spec@.nodes,
                i <= nodes.len(),
                k < names@.len(),
                found ==> input_node(nodes, names@[k as int]@),
                !found ==> forall|m: int|
                    0 <= m < i ==> !((#[trigger] nodes[m]).name == names@[k as int]@ && nodes[m].kind == "input"@),
            decreases nodes.len() - i,
        {
            if str_eq(spec.nodes[i].name.as_str(), names[k].as_str()) && str_eq(spec.nodes[i].kind.as_str(), "input") {
                proof {
                    assert(nodes[i as int] == spec.nodes@[i as int]@);
                }
                found = true;
            }
            proof {
                assert(nodes[i as int] == spec.nodes@[i as int]@);
            }
            i += 1;
        }
        if !found {
            let m = "unknown input node ".to_owned().concat(names[k].as_str()).concat(" for injected tensors");
            proof {
                assert(m@ =~= "unknown input node "@ + names@[k as int]@ + " for injected tensors"@);
                assert forall|q: int|
                    0 <= q < names@.len() && !input_node(nodes, #[trigger] names@[q]@) && (forall|j: int|
                        0 <= j < q ==> input_node(nodes, #[trigger] names@[j]@)) implies q == k by {
                    if q < k {
                        assert(input_node(nodes, names@[q]@));
                    } else if q > k {
                        assert(input_node(nodes, names@[k as int]@));
                    }
                }
            }
            return Err(GraphError::Config(m));
        }
        k += 1;
    }
    Ok(())
}

/// What a hot update does with the route of one connection of the new
/// configuration.
#[derive(Clone, Copy, Debug, PartialEq, Eq, Structural)]
pub enum RouteAction {
    /// The receiving node keeps running, so its route stays as it is.
    Keep,
    /// The receiving node restarts on a fresh pipe. `drain`: an old route
    /// exists whose queued packets move to the new pipe; `upstream_live`:
    /// the sending node keeps running while they do.
    Fresh { drain: bool, upstream_live: bool },
}

/// The connections a difference adds, then those it removes.
pub open spec fn changed_connections(d: GraphDiff) -> Seq<Seq<char>> {
    texts(d.added_connections@) + texts(d.removed_connections@)
}

/// Changed connection `j` parses and has `t` at one end.
pub open spec fn touches(ch: Seq<Seq<char>>, j: int, t: Seq<char>) -> bool {
    match parse_connection(ch[j]) {
        Ok((a, _b, c, _d)) => a == t || c == t,
        Err(_) => false,
    }
}

/// Node `t` restarts in a hot update by `d`: it is removed, updated or
/// added, or a connection at one of its ports is added or removed.
pub open spec fn is_affected(d: GraphDiff, t: Seq<char>) -> bool {
    ||| holds(d.removed_nodes@, t)
    ||| has_node(d.updated_nodes@, t)
    ||| has_node(d.added_nodes@, t)
    ||| exists|j: int| 0 <= j < changed_connections(d).len() && #[trigger] touches(changed_connections(d), j, t)
}

/// The first changed connection among the first `n` that does not parse.
pub open spec fn changes_violation(ch: Seq<Seq<char>>, n: int) -> Option<GraphErrorView>
    decreases n,
{
    if n <= 0 {
        None
    } else {
        match changes_violation(ch, n - 1) {
            Some(v) => Some(v),
            None => match parse_connection(ch[n - 1]) {
                Err(m) => Some(GraphErrorView::Config(m)),
                Ok(_) => None,
            },
        }
    }
}

/// Connection `k` of the new configuration finds an old route: the current
/// configuration has it and no earlier new connection took it.
pub open spec fn route_available(cur: Seq<Seq<char>>, cand: Seq<Seq<char>>, k: int) -> bool {
    &&& exists|i: int| 0 <= i < cur.len() && #[trigger] cur[i] == cand[k]
    &&& !exists|j: int| 0 <= j < k && #[trigger] cand[j] == cand[k]
}

/// What happens to the route of new connection `k`.
pub open spec fn route_action(cur: Seq<Seq<char>>, cand: Seq<Seq<char>>, d: GraphDiff, k: int) -> Result<
    RouteAction,
    GraphErrorView,
> {
    match parse_connection(cand[k]) {
        Err(m) => Err(GraphErrorView::Config(m)),
        Ok((from, _b, to, _d)) => if !is_affected(d, to) {
            if route_available(cur, cand, k) {
                Ok(RouteAction::Keep)
            } else {
                Err(GraphErrorView::Runtime("missing route for connection "@ + cand[k]))
            }
        } else {
            Ok(RouteAction::Fresh { drain: route_available(cur, cand, k), upstream_live: !is_affected(d, from) })
        },
    }
}

/// The first new connection among the first `n` whose route fails.
pub open spec fn actions_violation(cur: Seq<Seq<char>>, cand: Seq<Seq<char>>, d: GraphDiff, n: int) -> Option<
    GraphErrorView,
>
    decreases n,
{
    if n <= 0 {
        None
    } else {
        match actions_violation(cur, cand, d, n - 1) {
            Some(v) => Some(v),
            None => match route_action(cur, cand, d, n - 1) {
                Err(e) => Some(e),
                Ok(_) => None,
            },
        }
    }
}

proof fn lemma_changes_violation_stays(ch: Seq<Seq<char>>, i: int, n: int)
    requires
        i <= n,
        changes_violation(ch, i) is Some,
    ensures
        changes_violation(ch, n) == changes_violation(ch, i),
    decreases n - i,
{
    if i < n {
        lemma_changes_violation_stays(ch, i, n - 1);
    }
}

proof fn lemma_actions_violation_stays(cur: Seq<Seq<char>>, cand: Seq<Seq<char>>, d: GraphDiff, i: int, n: int)
    requires
        i <= n,
        actions_violation(cur, cand, d, i) is Some,
    ensures
        actions_violation(cur, cand, d, n) == actions_violation(cur, cand, d, i),
    decreases n - i,
{
    if i < n {
        lemma_actions_violation_stays(cur, cand, d, i, n - 1);
    }
}

/// The plan of a hot update: the nodes that restart, in ascending order,
/// and what happens to the route of each connection of the new
/// configuration, in its order.
#[derive(Debug)]
pub struct HotUpdatePlan {
    pub affected: Vec<String>,
    pub actions: Vec<RouteAction>,
}

fn contains_text(v: &Vec<String>, t: &str) -> (r: bool)
    ensures
        r == holds(v@, t@),
{
    let mut i: usize = 0;
    while i < v.len()
        invariant
            i <= v@.len(),
            forall|j: int| 0 <= j < i ==> (#[trigger] v@[j])@ != t@,
        decreases v@.len() - i,
    {
        if str_eq(v[i].as_str(), t) {
            return true;
        }
        i += 1;
    }
    false
}

/// The nodes a hot update by `d` restarts, in ascending order.
fn affected_nodes(d: &GraphDiff) -> (r: Result<Vec<String>, GraphError>)
    ensures
        match changes_violation(changed_connections(*d), changed_connections(*d).len() as int) {
            Some(v) => r matches Err(e) && e@ == v,
            None => r matches Ok(a) && ascending(a@) && forall|t: Seq<char>| holds(a@, t) <==> is_affected(*d, t),
        },
{
    let ghost ch = changed_connections(*d);
    let ghost n = ch.len() as int;
    let mut a: Vec<String> = Vec::new();
    let mut i: usize = 0;
    while i < d.removed_nodes.len()
        invariant
            i <= d.removed_nodes@.len(),
            ascending(a@),
            forall|t: Seq<char>| holds(a@, t) <==> holds(d.removed_nodes@.take(i as int), t),
        decreases d.removed_nodes@.len() - i,
    {
        insert_sorted(&mut a, d.removed_nodes[i].as_str());
        proof {
            lemma_take_holds(d.removed_nodes@, i as int);
        }
        i += 1;
    }
    assert(d.removed_nodes@.take(d.removed_nodes@.len() as int) =~= d.removed_nodes@);
    let ghost after_removed = a@;
    let mut i: usize = 0;
    while i < d.updated_nodes.len()
        invariant
            i <= d.updated_nodes@.len(),
            ascending(a@),
            forall|t: Seq<char>|
                holds(a@, t) <==> (holds(d.removed_nodes@, t) || exists|k: int|
                    0 <= k < i && (#[trigger] d.updated_nodes@[k]).name@ == t),
        decreases d.updated_nodes@.len() - i,
    {
        insert_sorted(&mut a, d.updated_nodes[i].name.as_str());
        i += 1;
    }
    let mut i: usize = 0;
    while i < d.added_nodes.len()
        invariant
            i <= d.added_nodes@.len(),
            ascending(a@),
            forall|t: Seq<char>|
                holds(a@, t) <==> (holds(d.removed_nodes@, t) || has_node(d.updated_nodes@, t) || exists|k: int|
                    0 <= k < i && (#[trigger] d.added_nodes@[k]).name@ == t),
        decreases d.added_nodes@.len() - i,
    {
        insert_sorted(&mut a, d.added_nodes[i].name.as_str());
        i += 1;
    }
    let mut changed: Vec<String> = Vec::new();
    let mut i: usize = 0;
    while i < d.added_connections.len()
        invariant
            i <= d.added_connections@.len(),
            texts(changed@) == texts(d.added_connections@).take(i as int),
        decreases d.added_connections@.len() - i,
    {
        let ghost prev = changed@;
        changed.push(d.added_connections[i].clone());
        assert(texts(changed@) =~= texts(prev).push(d.added_connections@[i as int]@));
        assert(texts(d.added_connections@).take(i + 1) =~= texts(d.added_connections@).take(i as int).push(
            d.added_connections@[i as int]@,
        ));
        assert(texts(changed@) =~= texts(d.added_connections@).take(i + 1));
        i += 1;
    }
    let mut i: usize = 0;
    while i < d.removed_connections.len()
        invariant
            i <= d.removed_connections@.len(),
            texts(changed@) == texts(d.added_connections@) + texts(d.removed_connections@).take(i as int),
        decreases d.removed_connections@.len() - i,
    {
        let ghost prev = changed@;
        changed.push(d.removed_connections[i].clone());
        assert(texts(changed@) =~= texts(prev).push(d.removed_connections@[i as int]@));
        assert(texts(d.removed_connections@).take(i + 1) =~= texts(d.removed_connections@).take(i as int).push(
            d.removed_connections@[i as int]@,
        ));
        assert(texts(changed@) =~= texts(d.added_connections@) + texts(d.removed_connections@).take(i + 1));
        i += 1;
    }
    assert(texts(changed@) =~= ch);
    let mut j: usize = 0;
    while j < changed.len()
        invariant
            ch == changed_connections(*d),
            n == ch.len(),
            texts(changed@) == ch,
            j <= ch.len(),
            changes_violation(ch, j as int) is None,
            ascending(a@),
            forall|t: Seq<char>|
                holds(a@, t) <==> (holds(d.removed_nodes@, t) || has_node(d.updated_nodes@, t) || has_node(
                    d.added_nodes@,
                    t,
                ) || exists|k: int| 0 <= k < j && #[trigger] touches(ch, k, t)),
        decreases ch.len() - j,
    {
        let text = changed[j].as_str();
        assert(text@ == ch[j as int]);
        proof {
            assert(changes_violation(ch, j + 1) == match parse_connection(ch[j as int]) {
                Err(m) => Some(GraphErrorView::Config(m)),
                Ok(_) => None::<GraphErrorView>,
            });
        }
        let c = match ConnectionSpec::parse(text) {
            Ok(c) => c,
            Err(e) => {
                proof { lemma_changes_violation_stays(ch, j + 1, n); }
                return Err(e);
            },
        };
        insert_sorted(&mut a, c.from_node.as_str());
        insert_sorted(&mut a, c.to_node.as_str());
        proof {
            assert forall|t: Seq<char>|
                #![trigger holds(a@, t)]
                holds(a@, t) <==> (holds(d.removed_nodes@, t) || has_node(d.updated_nodes@, t) || has_node(
                    d.added_nodes@,
                    t,
                ) || exists|k: int| 0 <= k < j + 1 && #[trigger] touches(ch, k, t)) by {
                if t == c.from_node@ || t == c.to_node@ {
                    assert(touches(ch, j as int, t));
                }
                if exists|k: int| 0 <= k < j + 1 && #[trigger] touches(ch, k, t) {
                    let k = choose|k: int| 0 <= k < j + 1 && #[trigger] touches(ch, k, t);
                    if k == j {
                        assert(t == c.from_node@ || t == c.to_node@);
                    }
                }
            }
        }
        j += 1;
    }
    Ok(a)
}

/// `r` is the plan of a hot update by `d` from connections `cur` to
/// connections `cand`, or the first error planning it meets: a changed
/// connection that does not parse, then a new connection whose route fails.
pub open spec fn plans_hot_update(
    cur: Seq<Seq<char>>,
    d: GraphDiff,
    cand: Seq<Seq<char>>,
    r: Result<HotUpdatePlan, GraphError>,
) -> bool {
    let ch = changed_connections(d);
    match changes_violation(ch, ch.len() as int) {
        Some(v) => r matches Err(e) && e@ == v,
        None => match actions_violation(cur, cand, d, cand.len() as int) {
            Some(v) => r matches Err(e) && e@ == v,
            None => r matches Ok(p) && ascending(p.affected@) && (forall|t: Seq<char>|
                holds(p.affected@, t) <==> is_affected(d, t)) && p.actions@.len() == cand.len() && (forall|k: int|
                0 <= k < cand.len() ==> route_action(cur, cand, d, k) == Ok::<RouteAction, GraphErrorView>(
                    #[trigger] p.actions@[k],
                )),
        },
    }
}

/// Plans a hot update from `current` to `candidate` by `d`: which nodes
/// restart and what happens to the route of each new connection.
pub fn plan_hot_update(current: &GraphSpec, d: &GraphDiff, candidate: &GraphSpec) -> (r: Result<
    HotUpdatePlan,
    GraphError,
>)
    ensures
        plans_hot_update(current@.connections, *d, candidate@.connections, r),
{
    let affected = match affected_nodes(d) {
        Ok(a) => a,
        Err(e) => {
            return Err(e);
        },
    };
    let ghost cur = current@.connections;
    let ghost cand = candidate@.connections;
    let ghost n = cand.len() as int;
    let mut actions: Vec<RouteAction> = Vec::new();
    let mut k: usize = 0;
    while k < candidate.connections.len()
        invariant
            cur == current@.connections,
            cand == candidate@.connections,
            n == cand.len(),
            k <= cand.len(),
            forall|t: Seq<char>| holds(affected@, t) <==> is_affected(*d, t),
            ascending(affected@),
            changes_violation(changed_connections(*d), changed_connections(*d).len() as int) is None,
            actions_violation(cur, cand, *d, k as int) is None,
            actions@.len() == k,
            forall|j: int| 0 <= j < k ==> route_action(cur, cand, *d, j) == Ok::<RouteAction, GraphErrorView>(
                #[trigger] actions@[j],
            ),
        decreases cand.len() - k,
    {
        let text = candidate.connections[k].as_str();
        proof {
            assert(actions_violation(cur, cand, *d, k + 1) == match route_action(cur, cand, *d, k as int) {
                Err(e) => Some(e),
                Ok(_) => None::<GraphErrorView>,
            });
        }
        let c = match ConnectionSpec::parse(text) {
            Ok(c) => c,
            Err(e) => {
                proof { lemma_actions_violation_stays(cur, cand, *d, k + 1, n); }
                return Err(e);
            },
        };
        let in_current = contains_text(&current.connections, text);
        let mut taken = false;
        let mut j: usize = 0;
        while j < k
            invariant
                cand == candidate@.connections,
                k < cand.len(),
                text@ == cand[k as int],
                j <= k,
                taken == exists|m: int| 0 <= m < j && #[trigger] cand[m] == cand[k as int],
            decreases k - j,
        {
            assert(cand[j as int] == candidate.connections@[j as int]@);
            if str_eq(candidate.connections[j].as_str(), text) {
                taken = true;
            }
            j += 1;
        }
        let available = in_current && !taken;
        proof {
            assert(holds(current.connections@, text@) <==> exists|i: int| 0 <= i < cur.len() && #[trigger] cur[i] == cand[k as int]) by {
                if holds(current.connections@, text@) {
                    let i = choose|i: int| 0 <= i < current.connections@.len() && (#[trigger] current.connections@[i])@ == text@;
                    assert(cur[i] == cand[k as int]);
                }
                if exists|i: int| 0 <= i < cur.len() && #[trigger] cur[i] == cand[k as int] {
                    let i = choose|i: int| 0 <= i < cur.len() && #[trigger] cur[i] == cand[k as int];
                    assert(current.connections@[i]@ == text@);
                }
            }
            assert(available == route_available(cur, cand, k as int));
        }
        let to_affected = contains_text(&affected, c.to_node.as_str());
        let action = if !to_affected {
            if !available {
                proof { lemma_actions_violation_stays(cur, cand, *d, k + 1, n); }
                return Err(GraphError::Runtime("missing route for connection ".to_owned().concat(text)));
            }
            RouteAction::Keep
        } else {
            let from_affected = contains_text(&affected, c.from_node.as_str());
            RouteAction::Fresh { drain: available, upstream_live: !from_affected }
        };
        actions.push(action);
        k += 1;
    }
    Ok(HotUpdatePlan { affected, actions })
}

/// The configuration a hot update of `spec` by `d` leads to, and its plan:
/// nothing when `d` is empty; otherwise the first rule the new
/// configuration breaks, or else the plan or the first error planning it.
pub fn prepare_hot_update(spec: &GraphSpec, d: GraphDiff, catalog: &[ElementDescriptor]) -> (r: Result<
    Option<(GraphSpec, HotUpdatePlan)>,
    GraphError,
>)
    ensures
        ({
            let empty = d.added_nodes@.len() == 0 && d.removed_nodes@.len() == 0 && d.updated_nodes@.len() == 0
                && d.added_connections@.len() == 0 && d.removed_connections@.len() == 0;
            let g = spec@;
            let cand = GraphView {
                nodes: merged_nodes(spec.nodes@, d),
                connections: merged_connections(spec.connections@, d),
                ..g
            };
            if empty {
                r matches Ok(None)
            } else {
                match graph_violation(cand, catalog@) {
                    Some(v) => r matches Err(e) && e@ == v,
                    None => match r {
                        Ok(Some((c, p))) => c@ == cand && plans_hot_update(g.connections, d, cand.connections, Ok(p)),
                        Ok(None) => false,
                        Err(e) => plans_hot_update(g.connections, d, cand.connections, Err(e)),
                    },
                }
            }
        }),
{
    if d.is_empty() {
        return Ok(None);
    }
    let candidate = spec.copy().merge_for_diff(&d);
    proof {
        assert(candidate@.variables =~= spec@.variables);
        assert(candidate@.templates =~= spec@.templates);
    }
    match candidate.validate(catalog) {
        Ok(()) => {},
        Err(e) => {
            return Err(e);
        },
    }
    let plan = plan_hot_update(spec, &d, &candidate);
    match plan {
        Ok(p) => Ok(Some((candidate, p))),
        Err(e) => Err(e),
    }
}

} // verus!
