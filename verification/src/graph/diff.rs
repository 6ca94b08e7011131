//! Differences between two graph configurations.
use crate::graph::error::GraphError;
use crate::graph::spec::{texts, views, GraphSpec, GraphView, NodeSpec, NodeView};
use crate::graph::validate::{graph_violation, reports, ElementDescriptor};
use crate::text::{lemma_text_less_order, str_eq, str_less, text_less};
use vstd::prelude::*;

verus! {

/// The strings are in strictly ascending `String` order.
pub open spec fn ascending(v: Seq<String>) -> bool {
    forall|i: int, j: int| 0 <= i < j < v.len() ==> text_less(#[trigger] v[i]@, #[trigger] v[j]@)
}

/// The nodes are in strictly ascending order of their names.
pub open spec fn ascending_names(v: Seq<NodeSpec>) -> bool {
    forall|i: int, j: int| 0 <= i < j < v.len() ==> text_less(#[trigger] v[i].name@, #[trigger] v[j].name@)
}

/// Some string of `v` reads `t`.
pub open spec fn holds(v: Seq<String>, t: Seq<char>) -> bool {
    exists|i: int| 0 <= i < v.len() && (#[trigger] v[i])@ == t
}

/// Some node of `v` is called `t`.
pub open spec fn has_node(v: Seq<NodeSpec>, t: Seq<char>) -> bool {
    exists|i: int| 0 <= i < v.len() && (#[trigger] v[i]).name@ == t
}

/// `i` is the last node of `v` called `t`.
pub open spec fn last_named(v: Seq<NodeSpec>, t: Seq<char>, i: int) -> bool {
    &&& 0 <= i < v.len()
    &&& v[i].name@ == t
    &&& forall|j: int| i < j < v.len() ==> (#[trigger] v[j]).name@ != t
}

/// The node called `t`; where several are, the last one (as a map keyed by
/// name keeps it).
pub open spec fn named(v: Seq<NodeSpec>, t: Seq<char>) -> NodeSpec {
    v[choose|i: int| last_named(v, t, i)]
}

/// Inserts `s` into the ascending list `v` unless it is there already.
pub(crate) fn insert_sorted(v: &mut Vec<String>, s: &str)
    requires
        ascending(old(v)@),
    ensures
        ascending(final(v)@),
        forall|t: Seq<char>| holds(final(v)@, t) <==> (holds(old(v)@, t) || t == s@),
{
    let ghost before = v@;
    let mut p: usize = 0;
    while p < v.len() && str_less(v[p].as_str(), s)
        invariant
            v@ == before,
            ascending(before),
            p <= v@.len(),
            forall|i: int| 0 <= i < p ==> text_less(#[trigger] v@[i]@, s@),
        decreases v@.len() - p,
    {
        p += 1;
    }
    if p < v.len() && str_eq(v[p].as_str(), s) {
        assert forall|t: Seq<char>| holds(v@, t) <==> (holds(before, t) || t == s@) by {
            if t == s@ {
                assert(v@[p as int]@ == s@);
            }
        }
        return;
    }
    proof {
        if p < v@.len() {
            lemma_text_less_order(v@[p as int]@, s@, s@);
        }
    }
    v.insert(p, s.to_string());
    proof {
        let after = v@;
        assert forall|i: int, j: int| 0 <= i < j < after.len() implies text_less(
            #[trigger] after[i]@,
            #[trigger] after[j]@,
        ) by {
            if j < p {
                assert(after[i] == before[i] && after[j] == before[j]);
            } else if j == p {
                assert(after[i] == before[i]);
            } else if i == p {
                assert(after[j] == before[j - 1]);
                if j - 1 > p {
                    assert(text_less(before[p as int]@, before[j - 1]@));
                    lemma_text_less_order(s@, before[p as int]@, before[j - 1]@);
                }
            } else if i < p {
                assert(after[i] == before[i] && after[j] == before[j - 1]);
                assert(text_less(before[i]@, s@));
                if j - 1 >= p {
                    if j - 1 > p {
                        assert(text_less(before[p as int]@, before[j - 1]@));
                        lemma_text_less_order(s@, before[p as int]@, before[j - 1]@);
                    }
                    lemma_text_less_order(before[i]@, s@, before[j - 1]@);
                }
            } else {
                assert(after[i] == before[i - 1] && after[j] == before[j - 1]);
            }
        }
        assert forall|t: Seq<char>| holds(after, t) <==> (holds(before, t) || t == s@) by {
            if holds(after, t) {
                let i = choose|i: int| 0 <= i < after.len() && (#[trigger] after[i])@ == t;
                if i < p {
                    assert(after[i] == before[i]);
                } else if i > p {
                    assert(after[i] == before[i - 1]);
                }
            }
            if holds(before, t) {
                let i = choose|i: int| 0 <= i < before.len() && (#[trigger] before[i])@ == t;
                if i < p {
                    assert(after[i] == before[i]);
                } else {
                    assert(after[i + 1] == before[i]);
                }
            }
            if t == s@ {
                assert(after[p as int]@ == s@);
            }
        }
    }
}

/// The distinct strings of `v`, in ascending order.
pub fn sorted_distinct(v: &[String]) -> (r: Vec<String>)
    ensures
        ascending(r@),
        forall|t: Seq<char>| holds(r@, t) <==> holds(v@, t),
{
    let mut r: Vec<String> = Vec::new();
    let mut i: usize = 0;
    while i < v.len()
        invariant
            i <= v@.len(),
            ascending(r@),
            forall|t: Seq<char>| holds(r@, t) <==> holds(v@.take(i as int), t),
        decreases v@.len() - i,
    {
        insert_sorted(&mut r, v[i].as_str());
        proof {
            lemma_take_holds(v@, i as int);
        }
        i += 1;
    }
    assert(v@.take(v@.len() as int) =~= v@);
    r
}

/// The distinct node names of `nodes`, in ascending order.
pub fn sorted_node_names(nodes: &[NodeSpec]) -> (r: Vec<String>)
    ensures
        ascending(r@),
        forall|t: Seq<char>| holds(r@, t) <==> has_node(nodes@, t),
{
    let mut names: Vec<String> = Vec::new();
    let mut i: usize = 0;
    while i < nodes.len()
        invariant
            i <= nodes@.len(),
            names@.len() == i,
            forall|k: int| 0 <= k < i ==> (#[trigger] names@[k])@ == nodes@[k].name@,
        decreases nodes@.len() - i,
    {
        names.push(nodes[i].name.clone());
        i += 1;
    }
    let r = sorted_distinct(names.as_slice());
    assert forall|t: Seq<char>| holds(names@, t) <==> has_node(nodes@, t) by {
        if holds(names@, t) {
            let k = choose|k: int| 0 <= k < names@.len() && (#[trigger] names@[k])@ == t;
            assert(nodes@[k].name@ == t);
        }
        if has_node(nodes@, t) {
            let k = choose|k: int| 0 <= k < nodes@.len() && (#[trigger] nodes@[k]).name@ == t;
            assert(names@[k]@ == t);
        }
    }
    r
}

/// The last node called `name`.
pub fn last_node_named(nodes: &[NodeSpec], name: &str) -> (r: Option<usize>)
    ensures
        r matches Some(i) ==> last_named(nodes@, name@, i as int),
        r is None ==> !has_node(nodes@, name@),
{
    let mut i: usize = nodes.len();
    while i > 0
        invariant
            i <= nodes@.len(),
            forall|j: int| i <= j < nodes@.len() ==> (#[trigger] nodes@[j]).name@ != name@,
        decreases i,
    {
        i -= 1;
        if str_eq(nodes[i].name.as_str(), name) {
            return Some(i);
        }
    }
    None
}

/// The last node of a name is unique.
proof fn lemma_last_named_unique(v: Seq<NodeSpec>, t: Seq<char>, i: int, j: int)
    requires
        last_named(v, t, i),
        last_named(v, t, j),
    ensures
        i == j,
{
    if i < j {
        assert(v[j].name@ == t);
    } else if j < i {
        assert(v[i].name@ == t);
    }
}

/// A prefix one longer holds what the shorter one holds and the next string.
pub(crate) proof fn lemma_take_holds(v: Seq<String>, i: int)
    requires
        0 <= i < v.len(),
    ensures
        forall|t: Seq<char>|
            #![trigger holds(v.take(i + 1), t)]
            #![trigger holds(v.take(i), t)]
            holds(v.take(i + 1), t) <==> (holds(v.take(i), t) || t == v[i]@),
{
    let t1 = v.take(i + 1);
    let t0 = v.take(i);
    assert forall|t: Seq<char>| holds(t1, t) <==> (holds(t0, t) || t == v[i]@) by {
        if holds(t1, t) {
            let k = choose|k: int| 0 <= k < t1.len() && (#[trigger] t1[k])@ == t;
            if k < i {
                assert(t0[k] == t1[k]);
            }
        }
        if holds(t0, t) {
            let k = choose|k: int| 0 <= k < t0.len() && (#[trigger] t0[k])@ == t;
            assert(t0[k] == t1[k]);
        }
        if t == v[i]@ {
            assert(t1[i] == v[i]);
        }
    }
}

/// Appending a node named after the next string of an ascending list keeps
/// a list of nodes named after earlier strings ascending.
proof fn lemma_append_next(before: Seq<NodeSpec>, x: NodeSpec, names: Seq<String>, i: int)
    requires
        ascending(names),
        0 <= i < names.len(),
        x.name@ == names[i]@,
        ascending_names(before),
        forall|k: int| 0 <= k < before.len() ==> exists|m: int| 0 <= m < i && (#[trigger] before[k]).name@ == (#[trigger] names[m])@,
    ensures
        ascending_names(before.push(x)),
        forall|k: int|
            0 <= k < before.len() + 1 ==> exists|m: int|
                0 <= m < i + 1 && (#[trigger] before.push(x)[k]).name@ == (#[trigger] names[m])@,
        forall|t: Seq<char>| has_node(before.push(x), t) <==> (has_node(before, t) || t == x.name@),
{
    let after = before.push(x);
    assert forall|a: int, b: int| 0 <= a < b < after.len() implies text_less(
        #[trigger] after[a].name@,
        #[trigger] after[b].name@,
    ) by {
        assert(after[a] == before[a]);
        if b == before.len() {
            let m = choose|m: int| 0 <= m < i && (#[trigger] before[a]).name@ == (#[trigger] names[m])@;
            assert(text_less(names[m]@, names[i]@));
        } else {
            assert(after[b] == before[b]);
        }
    }
    assert forall|k: int| 0 <= k < before.len() + 1 implies exists|m: int|
        0 <= m < i + 1 && (#[trigger] after[k]).name@ == (#[trigger] names[m])@ by {
        if k < before.len() {
            assert(after[k] == before[k]);
            let m = choose|m: int| 0 <= m < i && (#[trigger] before[k]).name@ == (#[trigger] names[m])@;
            assert(0 <= m < i + 1 && after[k].name@ == names[m]@);
        } else {
            assert(0 <= i < i + 1 && after[k].name@ == names[i]@);
        }
    }
    assert forall|t: Seq<char>| has_node(after, t) <==> (has_node(before, t) || t == x.name@) by {
        if has_node(after, t) {
            let k = choose|k: int| 0 <= k < after.len() && (#[trigger] after[k]).name@ == t;
            if k < before.len() {
                assert(after[k] == before[k]);
            }
        }
        if has_node(before, t) {
            let k = choose|k: int| 0 <= k < before.len() && (#[trigger] before[k]).name@ == t;
            assert(after[k] == before[k]);
        }
        if t == x.name@ {
            assert(after[before.len() as int] == x);
        }
    }
}

/// The names of a list of nodes each named after one of the first `i`
/// strings of an ascending list are all before string `i`.
proof fn lemma_names_before(v: Seq<NodeSpec>, names: Seq<String>, i: int)
    requires
        ascending(names),
        0 <= i < names.len(),
        forall|k: int| 0 <= k < v.len() ==> exists|m: int| 0 <= m < i && (#[trigger] v[k]).name@ == (#[trigger] names[m])@,
    ensures
        !has_node(v, names[i]@),
{
    if has_node(v, names[i]@) {
        let k = choose|k: int| 0 <= k < v.len() && (#[trigger] v[k]).name@ == names[i]@;
        let m = choose|m: int| 0 <= m < i && (#[trigger] v[k]).name@ == (#[trigger] names[m])@;
        assert(text_less(names[m]@, names[i]@));
        lemma_text_less_order(names[i]@, names[i]@, names[i]@);
    }
}

/// What changed from one graph configuration to another.
#[derive(Debug)]
pub struct GraphDiff {
    pub added_nodes: Vec<NodeSpec>,
    pub removed_nodes: Vec<String>,
    pub updated_nodes: Vec<NodeSpec>,
    pub added_connections: Vec<String>,
    pub removed_connections: Vec<String>,
}

impl GraphDiff {
    /// Nothing changed.
    pub fn is_empty(&self) -> (r: bool)
        ensures
            r == (self.added_nodes@.len() == 0 && self.removed_nodes@.len() == 0 && self.updated_nodes@.len() == 0
                && self.added_connections@.len() == 0 && self.removed_connections@.len() == 0),
    {
        self.added_nodes.len() == 0 && self.removed_nodes.len() == 0 && self.updated_nodes.len() == 0
            && self.added_connections.len() == 0 && self.removed_connections.len() == 0
    }

    /// Applies the difference to `graph`'s configuration and reloads the
    /// graph with the result; when the result breaks a rule the graph is
    /// unchanged and the first violation is reported.
    pub fn apply(self, graph: &mut Graph, catalog: &[ElementDescriptor]) -> (r: Result<(), GraphError>)
        ensures
            ({
                let g = old(graph).config()@;
                let candidate = GraphView {
                    nodes: merged_nodes(old(graph).config().nodes@, self),
                    connections: merged_connections(old(graph).config().connections@, self),
                    ..g
                };
                match graph_violation(candidate, catalog@) {
                    None => r is Ok && final(graph).config()@ == candidate,
                    Some(v) => r matches Err(e) && e@ == v && *final(graph) == *old(graph),
                }
            }),
    {
        let current = graph.spec.copy();
        let candidate = current.merge_for_diff(&self);
        proof {
            assert(candidate@.nodes == merged_nodes(old(graph).config().nodes@, self));
            assert(candidate@.variables =~= old(graph).config()@.variables);
            assert(candidate@.templates =~= old(graph).config()@.templates);
        }
        match graph.reload(candidate, catalog) {
            Ok(_) => Ok(()),
            Err(e) => Err(e),
        }
    }
}

/// A validated graph configuration.
#[derive(Debug)]
pub struct Graph {
    spec: GraphSpec,
}

impl Graph {
    /// The configuration the graph holds.
    pub closed spec fn config(&self) -> GraphSpec {
        self.spec
    }

    /// A graph of `spec`, if it passes validation against `catalog`.
    pub fn new(spec: GraphSpec, catalog: &[ElementDescriptor]) -> (r: Result<Graph, GraphError>)
        ensures
            reports(
                match r {
                    Ok(_) => Ok(()),
                    Err(e) => Err(e),
                },
                graph_violation(spec@, catalog@),
            ),
            r matches Ok(g) ==> g.config() == spec,
    {
        match spec.validate(catalog) {
            Ok(()) => Ok(Graph { spec }),
            Err(e) => Err(e),
        }
    }

    /// The configuration the graph holds.
    pub fn spec(&self) -> (r: &GraphSpec)
        ensures
            *r == self.config(),
    {
        &self.spec
    }

    /// Replaces the configuration with `spec` if it passes validation, and
    /// gives what changed; otherwise reports the first violation and keeps
    /// the old configuration.
    pub fn reload(&mut self, spec: GraphSpec, catalog: &[ElementDescriptor]) -> (r: Result<GraphDiff, GraphError>)
        ensures
            match graph_violation(spec@, catalog@) {
                None => r matches Ok(d) && diff_of(old(self).config(), spec, d) && final(self).config() == spec,
                Some(v) => r matches Err(e) && e@ == v && *final(self) == *old(self),
            },
    {
        let diff = Graph::diff(&self.spec, &spec);
        match spec.validate(catalog) {
            Ok(()) => {},
            Err(e) => {
                return Err(e);
            },
        }
        self.spec = spec;
        Ok(diff)
    }
}

/// `d` lists what changed from `old` to `new`, each list in ascending order
/// (nodes by name): the nodes whose names only `new` has, the names only
/// `old` has, the nodes of names both have whose configuration differs (as
/// `new` has them), and the connections only `new` has and only `old` has.
/// A name that occurs twice stands for its last node.
pub open spec fn diff_of(old: GraphSpec, new: GraphSpec, d: GraphDiff) -> bool {
    let on = old.nodes@;
    let nn = new.nodes@;
    &&& ascending_names(d.added_nodes@)
    &&& forall|t: Seq<char>| has_node(d.added_nodes@, t) <==> (has_node(nn, t) && !has_node(on, t))
    &&& forall|i: int| 0 <= i < d.added_nodes@.len() ==> (#[trigger] d.added_nodes@[i])@ == named(nn, d.added_nodes@[i].name@)@
    &&& ascending_names(d.updated_nodes@)
    &&& forall|t: Seq<char>|
        has_node(d.updated_nodes@, t) <==> (has_node(nn, t) && has_node(on, t) && named(on, t)@ != named(nn, t)@)
    &&& forall|i: int|
        0 <= i < d.updated_nodes@.len() ==> (#[trigger] d.updated_nodes@[i])@ == named(nn, d.updated_nodes@[i].name@)@
    &&& ascending(d.removed_nodes@)
    &&& forall|t: Seq<char>| holds(d.removed_nodes@, t) <==> (has_node(on, t) && !has_node(nn, t))
    &&& ascending(d.added_connections@)
    &&& forall|t: Seq<char>|
        holds(d.added_connections@, t) <==> (holds(new.connections@, t) && !holds(old.connections@, t))
    &&& ascending(d.removed_connections@)
    &&& forall|t: Seq<char>|
        holds(d.removed_connections@, t) <==> (holds(old.connections@, t) && !holds(new.connections@, t))
}

/// The strings of the ascending list `v` that `other` lacks, in order.
fn sorted_missing_from(v: &Vec<String>, other: &Vec<String>) -> (r: Vec<String>)
    requires
        ascending(v@),
    ensures
        ascending(r@),
        forall|t: Seq<char>| holds(r@, t) <==> (holds(v@, t) && !holds(other@, t)),
{
    let mut r: Vec<String> = Vec::new();
    let mut i: usize = 0;
    while i < v.len()
        invariant
            ascending(v@),
            i <= v@.len(),
            ascending(r@),
            forall|k: int| 0 <= k < r@.len() ==> exists|m: int| 0 <= m < i && (#[trigger] r@[k])@ == (#[trigger] v@[m])@,
            forall|t: Seq<char>| holds(r@, t) <==> (holds(v@.take(i as int), t) && !holds(other@, t)),
        decreases v@.len() - i,
    {
        let mut found = false;
        let mut j: usize = 0;
        while j < other.len()
            invariant
                i < v@.len(),
                j <= other@.len(),
                found == exists|m: int| 0 <= m < j && (#[trigger] other@[m])@ == v@[i as int]@,
            decreases other@.len() - j,
        {
            if str_eq(other[j].as_str(), v[i].as_str()) {
                found = true;
            }
            j += 1;
        }
        let ghost before = r@;
        if !found {
            r.push(v[i].clone());
            proof {
                assert forall|a: int, b: int| 0 <= a < b < r@.len() implies text_less(
                    #[trigger] r@[a]@,
                    #[trigger] r@[b]@,
                ) by {
                    if b == r@.len() - 1 {
                        let m = choose|m: int| 0 <= m < i && (#[trigger] before[a])@ == (#[trigger] v@[m])@;
                        assert(text_less(v@[m]@, v@[i as int]@));
                    } else {
                        assert(r@[a] == before[a] && r@[b] == before[b]);
                    }
                }
                assert forall|k: int| 0 <= k < r@.len() implies exists|m: int|
                    0 <= m < i + 1 && (#[trigger] r@[k])@ == (#[trigger] v@[m])@ by {
                    if k < before.len() {
                        assert(r@[k] == before[k]);
                        let m = choose|m: int| 0 <= m < i && (#[trigger] before[k])@ == (#[trigger] v@[m])@;
                        assert(0 <= m < i + 1 && r@[k]@ == v@[m]@);
                    } else {
                        assert(0 <= i < i + 1 && r@[k]@ == v@[i as int]@);
                    }
                }
            }
        } else {
            assert forall|k: int| 0 <= k < r@.len() implies exists|m: int|
                0 <= m < i + 1 && (#[trigger] r@[k])@ == (#[trigger] v@[m])@ by {
                let m = choose|m: int| 0 <= m < i && (#[trigger] r@[k])@ == (#[trigger] v@[m])@;
                assert(0 <= m < i + 1 && r@[k]@ == v@[m]@);
            }
        }
        proof {
            let t1 = v@.take(i + 1);
            let t0 = v@.take(i as int);
            assert forall|t: Seq<char>| holds(r@, t) <==> (holds(t1, t) && !holds(other@, t)) by {
                if holds(t1, t) {
                    let k = choose|k: int| 0 <= k < t1.len() && (#[trigger] t1[k])@ == t;
                    if k < i {
                        assert(t0[k] == t1[k]);
                    }
                }
                if holds(t0, t) {
                    let k = choose|k: int| 0 <= k < t0.len() && (#[trigger] t0[k])@ == t;
                    assert(t0[k] == t1[k]);
                }
                assert(t1[i as int] == v@[i as int]);
                if holds(r@, t) {
                    let k = choose|k: int| 0 <= k < r@.len() && (#[trigger] r@[k])@ == t;
                    if k < before.len() {
                        assert(r@[k] == before[k]);
                    }
                }
                if holds(before, t) {
                    let k = choose|k: int| 0 <= k < before.len() && (#[trigger] before[k])@ == t;
                    assert(r@[k] == before[k]);
                }
                if found && t == v@[i as int]@ {
                    let m = choose|m: int| 0 <= m < j && (#[trigger] other@[m])@ == v@[i as int]@;
                    assert(holds(other@, t));
                }
                if !found && t == v@[i as int]@ {
                    assert(r@[r@.len() - 1]@ == t);
                    if holds(other@, t) {
                        let m = choose|m: int| 0 <= m < other@.len() && (#[trigger] other@[m])@ == t;
                        assert(other@[m]@ == v@[i as int]@);
                    }
                }
            }
        }
        i += 1;
    }
    assert(v@.take(v@.len() as int) =~= v@);
    r
}

impl Graph {
    /// What changed from `old` to `new` (see `diff_of`).
    pub fn diff(old: &GraphSpec, new: &GraphSpec) -> (d: GraphDiff)
        ensures
            diff_of(*old, *new, d),
    {
        let old_names = sorted_node_names(old.nodes.as_slice());
        let new_names = sorted_node_names(new.nodes.as_slice());
        let ghost on = old.nodes@;
        let ghost nn = new.nodes@;
        let mut added_nodes: Vec<NodeSpec> = Vec::new();
        let mut updated_nodes: Vec<NodeSpec> = Vec::new();
        let mut i: usize = 0;
        while i < new_names.len()
            invariant
                on == old.nodes@,
                nn == new.nodes@,
                ascending(new_names@),
                forall|t: Seq<char>| holds(new_names@, t) <==> has_node(nn, t),
                forall|t: Seq<char>| holds(old_names@, t) <==> has_node(on, t),
                i <= new_names@.len(),
                ascending_names(added_nodes@),
                ascending_names(updated_nodes@),
                forall|k: int| 0 <= k < added_nodes@.len() ==> exists|m: int|
                    0 <= m < i && (#[trigger] added_nodes@[k]).name@ == (#[trigger] new_names@[m])@,
                forall|k: int| 0 <= k < updated_nodes@.len() ==> exists|m: int|
                    0 <= m < i && (#[trigger] updated_nodes@[k]).name@ == (#[trigger] new_names@[m])@,
                forall|k: int| 0 <= k < added_nodes@.len() ==> (#[trigger] added_nodes@[k])@ == named(nn, added_nodes@[k].name@)@,
                forall|k: int|
                    0 <= k < updated_nodes@.len() ==> (#[trigger] updated_nodes@[k])@ == named(nn, updated_nodes@[k].name@)@,
                forall|t: Seq<char>|
                    #![trigger has_node(added_nodes@, t)]
                    #![trigger holds(new_names@.take(i as int), t)]
                    has_node(added_nodes@, t) <==> (holds(new_names@.take(i as int), t) && !has_node(on, t)),
                forall|t: Seq<char>|
                    #![trigger has_node(updated_nodes@, t)]
                    #![trigger holds(new_names@.take(i as int), t)]
                    has_node(updated_nodes@, t) <==> (holds(new_names@.take(i as int), t) && has_node(on, t) && named(on, t)@
                        != named(nn, t)@),
            decreases new_names@.len() - i,
        {
            let name = new_names[i].as_str();
            assert(holds(new_names@, name@));
            let ni = match last_node_named(new.nodes.as_slice(), name) {
                Some(ni) => ni,
                None => {
                    assert(false);
                    0
                },
            };
            proof {
                let c = choose|c: int| last_named(nn, name@, c);
                lemma_last_named_unique(nn, name@, ni as int, c);
            }
            let ghost added_before = added_nodes@;
            let ghost updated_before = updated_nodes@;
            proof {
                lemma_take_holds(new_names@, i as int);
                lemma_names_before(added_before, new_names@, i as int);
                lemma_names_before(updated_before, new_names@, i as int);
            }
            match last_node_named(old.nodes.as_slice(), name) {
                None => {
                    let x = new.nodes[ni].copy();
                    proof {
                        lemma_append_next(added_before, x, new_names@, i as int);
                    }
                    added_nodes.push(x);
                },
                Some(oi) => {
                    proof {
                        let c = choose|c: int| last_named(on, name@, c);
                        lemma_last_named_unique(on, name@, oi as int, c);
                    }
                    if !old.nodes[oi].same_as(&new.nodes[ni]) {
                        let x = new.nodes[ni].copy();
                        proof {
                            lemma_append_next(updated_before, x, new_names@, i as int);
                        }
                        updated_nodes.push(x);
                    }
                },
            }
            proof {
                let t1 = new_names@.take(i + 1);
                assert(name@ == new_names@[i as int]@);
                assert(holds(t1, name@));
                assert forall|t: Seq<char>| has_node(added_nodes@, t) <==> (holds(t1, t) && !has_node(on, t)) by {
                    if t == name@ {
                        assert(holds(t1, t));
                        if has_node(on, t) {
                            assert(!has_node(added_before, t));
                            assert(!has_node(added_nodes@, t));
                        } else {
                            assert(has_node(added_nodes@, t));
                        }
                    } else {
                        assert(has_node(added_nodes@, t) == has_node(added_before, t));
                        assert(holds(t1, t) == holds(new_names@.take(i as int), t));
                    }
                }
                assert forall|t: Seq<char>|
                    has_node(updated_nodes@, t) <==> (holds(t1, t) && has_node(on, t) && named(on, t)@ != named(nn, t)@) by {
                    if t == name@ {
                        if !has_node(updated_nodes@, t) {
                            assert(!has_node(updated_before, t));
                        }
                    } else {
                        assert(has_node(updated_nodes@, t) == has_node(updated_before, t));
                    }
                }
            }
            i += 1;
        }
        assert(new_names@.take(new_names@.len() as int) =~= new_names@);
        let removed_nodes = sorted_missing_from(&old_names, &new_names);
        let old_conns = sorted_distinct(old.connections.as_slice());
        let new_conns = sorted_distinct(new.connections.as_slice());
        let added_connections = sorted_missing_from(&new_conns, &old_conns);
        let removed_connections = sorted_missing_from(&old_conns, &new_conns);
        GraphDiff { added_nodes, removed_nodes, updated_nodes, added_connections, removed_connections }
    }
}

/// The nodes by name; where a name occurs twice the later node counts.
pub open spec fn name_map(v: Seq<NodeView>) -> Map<Seq<char>, NodeView>
    decreases v.len(),
{
    if v.len() == 0 {
        Map::empty()
    } else {
        name_map(v.drop_last()).insert(v.last().name, v.last())
    }
}

/// The nodes of `v` except those called `t`, in order.
pub open spec fn without(v: Seq<NodeView>, t: Seq<char>) -> Seq<NodeView>
    decreases v.len(),
{
    if v.len() == 0 {
        v
    } else if v.last().name == t {
        without(v.drop_last(), t)
    } else {
        without(v.drop_last(), t).push(v.last())
    }
}

/// The nodes of `v` whose names `removed` lacks, in order.
pub open spec fn keep_nodes(v: Seq<NodeView>, removed: Seq<Seq<char>>) -> Seq<NodeView>
    decreases v.len(),
{
    if v.len() == 0 {
        v
    } else if removed.contains(v.last().name) {
        keep_nodes(v.drop_last(), removed)
    } else {
        keep_nodes(v.drop_last(), removed).push(v.last())
    }
}

/// `v` with each of `ups` in turn replacing the nodes of its name at the end.
pub open spec fn with_updates(v: Seq<NodeView>, ups: Seq<NodeView>) -> Seq<NodeView>
    decreases ups.len(),
{
    if ups.len() == 0 {
        v
    } else {
        without(with_updates(v, ups.drop_last()), ups.last().name).push(ups.last())
    }
}

/// The texts of `v` that `removed` lacks, in order.
pub open spec fn keep_texts(v: Seq<Seq<char>>, removed: Seq<Seq<char>>) -> Seq<Seq<char>>
    decreases v.len(),
{
    if v.len() == 0 {
        v
    } else if removed.contains(v.last()) {
        keep_texts(v.drop_last(), removed)
    } else {
        keep_texts(v.drop_last(), removed).push(v.last())
    }
}

/// The nodes after applying `d`: removed names dropped, added nodes
/// appended, then each updated node replacing its name at the end.
pub open spec fn merged_nodes(nodes: Seq<NodeSpec>, d: GraphDiff) -> Seq<NodeView> {
    with_updates(
        keep_nodes(views(nodes), texts(d.removed_nodes@)) + views(d.added_nodes@),
        views(d.updated_nodes@),
    )
}

/// The connections after applying `d`: removed ones dropped, added ones
/// appended.
pub open spec fn merged_connections(conns: Seq<String>, d: GraphDiff) -> Seq<Seq<char>> {
    keep_texts(texts(conns), texts(d.removed_connections@)) + texts(d.added_connections@)
}

fn keep_nodes_exec(nodes: &Vec<NodeSpec>, removed: &Vec<String>) -> (r: Vec<NodeSpec>)
    ensures
        views(r@) == keep_nodes(views(nodes@), texts(removed@)),
{
    let ghost rm = texts(removed@);
    let mut r: Vec<NodeSpec> = Vec::new();
    let mut i: usize = 0;
    while i < nodes.len()
        invariant
            rm == texts(removed@),
            i <= nodes@.len(),
            views(r@) == keep_nodes(views(nodes@).take(i as int), rm),
        decreases nodes@.len() - i,
    {
        let mut gone = false;
        let mut j: usize = 0;
        while j < removed.len()
            invariant
                rm == texts(removed@),
                i < nodes@.len(),
                j <= removed@.len(),
                gone == exists|m: int| 0 <= m < j && (#[trigger] removed@[m])@ == nodes@[i as int].name@,
            decreases removed@.len() - j,
        {
            if str_eq(removed[j].as_str(), nodes[i].name.as_str()) {
                gone = true;
            }
            j += 1;
        }
        proof {
            let t = views(nodes@).take(i + 1);
            assert(t.drop_last() =~= views(nodes@).take(i as int));
            assert(t.last() == nodes@[i as int]@);
            if gone {
                let m = choose|m: int| 0 <= m < j && (#[trigger] removed@[m])@ == nodes@[i as int].name@;
                assert(rm[m] == nodes@[i as int].name@);
            } else {
                assert forall|m: int| 0 <= m < rm.len() implies rm[m] != nodes@[i as int].name@ by {
                    assert(rm[m] == removed@[m]@);
                }
            }
        }
        if !gone {
            r.push(nodes[i].copy());
            proof {
                assert(views(r@) =~= keep_nodes(views(nodes@).take(i as int), rm).push(nodes@[i as int]@));
            }
        }
        i += 1;
    }
    assert(views(nodes@).take(nodes@.len() as int) =~= views(nodes@));
    r
}

fn without_exec(nodes: &Vec<NodeSpec>, name: &str) -> (r: Vec<NodeSpec>)
    ensures
        views(r@) == without(views(nodes@), name@),
{
    let mut r: Vec<NodeSpec> = Vec::new();
    let mut i: usize = 0;
    while i < nodes.len()
        invariant
            i <= nodes@.len(),
            views(r@) == without(views(nodes@).take(i as int), name@),
        decreases nodes@.len() - i,
    {
        proof {
            let t = views(nodes@).take(i + 1);
            assert(t.drop_last() =~= views(nodes@).take(i as int));
            assert(t.last() == nodes@[i as int]@);
        }
        if !str_eq(nodes[i].name.as_str(), name) {
            r.push(nodes[i].copy());
            proof {
                assert(views(r@) =~= without(views(nodes@).take(i as int), name@).push(nodes@[i as int]@));
            }
        }
        i += 1;
    }
    assert(views(nodes@).take(nodes@.len() as int) =~= views(nodes@));
    r
}

fn keep_texts_exec(v: &Vec<String>, removed: &Vec<String>) -> (r: Vec<String>)
    ensures
        texts(r@) == keep_texts(texts(v@), texts(removed@)),
{
    let ghost rm = texts(removed@);
    let mut r: Vec<String> = Vec::new();
    let mut i: usize = 0;
    while i < v.len()
        invariant
            rm == texts(removed@),
            i <= v@.len(),
            texts(r@) == keep_texts(texts(v@).take(i as int), rm),
        decreases v@.len() - i,
    {
        let mut gone = false;
        let mut j: usize = 0;
        while j < removed.len()
            invariant
                rm == texts(removed@),
                i < v@.len(),
                j <= removed@.len(),
                gone == exists|m: int| 0 <= m < j && (#[trigger] removed@[m])@ == v@[i as int]@,
            decreases removed@.len() - j,
        {
            if str_eq(removed[j].as_str(), v[i].as_str()) {
                gone = true;
            }
            j += 1;
        }
        proof {
            let t = texts(v@).take(i + 1);
            assert(t.drop_last() =~= texts(v@).take(i as int));
            assert(t.last() == v@[i as int]@);
            if gone {
                let m = choose|m: int| 0 <= m < j && (#[trigger] removed@[m])@ == v@[i as int]@;
                assert(rm[m] == v@[i as int]@);
            } else {
                assert forall|m: int| 0 <= m < rm.len() implies rm[m] != v@[i as int]@ by {
                    assert(rm[m] == removed@[m]@);
                }
            }
        }
        if !gone {
            r.push(v[i].clone());
            proof {
                assert(texts(r@) =~= keep_texts(texts(v@).take(i as int), rm).push(v@[i as int]@));
            }
        }
        i += 1;
    }
    assert(texts(v@).take(v@.len() as int) =~= texts(v@));
    r
}

impl GraphSpec {
    /// The configuration with `diff` applied (see `merged_nodes` and
    /// `merged_connections`); every other field stays as it is.
    pub fn merge_for_diff(self, diff: &GraphDiff) -> (r: GraphSpec)
        ensures
            views(r.nodes@) == merged_nodes(self.nodes@, *diff),
            texts(r.connections@) == merged_connections(self.connections@, *diff),
            r.api_version == self.api_version,
            r.kind == self.kind,
            r.includes == self.includes,
            r.variables == self.variables,
            r.templates == self.templates,
            r.allow_cycles == self.allow_cycles,
            r.execution == self.execution,
    {
        let mut nodes = keep_nodes_exec(&self.nodes, &diff.removed_nodes);
        let ghost kept = views(nodes@);
        let mut i: usize = 0;
        while i < diff.added_nodes.len()
            invariant
                i <= diff.added_nodes@.len(),
                views(nodes@) == kept + views(diff.added_nodes@).take(i as int),
            decreases diff.added_nodes@.len() - i,
        {
            let ghost prev = nodes@;
            nodes.push(diff.added_nodes[i].copy());
            proof {
                assert(views(nodes@) =~= views(prev).push(diff.added_nodes@[i as int]@));
                assert(views(diff.added_nodes@).take(i + 1) =~= views(diff.added_nodes@).take(i as int).push(
                    diff.added_nodes@[i as int]@,
                ));
                assert(views(nodes@) =~= kept + views(diff.added_nodes@).take(i + 1));
            }
            i += 1;
        }
        assert(views(diff.added_nodes@).take(diff.added_nodes@.len() as int) =~= views(diff.added_nodes@));
        let ghost base = views(nodes@);
        let mut k: usize = 0;
        while k < diff.updated_nodes.len()
            invariant
                k <= diff.updated_nodes@.len(),
                views(nodes@) == with_updates(base, views(diff.updated_nodes@).take(k as int)),
            decreases diff.updated_nodes@.len() - k,
        {
            let mut next = without_exec(&nodes, diff.updated_nodes[k].name.as_str());
            next.push(diff.updated_nodes[k].copy());
            proof {
                let ups = views(diff.updated_nodes@).take(k + 1);
                assert(ups.drop_last() =~= views(diff.updated_nodes@).take(k as int));
                assert(ups.last() == diff.updated_nodes@[k as int]@);
                assert(views(next@) =~= with_updates(base, ups));
            }
            nodes = next;
            k += 1;
        }
        assert(views(diff.updated_nodes@).take(diff.updated_nodes@.len() as int) =~= views(diff.updated_nodes@));
        let mut connections = keep_texts_exec(&self.connections, &diff.removed_connections);
        let ghost kept_conns = texts(connections@);
        let mut j: usize = 0;
        while j < diff.added_connections.len()
            invariant
                j <= diff.added_connections@.len(),
                texts(connections@) == kept_conns + texts(diff.added_connections@).take(j as int),
            decreases diff.added_connections@.len() - j,
        {
            let ghost prev = connections@;
            connections.push(diff.added_connections[j].clone());
            proof {
                assert(texts(connections@) =~= texts(prev).push(diff.added_connections@[j as int]@));
                assert(texts(diff.added_connections@).take(j + 1) =~= texts(diff.added_connections@).take(j as int).push(
                    diff.added_connections@[j as int]@,
                ));
                assert(texts(connections@) =~= kept_conns + texts(diff.added_connections@).take(j + 1));
            }
            j += 1;
        }
        assert(texts(diff.added_connections@).take(diff.added_connections@.len() as int) =~= texts(
            diff.added_connections@,
        ));
        GraphSpec {
            api_version: self.api_version,
            kind: self.kind,
            includes: self.includes,
            variables: self.variables,
            templates: self.templates,
            allow_cycles: self.allow_cycles,
            execution: self.execution,
            nodes,
            connections,
        }
    }
}

/// The map of a list's views knows exactly its names, each with its last
/// node.
proof fn lemma_name_map_named(s: Seq<NodeSpec>)
    ensures
        forall|t: Seq<char>| #[trigger] name_map(views(s)).dom().contains(t) <==> has_node(s, t),
        forall|t: Seq<char>| has_node(s, t) ==> #[trigger] name_map(views(s))[t] == named(s, t)@,
    decreases s.len(),
{
    if s.len() > 0 {
        let p = s.drop_last();
        let x = s.last();
        lemma_name_map_named(p);
        assert(views(s).drop_last() =~= views(p));
        assert(views(s).last() == x@);
        assert(name_map(views(s)) == name_map(views(p)).insert(x.name@, x@));
        let n = s.len() - 1;
        assert forall|t: Seq<char>| #[trigger] name_map(views(s)).dom().contains(t) <==> has_node(s, t) by {
            if has_node(s, t) && t != x.name@ {
                let k = choose|k: int| 0 <= k < s.len() && (#[trigger] s[k]).name@ == t;
                assert(p[k] == s[k]);
            }
            if has_node(p, t) {
                let k = choose|k: int| 0 <= k < p.len() && (#[trigger] p[k]).name@ == t;
                assert(p[k] == s[k]);
            }
            if t == x.name@ {
                assert(s[n].name@ == t);
            }
        }
        assert forall|t: Seq<char>| has_node(s, t) implies #[trigger] name_map(views(s))[t] == named(s, t)@ by {
            lemma_last_named_exists(s, t);
            let c = choose|c: int| last_named(s, t, c);
            if t == x.name@ {
                assert(last_named(s, t, n));
                lemma_last_named_unique(s, t, n, c);
            } else {
                let k = choose|k: int| 0 <= k < s.len() && (#[trigger] s[k]).name@ == t;
                assert(p[k] == s[k]);
                assert(has_node(p, t));
                lemma_last_named_exists(p, t);
                let cp = choose|cp: int| last_named(p, t, cp);
                assert(last_named(p, t, cp) ==> last_named(s, t, cp)) by {
                    if last_named(p, t, cp) {
                        assert forall|j: int| cp < j < s.len() implies (#[trigger] s[j]).name@ != t by {
                            if j < p.len() {
                                assert(p[j] == s[j]);
                            }
                        }
                    }
                }
                if !last_named(p, t, cp) {
                    lemma_last_named_exists(p, t);
                }
                lemma_last_named_unique(s, t, cp, c);
                assert(p[cp] == s[cp]);
            }
        }
    }
}

/// A name that occurs has a last node.
proof fn lemma_last_named_exists(s: Seq<NodeSpec>, t: Seq<char>)
    requires
        has_node(s, t),
    ensures
        exists|i: int| last_named(s, t, i),
    decreases s.len(),
{
    if s.last().name@ == t {
        assert(last_named(s, t, s.len() - 1));
    } else {
        let p = s.drop_last();
        let w = choose|w: int| 0 <= w < s.len() && (#[trigger] s[w]).name@ == t;
        assert(p[w] == s[w]);
        lemma_last_named_exists(p, t);
        let i = choose|i: int| last_named(p, t, i);
        assert forall|j: int| i < j < s.len() implies (#[trigger] s[j]).name@ != t by {
            if j < p.len() {
                assert(p[j] == s[j]);
            }
        }
        assert(last_named(s, t, i));
    }
}

proof fn lemma_name_map_without(v: Seq<NodeView>, t: Seq<char>)
    ensures
        name_map(without(v, t)) == name_map(v).remove(t),
    decreases v.len(),
{
    if v.len() > 0 {
        lemma_name_map_without(v.drop_last(), t);
        if v.last().name == t {
            assert(name_map(v).remove(t) =~= name_map(v.drop_last()).remove(t));
        } else {
            let w = without(v.drop_last(), t).push(v.last());
            assert(w.drop_last() =~= without(v.drop_last(), t));
            assert(name_map(without(v, t)) =~= name_map(v).remove(t));
        }
    } else {
        assert(name_map(v).remove(t) =~= name_map(v));
    }
}

proof fn lemma_name_map_keep(v: Seq<NodeView>, removed: Seq<Seq<char>>)
    ensures
        name_map(keep_nodes(v, removed)) == name_map(v).remove_keys(removed.to_set()),
    decreases v.len(),
{
    if v.len() > 0 {
        lemma_name_map_keep(v.drop_last(), removed);
        if removed.contains(v.last().name) {
            assert(name_map(v).remove_keys(removed.to_set()) =~= name_map(v.drop_last()).remove_keys(removed.to_set()));
        } else {
            let w = keep_nodes(v.drop_last(), removed).push(v.last());
            assert(w.drop_last() =~= keep_nodes(v.drop_last(), removed));
            assert(name_map(keep_nodes(v, removed)) =~= name_map(v).remove_keys(removed.to_set()));
        }
    } else {
        assert(name_map(v).remove_keys(removed.to_set()) =~= name_map(v));
    }
}

proof fn lemma_name_map_append(a: Seq<NodeView>, b: Seq<NodeView>)
    ensures
        name_map(a + b) == name_map(a).union_prefer_right(name_map(b)),
    decreases b.len(),
{
    if b.len() > 0 {
        lemma_name_map_append(a, b.drop_last());
        assert((a + b).drop_last() =~= a + b.drop_last());
        assert((a + b).last() == b.last());
        assert(name_map(a + b) =~= name_map(a).union_prefer_right(name_map(b)));
    } else {
        assert(a + b =~= a);
        assert(name_map(a).union_prefer_right(name_map(b)) =~= name_map(a));
    }
}

proof fn lemma_name_map_updates(v: Seq<NodeView>, ups: Seq<NodeView>)
    ensures
        name_map(with_updates(v, ups)) == name_map(v).union_prefer_right(name_map(ups)),
    decreases ups.len(),
{
    if ups.len() > 0 {
        let u = ups.last();
        let w = with_updates(v, ups.drop_last());
        lemma_name_map_updates(v, ups.drop_last());
        lemma_name_map_without(w, u.name);
        let r = without(w, u.name).push(u);
        assert(r.drop_last() =~= without(w, u.name));
        assert(name_map(with_updates(v, ups)) =~= name_map(v).union_prefer_right(name_map(ups)));
    } else {
        assert(name_map(v).union_prefer_right(name_map(ups)) =~= name_map(v));
    }
}

proof fn lemma_keep_texts(v: Seq<Seq<char>>, removed: Seq<Seq<char>>)
    ensures
        forall|t: Seq<char>| #[trigger] keep_texts(v, removed).contains(t) <==> (v.contains(t) && !removed.contains(t)),
    decreases v.len(),
{
    if v.len() > 0 {
        let p = v.drop_last();
        lemma_keep_texts(p, removed);
        assert forall|t: Seq<char>| #[trigger] keep_texts(v, removed).contains(t) <==> (v.contains(t) && !removed.contains(t)) by {
            let k = keep_texts(p, removed);
            if !removed.contains(v.last()) {
                let kp = k.push(v.last());
                if kp.contains(t) {
                    let i = choose|i: int| 0 <= i < kp.len() && kp[i] == t;
                    if i < k.len() {
                        assert(k[i] == kp[i]);
                    }
                }
                if k.contains(t) {
                    let i = choose|i: int| 0 <= i < k.len() && k[i] == t;
                    assert(kp[i] == k[i]);
                }
                if t == v.last() {
                    assert(kp[k.len() as int] == t);
                }
            }
            if v.contains(t) {
                let i = choose|i: int| 0 <= i < v.len() && v[i] == t;
                if i < p.len() {
                    assert(p[i] == v[i]);
                }
            }
            if p.contains(t) {
                let i = choose|i: int| 0 <= i < p.len() && p[i] == t;
                assert(v[i] == p[i]);
            }
        }
    }
}

/// The texts of a list contain `t` exactly when the list holds `t`.
proof fn lemma_texts_contains(v: Seq<String>)
    ensures
        forall|t: Seq<char>| #[trigger] texts(v).contains(t) <==> holds(v, t),
{
    assert forall|t: Seq<char>| #[trigger] texts(v).contains(t) <==> holds(v, t) by {
        if texts(v).contains(t) {
            let i = choose|i: int| 0 <= i < texts(v).len() && texts(v)[i] == t;
            assert(v[i]@ == t);
        }
        if holds(v, t) {
            let i = choose|i: int| 0 <= i < v.len() && (#[trigger] v[i])@ == t;
            assert(texts(v)[i] == t);
        }
    }
}

/// In a list of nodes each configured as `new` configures its name, the
/// last node of any name it has is configured as in `new`.
proof fn lemma_listed_as_new(list: Seq<NodeSpec>, new: Seq<NodeSpec>, t: Seq<char>)
    requires
        forall|i: int| 0 <= i < list.len() ==> (#[trigger] list[i])@ == named(new, list[i].name@)@,
        has_node(list, t),
    ensures
        named(list, t)@ == named(new, t)@,
{
    lemma_last_named_exists(list, t);
    let c = choose|c: int| last_named(list, t, c);
    assert(list[c]@ == named(new, list[c].name@)@);
}

/// Applying the difference from `old` to `new` to `old` gives back `new`:
/// the same node names, each configured as in `new` (a name that occurs
/// twice stands for its last node), and the same connections.
pub proof fn lemma_merge_restores(old: GraphSpec, new: GraphSpec, d: GraphDiff)
    requires
        diff_of(old, new, d),
    ensures
        name_map(merged_nodes(old.nodes@, d)) == name_map(views(new.nodes@)),
        merged_connections(old.connections@, d).to_set() == texts(new.connections@).to_set(),
{
    let on = old.nodes@;
    let nn = new.nodes@;
    let rm = texts(d.removed_nodes@);
    let kept = keep_nodes(views(on), rm);
    lemma_name_map_updates(kept + views(d.added_nodes@), views(d.updated_nodes@));
    lemma_name_map_append(kept, views(d.added_nodes@));
    lemma_name_map_keep(views(on), rm);
    lemma_name_map_named(on);
    lemma_name_map_named(nn);
    lemma_name_map_named(d.added_nodes@);
    lemma_name_map_named(d.updated_nodes@);
    lemma_texts_contains(d.removed_nodes@);
    let m = name_map(merged_nodes(on, d));
    let target = name_map(views(nn));
    assert forall|t: Seq<char>| m.dom().contains(t) <==> target.dom().contains(t) by {
        assert(rm.to_set().contains(t) <==> rm.contains(t));
    }
    assert forall|t: Seq<char>| m.dom().contains(t) implies m[t] == target[t] by {
        assert(rm.to_set().contains(t) <==> rm.contains(t));
        if has_node(d.updated_nodes@, t) {
            lemma_listed_as_new(d.updated_nodes@, nn, t);
        } else if has_node(d.added_nodes@, t) {
            lemma_listed_as_new(d.added_nodes@, nn, t);
        }
    }
    assert(m =~= target);
    let kc = keep_texts(texts(old.connections@), texts(d.removed_connections@));
    lemma_keep_texts(texts(old.connections@), texts(d.removed_connections@));
    lemma_texts_contains(old.connections@);
    lemma_texts_contains(new.connections@);
    lemma_texts_contains(d.removed_connections@);
    lemma_texts_contains(d.added_connections@);
    let mc = merged_connections(old.connections@, d);
    assert forall|t: Seq<char>| mc.to_set().contains(t) <==> texts(new.connections@).to_set().contains(t) by {
        let ad = texts(d.added_connections@);
        if mc.contains(t) {
            let i = choose|i: int| 0 <= i < mc.len() && mc[i] == t;
            if i < kc.len() {
                assert(kc[i] == mc[i]);
            } else {
                assert(ad[i - kc.len()] == mc[i]);
            }
        }
        if kc.contains(t) {
            let i = choose|i: int| 0 <= i < kc.len() && kc[i] == t;
            assert(mc[i] == kc[i]);
        }
        if ad.contains(t) {
            let i = choose|i: int| 0 <= i < ad.len() && ad[i] == t;
            assert(mc[kc.len() + i] == ad[i]);
        }
    }
    assert(mc.to_set() =~= texts(new.connections@).to_set());
}

} // verus!
