//! Turning a graph configuration as written into the one that runs:
//! includes merged in, templates applied, variables substituted, and the
//! result checked.
use crate::graph::error::{GraphError, GraphErrorView};
use crate::graph::json::{
    copy_json, entries_view, has_key, json_text, last_entry, lemma_last_entry_exists, lemma_last_entry_unique,
    merge_values, merged_view, pairs, render_json, subst_all, substitute_string, substitute_variables, substituted,
    var_table, variable_table, JsonValue, JsonView,
};
use crate::graph::spec::{
    copy_text, header_violation, texts, validate_header, views, ExecutionSpec, GraphSpec, GraphView, NodeSpec,
    NodeTemplate, NodeView, ParallelType, TemplateView,
};
use crate::graph::pipe::DEFAULT_QUEUE_CAPACITY;
use crate::graph::validate::{graph_violation, reports, ElementDescriptor};
use crate::text::{decimal, decimal_spec, find, lemma_first_occurrence_occurs, occurs_at, str_eq};
use vstd::prelude::*;

verus! {

/// The pairs of `s` as a map; where a key occurs twice the later pair counts.
pub open spec fn last_wins<V>(s: Seq<(Seq<char>, V)>) -> Map<Seq<char>, V>
    decreases s.len(),
{
    if s.len() == 0 {
        Map::empty()
    } else {
        last_wins(s.drop_last()).insert(s.last().0, s.last().1)
    }
}

/// The keys of `last_wins(s)` are those of `s`.
pub proof fn lemma_last_wins_dom<V>(s: Seq<(Seq<char>, V)>, k: Seq<char>)
    ensures
        last_wins(s).dom().contains(k) <==> exists|i: int| 0 <= i < s.len() && (#[trigger] s[i]).0 == k,
    decreases s.len(),
{
    if s.len() > 0 {
        let p = s.drop_last();
        lemma_last_wins_dom(p, k);
        if exists|i: int| 0 <= i < p.len() && (#[trigger] p[i]).0 == k {
            let i = choose|i: int| 0 <= i < p.len() && (#[trigger] p[i]).0 == k;
            assert(s[i] == p[i]);
        }
        if exists|i: int| 0 <= i < s.len() && (#[trigger] s[i]).0 == k {
            let i = choose|i: int| 0 <= i < s.len() && (#[trigger] s[i]).0 == k;
            if i < p.len() {
                assert(s[i] == p[i]);
            }
        }
    }
}

/// The value of a key in `last_wins(s)` is that of its last pair.
pub proof fn lemma_last_wins_value<V>(s: Seq<(Seq<char>, V)>, i: int)
    requires
        0 <= i < s.len(),
        forall|j: int| i < j < s.len() ==> (#[trigger] s[j]).0 != s[i].0,
    ensures
        last_wins(s).dom().contains(s[i].0),
        last_wins(s)[s[i].0] == s[i].1,
    decreases s.len(),
{
    if i < s.len() - 1 {
        let p = s.drop_last();
        assert forall|j: int| i < j < p.len() implies (#[trigger] p[j]).0 != p[i].0 by {
            assert(p[j] == s[j]);
        }
        lemma_last_wins_value(p, i);
    }
}

/// The map of an entry list is the map of its pairs of views.
pub proof fn lemma_entries_last_wins(o: Seq<(String, JsonValue)>)
    ensures
        entries_view(o) == last_wins(o.map_values(|e: (String, JsonValue)| (e.0@, e.1@))),
{
    let s = o.map_values(|e: (String, JsonValue)| (e.0@, e.1@));
    assert forall|k: Seq<char>| #[trigger] entries_view(o).dom().contains(k) <==> last_wins(s).dom().contains(k) by {
        lemma_last_wins_dom(s, k);
        if has_key(o, k) {
            let i = choose|i: int| 0 <= i < o.len() && (#[trigger] o[i]).0@ == k;
            assert(s[i].0 == k);
        }
        if exists|i: int| 0 <= i < s.len() && (#[trigger] s[i]).0 == k {
            let i = choose|i: int| 0 <= i < s.len() && (#[trigger] s[i]).0 == k;
            assert(o[i].0@ == k);
        }
    }
    assert forall|k: Seq<char>| #[trigger] entries_view(o).dom().contains(k) implies entries_view(o)[k] == last_wins(s)[k] by {
        lemma_last_entry_exists(o, k);
        let c = choose|c: int| last_entry(o, k, c);
        assert forall|j: int| c < j < s.len() implies (#[trigger] s[j]).0 != s[c].0 by {
            assert(s[j].0 == o[j].0@);
        }
        lemma_last_wins_value(s, c);
    }
    assert(entries_view(o) =~= last_wins(s));
}

/// The variable table of `vars`, when one exists (see `var_table`).
pub open spec fn table_of(vars: Map<Seq<char>, JsonView>) -> Seq<(Seq<char>, Seq<char>)> {
    choose|t: Seq<(Seq<char>, Seq<char>)>| var_table(t, vars)
}

/// Two variable tables of the same variables are the same table.
pub proof fn lemma_var_table_unique(
    a: Seq<(Seq<char>, Seq<char>)>,
    b: Seq<(Seq<char>, Seq<char>)>,
    vars: Map<Seq<char>, JsonView>,
)
    requires
        var_table(a, vars),
        var_table(b, vars),
    ensures
        a == b,
    decreases a.len() + b.len(),
{
    if a.len() == 0 || b.len() == 0 {
        if a.len() > 0 {
            assert(vars.dom().contains(a[0].0));
        }
        if b.len() > 0 {
            assert(vars.dom().contains(b[0].0));
        }
        assert(a =~= b);
    } else {
        assert(vars.dom().contains(a[0].0));
        assert(vars.dom().contains(b[0].0));
        let ia = choose|i: int| 0 <= i < a.len() && (#[trigger] a[i]).0 == b[0].0;
        let ib = choose|i: int| 0 <= i < b.len() && (#[trigger] b[i]).0 == a[0].0;
        if ia > 0 {
            assert(crate::text::text_less(a[0].0, a[ia].0));
            if ib > 0 {
                assert(crate::text::text_less(b[0].0, b[ib].0));
                crate::text::lemma_text_less_order(a[0].0, b[0].0, a[0].0);
            }
        }
        if ia == 0 {
            assert(a[0].0 == b[0].0);
        } else if ib == 0 {
            assert(a[0].0 == b[0].0);
        } else {
            crate::text::lemma_text_less_order(a[0].0, b[0].0, a[0].0);
        }
        let rest = vars.remove(a[0].0);
        let a1 = a.drop_first();
        let b1 = b.drop_first();
        assert forall|i: int, j: int| 0 <= i < j < a1.len() implies crate::text::text_less(#[trigger] a1[i].0, #[trigger] a1[j].0) by {
            assert(a1[i] == a[i + 1] && a1[j] == a[j + 1]);
        }
        assert forall|i: int, j: int| 0 <= i < j < b1.len() implies crate::text::text_less(#[trigger] b1[i].0, #[trigger] b1[j].0) by {
            assert(b1[i] == b[i + 1] && b1[j] == b[j + 1]);
        }
        assert forall|k: Seq<char>| rest.dom().contains(k) <==> exists|i: int| 0 <= i < a1.len() && (#[trigger] a1[i]).0 == k by {
            if rest.dom().contains(k) {
                let i = choose|i: int| 0 <= i < a.len() && (#[trigger] a[i]).0 == k;
                assert(i != 0);
                assert(a1[i - 1] == a[i]);
            }
            if exists|i: int| 0 <= i < a1.len() && (#[trigger] a1[i]).0 == k {
                let i = choose|i: int| 0 <= i < a1.len() && (#[trigger] a1[i]).0 == k;
                assert(a1[i] == a[i + 1]);
                assert(crate::text::text_less(a[0].0, a[i + 1].0));
                crate::text::lemma_text_less_order(a[0].0, a[0].0, a[0].0);
            }
        }
        assert forall|k: Seq<char>| rest.dom().contains(k) <==> exists|i: int| 0 <= i < b1.len() && (#[trigger] b1[i]).0 == k by {
            if rest.dom().contains(k) {
                let i = choose|i: int| 0 <= i < b.len() && (#[trigger] b[i]).0 == k;
                assert(i != 0);
                assert(b1[i - 1] == b[i]);
            }
            if exists|i: int| 0 <= i < b1.len() && (#[trigger] b1[i]).0 == k {
                let i = choose|i: int| 0 <= i < b1.len() && (#[trigger] b1[i]).0 == k;
                assert(b1[i] == b[i + 1]);
                assert(crate::text::text_less(b[0].0, b[i + 1].0));
                crate::text::lemma_text_less_order(b[0].0, b[0].0, b[0].0);
            }
        }
        assert forall|i: int| 0 <= i < a1.len() implies (#[trigger] a1[i]).1 == crate::graph::json::replacement_text(rest[a1[i].0]) by {
            assert(a1[i] == a[i + 1]);
            assert(crate::text::text_less(a[0].0, a[i + 1].0));
            crate::text::lemma_text_less_order(a[0].0, a[0].0, a[0].0);
        }
        assert forall|i: int| 0 <= i < b1.len() implies (#[trigger] b1[i]).1 == crate::graph::json::replacement_text(rest[b1[i].0]) by {
            assert(b1[i] == b[i + 1]);
            assert(crate::text::text_less(b[0].0, b[i + 1].0));
            crate::text::lemma_text_less_order(b[0].0, b[0].0, b[0].0);
        }
        lemma_var_table_unique(a1, b1, rest);
        assert(a =~= b) by {
            assert forall|i: int| 0 <= i < a.len() implies a[i] == b[i] by {
                if i > 0 {
                    assert(a[i] == a1[i - 1] && b[i] == b1[i - 1]);
                }
            }
        }
    }
}

/// Node `n` with its template applied: the template's kind, and the node's
/// parameters laid over the template's.
pub open spec fn templated(n: NodeView, tm: Map<Seq<char>, TemplateView>) -> NodeView {
    match n.template {
        Some(t) => if tm.dom().contains(t) {
            NodeView { kind: tm[t].kind, params: merged_view(tm[t].params, n.params), ..n }
        } else {
            n
        },
        None => n,
    }
}

/// The first of the first `n` nodes that names a template `tm` lacks.
pub open spec fn template_violation(nodes: Seq<NodeView>, tm: Map<Seq<char>, TemplateView>, n: int) -> Option<
    GraphErrorView,
>
    decreases n,
{
    if n <= 0 {
        None
    } else {
        match template_violation(nodes, tm, n - 1) {
            Some(v) => Some(v),
            None => match nodes[n - 1].template {
                Some(t) => if tm.dom().contains(t) {
                    None
                } else {
                    Some(
                        GraphErrorView::Validation {
                            path: "nodes["@ + nodes[n - 1].name + "].template"@,
                            message: "unknown template "@ + t,
                        },
                    )
                },
                None => None,
            },
        }
    }
}

/// Parameters still referring to a variable: their JSON text holds `${`.
pub open spec fn unresolved(v: JsonView) -> bool {
    exists|i: int| #[trigger] occurs_at(json_text(v), "${"@, i)
}

/// The first of the first `n` nodes whose parameters still refer to a
/// variable.
pub open spec fn params_violation(nodes: Seq<NodeView>, n: int) -> Option<GraphErrorView>
    decreases n,
{
    if n <= 0 {
        None
    } else {
        match params_violation(nodes, n - 1) {
            Some(v) => Some(v),
            None => if unresolved(nodes[n - 1].params) {
                Some(
                    GraphErrorView::Validation {
                        path: "nodes["@ + nodes[n - 1].name + "].params"@,
                        message: "unresolved variable in "@ + json_text(nodes[n - 1].params),
                    },
                )
            } else {
                None
            },
        }
    }
}

/// The first of the first `n` connections that still refers to a variable.
pub open spec fn connection_reference_violation(conns: Seq<Seq<char>>, n: int) -> Option<GraphErrorView>
    decreases n,
{
    if n <= 0 {
        None
    } else {
        match connection_reference_violation(conns, n - 1) {
            Some(v) => Some(v),
            None => if exists|i: int| #[trigger] occurs_at(conns[n - 1], "${"@, i) {
                Some(
                    GraphErrorView::Validation {
                        path: "connections["@ + decimal_spec((n - 1) as nat) + "]"@,
                        message: "unresolved variable in "@ + conns[n - 1],
                    },
                )
            } else {
                None
            },
        }
    }
}

/// `other` merged into `acc`: lists appended, cycles allowed if either
/// allows them, and `other`'s header and execution settings taking over.
pub open spec fn include_into(acc: GraphView, other: GraphView) -> GraphView {
    GraphView {
        api_version: other.api_version,
        kind: other.kind,
        includes: acc.includes,
        variables: acc.variables + other.variables,
        templates: acc.templates + other.templates,
        allow_cycles: acc.allow_cycles || other.allow_cycles,
        execution: other.execution,
        nodes: acc.nodes + other.nodes,
        connections: acc.connections + other.connections,
    }
}

/// The default configuration as plain values.
pub open spec fn default_view() -> GraphView {
    GraphView {
        api_version: "dg/v1"@,
        kind: "Graph"@,
        includes: Seq::empty(),
        variables: Seq::empty(),
        templates: Seq::empty(),
        allow_cycles: false,
        execution: ExecutionSpec { parallel: ParallelType::Pipeline, queue_capacity: DEFAULT_QUEUE_CAPACITY, workers: None },
        nodes: Seq::empty(),
        connections: Seq::empty(),
    }
}

/// The included configurations merged one after another into `acc`.
pub open spec fn fold_includes(acc: GraphView, inc: Seq<GraphView>) -> GraphView
    decreases inc.len(),
{
    if inc.len() == 0 {
        acc
    } else {
        include_into(fold_includes(acc, inc.drop_last()), inc.last())
    }
}

/// `g` with templates applied to its nodes (no template unknown).
pub open spec fn with_templates(g: GraphView) -> GraphView {
    let tm = last_wins(g.templates);
    GraphView { nodes: g.nodes.map_values(|n: NodeView| templated(n, tm)), ..g }
}

/// `g` with its variables substituted in node and template parameters and
/// in connections.
pub open spec fn with_variables(g: GraphView) -> GraphView {
    let vars = last_wins(g.variables);
    let table = table_of(vars);
    GraphView {
        nodes: g.nodes.map_values(|n: NodeView| NodeView { params: substituted(n.params, vars, table), ..n }),
        templates: g.templates.map_values(
            |e: (Seq<char>, TemplateView)| (e.0, TemplateView { params: substituted(e.1.params, vars, table), ..e.1 }),
        ),
        connections: g.connections.map_values(|c: Seq<char>| subst_all(c, table)),
        ..g
    }
}

/// The configuration `g` turns into, or the first error on the way: its
/// header checked; includes refused without a base directory, otherwise
/// the configurations `included` (already normalized) merged in before
/// `g`; templates applied; variables substituted; no reference to a
/// variable left; and the result validated against `cat`.
pub open spec fn normalized(g: GraphView, included: Option<Seq<GraphView>>, cat: Seq<ElementDescriptor>) -> Result<
    GraphView,
    GraphErrorView,
> {
    match header_violation(g.api_version, g.kind) {
        Some((path, message)) => Err(GraphErrorView::Validation { path, message }),
        None => if included is None && g.includes.len() > 0 {
            Err(
                GraphErrorView::Validation { path: "includes"@, message: "includes require a base directory"@ },
            )
        } else {
            let inc = match included {
                Some(s) => s,
                None => Seq::empty(),
            };
            let merged = GraphView { includes: Seq::empty(), ..include_into(fold_includes(default_view(), inc), g) };
            match template_violation(merged.nodes, last_wins(merged.templates), merged.nodes.len() as int) {
                Some(v) => Err(v),
                None => {
                    let result = with_variables(with_templates(merged));
                    match params_violation(result.nodes, result.nodes.len() as int) {
                        Some(v) => Err(v),
                        None => match connection_reference_violation(result.connections, result.connections.len() as int) {
                            Some(v) => Err(v),
                            None => match graph_violation(result, cat) {
                                Some(v) => Err(v),
                                None => Ok(result),
                            },
                        },
                    }
                },
            }
        },
    }
}

/// The last template called `name`.
fn last_template(ts: &Vec<(String, NodeTemplate)>, name: &str) -> (r: Option<usize>)
    ensures
        r matches Some(j) ==> j < ts@.len() && ts@[j as int].0@ == name@ && forall|q: int|
            j < q < ts@.len() ==> (#[trigger] ts@[q]).0@ != name@,
        r is None ==> forall|q: int| 0 <= q < ts@.len() ==> (#[trigger] ts@[q]).0@ != name@,
{
    let mut i: usize = ts.len();
    while i > 0
        invariant
            i <= ts@.len(),
            forall|q: int| i <= q < ts@.len() ==> (#[trigger] ts@[q]).0@ != name@,
        decreases i,
    {
        i -= 1;
        if str_eq(ts[i].0.as_str(), name) {
            return Some(i);
        }
    }
    None
}

/// The template views of a list of templates.
pub open spec fn template_views(ts: Seq<(String, NodeTemplate)>) -> Seq<(Seq<char>, TemplateView)> {
    ts.map_values(|e: (String, NodeTemplate)| (e.0@, e.1@))
}

proof fn lemma_template_violation_stays(nodes: Seq<NodeView>, tm: Map<Seq<char>, TemplateView>, i: int, n: int)
    requires
        i <= n,
        template_violation(nodes, tm, i) is Some,
    ensures
        template_violation(nodes, tm, n) == template_violation(nodes, tm, i),
    decreases n - i,
{
    if i < n {
        lemma_template_violation_stays(nodes, tm, i, n - 1);
    }
}

proof fn lemma_params_violation_stays(nodes: Seq<NodeView>, i: int, n: int)
    requires
        i <= n,
        params_violation(nodes, i) is Some,
    ensures
        params_violation(nodes, n) == params_violation(nodes, i),
    decreases n - i,
{
    if i < n {
        lemma_params_violation_stays(nodes, i, n - 1);
    }
}

proof fn lemma_reference_violation_stays(conns: Seq<Seq<char>>, i: int, n: int)
    requires
        i <= n,
        connection_reference_violation(conns, i) is Some,
    ensures
        connection_reference_violation(conns, n) == connection_reference_violation(conns, i),
    decreases n - i,
{
    if i < n {
        lemma_reference_violation_stays(conns, i, n - 1);
    }
}

impl GraphSpec {
    /// Merges `other` into this configuration: its variables, templates,
    /// nodes and connections appended, cycles allowed if either allows them,
    /// and its header and execution settings taking over.
    pub fn merge_included(&mut self, other: GraphSpec)
        ensures
            final(self)@ == include_into(old(self)@, other@),
    {
        let ghost before = self@;
        let ghost o = other@;
        let mut other = other;
        self.variables.append(&mut other.variables);
        self.templates.append(&mut other.templates);
        self.nodes.append(&mut other.nodes);
        self.connections.append(&mut other.connections);
        self.allow_cycles = self.allow_cycles || other.allow_cycles;
        self.execution = other.execution;
        self.api_version = other.api_version;
        self.kind = other.kind;
        proof {
            assert(self@.variables =~= before.variables + o.variables);
            assert(self@.templates =~= before.templates + o.templates);
            assert(self@.nodes =~= before.nodes + o.nodes);
            assert(self@.connections =~= before.connections + o.connections);
        }
    }

    /// Applies templates to the nodes; a node naming an unknown template is
    /// an error, and then nothing changes.
    pub fn apply_templates(&mut self) -> (r: Result<(), GraphError>)
        ensures
            match template_violation(old(self)@.nodes, last_wins(old(self)@.templates), old(self)@.nodes.len() as int) {
                Some(v) => r matches Err(e) && e@ == v && *final(self) == *old(self),
                None => r is Ok && final(self)@ == with_templates(old(self)@),
            },
    {
        let ghost g = self@;
        let ghost tm = last_wins(g.templates);
        let ghost n = g.nodes.len() as int;
        let mut out: Vec<NodeSpec> = Vec::new();
        let mut i: usize = 0;
        while i < self.nodes.len()
            invariant
                g == self@,
                tm == last_wins(g.templates),
                n == g.nodes.len(),
                i <= g.nodes.len(),
                template_violation(g.nodes, tm, i as int) is None,
                out@.len() == i,
                forall|k: int| 0 <= k < i ==> (#[trigger] out@[k])@ == templated(g.nodes[k], tm),
            decreases g.nodes.len() - i,
        {
            proof {
                assert(g.nodes[i as int] == self.nodes@[i as int]@);
            }
            let node = &self.nodes[i];
            let next = match &node.template {
                Some(tname) => {
                    match last_template(&self.templates, tname.as_str()) {
                        Some(j) => {
                            proof {
                                let tv = template_views(self.templates@);
                                assert(tv == g.templates);
                                assert forall|q: int| j < q < tv.len() implies (#[trigger] tv[q]).0 != tv[j as int].0 by {
                                    assert(tv[q].0 == self.templates@[q].0@);
                                }
                                lemma_last_wins_value(tv, j as int);
                            }
                            let template = &self.templates[j].1;
                            NodeSpec {
                                name: node.name.clone(),
                                kind: template.kind.clone(),
                                template: copy_text(&node.template),
                                threads: node.threads,
                                params: merge_values(copy_json(&template.params), copy_json(&node.params)),
                            }
                        },
                        None => {
                            proof {
                                let tv = template_views(self.templates@);
                                lemma_last_wins_dom(tv, tname@);
                                if exists|q: int| 0 <= q < tv.len() && (#[trigger] tv[q]).0 == tname@ {
                                    let q = choose|q: int| 0 <= q < tv.len() && (#[trigger] tv[q]).0 == tname@;
                                    assert(self.templates@[q].0@ == tname@);
                                }
                                assert(template_violation(g.nodes, tm, i + 1) is Some);
                                lemma_template_violation_stays(g.nodes, tm, i + 1, n);
                            }
                            return Err(
                                GraphError::Validation {
                                    path: "nodes[".to_owned().concat(node.name.as_str()).concat("].template"),
                                    message: "unknown template ".to_owned().concat(tname.as_str()),
                                },
                            );
                        },
                    }
                },
                None => node.copy(),
            };
            out.push(next);
            i += 1;
        }
        self.nodes = out;
        proof {
            assert(self@.nodes =~= with_templates(g).nodes);
        }
        Ok(())
    }

    /// Substitutes the variables in node and template parameters and in
    /// connections.
    pub fn apply_variables(&mut self)
        ensures
            final(self)@ == with_variables(old(self)@),
    {
        let ghost g = self@;
        let table = variable_table(&self.variables);
        let ghost vars = last_wins(g.variables);
        proof {
            lemma_entries_last_wins(self.variables@);
            assert(self.variables@.map_values(|e: (String, JsonValue)| (e.0@, e.1@)) == g.variables);
            lemma_var_table_unique(pairs(table@), table_of(vars), vars);
        }
        let ghost t = pairs(table@);
        let mut nodes: Vec<NodeSpec> = Vec::new();
        let mut i: usize = 0;
        while i < self.nodes.len()
            invariant
                g == self@,
                vars == last_wins(g.variables),
                vars == entries_view(self.variables@),
                t == pairs(table@),
                t == table_of(vars),
                i <= g.nodes.len(),
                nodes@.len() == i,
                forall|k: int| 0 <= k < i ==> (#[trigger] nodes@[k])@ == (NodeView { params: substituted(g.nodes[k].params, vars, t), ..g.nodes[k] }),
            decreases g.nodes.len() - i,
        {
            let node = &self.nodes[i];
            assert(g.nodes[i as int] == node@);
            nodes.push(
                NodeSpec {
                    name: node.name.clone(),
                    kind: node.kind.clone(),
                    template: copy_text(&node.template),
                    threads: node.threads,
                    params: substitute_variables(&node.params, &self.variables, &table),
                },
            );
            i += 1;
        }
        let mut templates: Vec<(String, NodeTemplate)> = Vec::new();
        let mut i: usize = 0;
        while i < self.templates.len()
            invariant
                g == self@,
                vars == entries_view(self.variables@),
                t == pairs(table@),
                i <= g.templates.len(),
                templates@.len() == i,
                forall|k: int|
                    0 <= k < i ==> (#[trigger] templates@[k]).0@ == g.templates[k].0 && templates@[k].1@ == (TemplateView {
                        params: substituted(g.templates[k].1.params, vars, t),
                        ..g.templates[k].1
                    }),
            decreases g.templates.len() - i,
        {
            let entry = &self.templates[i];
            assert(g.templates[i as int] == (entry.0@, entry.1@));
            templates.push(
                (
                    entry.0.clone(),
                    NodeTemplate {
                        kind: entry.1.kind.clone(),
                        template: copy_text(&entry.1.template),
                        params: substitute_variables(&entry.1.params, &self.variables, &table),
                    },
                ),
            );
            i += 1;
        }
        let mut connections: Vec<String> = Vec::new();
        let mut i: usize = 0;
        while i < self.connections.len()
            invariant
                g == self@,
                t == pairs(table@),
                i <= g.connections.len(),
                connections@.len() == i,
                forall|k: int| 0 <= k < i ==> (#[trigger] connections@[k])@ == subst_all(g.connections[k], t),
            decreases g.connections.len() - i,
        {
            assert(g.connections[i as int] == self.connections@[i as int]@);
            connections.push(substitute_string(self.connections[i].as_str(), &table));
            i += 1;
        }
        self.nodes = nodes;
        self.templates = templates;
        self.connections = connections;
        proof {
            let w = with_variables(g);
            assert(self@.nodes =~= w.nodes);
            assert(self@.templates =~= w.templates);
            assert(self@.connections =~= w.connections);
        }
    }

    /// No node parameter and no connection still refers to a variable.
    pub fn check_references(&self) -> (r: Result<(), GraphError>)
        ensures
            reports(
                r,
                match params_violation(self@.nodes, self@.nodes.len() as int) {
                    Some(v) => Some(v),
                    None => connection_reference_violation(self@.connections, self@.connections.len() as int),
                },
            ),
    {
        let ghost g = self@;
        let mut i: usize = 0;
        while i < self.nodes.len()
            invariant
                g == self@,
                i <= g.nodes.len(),
                params_violation(g.nodes, i as int) is None,
            decreases g.nodes.len() - i,
        {
            assert(g.nodes[i as int] == self.nodes@[i as int]@);
            let text = render_json(&self.nodes[i].params);
            proof {
                lemma_first_occurrence_occurs(text@, "${"@);
            }
            if find(text.as_str(), "${").is_some() {
                proof {
                    lemma_params_violation_stays(g.nodes, i + 1, g.nodes.len() as int);
                }
                return Err(
                    GraphError::Validation {
                        path: "nodes[".to_owned().concat(self.nodes[i].name.as_str()).concat("].params"),
                        message: "unresolved variable in ".to_owned().concat(text.as_str()),
                    },
                );
            }
            i += 1;
        }
        let mut k: usize = 0;
        while k < self.connections.len()
            invariant
                g == self@,
                params_violation(g.nodes, g.nodes.len() as int) is None,
                k <= g.connections.len(),
                connection_reference_violation(g.connections, k as int) is None,
            decreases g.connections.len() - k,
        {
            assert(g.connections[k as int] == self.connections@[k as int]@);
            proof {
                lemma_first_occurrence_occurs(g.connections[k as int], "${"@);
            }
            if find(self.connections[k].as_str(), "${").is_some() {
                proof {
                    lemma_reference_violation_stays(g.connections, k + 1, g.connections.len() as int);
                }
                return Err(
                    GraphError::Validation {
                        path: "connections[".to_owned().concat(decimal(k).as_str()).concat("]"),
                        message: "unresolved variable in ".to_owned().concat(self.connections[k].as_str()),
                    },
                );
            }
            k += 1;
        }
        Ok(())
    }
}

/// The views of a list of configurations.
pub open spec fn spec_views(v: Seq<GraphSpec>) -> Seq<GraphView> {
    v.map_values(|g: GraphSpec| g@)
}

/// The default configuration's view.
proof fn lemma_default_view(g: GraphSpec)
    requires
        g.api_version@ == "dg/v1"@,
        g.kind@ == "Graph"@,
        g.includes@.len() == 0,
        g.variables@.len() == 0,
        g.templates@.len() == 0,
        !g.allow_cycles,
        g.execution == (ExecutionSpec {
            parallel: ParallelType::Pipeline,
            queue_capacity: DEFAULT_QUEUE_CAPACITY,
            workers: None,
        }),
        g.nodes@.len() == 0,
        g.connections@.len() == 0,
    ensures
        g@ == default_view(),
{
    assert(g@.includes =~= Seq::<Seq<char>>::empty());
    assert(g@.variables =~= Seq::<(Seq<char>, JsonView)>::empty());
    assert(g@.templates =~= Seq::<(Seq<char>, TemplateView)>::empty());
    assert(g@.nodes =~= Seq::<NodeView>::empty());
    assert(g@.connections =~= Seq::<Seq<char>>::empty());
}

impl GraphSpec {
    /// The configuration this one turns into (see `normalized`). `included`
    /// holds the normalized configurations its includes name, in order, when
    /// they could be looked up (a base directory is known); `None` when not.
    pub fn normalize(self, included: Option<Vec<GraphSpec>>, catalog: &[ElementDescriptor]) -> (r: Result<
        GraphSpec,
        GraphError,
    >)
        ensures
            match normalized(
                self@,
                match included {
                    Some(v) => Some(spec_views(v@)),
                    None => None,
                },
                catalog@,
            ) {
                Ok(v) => r matches Ok(g) && g@ == v,
                Err(e) => r matches Err(x) && x@ == e,
            },
    {
        match validate_header(self.api_version.as_str(), self.kind.as_str()) {
            Ok(()) => {},
            Err(e) => {
                return Err(e);
            },
        }
        if included.is_none() && self.includes.len() > 0 {
            return Err(
                GraphError::Validation {
                    path: "includes".to_string(),
                    message: "includes require a base directory".to_string(),
                },
            );
        }
        let ghost inc = match &included {
            Some(v) => spec_views(v@),
            None => Seq::<GraphView>::empty(),
        };
        let mut merged = GraphSpec::default();
        proof {
            lemma_default_view(merged);
        }
        match included {
            Some(list) => {
                let mut list = list;
                let ghost all = list@;
                let total = list.len();
                let mut i: usize = 0;
                while list.len() > 0
                    invariant
                        total == all.len(),
                        inc == spec_views(all),
                        i <= all.len(),
                        list@ == all.skip(i as int),
                        merged@ == fold_includes(default_view(), inc.take(i as int)),
                    decreases list@.len(),
                {
                    let g = list.remove(0);
                    proof {
                        assert(g == all[i as int]);
                        let t = inc.take(i + 1);
                        assert(t.drop_last() =~= inc.take(i as int));
                        assert(t.last() == g@);
                    }
                    merged.merge_included(g);
                    assert(list@ =~= all.skip(i + 1));
                    i += 1;
                }
                assert(inc.take(i as int) =~= inc);
            },
            None => {
                assert(inc.take(0) =~= inc);
            },
        }
        merged.merge_included(self);
        merged.includes = Vec::new();
        proof {
            assert(merged@.includes =~= Seq::<Seq<char>>::empty());
        }
        match merged.apply_templates() {
            Ok(()) => {},
            Err(e) => {
                return Err(e);
            },
        }
        merged.apply_variables();
        match merged.check_references() {
            Ok(()) => {},
            Err(e) => {
                return Err(e);
            },
        }
        match merged.validate(catalog) {
            Ok(()) => {},
            Err(e) => {
                return Err(e);
            },
        }
        Ok(merged)
    }
}

/// Builds a graph configuration piece by piece.
#[derive(Debug)]
pub struct GraphSpecBuilder {
    spec: GraphSpec,
}

impl GraphSpecBuilder {
    /// The configuration built so far.
    pub closed spec fn draft(&self) -> GraphView {
        self.spec@
    }

    /// An empty configuration with the default header and settings.
    pub fn new() -> (r: Self)
        ensures
            r.draft() == default_view(),
    {
        let spec = GraphSpec::default();
        proof {
            lemma_default_view(spec);
        }
        GraphSpecBuilder { spec }
    }

    pub fn api_version(self, api_version: String) -> (r: Self)
        ensures
            r.draft() == (GraphView { api_version: api_version@, ..self.draft() }),
    {
        let mut spec = self.spec;
        spec.api_version = api_version;
        GraphSpecBuilder { spec }
    }

    pub fn allow_cycles(self, allow_cycles: bool) -> (r: Self)
        ensures
            r.draft() == (GraphView { allow_cycles, ..self.draft() }),
    {
        let mut spec = self.spec;
        spec.allow_cycles = allow_cycles;
        GraphSpecBuilder { spec }
    }

    pub fn execution(self, execution: ExecutionSpec) -> (r: Self)
        ensures
            r.draft() == (GraphView { execution, ..self.draft() }),
    {
        let mut spec = self.spec;
        spec.execution = execution;
        GraphSpecBuilder { spec }
    }

    /// Sets variable `key`; a later value for the same name wins.
    pub fn variable(self, key: String, value: JsonValue) -> (r: Self)
        ensures
            r.draft() == (GraphView { variables: self.draft().variables.push((key@, value@)), ..self.draft() }),
    {
        let mut spec = self.spec;
        let ghost before = spec@;
        spec.variables.push((key, value));
        assert(spec@.variables =~= before.variables.push((key@, value@)));
        GraphSpecBuilder { spec }
    }

    /// Adds template `name`; a later template of the same name wins.
    pub fn add_template(self, name: String, template: NodeTemplate) -> (r: Self)
        ensures
            r.draft() == (GraphView { templates: self.draft().templates.push((name@, template@)), ..self.draft() }),
    {
        let mut spec = self.spec;
        let ghost before = spec@;
        spec.templates.push((name, template));
        assert(spec@.templates =~= before.templates.push((name@, template@)));
        GraphSpecBuilder { spec }
    }

    pub fn add_node(self, node: NodeSpec) -> (r: Self)
        ensures
            r.draft() == (GraphView { nodes: self.draft().nodes.push(node@), ..self.draft() }),
    {
        let mut spec = self.spec;
        let ghost before = spec@;
        spec.nodes.push(node);
        assert(spec@.nodes =~= before.nodes.push(node@));
        GraphSpecBuilder { spec }
    }

    pub fn connect(self, connection: String) -> (r: Self)
        ensures
            r.draft() == (GraphView { connections: self.draft().connections.push(connection@), ..self.draft() }),
    {
        let mut spec = self.spec;
        let ghost before = spec@;
        spec.connections.push(connection);
        assert(spec@.connections =~= before.connections.push(connection@));
        GraphSpecBuilder { spec }
    }

    /// The configuration, normalized without a base directory.
    pub fn build(self, catalog: &[ElementDescriptor]) -> (r: Result<GraphSpec, GraphError>)
        ensures
            match normalized(self.draft(), None, catalog@) {
                Ok(v) => r matches Ok(g) && g@ == v,
                Err(e) => r matches Err(x) && x@ == e,
            },
    {
        self.spec.normalize(None, catalog)
    }
}

/// Refuses to load `path` again while it is still being loaded (`open`
/// lists the files whose includes are being read, outermost first).
pub fn enter_include(open: &Vec<String>, path: &str) -> (r: Result<(), GraphError>)
    ensures
        (exists|i: int| 0 <= i < open@.len() && (#[trigger] open@[i])@ == path@) ==> (r matches Err(e) && e@
            == GraphErrorView::Config("include cycle detected: "@ + path@)),
        !(exists|i: int| 0 <= i < open@.len() && (#[trigger] open@[i])@ == path@) ==> r is Ok,
{
    let mut i: usize = 0;
    while i < open.len()
        invariant
            i <= open@.len(),
            forall|k: int| 0 <= k < i ==> (#[trigger] open@[k])@ != path@,
        decreases open@.len() - i,
    {
        if str_eq(open[i].as_str(), path) {
            return Err(GraphError::Config("include cycle detected: ".to_owned().concat(path)));
        }
        i += 1;
    }
    Ok(())
}

} // verus!
