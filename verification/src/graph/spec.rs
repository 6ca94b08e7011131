//! The graph configuration model: execution settings, connections and formats.
use crate::graph::error::GraphError;
use crate::graph::json::{copy_json, json_eq, JsonValue, JsonView};
use crate::graph::pipe::DEFAULT_QUEUE_CAPACITY;
use crate::text::{
    first_at, first_occurrence, lemma_first_occurrence_is, occurs_at, split_once, split_once_spec, str_eq,
    trim, trim_end_spec, trim_spec, trim_start_spec, white_space,
};
use vstd::prelude::*;

verus! {

/// How graph elements are scheduled onto threads.
#[derive(Clone, Copy, Debug, PartialEq, Eq, Structural)]
pub enum ParallelType {
    /// Elements run one at a time in topological order on the calling thread.
    Sequential,
    /// Elements run as dataflow tasks on a work-stealing pool once their
    /// upstream elements complete.
    Task,
    /// Every element gets a dedicated pool thread; bounded pipes apply
    /// backpressure between concurrently running elements.
    Pipeline,
}

impl Default for ParallelType {
    fn default() -> (r: Self)
        ensures
            r == ParallelType::Pipeline,
    {
        ParallelType::Pipeline
    }
}

/// Execution parameters for a graph.
#[derive(Clone, Copy, Debug, PartialEq, Eq, Structural)]
pub struct ExecutionSpec {
    pub parallel: ParallelType,
    /// Capacity of each bounded pipe in pipeline mode.
    pub queue_capacity: usize,
    /// Worker count for task mode; defaults to available parallelism.
    pub workers: Option<usize>,
}

impl Default for ExecutionSpec {
    fn default() -> (r: Self)
        ensures
            r == (ExecutionSpec {
                parallel: ParallelType::Pipeline,
                queue_capacity: DEFAULT_QUEUE_CAPACITY,
                workers: None,
            }),
    {
        ExecutionSpec {
            parallel: ParallelType::default(),
            queue_capacity: DEFAULT_QUEUE_CAPACITY,
            workers: None,
        }
    }
}

/// The first rule that `e` breaks, as `(path, message)`, if any.
pub open spec fn execution_violation(e: ExecutionSpec) -> Option<(Seq<char>, Seq<char>)> {
    if e.queue_capacity == 0 {
        Some(("execution.queue_capacity"@, "queue_capacity must be at least 1"@))
    } else if e.workers == Some(0usize) {
        Some(("execution.workers"@, "workers must be at least 1"@))
    } else if e.workers is Some && e.parallel != ParallelType::Task {
        Some(("execution.workers"@, "workers is only supported with task parallelism"@))
    } else {
        None
    }
}

/// `r` reports exactly the violation `v` (or success when there is none).
pub open spec fn reports_violation(r: Result<(), GraphError>, v: Option<(Seq<char>, Seq<char>)>) -> bool {
    match v {
        None => r is Ok,
        Some((path, message)) => r matches Err(GraphError::Validation { path: p, message: m })
            && p@ == path && m@ == message,
    }
}

impl ExecutionSpec {
    /// Checks the pipe capacity and the worker count against the parallelism.
    pub fn validate(&self) -> (r: Result<(), GraphError>)
        ensures
            reports_violation(r, execution_violation(*self)),
    {
        if self.queue_capacity == 0 {
            return Err(
                GraphError::Validation {
                    path: "execution.queue_capacity".to_string(),
                    message: "queue_capacity must be at least 1".to_string(),
                },
            );
        }
        match self.workers {
            Some(0) => {
                return Err(
                    GraphError::Validation {
                        path: "execution.workers".to_string(),
                        message: "workers must be at least 1".to_string(),
                    },
                );
            },
            Some(_) => {
                if !matches!(self.parallel, ParallelType::Task) {
                    return Err(
                        GraphError::Validation {
                            path: "execution.workers".to_string(),
                            message: "workers is only supported with task parallelism".to_string(),
                        },
                    );
                }
            },
            None => {},
        }
        Ok(())
    }
}

/// The `apiVersion` a graph gets when it names none.
pub fn default_api_version() -> (r: String)
    ensures
        r@ == "dg/v1"@,
{
    "dg/v1".to_string()
}

/// The `kind` a graph gets when it names none.
pub fn default_kind() -> (r: String)
    ensures
        r@ == "Graph"@,
{
    "Graph".to_string()
}

/// The error for an unsupported graph header, if any.
pub open spec fn header_violation(api_version: Seq<char>, kind: Seq<char>) -> Option<(Seq<char>, Seq<char>)> {
    if !(api_version == "dg/v1"@ || api_version == "v1"@) {
        Some(("apiVersion"@, "unsupported apiVersion: "@ + api_version))
    } else if kind != "Graph"@ {
        Some(("kind"@, "unsupported kind: "@ + kind))
    } else {
        None
    }
}

/// Accepts `apiVersion` `dg/v1` or `v1` and `kind` `Graph`.
pub fn validate_header(api_version: &str, kind: &str) -> (r: Result<(), GraphError>)
    ensures
        reports_violation(r, header_violation(api_version@, kind@)),
{
    if !(str_eq(api_version, "dg/v1") || str_eq(api_version, "v1")) {
        return Err(
            GraphError::Validation {
                path: "apiVersion".to_string(),
                message: "unsupported apiVersion: ".to_owned().concat(api_version),
            },
        );
    }
    if !str_eq(kind, "Graph") {
        return Err(
            GraphError::Validation {
                path: "kind".to_string(),
                message: "unsupported kind: ".to_owned().concat(kind),
            },
        );
    }
    Ok(())
}

/// One edge of a graph: `from_node.from_port -> to_node.to_port`.
#[derive(Clone, Debug, PartialEq, Eq)]
pub struct ConnectionSpec {
    pub from_node: String,
    pub from_port: String,
    pub to_node: String,
    pub to_port: String,
}

/// What parsing a connection gives: the four trimmed names, or the error text.
pub open spec fn parse_connection(s: Seq<char>) -> Result<(Seq<char>, Seq<char>, Seq<char>, Seq<char>), Seq<char>> {
    match split_once_spec(s, "->"@) {
        None => Err("invalid connection: "@ + s),
        Some((from, to)) => {
            let from = trim_spec(from);
            let to = trim_spec(to);
            match split_once_spec(from, "."@) {
                None => Err("invalid source endpoint: "@ + from),
                Some((from_node, from_port)) => match split_once_spec(to, "."@) {
                    None => Err("invalid destination endpoint: "@ + to),
                    Some((to_node, to_port)) => Ok(
                        (trim_spec(from_node), trim_spec(from_port), trim_spec(to_node), trim_spec(to_port)),
                    ),
                },
            }
        },
    }
}

/// The `Display` text of a connection.
pub open spec fn connection_text(c: ConnectionSpec) -> Seq<char> {
    c.from_node@ + "."@ + c.from_port@ + " -> "@ + c.to_node@ + "."@ + c.to_port@
}

impl ConnectionSpec {
    /// Parses `from_node.from_port -> to_node.to_port`, splitting at the first
    /// `->` and then at the first `.` of each side, and trimming every part.
    pub fn parse(spec: &str) -> (r: Result<Self, GraphError>)
        ensures
            match parse_connection(spec@) {
                Ok((a, b, c, d)) => r matches Ok(conn) && conn.from_node@ == a && conn.from_port@ == b
                    && conn.to_node@ == c && conn.to_port@ == d,
                Err(message) => r matches Err(GraphError::Config(m)) && m@ == message,
            },
    {
        let (from, to) = match split_once(spec, "->") {
            Some(parts) => parts,
            None => {
                return Err(GraphError::Config("invalid connection: ".to_owned().concat(spec)));
            },
        };
        let from = trim(from);
        let to = trim(to);
        let (from_node, from_port) = match split_once(from, ".") {
            Some(parts) => parts,
            None => {
                return Err(GraphError::Config("invalid source endpoint: ".to_owned().concat(from)));
            },
        };
        let (to_node, to_port) = match split_once(to, ".") {
            Some(parts) => parts,
            None => {
                return Err(
                    GraphError::Config("invalid destination endpoint: ".to_owned().concat(to)),
                );
            },
        };
        Ok(
            ConnectionSpec {
                from_node: trim(from_node).to_string(),
                from_port: trim(from_port).to_string(),
                to_node: trim(to_node).to_string(),
                to_port: trim(to_port).to_string(),
            },
        )
    }

    /// The `Display` text: `from_node.from_port -> to_node.to_port`.
    pub fn text(&self) -> (r: String)
        ensures
            r@ == connection_text(*self),
    {
        self.from_node.clone().concat(".").concat(self.from_port.as_str()).concat(" -> ").concat(
            self.to_node.as_str(),
        ).concat(".").concat(self.to_port.as_str())
    }
}

/// A reusable node configuration that nodes refer to by name.
#[derive(Debug)]
pub struct NodeTemplate {
    pub kind: String,
    pub template: Option<String>,
    pub params: JsonValue,
}

/// One node of a graph: a unique name, an element kind and its parameters.
#[derive(Debug)]
pub struct NodeSpec {
    pub name: String,
    pub kind: String,
    /// The template whose kind and parameters this node starts from.
    pub template: Option<String>,
    /// How many instances of the element run side by side (one if unset).
    pub threads: Option<usize>,
    pub params: JsonValue,
}

/// An optional string as an optional sequence of characters.
pub open spec fn opt_text(o: Option<String>) -> Option<Seq<char>> {
    match o {
        Some(t) => Some(t@),
        None => None,
    }
}

/// A node as plain values.
pub struct NodeView {
    pub name: Seq<char>,
    pub kind: Seq<char>,
    pub template: Option<Seq<char>>,
    pub threads: Option<usize>,
    pub params: JsonView,
}

impl View for NodeSpec {
    type V = NodeView;

    open spec fn view(&self) -> NodeView {
        NodeView {
            name: self.name@,
            kind: self.kind@,
            template: opt_text(self.template),
            threads: self.threads,
            params: self.params@,
        }
    }
}

pub(crate) fn copy_text(o: &Option<String>) -> (r: Option<String>)
    ensures
        opt_text(r) == opt_text(*o),
{
    match o {
        Some(t) => Some(t.clone()),
        None => None,
    }
}

fn same_text(a: &Option<String>, b: &Option<String>) -> (r: bool)
    ensures
        r == (opt_text(*a) == opt_text(*b)),
{
    match (a, b) {
        (Some(x), Some(y)) => str_eq(x.as_str(), y.as_str()),
        (None, None) => true,
        _ => false,
    }
}

impl NodeSpec {
    /// A copy of the node with the same view.
    pub fn copy(&self) -> (r: NodeSpec)
        ensures
            r@ == self@,
    {
        NodeSpec {
            name: self.name.clone(),
            kind: self.kind.clone(),
            template: copy_text(&self.template),
            threads: self.threads,
            params: copy_json(&self.params),
        }
    }

    /// Whether two nodes agree in every field.
    pub fn same_as(&self, other: &NodeSpec) -> (r: bool)
        ensures
            r == (self@ == other@),
    {
        str_eq(self.name.as_str(), other.name.as_str()) && str_eq(self.kind.as_str(), other.kind.as_str())
            && same_text(&self.template, &other.template) && self.threads == other.threads && json_eq(
            &self.params,
            &other.params,
        )
    }
}

/// A graph configuration: nodes, the connections between their ports, and
/// the templates and variables they are written with.
#[derive(Debug)]
pub struct GraphSpec {
    pub api_version: String,
    pub kind: String,
    pub includes: Vec<String>,
    /// Variables by name; where a name occurs twice the later entry counts.
    pub variables: Vec<(String, JsonValue)>,
    /// Templates by name; where a name occurs twice the later entry counts.
    pub templates: Vec<(String, NodeTemplate)>,
    pub allow_cycles: bool,
    pub execution: ExecutionSpec,
    pub nodes: Vec<NodeSpec>,
    pub connections: Vec<String>,
}

/// The views of a list of nodes.
pub open spec fn views(s: Seq<NodeSpec>) -> Seq<NodeView> {
    s.map_values(|n: NodeSpec| n@)
}

/// The texts of a list of strings.
pub open spec fn texts(s: Seq<String>) -> Seq<Seq<char>> {
    s.map_values(|x: String| x@)
}

/// A node template as plain values.
pub struct TemplateView {
    pub kind: Seq<char>,
    pub template: Option<Seq<char>>,
    pub params: JsonView,
}

impl View for NodeTemplate {
    type V = TemplateView;

    open spec fn view(&self) -> TemplateView {
        TemplateView { kind: self.kind@, template: opt_text(self.template), params: self.params@ }
    }
}

/// A graph configuration as plain values.
pub struct GraphView {
    pub api_version: Seq<char>,
    pub kind: Seq<char>,
    pub includes: Seq<Seq<char>>,
    pub variables: Seq<(Seq<char>, JsonView)>,
    pub templates: Seq<(Seq<char>, TemplateView)>,
    pub allow_cycles: bool,
    pub execution: ExecutionSpec,
    pub nodes: Seq<NodeView>,
    pub connections: Seq<Seq<char>>,
}

impl View for GraphSpec {
    type V = GraphView;

    open spec fn view(&self) -> GraphView {
        GraphView {
            api_version: self.api_version@,
            kind: self.kind@,
            includes: texts(self.includes@),
            variables: self.variables@.map_values(|e: (String, JsonValue)| (e.0@, e.1@)),
            templates: self.templates@.map_values(|e: (String, NodeTemplate)| (e.0@, e.1@)),
            allow_cycles: self.allow_cycles,
            execution: self.execution,
            nodes: views(self.nodes@),
            connections: texts(self.connections@),
        }
    }
}

fn copy_texts(v: &Vec<String>) -> (r: Vec<String>)
    ensures
        r@ == v@,
{
    let mut r: Vec<String> = Vec::new();
    let mut i: usize = 0;
    while i < v.len()
        invariant
            i <= v@.len(),
            r@ == v@.take(i as int),
        decreases v@.len() - i,
    {
        r.push(v[i].clone());
        assert(r@ =~= v@.take(i + 1));
        i += 1;
    }
    assert(v@.take(v@.len() as int) =~= v@);
    r
}

impl NodeTemplate {
    /// A copy of the template with the same view.
    pub fn copy(&self) -> (r: NodeTemplate)
        ensures
            r@ == self@,
    {
        NodeTemplate { kind: self.kind.clone(), template: copy_text(&self.template), params: copy_json(&self.params) }
    }
}

impl GraphSpec {
    /// A copy of the configuration with the same view.
    pub fn copy(&self) -> (r: GraphSpec)
        ensures
            r@ == self@,
    {
        let mut variables: Vec<(String, JsonValue)> = Vec::new();
        let mut i: usize = 0;
        while i < self.variables.len()
            invariant
                i <= self.variables@.len(),
                variables@.len() == i,
                forall|k: int|
                    0 <= k < i ==> (#[trigger] variables@[k]).0@ == self.variables@[k].0@ && variables@[k].1@
                        == self.variables@[k].1@,
            decreases self.variables@.len() - i,
        {
            variables.push((self.variables[i].0.clone(), copy_json(&self.variables[i].1)));
            i += 1;
        }
        let mut templates: Vec<(String, NodeTemplate)> = Vec::new();
        let mut i: usize = 0;
        while i < self.templates.len()
            invariant
                i <= self.templates@.len(),
                templates@.len() == i,
                forall|k: int|
                    0 <= k < i ==> (#[trigger] templates@[k]).0@ == self.templates@[k].0@ && templates@[k].1@
                        == self.templates@[k].1@,
            decreases self.templates@.len() - i,
        {
            templates.push((self.templates[i].0.clone(), self.templates[i].1.copy()));
            i += 1;
        }
        let mut nodes: Vec<NodeSpec> = Vec::new();
        let mut i: usize = 0;
        while i < self.nodes.len()
            invariant
                i <= self.nodes@.len(),
                nodes@.len() == i,
                forall|k: int| 0 <= k < i ==> (#[trigger] nodes@[k])@ == self.nodes@[k]@,
            decreases self.nodes@.len() - i,
        {
            nodes.push(self.nodes[i].copy());
            i += 1;
        }
        let r = GraphSpec {
            api_version: self.api_version.clone(),
            kind: self.kind.clone(),
            includes: copy_texts(&self.includes),
            variables,
            templates,
            allow_cycles: self.allow_cycles,
            execution: self.execution,
            nodes,
            connections: copy_texts(&self.connections),
        };
        assert(r@.variables =~= self@.variables);
        assert(r@.templates =~= self@.templates);
        assert(r@.nodes =~= self@.nodes);
        r
    }
}

impl Default for GraphSpec {
    fn default() -> (r: Self)
        ensures
            r.api_version@ == "dg/v1"@,
            r.kind@ == "Graph"@,
            r.includes@.len() == 0,
            r.variables@.len() == 0,
            r.templates@.len() == 0,
            !r.allow_cycles,
            r.execution == (ExecutionSpec {
                parallel: ParallelType::Pipeline,
                queue_capacity: DEFAULT_QUEUE_CAPACITY,
                workers: None,
            }),
            r.nodes@.len() == 0,
            r.connections@.len() == 0,
    {
        GraphSpec {
            api_version: default_api_version(),
            kind: default_kind(),
            includes: Vec::new(),
            variables: Vec::new(),
            templates: Vec::new(),
            allow_cycles: false,
            execution: ExecutionSpec::default(),
            nodes: Vec::new(),
            connections: Vec::new(),
        }
    }
}

/// Serialization formats of a graph specification.
#[derive(Clone, Copy, Debug, PartialEq, Eq, Structural)]
pub enum GraphFormat {
    Yaml,
    Json,
    Toml,
}

/// The extension of the last component of a path (`Path::extension`), if it
/// has one that is valid UTF-8. Components are split at the path separators
/// of the platform the library is built for (`/` on Unix; `/` and `\\` on
/// Windows), so this names the result for that platform.
pub uninterp spec fn path_extension(path: Seq<char>) -> Option<Seq<char>>;

/// `Path::extension` of `path`, as a string.
#[verifier::external_body]
fn extension_of(path: &str) -> (r: Option<String>)
    ensures
        r matches Some(e) ==> path_extension(path@) == Some(e@),
        r is None ==> path_extension(path@) is None,
{
    match std::path::Path::new(path).extension() {
        Some(ext) => match ext.to_str() {
            Some(text) => Some(text.to_string()),
            None => None,
        },
        None => None,
    }
}

/// The format a file extension names.
pub open spec fn format_for_extension(ext: Option<Seq<char>>) -> Option<GraphFormat> {
    match ext {
        Some(e) => if e == "yaml"@ || e == "yml"@ {
            Some(GraphFormat::Yaml)
        } else if e == "json"@ {
            Some(GraphFormat::Json)
        } else if e == "toml"@ {
            Some(GraphFormat::Toml)
        } else {
            None
        },
        None => None,
    }
}

impl GraphFormat {
    /// The format named by a file extension: `yaml`/`yml`, `json` or `toml`.
    pub fn from_extension(ext: Option<&str>) -> (r: Option<GraphFormat>)
        ensures
            r == format_for_extension(
                match ext {
                    Some(e) => Some(e@),
                    None => None,
                },
            ),
    {
        match ext {
            Some(e) => {
                if str_eq(e, "yaml") || str_eq(e, "yml") {
                    Some(GraphFormat::Yaml)
                } else if str_eq(e, "json") {
                    Some(GraphFormat::Json)
                } else if str_eq(e, "toml") {
                    Some(GraphFormat::Toml)
                } else {
                    None
                }
            },
            None => None,
        }
    }

    /// The format of a graph file, from its extension.
    pub fn from_path(path: &str) -> (r: Result<GraphFormat, GraphError>)
        ensures
            match format_for_extension(path_extension(path@)) {
                Some(f) => r == Ok::<GraphFormat, GraphError>(f),
                None => r matches Err(GraphError::UnknownFormat(p)) && p@ == path@,
            },
    {
        let ext = extension_of(path);
        let format = match &ext {
            Some(e) => GraphFormat::from_extension(Some(e.as_str())),
            None => GraphFormat::from_extension(None),
        };
        match format {
            Some(f) => Ok(f),
            None => Err(GraphError::UnknownFormat(path.to_string())),
        }
    }
}

/// `f` has no white space at either end.
pub open spec fn tidy(f: Seq<char>) -> bool {
    f.len() == 0 || (!white_space(f[0]) && !white_space(f.last()))
}

/// `c` occurs nowhere in `f`.
pub open spec fn lacks(f: Seq<char>, c: char) -> bool {
    forall|i: int| 0 <= i < f.len() ==> #[trigger] f[i] != c
}

proof fn lemma_trim_tidy(x: Seq<char>)
    requires
        x.len() > 0,
        !white_space(x[0]),
        !white_space(x.last()),
    ensures
        trim_spec(x) == x,
{
    assert(trim_start_spec(x) == x);
    assert(trim_end_spec(x) == x);
}

proof fn lemma_trim_spaces(x: Seq<char>)
    requires
        x.len() > 0,
        !white_space(x[0]),
        !white_space(x.last()),
    ensures
        trim_spec(x + seq![' ']) == x,
        trim_spec(seq![' '] + x) == x,
{
    reveal_with_fuel(trim_start_spec, 2);
    reveal_with_fuel(trim_end_spec, 2);
    let a = x + seq![' '];
    assert(a[0] == x[0]);
    assert(trim_start_spec(a) == a);
    assert(a.drop_last() =~= x);
    assert(trim_end_spec(a) == trim_end_spec(x));
    assert(trim_end_spec(x) == x);
    let b = seq![' '] + x;
    assert(b.drop_first() =~= x);
    assert(trim_start_spec(b) == trim_start_spec(x));
    assert(trim_start_spec(x) == x);
    assert(trim_end_spec(x) == x);
}

proof fn lemma_split_at_dot(a: Seq<char>, b: Seq<char>)
    requires
        lacks(a, '.'),
    ensures
        split_once_spec(a + "."@ + b, "."@) == Some((a, b)),
{
    reveal_strlit(".");
    let s = a + "."@ + b;
    let k = a.len() as int;
    assert(s.subrange(k, k + 1) =~= "."@);
    assert forall|j: int| 0 <= j < k implies !#[trigger] occurs_at(s, "."@, j) by {
        if occurs_at(s, "."@, j) {
            assert(s.subrange(j, j + 1)[0] == s[j]);
            assert(s[j] == a[j]);
        }
    }
    assert(first_at(s, "."@, k));
    lemma_first_occurrence_is(s, "."@, k);
    assert(s.subrange(0, k) =~= a);
    assert(s.subrange(k + 1, s.len() as int) =~= b);
}

/// Rendering a connection and parsing the text back gives the same four
/// names, when the names have no white space at either end, the node names
/// hold no `.`, and the source names hold no `->`.
pub proof fn lemma_connection_text_round_trip(c: ConnectionSpec)
    requires
        tidy(c.from_node@),
        tidy(c.from_port@),
        tidy(c.to_node@),
        tidy(c.to_port@),
        lacks(c.from_node@, '.'),
        lacks(c.to_node@, '.'),
        forall|j: int| !#[trigger] occurs_at(c.from_node@, "->"@, j),
        forall|j: int| !#[trigger] occurs_at(c.from_port@, "->"@, j),
    ensures
        parse_connection(connection_text(c)) == Ok::<(Seq<char>, Seq<char>, Seq<char>, Seq<char>), Seq<char>>(
            (c.from_node@, c.from_port@, c.to_node@, c.to_port@),
        ),
{
    reveal_strlit(".");
    reveal_strlit("->");
    reveal_strlit(" -> ");
    let fnode = c.from_node@;
    let fport = c.from_port@;
    let tnode = c.to_node@;
    let tport = c.to_port@;
    let s = connection_text(c);
    let left = fnode + "."@ + fport;
    let right = tnode + "."@ + tport;
    assert(s =~= left + seq![' '] + "->"@ + seq![' '] + right);
    let k = left.len() + 1int;
    assert(s.subrange(k, k + 2) =~= "->"@);
    assert forall|j: int| 0 <= j < k implies !#[trigger] occurs_at(s, "->"@, j) by {
        if occurs_at(s, "->"@, j) {
            assert(s.subrange(j, j + 2)[0] == s[j] && s.subrange(j, j + 2)[1] == s[j + 1]);
            assert(s[j] == '-' && s[j + 1] == '>');
            let nf = fnode.len() as int;
            if j + 1 < nf {
                assert(fnode.subrange(j, j + 2) =~= "->"@);
                assert(occurs_at(fnode, "->"@, j));
            } else if j + 1 == nf {
                assert(s[j + 1] == '.');
            } else if j == nf {
                assert(s[j] == '.');
            } else if j + 1 < k - 1 {
                let i = j - nf - 1;
                assert(s[j] == fport[i] && s[j + 1] == fport[i + 1]);
                assert(fport.subrange(i, i + 2) =~= "->"@);
                assert(occurs_at(fport, "->"@, i));
            } else if j + 1 == k - 1 {
                assert(s[j + 1] == ' ');
            } else {
                assert(s[j] == ' ');
            }
        }
    }
    assert(first_at(s, "->"@, k));
    lemma_first_occurrence_is(s, "->"@, k);
    let from = s.subrange(0, k);
    let to = s.subrange(k + 2, s.len() as int);
    assert(from =~= left + seq![' ']);
    assert(to =~= seq![' '] + right);
    assert(left.len() > 0 && (!white_space(left[0])) && !white_space(left.last())) by {
        if fnode.len() > 0 {
            assert(left[0] == fnode[0]);
        } else {
            assert(left[0] == '.');
        }
        if fport.len() > 0 {
            assert(left.last() == fport.last());
        } else {
            assert(left.last() == '.');
        }
    }
    assert(right.len() > 0 && (!white_space(right[0])) && !white_space(right.last())) by {
        if tnode.len() > 0 {
            assert(right[0] == tnode[0]);
        } else {
            assert(right[0] == '.');
        }
        if tport.len() > 0 {
            assert(right.last() == tport.last());
        } else {
            assert(right.last() == '.');
        }
    }
    lemma_trim_spaces(left);
    lemma_trim_spaces(right);
    lemma_split_at_dot(fnode, fport);
    lemma_split_at_dot(tnode, tport);
    if fnode.len() > 0 {
        lemma_trim_tidy(fnode);
    }
    if fport.len() > 0 {
        lemma_trim_tidy(fport);
    }
    if tnode.len() > 0 {
        lemma_trim_tidy(tnode);
    }
    if tport.len() > 0 {
        lemma_trim_tidy(tport);
    }
}

/// Text in the canonical form `from.port -> to.port`, with tidy names, node
/// names without `.` and source names without `->`, parses into a
/// connection that renders back to the very same text.
pub proof fn lemma_canonical_text_round_trip(c: ConnectionSpec, parsed: ConnectionSpec)
    requires
        tidy(c.from_node@),
        tidy(c.from_port@),
        tidy(c.to_node@),
        tidy(c.to_port@),
        lacks(c.from_node@, '.'),
        lacks(c.to_node@, '.'),
        forall|j: int| !#[trigger] occurs_at(c.from_node@, "->"@, j),
        forall|j: int| !#[trigger] occurs_at(c.from_port@, "->"@, j),
        parse_connection(connection_text(c)) == Ok::<(Seq<char>, Seq<char>, Seq<char>, Seq<char>), Seq<char>>(
            (parsed.from_node@, parsed.from_port@, parsed.to_node@, parsed.to_port@),
        ),
    ensures
        connection_text(parsed) == connection_text(c),
{
    lemma_connection_text_round_trip(c);
}

} // verus!
