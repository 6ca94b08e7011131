//! The command-line front end: its commands and the decisions behind them.
use crate::error::Error;
use crate::media::planner::{
    FrameLayout, FrameTransferRequest, HandleKind, MemoryDtype, MemoryFormat, ZeroCopyPlanner,
};
use crate::graph::diff::GraphDiff;
use crate::graph::spec::{texts, NodeSpec};
use crate::media::codec::joined;
use crate::types::MemoryDomain;
use vstd::prelude::*;

verus! {

/// Command-line arguments: a verbosity count and one command.
pub struct Cli {
    pub verbose: u8,
    pub command: Command,
}

/// The commands of the `dg` tool. Paths are kept as strings.
pub enum Command {
    Run { config: String, format: OutputFormat, watch: bool },
    Demo { config: String },
    Validate { config: String },
    ListElements,
    Schema { kind: Option<String> },
}

/// How a run report is printed.
#[derive(Clone, Copy, Debug, PartialEq, Eq, Structural)]
pub enum OutputFormat {
    Json,
    Text,
}

/// What the demo command reports.
#[derive(Clone, Copy, Debug, PartialEq, Eq, Structural)]
pub struct DemoSummary {
    pub streams: usize,
    pub frames: usize,
    pub planned_copy_count: usize,
}

/// The mock inputs the demo publishes.
pub fn demo_inputs() -> (r: Vec<&'static str>)
    ensures
        r@.len() == 2,
        r@[0]@ == "mock://demo/input-a"@,
        r@[1]@ == "mock://demo/input-b"@,
{
    let mut inputs: Vec<&'static str> = Vec::new();
    inputs.push("mock://demo/input-a");
    inputs.push("mock://demo/input-b");
    inputs
}

/// Frames published on each demo input.
pub const DEMO_FRAME_COUNT: usize = 3;

/// The message printed when a changed configuration is rejected.
pub fn render_reload_rejected(error: &str) -> (r: String)
    ensures
        r@ == "graph configuration reload REJECTED: "@ + error@
            + "; previous configuration remains active"@,
{
    "graph configuration reload REJECTED: ".to_owned().concat(error).concat(
        "; previous configuration remains active",
    )
}

/// The copies the planner chooses for a demo frame: a packed 2x2 RGB host
/// frame handed to the host media pipeline is shared, so none.
pub fn planned_demo_copy_count() -> (r: Result<usize, Error>)
    ensures
        r == Ok::<usize, Error>(0),
{
    let mut dims: Vec<usize> = Vec::new();
    dims.push(2);
    dims.push(2);
    dims.push(3);
    let mut strides: Vec<usize> = Vec::new();
    strides.push(6);
    let layout = FrameLayout {
        dims,
        format: MemoryFormat::Rgb24,
        dtype: MemoryDtype::U8,
        plane_count: 1,
        strides,
        subsampling: None,
        packed: true,
    };
    let target_layout = FrameLayout {
        dims: layout.dims.clone(),
        format: layout.format,
        dtype: layout.dtype,
        plane_count: layout.plane_count,
        strides: layout.strides.clone(),
        subsampling: layout.subsampling,
        packed: layout.packed,
    };
    let request = FrameTransferRequest {
        source_domain: MemoryDomain::Host,
        target_domain: MemoryDomain::Host,
        source_handle: HandleKind::HostBytes,
        target_handle: HandleKind::HostBytes,
        source_layout: layout,
        target_layout,
        has_lifetime_guard: true,
        staging_supported: true,
        operation: "demo mock input to media pipeline".to_string(),
    };
    let report = ZeroCopyPlanner::new().plan_frame(&request)?;
    Ok(report.copy_count)
}

/// The names a configuration change touches, as the tool reports them.
#[derive(Debug)]
pub struct DiffSummary {
    pub added_nodes: Vec<String>,
    pub removed_nodes: Vec<String>,
    pub updated_nodes: Vec<String>,
    pub added_connections: Vec<String>,
    pub removed_connections: Vec<String>,
}

/// The names of a list of nodes.
pub open spec fn node_names_of(nodes: Seq<NodeSpec>) -> Seq<Seq<char>> {
    nodes.map_values(|n: NodeSpec| n.name@)
}

fn names_of(nodes: &Vec<NodeSpec>) -> (r: Vec<String>)
    ensures
        texts(r@) == node_names_of(nodes@),
{
    let mut r: Vec<String> = Vec::new();
    let mut i: usize = 0;
    while i < nodes.len()
        invariant
            i <= nodes@.len(),
            r@.len() == i,
            forall|k: int| 0 <= k < i ==> (#[trigger] r@[k])@ == nodes@[k].name@,
        decreases nodes@.len() - i,
    {
        r.push(nodes[i].name.clone());
        i += 1;
    }
    assert(texts(r@) =~= node_names_of(nodes@));
    r
}

fn copy_strings(v: &Vec<String>) -> (r: Vec<String>)
    ensures
        r@ == v@,
{
    let mut r: Vec<String> = Vec::new();
    let mut i: usize = 0;
    while i < v.len()
        invariant
            i <= v@.len(),
            r@ == v@.take(i as int),
        decreases v@.len() - i,
    {
        r.push(v[i].clone());
        assert(r@ =~= v@.take(i + 1));
        i += 1;
    }
    assert(v@.take(v@.len() as int) =~= v@);
    r
}

/// The node names and connections of a configuration change.
pub fn diff_summary(diff: &GraphDiff) -> (r: DiffSummary)
    ensures
        texts(r.added_nodes@) == node_names_of(diff.added_nodes@),
        r.removed_nodes@ == diff.removed_nodes@,
        texts(r.updated_nodes@) == node_names_of(diff.updated_nodes@),
        r.added_connections@ == diff.added_connections@,
        r.removed_connections@ == diff.removed_connections@,
{
    DiffSummary {
        added_nodes: names_of(&diff.added_nodes),
        removed_nodes: copy_strings(&diff.removed_nodes),
        updated_nodes: names_of(&diff.updated_nodes),
        added_connections: copy_strings(&diff.added_connections),
        removed_connections: copy_strings(&diff.removed_connections),
    }
}

/// `parts` joined with `sep`.
pub fn join_strings(parts: &Vec<String>, sep: &str) -> (r: String)
    ensures
        r@ == joined(texts(parts@), sep@),
{
    let ghost t = texts(parts@);
    let mut out = String::new();
    let mut i: usize = 0;
    while i < parts.len()
        invariant
            t == texts(parts@),
            i <= parts@.len(),
            out@ == joined(t.take(i as int), sep@),
        decreases parts@.len() - i,
    {
        if i > 0 {
            out = out.concat(sep);
        }
        out = out.concat(parts[i].as_str());
        proof {
            assert(t.take(i + 1).drop_last() =~= t.take(i as int));
            if i == 0 {
                assert(t.take(1)[0] == t[0]);
                assert(out@ =~= t.take(1)[0]);
            }
        }
        i += 1;
    }
    assert(t.take(parts@.len() as int) =~= t);
    out
}

/// The text report of a configuration change: a first line, then one line
/// for each non-empty list of names.
pub open spec fn report_lines(
    added_nodes: Seq<Seq<char>>,
    removed_nodes: Seq<Seq<char>>,
    updated_nodes: Seq<Seq<char>>,
    added_connections: Seq<Seq<char>>,
    removed_connections: Seq<Seq<char>>,
) -> Seq<Seq<char>> {
    let a = seq!["graph configuration reloaded"@];
    let a = if added_nodes.len() > 0 { a.push("added nodes: "@ + joined(added_nodes, ", "@)) } else { a };
    let a = if removed_nodes.len() > 0 { a.push("removed nodes: "@ + joined(removed_nodes, ", "@)) } else { a };
    let a = if updated_nodes.len() > 0 { a.push("updated nodes: "@ + joined(updated_nodes, ", "@)) } else { a };
    let a = if added_connections.len() > 0 {
        a.push("added connections: "@ + joined(added_connections, ", "@))
    } else {
        a
    };
    if removed_connections.len() > 0 {
        a.push("removed connections: "@ + joined(removed_connections, ", "@))
    } else {
        a
    }
}

/// The pretty-printed JSON `serde_json` writes for an object whose fields,
/// in this order, are lists of strings.
pub uninterp spec fn pretty_lists_json(fields: Seq<(Seq<char>, Seq<Seq<char>>)>) -> Seq<char>;

/// `serde_json`'s pretty serializer on an object of string lists, its
/// fields written in the given order (what `serde_json::to_string_pretty`
/// writes for a struct with those fields).
#[verifier::external_body]
fn pretty_lists(fields: &Vec<(String, Vec<String>)>) -> (r: String)
    ensures
        r@ == pretty_lists_json(fields@.map_values(|f: (String, Vec<String>)| (f.0@, texts(f.1@)))),
{
    let mut out: Vec<u8> = Vec::new();
    let mut serializer = serde_json::Serializer::pretty(&mut out);
    match serde::Serializer::collect_map(&mut serializer, fields.iter().map(|(key, value)| (key, value))) {
        Ok(()) => match String::from_utf8(out) {
            Ok(text) => text,
            Err(_) => String::new(),
        },
        Err(_) => String::new(),
    }
}

/// The report of a configuration change: the pretty JSON object of its
/// five lists of names, or the text lines of `report_lines`.
pub fn render_diff(diff: &GraphDiff, format: OutputFormat) -> (r: String)
    ensures
        format == OutputFormat::Json ==> r@ == pretty_lists_json(
            seq![
                ("added_nodes"@, node_names_of(diff.added_nodes@)),
                ("removed_nodes"@, texts(diff.removed_nodes@)),
                ("updated_nodes"@, node_names_of(diff.updated_nodes@)),
                ("added_connections"@, texts(diff.added_connections@)),
                ("removed_connections"@, texts(diff.removed_connections@)),
            ],
        ),
        format == OutputFormat::Text ==> r@ == joined(
            report_lines(
                node_names_of(diff.added_nodes@),
                texts(diff.removed_nodes@),
                node_names_of(diff.updated_nodes@),
                texts(diff.added_connections@),
                texts(diff.removed_connections@),
            ),
            "\n"@,
        ),
{
    let summary = diff_summary(diff);
    match format {
        OutputFormat::Json => {
            let fields = vec![
                ("added_nodes".to_string(), summary.added_nodes),
                ("removed_nodes".to_string(), summary.removed_nodes),
                ("updated_nodes".to_string(), summary.updated_nodes),
                ("added_connections".to_string(), summary.added_connections),
                ("removed_connections".to_string(), summary.removed_connections),
            ];
            let r = pretty_lists(&fields);
            assert(fields@.map_values(|f: (String, Vec<String>)| (f.0@, texts(f.1@))) =~= seq![
                ("added_nodes"@, node_names_of(diff.added_nodes@)),
                ("removed_nodes"@, texts(diff.removed_nodes@)),
                ("updated_nodes"@, node_names_of(diff.updated_nodes@)),
                ("added_connections"@, texts(diff.added_connections@)),
                ("removed_connections"@, texts(diff.removed_connections@)),
            ]);
            r
        },
        OutputFormat::Text => render_summary_text(&summary),
    }
}

/// The text lines of a change report, joined by line breaks.
pub fn render_summary_text(s: &DiffSummary) -> (r: String)
    ensures
        r@ == joined(
            report_lines(
                texts(s.added_nodes@),
                texts(s.removed_nodes@),
                texts(s.updated_nodes@),
                texts(s.added_connections@),
                texts(s.removed_connections@),
            ),
            "\n"@,
        ),
{
    let mut lines: Vec<String> = Vec::new();
    lines.push("graph configuration reloaded".to_string());
    if s.added_nodes.len() > 0 {
        lines.push("added nodes: ".to_owned().concat(join_strings(&s.added_nodes, ", ").as_str()));
    }
    if s.removed_nodes.len() > 0 {
        lines.push("removed nodes: ".to_owned().concat(join_strings(&s.removed_nodes, ", ").as_str()));
    }
    if s.updated_nodes.len() > 0 {
        lines.push("updated nodes: ".to_owned().concat(join_strings(&s.updated_nodes, ", ").as_str()));
    }
    if s.added_connections.len() > 0 {
        lines.push("added connections: ".to_owned().concat(join_strings(&s.added_connections, ", ").as_str()));
    }
    if s.removed_connections.len() > 0 {
        lines.push("removed connections: ".to_owned().concat(join_strings(&s.removed_connections, ", ").as_str()));
    }
    assert(texts(lines@) =~= report_lines(
        texts(s.added_nodes@),
        texts(s.removed_nodes@),
        texts(s.updated_nodes@),
        texts(s.added_connections@),
        texts(s.removed_connections@),
    ));
    join_strings(&lines, "\n")
}

} // verus!
