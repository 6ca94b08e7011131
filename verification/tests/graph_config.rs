use dg::graph::builtin::builtin_elements;
use dg::graph::diff::{Graph, GraphDiff};
use dg::graph::error::GraphError;
use dg::graph::json::{json_eq, merge_values, JsonValue};
use dg::graph::normalize::GraphSpecBuilder;
use dg::graph::plan::{check_injected_inputs, instance_count, pipe_capacity, plan_routes, prepare_hot_update, RouteAction};
use dg::graph::spec::{ExecutionSpec, GraphSpec, NodeSpec, NodeTemplate, ParallelType};
use dg::text::{decimal, replace, str_less};

fn num(text: &str) -> JsonValue {
    JsonValue::Number(text.to_string())
}

fn text(value: &str) -> JsonValue {
    JsonValue::Str(value.to_string())
}

fn shape() -> JsonValue {
    JsonValue::Array(vec![num("1"), num("4")])
}

fn obj(entries: Vec<(&str, JsonValue)>) -> JsonValue {
    JsonValue::Object(entries.into_iter().map(|(key, value)| (key.to_string(), value)).collect())
}

fn node(name: &str, kind: &str, params: JsonValue) -> NodeSpec {
    NodeSpec { name: name.to_string(), kind: kind.to_string(), template: None, threads: None, params }
}

fn threaded(name: &str, kind: &str, threads: usize, params: JsonValue) -> NodeSpec {
    NodeSpec { threads: Some(threads), ..node(name, kind, params) }
}

fn sample_spec() -> GraphSpec {
    GraphSpecBuilder::new()
        .variable("start".to_string(), num("7.0"))
        .add_template(
            "mock_base".to_string(),
            NodeTemplate {
                kind: "mock_inference".to_string(),
                template: None,
                params: obj(vec![("shape", shape()), ("echo_inputs", JsonValue::Bool(true))]),
            },
        )
        .add_node(node("source", "source", obj(vec![("count", num("2")), ("shape", shape()), ("start", text("${start}"))])))
        .add_node(NodeSpec {
            template: Some("mock_base".to_string()),
            ..node("infer", "mock_inference", obj(vec![("fill_value", num("0"))]))
        })
        .add_node(node("sink", "sink", obj(vec![])))
        .connect("source.out -> infer.in".to_string())
        .connect("infer.out -> sink.in".to_string())
        .build(&builtin_elements())
        .expect("build sample spec")
}

fn linear(threads_at: Option<(&str, usize)>) -> GraphSpecBuilder {
    let with = |name: &str, kind: &str, params: JsonValue| match threads_at {
        Some((target, count)) if target == name => threaded(name, kind, count, params),
        _ => node(name, kind, params),
    };
    GraphSpecBuilder::new()
        .add_node(with("source", "source", obj(vec![("count", num("1")), ("shape", shape())])))
        .add_node(with("infer", "mock_inference", obj(vec![("shape", shape())])))
        .add_node(with("sink", "sink", obj(vec![])))
        .connect("source.out -> infer.in".to_string())
        .connect("infer.out -> sink.in".to_string())
}

#[test]
fn graph_spec_validation_rejects_duplicate_names_and_cycles() {
    let duplicate = GraphSpecBuilder::new()
        .add_node(node("dup", "source", obj(vec![("count", num("1")), ("shape", shape())])))
        .add_node(node("dup", "sink", obj(vec![])))
        .build(&builtin_elements());
    assert!(duplicate.is_err());

    let cycle = GraphSpecBuilder::new()
        .add_node(node("a", "mock_inference", obj(vec![("shape", shape())])))
        .add_node(node("b", "mock_inference", obj(vec![("shape", shape())])))
        .connect("a.out -> b.in".to_string())
        .connect("b.out -> a.in".to_string())
        .build(&builtin_elements());
    assert!(cycle.is_err());
}

#[test]
fn cfg09_rejects_unknown_template_references() {
    let error = GraphSpecBuilder::new()
        .add_node(NodeSpec {
            template: Some("missing".to_string()),
            ..node("infer", "mock_inference", obj(vec![("shape", shape())]))
        })
        .build(&builtin_elements())
        .expect_err("unknown templates should be rejected");
    assert!(error.message().contains("nodes[infer].template"));
    assert!(error.message().contains("missing"));
}

#[test]
fn cfg09_rejects_unresolved_variables_in_params_and_connections() {
    let param_error = GraphSpecBuilder::new()
        .add_node(node(
            "source",
            "source",
            obj(vec![("count", num("1")), ("shape", shape()), ("start", text("${undefined}"))]),
        ))
        .build(&builtin_elements())
        .expect_err("unresolved parameter variables should be rejected");
    assert!(param_error.message().contains("nodes[source].params"));
    assert!(param_error.message().contains("${undefined}"));

    let connection_error = GraphSpec {
        nodes: vec![
            node("source", "source", obj(vec![("count", num("1")), ("shape", shape())])),
            node("sink", "sink", obj(vec![])),
        ],
        connections: vec!["source.out -> ${undefined}.in".to_string()],
        ..GraphSpec::default()
    }
    .normalize(None, &builtin_elements())
    .expect_err("unresolved connection variables should be rejected");
    assert!(connection_error.message().contains("connections[0]"));
    assert!(connection_error.message().contains("${undefined}"));
}

#[test]
fn cfg09_rejects_includes_without_a_base_directory() {
    let error = GraphSpec { includes: vec!["common.yaml".to_string()], ..GraphSpec::default() }
        .normalize(None, &builtin_elements())
        .expect_err("includes need a base directory");
    assert!(error.message().contains("includes"));
    assert!(error.message().contains("base directory"));
}

#[test]
fn graph_spec_rejects_hanging_references() {
    let spec = GraphSpecBuilder::new()
        .add_node(node("source", "source", obj(vec![("count", num("1")), ("shape", shape())])))
        .add_node(node("sink", "sink", obj(vec![])))
        .connect("source.out -> missing.in".to_string())
        .build(&builtin_elements());
    assert!(spec.is_err());
}

#[test]
fn graph_spec_rejects_missing_required_input() {
    let err = GraphSpecBuilder::new()
        .add_node(node("sink", "sink", obj(vec![])))
        .build(&builtin_elements())
        .expect_err("unconnected required input should fail");
    let message = err.message();
    assert!(message.contains("nodes[sink].ports[in]"));
    assert!(message.contains("required input port sink.in has no incoming connection"));
}

#[test]
fn graph_spec_rejects_multiple_incoming_edges() {
    let err = GraphSpecBuilder::new()
        .add_node(node("source_a", "source", obj(vec![("count", num("1")), ("shape", shape())])))
        .add_node(node("source_b", "source", obj(vec![("count", num("1")), ("shape", shape())])))
        .add_node(node("sink", "sink", obj(vec![])))
        .connect("source_a.out -> sink.in".to_string())
        .connect("source_b.out -> sink.in".to_string())
        .build(&builtin_elements())
        .expect_err("multiple incoming edges should fail");
    let message = err.message();
    assert!(message.contains("connections[1]"));
    assert!(message.contains("input port sink.in already has an incoming connection"));
}

#[test]
fn graph_spec_rejects_duplicate_edges() {
    let err = GraphSpecBuilder::new()
        .add_node(node("source", "source", obj(vec![("count", num("1")), ("shape", shape())])))
        .add_node(node("sink", "sink", obj(vec![])))
        .connect("source.out -> sink.in".to_string())
        .connect("source.out -> sink.in".to_string())
        .build(&builtin_elements())
        .expect_err("duplicate edges should fail");
    let message = err.message();
    assert!(message.contains("connections[1]"));
    assert!(message.contains("duplicate connection"));
}

#[test]
fn graph_diff_is_empty_for_identical_specs() {
    let spec = sample_spec();
    let diff = Graph::diff(&spec, &spec);
    assert!(diff.is_empty());
}

#[test]
fn validation_rejects_invalid_execution_settings() {
    let zero_capacity = GraphSpecBuilder::new()
        .execution(ExecutionSpec { queue_capacity: 0, ..ExecutionSpec::default() })
        .build(&builtin_elements());
    assert!(zero_capacity.is_err());

    let zero_workers = GraphSpecBuilder::new()
        .execution(ExecutionSpec { parallel: ParallelType::Task, workers: Some(0), ..ExecutionSpec::default() })
        .build(&builtin_elements());
    assert!(zero_workers.is_err());

    let pipeline_workers = GraphSpecBuilder::new()
        .execution(ExecutionSpec { parallel: ParallelType::Pipeline, workers: Some(4), ..ExecutionSpec::default() })
        .build(&builtin_elements());
    assert!(pipeline_workers.is_err());
}

#[test]
fn pipeline_rejects_multi_instanced_special_handles_at_build_time() {
    let source_spec = linear(Some(("source", 2)))
        .build(&builtin_elements())
        .expect("source graph should validate before runtime build");
    let source_error = instance_count(&source_spec.nodes[0], false).expect_err("source elements cannot be multi-instanced");
    assert!(source_error.message().contains("source elements"));

    let input_spec = GraphSpecBuilder::new()
        .add_node(threaded("input", "input", 2, obj(vec![])))
        .add_node(node("sink", "sink", obj(vec![])))
        .connect("input.out -> sink.in".to_string())
        .build(&builtin_elements())
        .expect("input graph should validate before runtime build");
    let input_error = instance_count(&input_spec.nodes[0], true).expect_err("input handles cannot be multi-instanced");
    assert!(input_error.message().contains("cannot be multi-instanced"));

    let sink_spec = linear(Some(("sink", 2)))
        .build(&builtin_elements())
        .expect("sink graph should validate before runtime build");
    let sink_error = instance_count(&sink_spec.nodes[2], true).expect_err("sink handles cannot be multi-instanced");
    assert!(sink_error.message().contains("cannot be multi-instanced"));
}

#[test]
fn threads_are_checked_against_the_execution_mode() {
    let zero = linear(Some(("infer", 0))).build(&builtin_elements()).expect_err("zero threads should be rejected");
    assert!(zero.message().contains("threads must be >= 1"));
    for parallel in [ParallelType::Sequential, ParallelType::Task] {
        let error = linear(Some(("infer", 2)))
            .execution(ExecutionSpec { parallel, ..ExecutionSpec::default() })
            .build(&builtin_elements())
            .expect_err("multi-instancing must be Pipeline-only");
        assert!(error.message().contains("threads > 1 requires Pipeline execution"));
    }
    let spec = linear(Some(("infer", 3))).build(&builtin_elements()).expect("pipeline multi-instancing validates");
    assert_eq!(instance_count(&spec.nodes[1], false).expect("instances"), 3);
    assert_eq!(instance_count(&spec.nodes[0], false).expect("instances"), 1);
}

#[test]
fn templates_merge_parameters_and_variables_fill_whole_references() {
    let spec = sample_spec();
    let infer = &spec.nodes[1];
    assert_eq!(infer.kind, "mock_inference");
    let expected = obj(vec![("shape", shape()), ("echo_inputs", JsonValue::Bool(true)), ("fill_value", num("0"))]);
    assert!(json_eq(&infer.params, &expected));
    let source = &spec.nodes[0];
    let expected_source = obj(vec![("count", num("2")), ("shape", shape()), ("start", num("7.0"))]);
    assert!(json_eq(&source.params, &expected_source));
}

#[test]
fn variables_inside_text_are_replaced_by_their_text() {
    let spec = GraphSpecBuilder::new()
        .variable("family".to_string(), text("f"))
        .variable("bits".to_string(), num("32"))
        .add_node(node("source", "source", obj(vec![("dtype", text("${family}${bits}"))])))
        .add_node(node("sink", "sink", obj(vec![])))
        .connect("source.out -> sink.in".to_string())
        .build(&builtin_elements())
        .expect("variables resolve");
    assert!(json_eq(&spec.nodes[0].params, &obj(vec![("dtype", text("f32"))])));
}

#[test]
fn merging_values_lays_the_overlay_over_the_base() {
    let base = obj(vec![("a", num("1")), ("nested", obj(vec![("x", num("1")), ("y", num("2"))]))]);
    let overlay = obj(vec![("nested", obj(vec![("y", num("5"))])), ("b", text("new"))]);
    let merged = merge_values(base, overlay);
    let expected = obj(vec![
        ("a", num("1")),
        ("b", text("new")),
        ("nested", obj(vec![("x", num("1")), ("y", num("5"))])),
    ]);
    assert!(json_eq(&merged, &expected));
    let replaced = merge_values(obj(vec![("a", num("1"))]), num("2"));
    assert!(json_eq(&replaced, &num("2")));
}

#[test]
fn json_equality_ignores_entry_order_and_keeps_the_last_duplicate() {
    let a = obj(vec![("x", num("1")), ("y", num("2"))]);
    let b = obj(vec![("y", num("2")), ("x", num("0")), ("x", num("1"))]);
    assert!(json_eq(&a, &b));
    assert!(!json_eq(&a, &obj(vec![("x", num("1"))])));
}

#[test]
fn diff_lists_changes_in_name_order_and_merging_it_restores_the_new_graph() {
    let old = sample_spec();
    let mut new = sample_spec();
    new.nodes[1].params = obj(vec![("shape", shape()), ("fill_value", num("9"))]);
    new.nodes.push(node("tap", "sink", obj(vec![])));
    new.connections.push("source.out -> tap.in".to_string());
    let diff = Graph::diff(&old, &new);
    assert_eq!(diff.added_nodes.len(), 1);
    assert_eq!(diff.added_nodes[0].name, "tap");
    assert_eq!(diff.updated_nodes.len(), 1);
    assert_eq!(diff.updated_nodes[0].name, "infer");
    assert!(diff.removed_nodes.is_empty());
    assert_eq!(diff.added_connections, vec!["source.out -> tap.in".to_string()]);
    assert!(diff.removed_connections.is_empty());

    let merged = old.copy().merge_for_diff(&diff);
    assert_eq!(merged.nodes.len(), 4);
    assert_eq!(merged.nodes[3].name, "infer");
    assert!(json_eq(&merged.nodes[3].params, &new.nodes[1].params));
    assert_eq!(merged.connections.len(), 3);

    let back = Graph::diff(&new, &old);
    assert_eq!(back.removed_nodes, vec!["tap".to_string()]);
    assert_eq!(back.removed_connections, vec!["source.out -> tap.in".to_string()]);
}

#[test]
fn reload_keeps_the_graph_when_the_new_configuration_is_invalid() {
    let catalog = builtin_elements();
    let mut graph = Graph::new(sample_spec(), &catalog).expect("valid graph");
    let mut broken = sample_spec();
    broken.nodes[1].kind = "does_not_exist".to_string();
    let error = graph.reload(broken, &catalog).expect_err("unknown kind");
    assert!(matches!(error, GraphError::Config(ref m) if m == "unknown element kind: does_not_exist"));
    assert_eq!(graph.spec().nodes[1].kind, "mock_inference");

    let mut changed = sample_spec();
    changed.nodes[0].params = obj(vec![("count", num("4")), ("shape", shape())]);
    let diff = graph.reload(changed, &catalog).expect("valid change");
    assert_eq!(diff.updated_nodes.len(), 1);
    assert_eq!(diff.updated_nodes[0].name, "source");
}

#[test]
fn applying_a_diff_updates_the_graph_or_leaves_it_alone() {
    let catalog = builtin_elements();
    let mut graph = Graph::new(sample_spec(), &catalog).expect("valid graph");
    let bad = GraphDiff {
        added_nodes: vec![node("broken", "does_not_exist", obj(vec![]))],
        removed_nodes: vec![],
        updated_nodes: vec![],
        added_connections: vec![],
        removed_connections: vec![],
    };
    assert!(bad.apply(&mut graph, &catalog).is_err());
    assert_eq!(graph.spec().nodes.len(), 3);
    let good = GraphDiff {
        added_nodes: vec![node("tap", "sink", obj(vec![]))],
        removed_nodes: vec![],
        updated_nodes: vec![],
        added_connections: vec!["source.out -> tap.in".to_string()],
        removed_connections: vec![],
    };
    good.apply(&mut graph, &catalog).expect("valid diff");
    assert_eq!(graph.spec().nodes.len(), 4);
}

#[test]
fn hot_update_restarts_affected_nodes_and_drains_their_old_routes() {
    let catalog = builtin_elements();
    let spec = sample_spec();
    let empty = GraphDiff {
        added_nodes: vec![],
        removed_nodes: vec![],
        updated_nodes: vec![],
        added_connections: vec![],
        removed_connections: vec![],
    };
    assert!(prepare_hot_update(&spec, empty, &catalog).expect("empty diff").is_none());

    let mut new = sample_spec();
    new.nodes[1].params = obj(vec![("shape", shape()), ("fill_value", num("5"))]);
    let diff = Graph::diff(&spec, &new);
    let (candidate, plan) = prepare_hot_update(&spec, diff, &catalog).expect("valid update").expect("changes");
    assert_eq!(plan.affected, vec!["infer".to_string()]);
    assert_eq!(candidate.connections.len(), 2);
    assert_eq!(plan.actions, vec![
        RouteAction::Fresh { drain: true, upstream_live: true },
        RouteAction::Keep,
    ]);

    let invalid = GraphDiff {
        added_nodes: vec![],
        removed_nodes: vec![],
        updated_nodes: vec![node("infer", "does_not_exist", obj(vec![]))],
        added_connections: vec![],
        removed_connections: vec![],
    };
    assert!(prepare_hot_update(&spec, invalid, &catalog).is_err());
}

#[test]
fn routes_need_known_nodes_and_one_edge_per_input() {
    let spec = sample_spec();
    let routes = plan_routes(&spec).expect("routes");
    assert_eq!(routes.len(), 2);
    assert_eq!(routes[1].to_node, "sink");
    let mut twice = sample_spec();
    twice.connections.push("source.out -> sink.in".to_string());
    let error = plan_routes(&twice).expect_err("two edges into one port");
    assert!(matches!(error, GraphError::Config(ref m) if m == "multiple inbound edges to sink.in are not supported"));
    let mut hanging = sample_spec();
    hanging.connections.push("ghost.out -> sink.in".to_string());
    let error = plan_routes(&hanging).expect_err("unknown node");
    assert!(matches!(error, GraphError::Config(ref m) if m == "missing source node ghost"));
    assert_eq!(pipe_capacity(&ExecutionSpec::default()), Some(20));
    assert_eq!(pipe_capacity(&ExecutionSpec { parallel: ParallelType::Task, ..ExecutionSpec::default() }), None);
}

#[test]
fn text_helpers_order_format_and_replace() {
    assert!(str_less("a", "b"));
    assert!(str_less("ab", "abc"));
    assert!(!str_less("b", "a"));
    assert!(!str_less("same", "same"));
    assert_eq!(decimal(0), "0");
    assert_eq!(decimal(1207), "1207");
    assert_eq!(replace("a-${x}-${x}", "${x}", "7"), "a-7-7");
    assert_eq!(replace("aaa", "aa", "b"), "ba");
}

fn parse(text: &str) -> serde_json::Value {
    serde_json::from_str(text).expect("JSON text")
}

fn to_serde(value: &JsonValue) -> serde_json::Value {
    match value {
        JsonValue::Null => serde_json::Value::Null,
        JsonValue::Bool(b) => serde_json::Value::Bool(*b),
        JsonValue::Number(n) => serde_json::Value::Number(n.parse().expect("number text")),
        JsonValue::Str(s) => serde_json::Value::String(s.clone()),
        JsonValue::Array(items) => serde_json::Value::Array(items.iter().map(to_serde).collect()),
        JsonValue::Object(entries) => {
            serde_json::Value::Object(entries.iter().map(|(k, v)| (k.clone(), to_serde(v))).collect())
        }
    }
}

#[test]
fn every_registered_element_has_a_parameter_schema() {
    let catalog = builtin_elements();
    for descriptor in &catalog {
        let schema = dg::graph::schema::element_params_schema(&catalog, &descriptor.kind)
            .expect("registered elements must have parameter schemas");
        let schema = to_serde(&schema);
        assert_eq!(schema["type"], "object");
        assert_eq!(schema["additionalProperties"], false);
        let properties = schema["properties"].as_object().expect("schema properties must be an object");
        if let Some(required) = schema.get("required") {
            for name in required.as_array().expect("required must be an array") {
                let name = name.as_str().expect("required names must be strings");
                assert!(properties.contains_key(name), "missing required field {name}");
            }
        }
        for property in properties.values() {
            if let Some(values) = property.get("enum") {
                assert!(
                    !values.as_array().expect("enum must be an array").is_empty(),
                    "enum fields must have at least one value"
                );
            }
        }
    }
}

#[test]
fn parameter_schemas_describe_each_type() {
    let catalog = builtin_elements();
    let source = to_serde(&dg::graph::schema::element_params_schema(&catalog, "source").expect("source"));
    assert_eq!(source["$schema"], "https://json-schema.org/draft/2020-12/schema");
    assert_eq!(source["properties"]["count"], parse(r#"{"type": "integer", "minimum": 0}"#));
    assert_eq!(
        source["properties"]["shape"],
        parse(r#"{"type": "array", "items": {"type": "integer", "minimum": 0}}"#)
    );
    assert_eq!(source["properties"]["start"], parse(r#"{"type": "number"}"#));
    assert_eq!(source["properties"]["dtype"]["enum"][2], "bf16");
    assert!(source.get("required").is_none());
    assert!(dg::graph::schema::element_params_schema(&catalog, "unknown").is_none());
    let all = dg::graph::schema::all_element_schemas(&catalog);
    assert_eq!(all.len(), 4);
    assert_eq!(all[3].0, "sink");
}

#[test]
fn diff_rendering_supports_text_and_json() {
    let diff = GraphDiff {
        added_nodes: vec![node("added", "source", obj(vec![]))],
        removed_nodes: vec!["removed".to_string()],
        updated_nodes: vec![node("updated", "sink", obj(vec![]))],
        added_connections: vec!["added.out -> updated.in".to_string()],
        removed_connections: vec!["old.out -> removed.in".to_string()],
    };

    let text = dg::cli::render_diff(&diff, dg::cli::OutputFormat::Text);
    assert!(text.contains("added nodes: added"));
    assert!(text.contains("removed nodes: removed"));
    assert!(text.contains("updated nodes: updated"));
    assert!(text.contains("added connections: added.out -> updated.in"));
    assert!(text.contains("removed connections: old.out -> removed.in"));

    let json = dg::cli::render_diff(&diff, dg::cli::OutputFormat::Json);
    let value: serde_json::Value = serde_json::from_str(&json).expect("parse JSON diff");
    assert_eq!(value["added_nodes"], parse(r#"["added"]"#));
    assert_eq!(value["removed_nodes"], parse(r#"["removed"]"#));
    assert_eq!(value["updated_nodes"], parse(r#"["updated"]"#));
    assert_eq!(value["added_connections"], parse(r#"["added.out -> updated.in"]"#));
    assert_eq!(value["removed_connections"], parse(r#"["old.out -> removed.in"]"#));
}

#[test]
fn diff_text_lists_only_the_changes_it_has() {
    let diff = GraphDiff {
        added_nodes: vec![],
        removed_nodes: vec!["a".to_string(), "b".to_string()],
        updated_nodes: vec![],
        added_connections: vec![],
        removed_connections: vec![],
    };
    assert_eq!(
        dg::cli::render_diff(&diff, dg::cli::OutputFormat::Text),
        "graph configuration reloaded\nremoved nodes: a, b"
    );
    let json = dg::cli::render_diff(&diff, dg::cli::OutputFormat::Json);
    assert!(json.starts_with("{\n  \"added_nodes\": []"));
}

#[test]
fn loading_a_file_twice_on_the_include_path_is_a_cycle() {
    let open = vec!["a.yaml".to_string(), "b.yaml".to_string()];
    let error = dg::graph::normalize::enter_include(&open, "a.yaml").expect_err("cycle");
    assert!(error.message().contains("include cycle detected"));
    assert!(dg::graph::normalize::enter_include(&open, "c.yaml").is_ok());
}

#[test]
fn included_configurations_come_before_the_including_one() {
    let common = GraphSpecBuilder::new()
        .variable("count".to_string(), num("1"))
        .add_node(node("source", "source", obj(vec![("count", text("${count}")), ("shape", shape())])))
        .add_node(node("sink", "sink", obj(vec![])))
        .connect("source.out -> sink.in".to_string())
        .build(&builtin_elements())
        .expect("common part");
    let main = GraphSpec {
        includes: vec!["common.yaml".to_string()],
        variables: vec![("count".to_string(), num("2"))],
        ..GraphSpec::default()
    };
    let spec = main.normalize(Some(vec![common]), &builtin_elements()).expect("merged");
    assert_eq!(spec.nodes.len(), 2);
    assert!(spec.includes.is_empty());
    assert!(json_eq(&spec.nodes[0].params, &obj(vec![("count", num("1")), ("shape", shape())])));
}

fn load_error(nodes: Vec<NodeSpec>) -> String {
    let spec = GraphSpec { nodes, ..GraphSpec::default() };
    spec.normalize(None, &builtin_elements()).expect_err("parameters are rejected").message()
}

#[test]
fn source_params_reject_unknown_fields_during_graph_load() {
    let message = load_error(vec![node("source", "source", obj(vec![("unexpected", JsonValue::Bool(true))]))]);
    assert!(message.contains("nodes[source].params"));
    assert!(message.contains("unknown field `unexpected`"));
}

#[test]
fn source_params_reject_invalid_enum_values_during_graph_load() {
    let message = load_error(vec![node("source", "source", obj(vec![("dtype", text("float32"))]))]);
    assert!(message.contains("nodes[source].params"));
    assert!(message.contains("unsupported dtype: float32"));
}

#[test]
fn parameterless_elements_reject_params_during_graph_load() {
    let message = load_error(vec![node("input", "input", obj(vec![("capacity", num("4"))]))]);
    assert!(message.contains("nodes[input].params"));
    assert!(message.contains("no parameters are supported"));
}

#[test]
fn parameterless_elements_allow_omitted_params() {
    let spec = GraphSpec {
        nodes: vec![node("input", "input", JsonValue::Null), node("sink", "sink", JsonValue::Null)],
        connections: vec!["input.out -> sink.in".to_string()],
        ..GraphSpec::default()
    };
    spec.normalize(None, &builtin_elements()).expect("parameterless nodes allow omitted params");
}

#[test]
fn mock_inference_params_reject_invalid_types_during_graph_load() {
    let message =
        load_error(vec![node("infer", "mock_inference", obj(vec![("echo_inputs", JsonValue::Array(vec![JsonValue::Bool(true)]))]))]);
    assert!(message.contains("nodes[infer].params"));
    assert!(message.contains("field echo_inputs must be a boolean"));
}

#[test]
fn injected_tensors_may_only_go_to_input_nodes() {
    let spec = GraphSpec {
        nodes: vec![node("camera", "input", JsonValue::Null), node("sink", "sink", JsonValue::Null)],
        connections: vec!["camera.out -> sink.in".to_string()],
        ..GraphSpec::default()
    };
    assert!(check_injected_inputs(&spec, &vec!["camera".to_string()]).is_ok());
    assert!(check_injected_inputs(&spec, &vec![]).is_ok());
    let err = check_injected_inputs(&spec, &vec!["camera".to_string(), "sink".to_string(), "ghost".to_string()])
        .expect_err("sink takes no injected tensors");
    assert_eq!(err, GraphError::Config("unknown input node sink for injected tensors".to_string()));
}
