use dg::datatype::{DataType, TypeCode};
use dg::graph::element::{find_port, PortSchema};
use dg::graph::engine::{is_cancellation, select_error};
use dg::graph::error::GraphError;
use dg::graph::inference::{default_instances, parse_deploy_mode, parse_device, parse_dtype};
use dg::graph::metrics::{ElementMetrics, ElementMetricsSnapshot};
use dg::graph::packet::PacketMeta;
use dg::graph::pipe::{PipeState, DEFAULT_QUEUE_CAPACITY};
use dg::graph::pool::WorkQueues;
use dg::graph::spec::{
    default_api_version, default_kind, validate_header, ConnectionSpec, ExecutionSpec, GraphFormat,
    ParallelType,
};
use dg::types::{DeployMode, DeviceKind};

fn root_cause() -> GraphError {
    GraphError::Element {
        element: "decode".to_string(),
        message: "recorded frame has an invalid payload size".to_string(),
    }
}

#[test]
fn error_selection_prefers_root_cause_over_cancellation() {
    let selected = select_error(Some(GraphError::NotRunning), root_cause());
    assert!(matches!(selected, Some(GraphError::Element { .. })));
}

#[test]
fn error_selection_keeps_root_cause_when_cancellation_arrives_later() {
    let selected = select_error(Some(root_cause()), GraphError::NotRunning);
    assert!(matches!(selected, Some(GraphError::Element { .. })));
}

#[test]
fn cancellation_is_only_the_not_running_error() {
    assert!(is_cancellation(&GraphError::NotRunning));
    assert!(!is_cancellation(&root_cause()));
}

#[test]
fn first_root_cause_survives_a_stream_of_reports() {
    let reports = vec![
        GraphError::NotRunning,
        GraphError::Runtime("first".to_string()),
        GraphError::NotRunning,
        GraphError::Runtime("second".to_string()),
    ];
    let mut kept = None;
    for report in reports {
        kept = select_error(kept, report);
    }
    assert_eq!(kept, Some(GraphError::Runtime("first".to_string())));
}

#[test]
fn metrics_snapshot_averages_latency() {
    let mut metrics = ElementMetrics::new();
    assert_eq!(metrics.snapshot(), ElementMetricsSnapshot::default());
    metrics.record_received();
    metrics.record_source_packet();
    metrics.record_sent();
    metrics.record_latency(300);
    metrics.record_latency(100);
    metrics.record_queue_depth(5);
    metrics.record_queue_depth(2);
    metrics.record_drop();
    metrics.record_backpressure();
    let snapshot = metrics.snapshot();
    assert_eq!(snapshot.packets_processed, 2);
    assert_eq!(snapshot.packets_received, 1);
    assert_eq!(snapshot.packets_sent, 1);
    assert_eq!(snapshot.processing_latency_ns, 400);
    assert_eq!(snapshot.processing_latency_avg_ns, 200);
    assert_eq!(snapshot.processing_latency_max_ns, 300);
    assert_eq!(snapshot.queue_depth, 2);
    assert_eq!(snapshot.max_queue_depth, 5);
    assert_eq!(snapshot.drop_count, 1);
    assert_eq!(snapshot.backpressure_count, 1);
}

#[test]
fn metrics_latency_saturates_to_u64() {
    let mut metrics = ElementMetrics::new();
    metrics.record_latency(u128::MAX);
    assert_eq!(metrics.snapshot().processing_latency_max_ns, u64::MAX);
    assert_eq!(metrics.snapshot().processing_latency_avg_ns, 0);
}

#[test]
fn pipe_depth_is_capped_by_capacity() {
    let mut bounded = PipeState::new(Some(2));
    for _ in 0..3 {
        bounded.enqueued();
    }
    assert_eq!(bounded.depth(), 2);
    bounded.dequeued();
    bounded.dequeued();
    assert_eq!(bounded.depth(), 1);
    let mut unbounded = PipeState::new(None);
    unbounded.enqueued();
    assert_eq!(unbounded.depth(), 1);
    assert_eq!(DEFAULT_QUEUE_CAPACITY, 20);
}

#[test]
fn work_queues_push_to_least_loaded_and_steal_from_the_back() {
    assert!(matches!(WorkQueues::<u32>::new(0), Err(GraphError::Config(_))));
    let mut queues = WorkQueues::new(2).expect("two workers");
    queues.try_push(1u32);
    queues.try_push(2u32);
    queues.try_push(3u32);
    assert_eq!(queues.try_pop(1), Some(2));
    assert_eq!(queues.try_steal(1), Some(3));
    assert_eq!(queues.try_steal(0), None);
    assert!(queues.has_pending());
    assert_eq!(queues.try_pop(0), Some(1));
    assert!(!queues.has_pending());
    assert_eq!(queues.workers(), 2);
}

#[test]
fn execution_defaults_and_validation() {
    let defaults = ExecutionSpec::default();
    assert_eq!(defaults.parallel, ParallelType::Pipeline);
    assert_eq!(defaults.queue_capacity, 20);
    assert!(defaults.validate().is_ok());

    let zero = ExecutionSpec { queue_capacity: 0, ..defaults };
    assert!(matches!(zero.validate(), Err(GraphError::Validation { path, .. }) if path == "execution.queue_capacity"));

    let no_workers = ExecutionSpec { parallel: ParallelType::Task, workers: Some(0), ..defaults };
    assert!(matches!(no_workers.validate(), Err(GraphError::Validation { message, .. }) if message == "workers must be at least 1"));

    let wrong_mode = ExecutionSpec { workers: Some(4), ..defaults };
    assert!(matches!(wrong_mode.validate(), Err(GraphError::Validation { message, .. }) if message.contains("task parallelism")));

    let task = ExecutionSpec { parallel: ParallelType::Task, workers: Some(4), ..defaults };
    assert!(task.validate().is_ok());
}

#[test]
fn graph_header_defaults_and_checks() {
    assert_eq!(default_api_version(), "dg/v1");
    assert_eq!(default_kind(), "Graph");
    assert!(validate_header("dg/v1", "Graph").is_ok());
    assert!(validate_header("v1", "Graph").is_ok());
    assert!(matches!(validate_header("v2", "Graph"), Err(GraphError::Validation { path, .. }) if path == "apiVersion"));
    assert!(matches!(validate_header("v1", "Pipeline"), Err(GraphError::Validation { message, .. }) if message == "unsupported kind: Pipeline"));
}

#[test]
fn connection_parsing_trims_every_part() {
    let connection = ConnectionSpec::parse("  source.out ->  sink . in ").expect("parse");
    assert_eq!(connection.from_node, "source");
    assert_eq!(connection.from_port, "out");
    assert_eq!(connection.to_node, "sink");
    assert_eq!(connection.to_port, "in");
    assert_eq!(connection.text(), "source.out -> sink.in");
}

#[test]
fn connection_parsing_splits_at_the_first_separators() {
    let connection = ConnectionSpec::parse("a.b.c -> d.e->f").expect("parse");
    assert_eq!(connection.from_node, "a");
    assert_eq!(connection.from_port, "b.c");
    assert_eq!(connection.to_node, "d");
    assert_eq!(connection.to_port, "e->f");
}

#[test]
fn connection_parsing_reports_each_error() {
    assert!(matches!(ConnectionSpec::parse("a.b => c.d"), Err(GraphError::Config(m)) if m == "invalid connection: a.b => c.d"));
    assert!(matches!(ConnectionSpec::parse(" ab -> c.d"), Err(GraphError::Config(m)) if m == "invalid source endpoint: ab"));
    assert!(matches!(ConnectionSpec::parse("a.b -> cd "), Err(GraphError::Config(m)) if m == "invalid destination endpoint: cd"));
}

#[test]
fn connection_render_then_parse_round_trips() {
    let original = ConnectionSpec {
        from_node: "camera".to_string(),
        from_port: "frames".to_string(),
        to_node: "detector".to_string(),
        to_port: "images".to_string(),
    };
    assert_eq!(ConnectionSpec::parse(&original.text()).expect("parse"), original);
}

#[test]
fn graph_format_follows_the_file_extension() {
    assert_eq!(GraphFormat::from_path("graphs/demo.yaml"), Ok(GraphFormat::Yaml));
    assert_eq!(GraphFormat::from_path("demo.yml"), Ok(GraphFormat::Yaml));
    assert_eq!(GraphFormat::from_path("/etc/dg/demo.json"), Ok(GraphFormat::Json));
    assert_eq!(GraphFormat::from_path("demo.toml"), Ok(GraphFormat::Toml));
    assert_eq!(GraphFormat::from_path("demo.txt"), Err(GraphError::UnknownFormat("demo.txt".to_string())));
    assert!(GraphFormat::from_path(".yaml").is_err());
    assert_eq!(GraphFormat::from_extension(Some("yml")), Some(GraphFormat::Yaml));
    assert_eq!(GraphFormat::from_extension(None), None);
}

#[test]
fn inference_parameters_parse_names() {
    assert_eq!(default_instances(), 1);
    assert_eq!(parse_dtype("u8"), Ok(DataType::U8()));
    assert_eq!(parse_dtype("i32"), Ok(DataType::new(TypeCode::Int, 32, 1)));
    assert!(matches!(parse_dtype("q7"), Err(GraphError::Config(m)) if m == "unsupported inference precision: q7"));
    assert_eq!(parse_device("cuda"), Ok(DeviceKind::CudaGpu));
    assert_eq!(parse_device("sophon_tpu"), Ok(DeviceKind::SophonTpu));
    assert!(matches!(parse_device("fpga"), Err(GraphError::Config(_))));
    assert_eq!(parse_deploy_mode("soc"), Ok(DeployMode::SoC));
    assert!(matches!(parse_deploy_mode("edge"), Err(GraphError::Config(_))));
}

#[test]
fn find_port_returns_the_first_port_with_the_name() {
    let ports = [
        PortSchema { name: "in", dtype: None, required: true },
        PortSchema { name: "out", dtype: Some(DataType::U8()), required: false },
        PortSchema { name: "out", dtype: None, required: true },
    ];
    let found = find_port(&ports, "out").expect("out port");
    assert_eq!(found.dtype, Some(DataType::U8()));
    assert!(find_port(&ports, "side").is_none());
}

#[test]
fn packet_meta_defaults_are_empty() {
    let meta = PacketMeta::default();
    assert_eq!(meta.sequence, 0);
    assert!(meta.stream_id.is_none());
    assert!(meta.tags.is_empty());
}

#[test]
fn graph_error_messages_name_their_subject() {
    assert_eq!(GraphError::DuplicateNode("a".to_string()).message(), "duplicate node: a");
    assert_eq!(
        GraphError::UnknownPort { node: "n".to_string(), port: "p".to_string() }.message(),
        "unknown port n.p"
    );
    assert_eq!(GraphError::CycleDetected.message(), "graph contains a cycle");
}
