use tracecore::config::ExportConfig;
use tracecore::payload::PayloadValue;
use tracecore::span::AttrValue;
use tracecore::span::SpanStatus;
use tracecore::tracer::Tracer;
use tracecore::tracer::UsageError;

fn valid_config() -> ExportConfig {
    ExportConfig {
        endpoint: String::from("http://localhost:4317"),
        ingestion_key: None,
        preview_bound: 180,
        queue_capacity: 16,
    }
}

fn fresh_tracer() -> Tracer {
    Tracer::init("telemetry learning", valid_config()).expect("valid config must yield a tracer")
}

#[test]
fn init_builds_resource() {
    let t = fresh_tracer();
    assert_eq!(t.resource.len(), 2);
    assert_eq!(t.resource[0].0, "service.name");
    assert_eq!(t.resource[0].1, "telemetry learning");
    assert_eq!(t.resource[1].0, "telemetry.sdk.language");
    assert_eq!(t.resource[1].1, "rust");
    assert_eq!(t.clock, 0);
    assert_eq!(t.next_id, 1);
    assert!(!t.closed);
}

#[test]
fn orchestrator_planner_trace() {
    let mut t = fresh_tracer();
    let root = t.start_span(String::from("orchestrator"), Vec::new()).unwrap();
    t.enter(root).unwrap();
    let child = t.start_span(String::from("planner"), Vec::new()).unwrap();
    t.enter(child).unwrap();
    let input = PayloadValue::Entries(vec![(
        String::from("topic"),
        PayloadValue::Text(String::from("X")),
    )]);
    t.record_input(child, &input).unwrap();
    // the external call returns "plan text" (9 characters)
    let output = PayloadValue::Entries(vec![(String::from("length"), PayloadValue::Number(9))]);
    t.record_output(child, &output).unwrap();
    t.exit(child).unwrap();
    t.end_span(child, SpanStatus::Okay).unwrap();
    t.exit(root).unwrap();
    t.end_span(root, SpanStatus::Okay).unwrap();
    let batch = t.shutdown();
    assert_eq!(batch.len(), 2);
    let planner = &batch[0];
    let orchestrator = &batch[1];
    assert_eq!(planner.name, "planner");
    assert_eq!(orchestrator.name, "orchestrator");
    assert_eq!(planner.parent, Some(orchestrator.id));
    assert_eq!(orchestrator.parent, None);
    assert_eq!(planner.status, SpanStatus::Okay);
    assert_eq!(orchestrator.status, SpanStatus::Okay);
    assert!(planner.start <= planner.end.unwrap());
    assert!(orchestrator.start <= orchestrator.end.unwrap());
    assert!(orchestrator.start < planner.start);
}

#[test]
fn sibling_spans_nest_under_same_parent() {
    let mut t = fresh_tracer();
    let root = t.start_span(String::from("orchestrator"), Vec::new()).unwrap();
    t.enter(root).unwrap();
    let a = t.start_span(String::from("agent_planner"), Vec::new()).unwrap();
    t.enter(a).unwrap();
    t.exit(a).unwrap();
    t.end_span(a, SpanStatus::Okay).unwrap();
    let b = t.start_span(String::from("agent_writer"), Vec::new()).unwrap();
    t.enter(b).unwrap();
    t.exit(b).unwrap();
    t.end_span(b, SpanStatus::Okay).unwrap();
    t.exit(root).unwrap();
    t.end_span(root, SpanStatus::Okay).unwrap();
    let batch = t.shutdown();
    assert_eq!(batch.len(), 3);
    assert_eq!(batch[0].parent, Some(root));
    assert_eq!(batch[1].parent, Some(root));
    assert_eq!(batch[2].parent, None);
}

#[test]
fn span_outside_any_scope_is_root() {
    let mut t = fresh_tracer();
    let lone = t.start_span(String::from("otel_smoke_probe"), Vec::new()).unwrap();
    t.enter(lone).unwrap();
    t.exit(lone).unwrap();
    t.end_span(lone, SpanStatus::Unset).unwrap();
    let batch = t.shutdown();
    assert_eq!(batch[0].parent, None);
}

#[test]
fn shutdown_drains_buffer() {
    let mut t = fresh_tracer();
    let id = t.start_span(String::from("orchestrator"), Vec::new()).unwrap();
    t.enter(id).unwrap();
    t.exit(id).unwrap();
    t.end_span(id, SpanStatus::Okay).unwrap();
    assert_eq!(t.buffer.spans.len(), 1);
    let batch = t.shutdown();
    assert_eq!(batch.len(), 1);
    assert_eq!(t.buffer.spans.len(), 0);
    assert!(t.closed);
    // a second shutdown finds nothing left to flush
    let again = t.shutdown();
    assert_eq!(again.len(), 0);
}

#[test]
fn operations_fail_closed_after_shutdown() {
    let mut t = fresh_tracer();
    let id = t.start_span(String::from("early"), Vec::new()).unwrap();
    let _ = t.shutdown();
    assert_eq!(
        t.start_span(String::from("late"), Vec::new()),
        Err(UsageError::TracerClosed)
    );
    assert_eq!(t.enter(id), Err(UsageError::TracerClosed));
    assert_eq!(t.end_span(id, SpanStatus::Okay), Err(UsageError::TracerClosed));
    assert_eq!(
        t.record_attr(id, String::from("k"), AttrValue::Count(1)),
        Err(UsageError::TracerClosed)
    );
}

#[test]
fn lifecycle_misuse_is_surfaced() {
    let mut t = fresh_tracer();
    let a = t.start_span(String::from("outer"), Vec::new()).unwrap();
    let b = t.start_span(String::from("inner"), Vec::new()).unwrap();
    assert_eq!(t.enter(99), Err(UsageError::UnknownSpan));
    t.enter(a).unwrap();
    assert_eq!(t.enter(a), Err(UsageError::AlreadyEntered));
    t.enter(b).unwrap();
    // pops must mirror pushes in reverse order
    assert_eq!(t.exit(a), Err(UsageError::NotInnermost));
    // a span still on the context cannot end
    assert_eq!(t.end_span(b, SpanStatus::Okay), Err(UsageError::StillEntered));
    t.exit(b).unwrap();
    t.end_span(b, SpanStatus::Okay).unwrap();
    t.exit(a).unwrap();
    t.end_span(a, SpanStatus::Okay).unwrap();
    // a span that was never entered cannot end
    let c = t.start_span(String::from("untouched"), Vec::new()).unwrap();
    assert_eq!(t.end_span(c, SpanStatus::Okay), Err(UsageError::NeverEntered));
    assert_eq!(t.end_span(1234, SpanStatus::Okay), Err(UsageError::UnknownSpan));
}

#[test]
fn bounded_buffer_drops_newest_and_counts() {
    let mut config = valid_config();
    config.queue_capacity = 1;
    let mut t = Tracer::init("svc", config).unwrap();
    let a = t.start_span(String::from("first"), Vec::new()).unwrap();
    t.enter(a).unwrap();
    t.exit(a).unwrap();
    t.end_span(a, SpanStatus::Okay).unwrap();
    let b = t.start_span(String::from("second"), Vec::new()).unwrap();
    t.enter(b).unwrap();
    t.exit(b).unwrap();
    t.end_span(b, SpanStatus::Okay).unwrap();
    assert_eq!(t.buffer.dropped, 1);
    let batch = t.shutdown();
    assert_eq!(batch.len(), 1);
    assert_eq!(batch[0].name, "first");
}
