use tracecore::config::ExportConfig;
use tracecore::config::InitError;
use tracecore::payload::PayloadValue;
use tracecore::span::AttrValue;
use tracecore::span::SpanStatus;
use tracecore::stage::StageError;
use tracecore::stage::begin_stage;
use tracecore::stage::finish_stage;
use tracecore::tracer::Tracer;
use tracecore::tracer::UsageError;

fn config_with_endpoint(endpoint: &str, key: Option<&str>) -> ExportConfig {
    ExportConfig {
        endpoint: String::from(endpoint),
        ingestion_key: key.map(String::from),
        preview_bound: 180,
        queue_capacity: 16,
    }
}

#[test]
fn init_accepts_a_well_formed_endpoint() {
    let t = Tracer::init("svc", config_with_endpoint("http://localhost:4317", None));
    assert!(t.is_ok());
    let t = Tracer::init("svc", config_with_endpoint("https://ingest.example.com:443", None));
    assert!(t.is_ok());
}

#[test]
fn init_rejects_missing_endpoint_before_any_span() {
    let r = Tracer::init("svc", config_with_endpoint("", None));
    assert_eq!(r.err(), Some(InitError::MissingEndpoint));
}

#[test]
fn init_rejects_malformed_endpoint_before_any_span() {
    let r = Tracer::init("svc", config_with_endpoint("http://exa mple.com", None));
    assert_eq!(r.err(), Some(InitError::MalformedEndpoint));
    let r = Tracer::init("svc", config_with_endpoint("\nlocalhost", None));
    assert_eq!(r.err(), Some(InitError::MalformedEndpoint));
}

#[test]
fn init_rejects_malformed_key() {
    let r = Tracer::init(
        "svc",
        config_with_endpoint("http://localhost:4317", Some("key\nwith newline")),
    );
    assert_eq!(r.err(), Some(InitError::MalformedKey));
    // characters below 32 other than tab are refused; a tab is legal
    let r = Tracer::init("svc", config_with_endpoint("http://localhost:4317", Some("a\tb")));
    assert!(r.is_ok());
    let r = Tracer::init(
        "svc",
        config_with_endpoint("http://localhost:4317", Some("sample-ingest-key-0123")),
    );
    assert!(r.is_ok());
}

#[test]
fn stage_success_records_output_and_ends_okay() {
    let mut t = Tracer::init("svc", config_with_endpoint("http://localhost:4317", None)).unwrap();
    let input = PayloadValue::Entries(vec![(
        String::from("prompt"),
        PayloadValue::Text(String::from("make a plan")),
    )]);
    let id = begin_stage(&mut t, "agent_planner", Vec::new(), &input).unwrap();
    assert_eq!(t.stack.last(), Some(&id));
    let r = finish_stage(&mut t, id, "agent_planner", Ok(String::from("plan text")));
    assert_eq!(r, Ok(String::from("plan text")));
    assert_eq!(t.stack.len(), 0);
    let batch = t.shutdown();
    assert_eq!(batch.len(), 1);
    let span = &batch[0];
    assert_eq!(span.name, "agent_planner");
    assert_eq!(span.status, SpanStatus::Okay);
    assert!(span.start <= span.end.unwrap());
    let model_output = span
        .attrs
        .iter()
        .rev()
        .find(|(k, _)| k == "model_output")
        .map(|(_, v)| v.clone());
    assert_eq!(model_output, Some(AttrValue::Text(String::from("\"plan text\""))));
}

#[test]
fn stage_error_releases_guard_and_names_stage() {
    let mut t = Tracer::init("svc", config_with_endpoint("http://localhost:4317", None)).unwrap();
    let root = t.start_span(String::from("orchestrator"), Vec::new()).unwrap();
    t.enter(root).unwrap();
    let depth_before = t.stack.len();
    let input = PayloadValue::Text(String::from("summarize"));
    let id = begin_stage(&mut t, "agent_writer", Vec::new(), &input).unwrap();
    let r = finish_stage(&mut t, id, "agent_writer", Err(String::from("quota exhausted")));
    // the error carries the stage's name and the collaborator's text
    match &r {
        Err(StageError::Call { stage, detail }) => {
            assert_eq!(stage, "agent_writer");
            assert_eq!(detail, "quota exhausted");
        },
        other => panic!("expected a stage error, got {:?}", other),
    }
    assert_eq!(
        r.unwrap_err().message(),
        "agent_writer: quota exhausted"
    );
    // the guard was released: the context is back to its pre-stage state
    assert_eq!(t.stack.len(), depth_before);
    assert_eq!(t.stack.last(), Some(&root));
    t.exit(root).unwrap();
    t.end_span(root, SpanStatus::Okay).unwrap();
    let batch = t.shutdown();
    assert_eq!(batch.len(), 2);
    let failed = &batch[0];
    assert_eq!(failed.name, "agent_writer");
    assert_eq!(failed.status, SpanStatus::Failed);
    let error_attr = failed
        .attrs
        .iter()
        .rev()
        .find(|(k, _)| k == "error")
        .map(|(_, v)| v.clone());
    assert_eq!(error_attr, Some(AttrValue::Text(String::from("quota exhausted"))));
}

#[test]
fn stage_misuse_is_reported() {
    let mut t = Tracer::init("svc", config_with_endpoint("http://localhost:4317", None)).unwrap();
    let r = finish_stage(&mut t, 77, "agent", Ok(String::from("x")));
    assert_eq!(r, Err(StageError::Misuse(UsageError::UnknownSpan)));
    let id = t.start_span(String::from("agent"), Vec::new()).unwrap();
    let r = finish_stage(&mut t, id, "agent", Ok(String::from("x")));
    assert_eq!(r, Err(StageError::Misuse(UsageError::NotInnermost)));
    let _ = t.shutdown();
    let r = finish_stage(&mut t, id, "agent", Ok(String::from("x")));
    assert_eq!(r, Err(StageError::Misuse(UsageError::TracerClosed)));
}
