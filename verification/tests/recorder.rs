use tracecore::config::ExportConfig;
use tracecore::payload::PayloadValue;
use tracecore::payload::preview;
use tracecore::span::AttrValue;
use tracecore::span::SpanData;
use tracecore::span::SpanStatus;
use tracecore::tracer::Tracer;
use tracecore::tracer::UsageError;

fn tracer_with_bound(preview_bound: usize) -> Tracer {
    let config = ExportConfig {
        endpoint: String::from("http://localhost:4317"),
        ingestion_key: None,
        preview_bound,
        queue_capacity: 16,
    };
    Tracer::init("svc", config).unwrap()
}

/// The value the span's attribute journal ends up binding to `key`: the
/// last entry wins.
fn attr_of(span: &SpanData, key: &str) -> Option<AttrValue> {
    span.attrs
        .iter()
        .rev()
        .find(|(k, _)| k == key)
        .map(|(_, v)| v.clone())
}

#[test]
fn render_scalars() {
    assert_eq!(PayloadValue::Null.render(), "null");
    assert_eq!(PayloadValue::Truth(true).render(), "true");
    assert_eq!(PayloadValue::Truth(false).render(), "false");
    assert_eq!(PayloadValue::Number(0).render(), "0");
    assert_eq!(PayloadValue::Number(9).render(), "9");
    assert_eq!(PayloadValue::Number(120).render(), "120");
    assert_eq!(PayloadValue::Number(-42).render(), "-42");
    assert_eq!(PayloadValue::Number(i64::MIN).render(), "-9223372036854775808");
    assert_eq!(PayloadValue::Text(String::from("plan text")).render(), "\"plan text\"");
}

#[test]
fn render_escapes_text() {
    let v = PayloadValue::Text(String::from("a\"b\\c\nd\te\rf"));
    assert_eq!(v.render(), "\"a\\\"b\\\\c\\nd\\te\\rf\"");
}

#[test]
fn render_nested_structures() {
    let v = PayloadValue::Entries(vec![
        (String::from("topic"), PayloadValue::Text(String::from("X"))),
        (String::from("workflow"), PayloadValue::Text(String::from("planner_then_writer"))),
        (
            String::from("steps"),
            PayloadValue::Items(vec![PayloadValue::Number(1), PayloadValue::Number(2)]),
        ),
    ]);
    assert_eq!(
        v.render(),
        "{\"topic\":\"X\",\"workflow\":\"planner_then_writer\",\"steps\":[1,2]}"
    );
    assert_eq!(PayloadValue::Items(Vec::new()).render(), "[]");
    assert_eq!(PayloadValue::Entries(Vec::new()).render(), "{}");
}

#[test]
fn preview_respects_bound() {
    assert_eq!(preview("hello world", 5), "hello");
    assert_eq!(preview("hi", 5), "hi");
    assert_eq!(preview("hello", 5), "hello");
    assert_eq!(preview("hello", 0), "");
}

#[test]
fn truncation_keeps_bound_and_true_length() {
    let bound = 10;
    let mut t = tracer_with_bound(bound);
    let id = t.start_span(String::from("agent_prompt"), Vec::new()).unwrap();
    t.enter(id).unwrap();
    let long_text = "a".repeat(30);
    let payload = PayloadValue::Text(long_text);
    // rendered form is the text in quotes: 32 characters
    t.record_input(id, &payload).unwrap();
    t.exit(id).unwrap();
    t.end_span(id, SpanStatus::Okay).unwrap();
    let batch = t.shutdown();
    let span = &batch[0];
    match attr_of(span, "model_input") {
        Some(AttrValue::Text(p)) => {
            assert_eq!(p.chars().count(), bound);
            assert_eq!(p, "\"aaaaaaaaa");
        },
        other => panic!("model_input missing or not text: {:?}", other),
    }
    match attr_of(span, "model_input_len") {
        Some(AttrValue::Count(n)) => assert_eq!(n, 32),
        other => panic!("model_input_len missing or not a count: {:?}", other),
    }
}

#[test]
fn short_payload_is_kept_whole() {
    let mut t = tracer_with_bound(180);
    let id = t.start_span(String::from("agent_prompt"), Vec::new()).unwrap();
    t.enter(id).unwrap();
    let payload = PayloadValue::Entries(vec![(
        String::from("prompt"),
        PayloadValue::Text(String::from("Explain spans")),
    )]);
    t.record_input(id, &payload).unwrap();
    t.exit(id).unwrap();
    t.end_span(id, SpanStatus::Okay).unwrap();
    let batch = t.shutdown();
    let span = &batch[0];
    assert_eq!(
        attr_of(span, "model_input"),
        Some(AttrValue::Text(String::from("{\"prompt\":\"Explain spans\"}")))
    );
    assert_eq!(attr_of(span, "model_input_len"), Some(AttrValue::Count(26)));
}

#[test]
fn record_output_uses_its_own_slots() {
    let mut t = tracer_with_bound(180);
    let id = t.start_span(String::from("agent_writer"), Vec::new()).unwrap();
    t.enter(id).unwrap();
    let payload = PayloadValue::Entries(vec![(String::from("response_len"), PayloadValue::Number(9))]);
    t.record_output(id, &payload).unwrap();
    t.exit(id).unwrap();
    t.end_span(id, SpanStatus::Okay).unwrap();
    let batch = t.shutdown();
    let span = &batch[0];
    assert_eq!(
        attr_of(span, "model_output"),
        Some(AttrValue::Text(String::from("{\"response_len\":9}")))
    );
    assert_eq!(attr_of(span, "model_output_len"), Some(AttrValue::Count(18)));
    assert_eq!(attr_of(span, "model_input"), None);
}

#[test]
fn attr_last_write_wins() {
    let mut t = tracer_with_bound(180);
    let id = t.start_span(String::from("agent"), Vec::new()).unwrap();
    t.enter(id).unwrap();
    t.record_attr(id, String::from("task"), AttrValue::Text(String::from("draft"))).unwrap();
    t.record_attr(id, String::from("task"), AttrValue::Text(String::from("final"))).unwrap();
    t.record_attr(id, String::from("tries"), AttrValue::Count(2)).unwrap();
    t.exit(id).unwrap();
    t.end_span(id, SpanStatus::Okay).unwrap();
    let batch = t.shutdown();
    let span = &batch[0];
    assert_eq!(attr_of(span, "task"), Some(AttrValue::Text(String::from("final"))));
    assert_eq!(attr_of(span, "tries"), Some(AttrValue::Count(2)));
}

#[test]
fn recording_on_ended_span_is_rejected() {
    let mut t = tracer_with_bound(180);
    let id = t.start_span(String::from("agent"), Vec::new()).unwrap();
    t.enter(id).unwrap();
    t.exit(id).unwrap();
    t.end_span(id, SpanStatus::Okay).unwrap();
    assert_eq!(
        t.record_attr(id, String::from("k"), AttrValue::Count(1)),
        Err(UsageError::UnknownSpan)
    );
    let payload = PayloadValue::Null;
    assert_eq!(t.record_input(id, &payload), Err(UsageError::UnknownSpan));
    assert_eq!(t.record_output(id, &payload), Err(UsageError::UnknownSpan));
}
