use tracing_subscriber_serde::event::{Event, EventKind};
use tracing_subscriber_serde::format::Json;
use tracing_subscriber_serde::level::Level;
use tracing_subscriber_serde::pprint::PrettyPrinter;
use tracing_subscriber_serde::span::SpanList;
use tracing_subscriber_serde::subscriber::{SerdeLayerBuilder, SpanEvents, NEW, ENTER, EXIT, CLOSE};
use tracing_subscriber_serde::time::{NoClock, SpanTime, SpanTimer, SystemClock, Clock};
use tracing_subscriber_serde::value::FieldValue;
use tracing_subscriber_serde::writer::{WriteError, WriteEvent};
use tracing_subscriber_serde::SerdeFormat;

struct Sink;

impl WriteEvent for Sink {
    fn write<F: SerdeFormat>(&self, _fmt: &F, _event: &Event) -> Result<(), WriteError> {
        Ok(())
    }
}

struct FailingSink;

impl WriteEvent for FailingSink {
    fn write<F: SerdeFormat>(&self, _fmt: &F, _event: &Event) -> Result<(), WriteError> {
        Err(WriteError::Io)
    }
}

fn s(x: &str) -> String {
    x.to_string()
}

fn outer_span_stack() -> SpanList {
    let mut stack = SpanList::new();
    stack.new_span(s("outer"), None);
    stack.add_field(s("x"), FieldValue::Int(6));
    stack
}

#[test]
fn simple_event_record() {
    // create span "outer" with x=6; inside it, emit an Error event
    let layer = SerdeLayerBuilder::start(Json, NoClock, Sink)
        .with_source_location(false)
        .finish();
    let stack = outer_span_stack();
    let fields = vec![
        (s("cat"), FieldValue::Bool(true)),
        (s("bacon"), FieldValue::Int(4)),
        (s("foo"), FieldValue::Str(s("mao"))),
        (s("message"), FieldValue::Str(s("hello"))),
    ];
    let e = layer.record_on_event(fields, Level::Error, s("app"), &stack, None, None, None, None,
        None);
    let line = Json.serialize_line(&e);
    let expected = "{\"ty\":{\"event\":{\"cat\":true,\"bacon\":4,\"foo\":\"mao\",\"message\":\"hello\"}},\"l\":4,\"s\":[{\"n\":\"outer\",\"f\":{\"x\":6}}],\"t\":\"app\"}\n";
    assert_eq!(line, expected);
    layer.emit(&e);
}

#[test]
fn nested_span_record_sequence() {
    // span_events = NEW|ENTER|EXIT|CLOSE, time_spans on: enter "a"{i=0};
    // emit Info "egg"; exit; close
    let layer = SerdeLayerBuilder::start(Json, NoClock, Sink)
        .with_span_events(SpanEvents::from_bits(NEW | ENTER | EXIT | CLOSE))
        .with_time_spans(true)
        .finish();
    assert!(layer.timing_enabled());
    assert!(layer.enter_enabled());
    assert!(layer.exit_enabled());
    assert!(layer.close_enabled());

    let mut stack = SpanList::new();
    stack.new_span(s("a"), Some(1));
    stack.add_field(s("i"), FieldValue::Int(0));

    let mut timer = SpanTimer::new();

    let r1 = layer
        .record_on_new_span(Level::Info, s("t"), &stack, None, None, None, None, None)
        .expect("the creation bit is set");
    assert!(matches!(r1.kind, EventKind::SpanCreate));

    let r2 = layer
        .record_on_enter(Level::Info, s("t"), &stack, None, None, None, None, None)
        .expect("the entry bit is set");
    assert!(matches!(r2.kind, EventKind::SpanEnter));
    timer.start_busy();

    let start = std::time::Instant::now();
    while start.elapsed().as_nanos() == 0 {}

    let r3 = layer.record_on_event(
        vec![(s("message"), FieldValue::Str(s("egg")))],
        Level::Info,
        s("t"),
        &stack,
        None,
        None,
        None,
        None,
        None,
    );
    assert!(matches!(r3.kind, EventKind::Event(_)));

    timer.end_busy();
    let r4 = layer
        .record_on_exit(Level::Info, s("t"), &stack, None, None, None, None, None)
        .expect("the exit bit is set");
    assert!(matches!(r4.kind, EventKind::SpanExit));

    let r5 = layer
        .record_on_close(Some(timer.finish()), Level::Info, s("t"), &stack, None, None, None,
            None, None)
        .expect("the close record is forced by timing");
    match r5.kind {
        EventKind::SpanClose(Some(t)) => assert!(t.busy > 0),
        other => panic!("expected a timed close record, got {:?}", other),
    }
}

#[test]
fn close_record_carries_times_only_when_timing() {
    let plain = SerdeLayerBuilder::start(Json, NoClock, Sink)
        .with_span_events(SpanEvents::from_bits(CLOSE))
        .finish();
    let stack = outer_span_stack();
    let r = plain
        .record_on_close(Some(SpanTime { busy: 1, idle: 2 }), Level::Info, s("t"), &stack, None,
            None, None, None, None)
        .expect("the close bit is set");
    assert!(matches!(r.kind, EventKind::SpanClose(None)));
}

#[test]
fn disabled_bits_emit_nothing() {
    let layer = SerdeLayerBuilder::start(Json, NoClock, Sink).finish();
    let stack = outer_span_stack();
    assert!(layer
        .record_on_new_span(Level::Info, s("t"), &stack, None, None, None, None, None)
        .is_none());
    assert!(layer
        .record_on_enter(Level::Info, s("t"), &stack, None, None, None, None, None)
        .is_none());
    assert!(layer
        .record_on_exit(Level::Info, s("t"), &stack, None, None, None, None, None)
        .is_none());
    assert!(layer
        .record_on_close(None, Level::Info, s("t"), &stack, None, None, None, None, None)
        .is_none());
}

#[test]
fn thread_and_source_details_follow_the_flags() {
    let layer = SerdeLayerBuilder::start(Json, NoClock, Sink)
        .with_thread_info(true, true)
        .with_source_location(true)
        .finish();
    let stack = SpanList::new();
    let e = layer.record_on_event(vec![], Level::Info, s("t"), &stack, Some(7), Some(s("w")),
        Some(s("f.rs")), Some(3), None);
    assert_eq!(e.thread_id, Some(7));
    assert_eq!(e.thread_name.as_deref(), Some("w"));
    assert_eq!(e.src_file.as_deref(), Some("f.rs"));
    assert_eq!(e.src_line, Some(3));

    let quiet = SerdeLayerBuilder::start(Json, NoClock, Sink)
        .with_source_location(false)
        .finish();
    let e2 = quiet.record_on_event(vec![], Level::Info, s("t"), &SpanList::new(), Some(7),
        Some(s("w")), Some(s("f.rs")), Some(3), None);
    assert_eq!(e2.thread_id, None);
    assert_eq!(e2.thread_name, None);
    assert_eq!(e2.src_file, None);
    assert_eq!(e2.src_line, None);
}

#[test]
fn timer_accumulates_alternating_phases() {
    let mut t = SpanTimer::new();
    t.add_idle(5);
    t.add_busy(7);
    t.add_idle(1);
    let snap = t.finish();
    assert_eq!(snap.busy(), 7);
    assert_eq!(snap.idle(), 6);
    // saturation instead of wrap-around
    t.add_busy(u64::MAX);
    assert_eq!(t.finish().busy(), u64::MAX);
}

#[test]
fn system_clock_reads_a_timestamp() {
    let now = SystemClock::new().time().expect("the platform clock is past the epoch");
    assert!(now.seconds > 0);
    assert!(NoClock.time().is_none());
}

#[test]
fn pretty_printing() {
    let p = PrettyPrinter::default().show_source(false).show_target(false);
    let mut stack = SpanList::new();
    stack.new_span(s("outer"), None);
    stack.add_field(s("x"), FieldValue::Int(6));
    let layer = SerdeLayerBuilder::start(Json, NoClock, Sink)
        .with_source_location(false)
        .finish();
    let ev = layer.record_on_event(
        vec![(s("message"), FieldValue::Str(s("hello"))), (s("a"), FieldValue::Int(1))],
        Level::Error,
        s("app"),
        &stack,
        None,
        None,
        None,
        None,
        None,
    );
    let text = p.format_event(&ev);
    assert_eq!(text, "ERROR: hello\n  | a= 1\n  | in outer{x= 6}\n");

    let create = Event {
        kind: EventKind::SpanCreate,
        level: Level::Info,
        spans: stack.to_spans(),
        target: s("app"),
        thread_id: None,
        thread_name: None,
        src_line: None,
        src_file: None,
        time: None,
    };
    assert_eq!(p.format_event(&create), " INFO: outer{x= 6} create\n");

    let with_tail = PrettyPrinter::default();
    let closed = Event {
        kind: EventKind::SpanClose(Some(SpanTime { busy: 3, idle: 4 })),
        level: Level::Debug,
        spans: stack.to_spans(),
        target: s("app"),
        thread_id: None,
        thread_name: None,
        src_line: Some(9),
        src_file: Some(s("m.rs")),
        time: None,
    };
    assert_eq!(
        with_tail.format_event(&closed),
        "DEBUG: outer{x= 6} close: 3ns busy, 4ns idle\n  | target app at m.rs:9\n"
    );
}

#[test]
fn span_ids_render_as_twelve_base64_characters() {
    let p = PrettyPrinter::default().show_source(false).show_target(false).show_span_ids(true);
    let mut stack = SpanList::new();
    stack.new_span(s("egg"), Some(5));
    let ev = Event {
        kind: EventKind::SpanEnter,
        level: Level::Trace,
        spans: stack.to_spans(),
        target: s("t"),
        thread_id: None,
        thread_name: None,
        src_line: None,
        src_file: None,
        time: None,
    };
    let text = p.format_event(&ev);
    // "TRACE: " + 12 id characters + ' ' + "egg{} enter\n"
    assert!(text.starts_with("TRACE: "));
    let rest = &text["TRACE: ".len()..];
    let id_part: Vec<char> = rest.chars().take_while(|c| *c != ' ').collect();
    assert_eq!(id_part.len(), 12);
    assert!(rest.ends_with("egg{} enter\n"));
}

#[test]
fn warn_decorator_swallows_failures() {
    let w = tracing_subscriber_serde::writer::WarnOnError::new(FailingSink);
    let e = Event {
        kind: EventKind::SpanCreate,
        level: Level::Info,
        spans: vec![],
        target: s("t"),
        thread_id: None,
        thread_name: None,
        src_line: None,
        src_file: None,
        time: None,
    };
    assert!(w.write(&Json, &e).is_ok());
}
