use tracing_subscriber_serde::event::{Event, EventKind};
use tracing_subscriber_serde::eq_event;
use tracing_subscriber_serde::format::Json;
use tracing_subscriber_serde::jparse::events_from_json;
use tracing_subscriber_serde::level::Level;
use tracing_subscriber_serde::span::{Span, SpanList};
use tracing_subscriber_serde::time::{SpanTime, UnixTime};
use tracing_subscriber_serde::value::FieldValue;
use tracing_subscriber_serde::SerdeFormat;

fn s(x: &str) -> String {
    x.to_string()
}

fn fixture_spans() -> Vec<Span> {
    vec![
        Span {
            name: s("egg"),
            id: Some(5),
            fields: vec![
                (s("q"), FieldValue::Bool(false)),
                (s("long"), FieldValue::Str(s("a very long string for me"))),
            ],
        },
        Span {
            name: s("cat"),
            id: Some(6),
            fields: vec![(s("a"), FieldValue::Int(4)), (s("b"), FieldValue::Str(s("bval")))],
        },
        Span {
            name: s("egg"),
            id: Some(5),
            fields: vec![(s("x"), FieldValue::Float(4.01f64.to_bits()))],
        },
    ]
}

fn fixture_events() -> Vec<Event> {
    let kinds = [
        EventKind::SpanCreate,
        EventKind::SpanEnter,
        EventKind::SpanExit,
        EventKind::SpanClose(None),
        EventKind::SpanClose(Some(SpanTime { busy: 1, idle: 20 })),
    ];
    let levels = [Level::Trace, Level::Debug, Level::Info, Level::Warn, Level::Error];
    let targets = ["hey", "http", "bad"];
    let thread_ids = [None, Some(2u64), Some(14u64)];
    let thread_names = [None, Some("worker")];
    let src_files = [None, Some("path/to/code.rs")];
    let src_lines = [Some(34u32), None];
    let times = [None, Some(UnixTime { seconds: 0, nanos: 0 })];

    let mut out = Vec::new();
    for kind in &kinds {
        for level in &levels {
            for target in &targets {
                for tid in &thread_ids {
                    for tn in &thread_names {
                        for sf in &src_files {
                            for sl in &src_lines {
                                for tm in &times {
                                    out.push(Event {
                                        kind: kind.clone(),
                                        level: *level,
                                        spans: fixture_spans(),
                                        target: s(target),
                                        thread_id: *tid,
                                        thread_name: tn.map(s),
                                        src_line: *sl,
                                        src_file: sf.map(s),
                                        time: *tm,
                                    });
                                }
                            }
                        }
                    }
                }
            }
        }
    }
    out
}

fn roundtrip_all(events: &[Event]) {
    let mut buffer = String::new();
    for e in events {
        buffer.push_str(&Json.serialize_line(e));
    }
    let parsed = events_from_json(&buffer).expect("the serialized stream must scan back");
    assert_eq!(events.len(), parsed.len());
    for (orig, de) in events.iter().zip(parsed.iter()) {
        if !eq_event(orig, de) {
            panic!(
                "deserialization doesn't match serialization:\n  serialized = {:?}\ndeserialized = {:?}",
                orig, de
            )
        }
    }
}

#[test]
fn json_json() {
    roundtrip_all(&fixture_events());
}

#[test]
fn format_json() {
    // the byte-level driver agrees with the text-level one
    let events = fixture_events();
    let mut bytes: Vec<u8> = Vec::new();
    for e in &events {
        bytes.extend_from_slice(&Json.serialize(e));
    }
    let text = std::str::from_utf8(&bytes).expect("the wire form is UTF-8");
    let parsed = events_from_json(text).expect("the serialized stream must scan back");
    assert_eq!(events.len(), parsed.len());
    for (orig, de) in events.iter().zip(parsed.iter()) {
        assert!(eq_event(orig, de));
    }
}

#[test]
fn serde_borrowed_to_owned_json() {
    let mut list = SpanList::new();
    list.new_span(s("hello_world"), Some(1));
    list.add_field(s("field"), FieldValue::Bool(false));
    let e = Event {
        kind: EventKind::Event(vec![
            (s("message"), FieldValue::Str(s("oh no!"))),
            (s("x"), FieldValue::Int(42)),
        ]),
        level: Level::Trace,
        spans: list.to_spans(),
        target: s("foo"),
        thread_id: Some(1),
        thread_name: Some(s("WorkerThread")),
        src_line: Some(20),
        src_file: Some(s("src/module/file.rs")),
        time: Some(UnixTime { seconds: 10, nanos: 11 }),
    };
    let line = Json.serialize_line(&e);
    let parsed = events_from_json(&line).expect("one record must scan back");
    assert_eq!(parsed.len(), 1);
    assert!(eq_event(&e, &parsed[0]));
}

#[test]
fn empty_span_stack_is_empty_array() {
    let e = Event {
        kind: EventKind::Event(vec![]),
        level: Level::Info,
        spans: vec![],
        target: s("t"),
        thread_id: None,
        thread_name: None,
        src_line: None,
        src_file: None,
        time: None,
    };
    let line = Json.serialize_line(&e);
    assert_eq!(line, "{\"ty\":{\"event\":{}},\"l\":2,\"s\":[],\"t\":\"t\"}\n");
    let parsed = events_from_json(&line).unwrap();
    assert!(eq_event(&e, &parsed[0]));
}

#[test]
fn span_with_no_fields() {
    let e = Event {
        kind: EventKind::SpanCreate,
        level: Level::Trace,
        spans: vec![Span { name: s("outer"), id: None, fields: vec![] }],
        target: s("t"),
        thread_id: None,
        thread_name: None,
        src_line: None,
        src_file: None,
        time: None,
    };
    let line = Json.serialize_line(&e);
    assert_eq!(line, "{\"ty\":\"span_create\",\"l\":0,\"s\":[{\"n\":\"outer\",\"f\":{}}],\"t\":\"t\"}\n");
    let parsed = events_from_json(&line).unwrap();
    assert!(eq_event(&e, &parsed[0]));
}

#[test]
fn duplicate_field_names_preserved_in_order() {
    let e = Event {
        kind: EventKind::Event(vec![
            (s("dup"), FieldValue::Int(1)),
            (s("dup"), FieldValue::Int(2)),
        ]),
        level: Level::Warn,
        spans: vec![],
        target: s("t"),
        thread_id: None,
        thread_name: None,
        src_line: None,
        src_file: None,
        time: None,
    };
    let line = Json.serialize_line(&e);
    assert!(line.contains("\"dup\":1,\"dup\":2"));
    let parsed = events_from_json(&line).unwrap();
    assert!(eq_event(&e, &parsed[0]));
}

#[test]
fn nan_float_round_trips_bit_exactly() {
    let e = Event {
        kind: EventKind::Event(vec![(s("x"), FieldValue::Float(f64::NAN.to_bits()))]),
        level: Level::Info,
        spans: vec![],
        target: s("t"),
        thread_id: None,
        thread_name: None,
        src_line: None,
        src_file: None,
        time: None,
    };
    let line = Json.serialize_line(&e);
    assert!(line.contains("\"x\":NaN"));
    let parsed = events_from_json(&line).unwrap();
    assert!(eq_event(&e, &parsed[0]));
}

#[test]
fn floats_round_trip_exactly() {
    let samples = [4.01f64, 0.5, -0.25, 2.0, 1.0e300, 5e-324, -0.0, 123456789.125, f64::INFINITY,
        f64::NEG_INFINITY];
    for v in samples {
        let e = Event {
            kind: EventKind::Event(vec![(s("x"), FieldValue::Float(v.to_bits()))]),
            level: Level::Debug,
            spans: vec![],
            target: s("t"),
            thread_id: None,
            thread_name: None,
            src_line: None,
            src_file: None,
            time: None,
        };
        let line = Json.serialize_line(&e);
        let parsed = events_from_json(&line).unwrap();
        assert!(eq_event(&e, &parsed[0]), "float {} must round trip bit-exactly", v);
    }
}

#[test]
fn long_key_forms_are_accepted() {
    let e = Event {
        kind: EventKind::Event(vec![(s("a"), FieldValue::Int(7))]),
        level: Level::Error,
        spans: vec![Span {
            name: s("outer"),
            id: Some(3),
            fields: vec![(s("x"), FieldValue::Int(6))],
        }],
        target: s("app"),
        thread_id: Some(9),
        thread_name: Some(s("w")),
        src_line: Some(12),
        src_file: Some(s("f.rs")),
        time: Some(UnixTime { seconds: 1, nanos: 2 }),
    };
    let long = "{\"kind\":{\"event\":{\"a\":7}},\"level\":4,\"spans\":[{\"name\":\"outer\",\"id\":3,\"fields\":{\"x\":6}}],\"target\":\"app\",\"thread_id\":9,\"thread_name\":\"w\",\"src_line\":12,\"src_file\":\"f.rs\",\"time\":{\"s\":1,\"n\":2}}\n";
    let parsed = events_from_json(long).expect("long key forms must be accepted");
    assert_eq!(parsed.len(), 1);
    assert!(eq_event(&e, &parsed[0]));
}

#[test]
fn stream_of_records_parses_in_order() {
    let mut evs = Vec::new();
    for i in 0..7i64 {
        evs.push(Event {
            kind: EventKind::Event(vec![(s("i"), FieldValue::Int(i))]),
            level: Level::Info,
            spans: vec![],
            target: s("t"),
            thread_id: None,
            thread_name: None,
            src_line: None,
            src_file: None,
            time: None,
        });
    }
    roundtrip_all(&evs);
}

#[test]
fn string_escapes_round_trip() {
    let e = Event {
        kind: EventKind::Event(vec![(
            s("msg"),
            FieldValue::Str(s("quote \" backslash \\ newline \n tab \t control \u{1} done")),
        )]),
        level: Level::Trace,
        spans: vec![],
        target: s("a \"quoted\" target"),
        thread_id: None,
        thread_name: None,
        src_line: None,
        src_file: None,
        time: None,
    };
    let line = Json.serialize_line(&e);
    let parsed = events_from_json(&line).unwrap();
    assert!(eq_event(&e, &parsed[0]));
}

#[test]
fn wire_form_is_plain_json() {
    // an outside JSON reader accepts the wire text of an ordinary record
    let e = Event {
        kind: EventKind::Event(vec![(s("k"), FieldValue::Str(s("v")))]),
        level: Level::Warn,
        spans: fixture_spans(),
        target: s("t"),
        thread_id: Some(1),
        thread_name: Some(s("n")),
        src_line: Some(3),
        src_file: Some(s("f")),
        time: Some(UnixTime { seconds: 4, nanos: 5 }),
    };
    let line = Json.serialize_line(&e);
    let v: Result<serde_json::Value, _> = serde_json::from_str(line.trim_end());
    assert!(v.is_ok());
    let v = v.unwrap();
    assert_eq!(v["l"], serde_json::Value::from(3));
    assert_eq!(v["s"][0]["n"], serde_json::Value::from("egg"));
}

#[test]
fn level_ranks_round_trip() {
    let levels = [Level::Trace, Level::Debug, Level::Info, Level::Warn, Level::Error];
    for (i, l) in levels.iter().enumerate() {
        assert_eq!(l.as_u8() as usize, i);
        assert_eq!(Level::from_u8(l.as_u8()), Some(*l));
    }
    assert_eq!(Level::from_u8(5), None);
}

#[test]
fn field_values_compare_and_hash_by_bits() {
    let a = FieldValue::Float(f64::NAN.to_bits());
    let b = FieldValue::Float(f64::NAN.to_bits());
    assert_eq!(a, b);
    assert_ne!(FieldValue::Float(0.5f64.to_bits()), FieldValue::Float(0.25f64.to_bits()));
    assert_ne!(FieldValue::Int(1), FieldValue::Bool(true));
    let mut h1 = std::collections::hash_map::DefaultHasher::new();
    let mut h2 = std::collections::hash_map::DefaultHasher::new();
    std::hash::Hash::hash(&a, &mut h1);
    std::hash::Hash::hash(&b, &mut h2);
    assert_eq!(std::hash::Hasher::finish(&h1), std::hash::Hasher::finish(&h2));
}

#[test]
fn unsigned_fields_wrap_into_signed_values() {
    assert_eq!(FieldValue::from_u64(7), FieldValue::Int(7));
    assert_eq!(FieldValue::from_u64(u64::MAX), FieldValue::Int(-1));
    assert_eq!(FieldValue::from_u64(1u64 << 63), FieldValue::Int(i64::MIN));
}

#[test]
fn failed_open_hands_out_its_error() {
    let e = std::io::Error::new(std::io::ErrorKind::NotFound, "no such file");
    let stream: tracing_subscriber_serde::consumer::TryOpenStream<std::vec::IntoIter<Event>> =
        tracing_subscriber_serde::consumer::TryOpenStream::err_on_open(e);
    match stream.into_inner() {
        Err(Some(err)) => assert_eq!(err.kind(), std::io::ErrorKind::NotFound),
        _ => panic!("the open error must be handed out"),
    }
    let ok: tracing_subscriber_serde::consumer::TryOpenStream<std::vec::IntoIter<Event>> =
        tracing_subscriber_serde::consumer::TryOpenStream::success(Vec::new().into_iter());
    assert!(ok.into_inner().is_ok());
}
