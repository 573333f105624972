use tracing_subscriber_serde::writer::{Message, NonBlocking, WriteError, nonblocking};

fn drain_records(rx: &flume::Receiver<Message>, buffer: &mut Vec<u8>) {
    while let Ok(msg) = rx.try_recv() {
        match msg {
            Message::Record(data) => buffer.extend_from_slice(&data),
            Message::Shutdown => break,
        }
    }
}

#[test]
fn interrupts() {
    // the hand-off keeps every record, in order
    let (tx, rx) = flume::bounded(1024);
    let writer = NonBlocking::from_parts(tx, false, 1024);
    for message in 0..5u8 {
        let payload = format!("{}\n", message).into_bytes();
        writer.send_payload(payload).unwrap();
    }
    let mut buffer = Vec::new();
    drain_records(&rx, &mut buffer);
    let output = String::from_utf8(buffer).unwrap();
    assert_eq!(output, "0\n1\n2\n3\n4\n");
}

#[test]
fn drops_logs_when_full() {
    // a stalled worker: nothing is taken off the channel while the
    // producer writes
    let num_buffered = 2;
    let (tx, rx) = flume::bounded(num_buffered);
    let writer = NonBlocking::from_parts(tx, true, num_buffered);

    for message in 0..10u8 {
        // the first two messages get buffered, the others are dropped
        let payload = format!("{}\n", message).into_bytes();
        writer.send_payload(payload).unwrap();
    }

    let mut buffer = Vec::new();
    // the worker wakes and takes the two buffered records
    for _ in 0..num_buffered {
        match rx.recv().unwrap() {
            Message::Record(data) => buffer.extend_from_slice(&data),
            Message::Shutdown => panic!("no shutdown was sent"),
        }
    }

    writer.send_payload(b"\"hello world\"\n".to_vec()).unwrap();
    drain_records(&rx, &mut buffer);

    let output = String::from_utf8(buffer).unwrap();
    assert_eq!(output, "0\n1\n\"hello world\"\n");
}

#[test]
fn blocking_policy_keeps_all_records() {
    let (tx, rx) = flume::bounded(64);
    let writer = NonBlocking::from_parts(tx, false, 64);
    for message in 0..10u8 {
        writer.send_payload(format!("{}\n", message).into_bytes()).unwrap();
    }
    writer.send_payload(b"\"hello world\"\n".to_vec()).unwrap();
    let mut buffer = Vec::new();
    drain_records(&rx, &mut buffer);
    let output = String::from_utf8(buffer).unwrap();
    assert_eq!(output, "0\n1\n2\n3\n4\n5\n6\n7\n8\n9\n\"hello world\"\n");
}

#[test]
fn closed_channel_reports_the_dead_worker() {
    let (tx, rx) = flume::bounded(4);
    drop(rx);
    let writer = NonBlocking::from_parts(tx, false, 4);
    assert_eq!(writer.send_payload(b"x".to_vec()), Err(WriteError::Closed));
}

#[test]
fn builder_accessors_report_the_configuration() {
    let b = nonblocking().lossy(true).buf_size(7);
    assert!(b.lossy_value());
    assert_eq!(b.capacity_value(), 7);
    let d = NonBlocking::new();
    assert!(!d.lossy_value());
}
