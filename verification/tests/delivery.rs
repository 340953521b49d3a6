//! Store-and-forward and at-least-once behaviour of the log store, the
//! injection path and the delivery worker.

use presence_relay::event::{Event, Field, event_from_fields};
use presence_relay::relay::inject;
use presence_relay::store::LogStore;
use presence_relay::worker::{DeliveryWorker, batch_ids, decode_batch};

fn ev(subject: &str, act: &str, object: &str) -> Event {
    Event {
        subject: String::from(subject),
        act: String::from(act),
        object: String::from(object),
    }
}

#[test]
fn inject_assigns_monotonic_ids() {
    let mut store = LogStore::new();
    let receivers = vec![String::from("a"), String::from("b")];
    let ids = inject(&mut store, &ev("s", "a", "o"), &receivers);
    assert_eq!(ids, vec![0, 1]);
    assert_eq!(store.inspect_len("stream-messages:a"), 1);
    assert_eq!(store.inspect_len("stream-messages:b"), 1);
    let ids = inject(&mut store, &ev("s", "a", "o"), &receivers);
    assert_eq!(ids, vec![2, 3]);
    assert_eq!(store.inspect_len("stream-messages:a"), 2);
}

#[test]
fn absent_key_has_length_zero() {
    let store = LogStore::new();
    assert_eq!(store.inspect_len("stream-messages:nobody"), 0);
}

#[test]
fn offline_messages_delivered_in_order_then_log_empty() {
    // Identity "alice" is offline; three messages are injected.
    let mut store = LogStore::new();
    let alice = vec![String::from("alice")];
    inject(&mut store, &ev("a", "x", "1"), &alice);
    inject(&mut store, &ev("a", "x", "2"), &alice);
    inject(&mut store, &ev("a", "x", "3"), &alice);
    assert_eq!(store.inspect_len("stream-messages:alice"), 3);

    // Alice comes online: a worker drains her log.
    let mut worker = DeliveryWorker::new(0, String::from("alice"));
    let batch = worker.poll(&store, 10);
    let events = decode_batch(&batch);
    assert_eq!(events.len(), 3);
    for (i, expected) in ["1", "2", "3"].iter().enumerate() {
        assert_eq!(events[i].subject, "a");
        assert_eq!(events[i].act, "x");
        assert_eq!(events[i].object, *expected);
    }

    // The forward is acknowledged: the log is empty afterwards.
    let ids = batch_ids(&batch);
    worker.ack(&mut store, &ids, true);
    assert_eq!(store.inspect_len("stream-messages:alice"), 0);
}

#[test]
fn failed_forward_keeps_log_and_stops_worker() {
    let mut store = LogStore::new();
    let dave = vec![String::from("dave")];
    inject(&mut store, &ev("d", "y", "1"), &dave);
    inject(&mut store, &ev("d", "y", "2"), &dave);

    let mut worker = DeliveryWorker::new(0, String::from("dave"));
    let batch = worker.poll(&store, 10);
    assert_eq!(batch.len(), 2);
    let ids = batch_ids(&batch);

    // The endpoint is gone: the forward fails, nothing is deleted.
    worker.ack(&mut store, &ids, false);
    assert!(!worker.running);
    assert_eq!(store.inspect_len("stream-messages:dave"), 2);
    let later = worker.poll(&store, 10);
    assert_eq!(later.len(), 0);

    // The next worker bound to the identity redelivers the same entries.
    let mut next = DeliveryWorker::new(1, String::from("dave"));
    let redelivered = next.poll(&store, 10);
    assert_eq!(batch_ids(&redelivered), ids);
    let events = decode_batch(&redelivered);
    assert_eq!(events[0].object, "1");
    assert_eq!(events[1].object, "2");
    next.ack(&mut store, &batch_ids(&redelivered), true);
    assert_eq!(store.inspect_len("stream-messages:dave"), 0);
}

#[test]
fn bounded_read_returns_prefix_in_order() {
    let mut store = LogStore::new();
    let k = vec![String::from("k")];
    for i in 0..5 {
        inject(&mut store, &ev("s", "a", &i.to_string()), &k);
    }
    let worker = DeliveryWorker::new(0, String::from("k"));
    let batch = worker.poll(&store, 3);
    assert_eq!(batch.len(), 3);
    let events = decode_batch(&batch);
    assert_eq!(events[0].object, "0");
    assert_eq!(events[1].object, "1");
    assert_eq!(events[2].object, "2");
}

#[test]
fn malformed_entry_decodes_with_defaults() {
    let mut store = LogStore::new();
    let fields = vec![Field { name: String::from("subject"), value: String::from("only") }];
    store.append("stream-messages:weird", fields);
    let worker = DeliveryWorker::new(0, String::from("weird"));
    let batch = worker.poll(&store, 10);
    let events = decode_batch(&batch);
    assert_eq!(events.len(), 1);
    assert_eq!(events[0].subject, "only");
    assert_eq!(events[0].act, "");
    assert_eq!(events[0].object, "");
}

#[test]
fn decode_reads_named_fields() {
    let fields = vec![
        Field { name: String::from("act"), value: String::from("did") },
        Field { name: String::from("subject"), value: String::from("who") },
        Field { name: String::from("object"), value: String::from("what") },
    ];
    let e = event_from_fields(&fields);
    assert_eq!(e.subject, "who");
    assert_eq!(e.act, "did");
    assert_eq!(e.object, "what");
}

#[test]
fn tick_delivers_then_prunes() {
    let mut store = LogStore::new();
    let kim = vec![String::from("kim")];
    inject(&mut store, &ev("k", "z", "1"), &kim);
    inject(&mut store, &ev("k", "z", "2"), &kim);

    let mut worker = DeliveryWorker::new(0, String::from("kim"));
    let events = worker.tick(&mut store, 10, true);
    assert_eq!(events.len(), 2);
    assert_eq!(events[0].object, "1");
    assert_eq!(events[1].object, "2");
    assert_eq!(store.inspect_len("stream-messages:kim"), 0);
    assert!(worker.running);

    // An empty tick attempts no forward and changes nothing.
    let events = worker.tick(&mut store, 10, false);
    assert!(events.is_empty());
    assert!(worker.running);
}

#[test]
fn stopped_worker_polls_nothing() {
    let mut store = LogStore::new();
    inject(&mut store, &ev("s", "a", "o"), &vec![String::from("eve")]);
    let mut worker = DeliveryWorker::new(0, String::from("eve"));
    worker.stop();
    assert_eq!(worker.poll(&store, 10).len(), 0);
    assert_eq!(store.inspect_len("stream-messages:eve"), 1);
}
