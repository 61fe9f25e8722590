use feature_probe_event::event::{AccessEvent, CustomEvent, DebugEvent, Event};
use feature_probe_event::package::build_packed_data;
use feature_probe_event::recorder::{unix_timestamp, EventRecorder};
use serde_json::Value;

fn access(key: &str, time: u128, track: bool) -> Event {
    Event::AccessEvent(AccessEvent {
        kind: "access".to_string(),
        time,
        key: key.to_string(),
        user: "user_key".to_string(),
        value: Value::String("1".to_string()),
        variation_index: 0,
        version: Some(1),
        rule_index: Some(1),
        track_access_events: track,
    })
}

fn custom(name: &str) -> Event {
    Event::CustomEvent(CustomEvent {
        kind: "custom".to_string(),
        time: 1,
        user: "user_key".to_string(),
        name: name.to_string(),
        value_bits: None,
    })
}

fn debug(key: &str, time: u128) -> Event {
    Event::DebugEvent(DebugEvent {
        kind: "debug".to_string(),
        time,
        key: key.to_string(),
        user: "user_key".to_string(),
        user_detail: Value::String("{}".to_string()),
        value: Value::String("1".to_string()),
        variation_index: 0,
        version: Some(1),
        rule_index: Some(1),
        reason: Some("reason".to_string()),
    })
}

#[test]
fn raw_export_keeps_marked_access_and_all_custom_events() {
    let events = vec![
        access("k", 1, false),
        access("k", 2, true),
        custom("event_name"),
        debug("k", 3),
    ];
    let unit = build_packed_data(events, 50);

    // only the export-marked access event, the custom event and the
    // debug event survive
    assert_eq!(unit.events.len(), 3);
    match &unit.events[0] {
        Event::AccessEvent(a) => {
            assert_eq!(a.time, 2);
            assert!(a.track_access_events);
        },
        _ => panic!("expected the exported access event first"),
    }
    match &unit.events[1] {
        Event::CustomEvent(c) => assert_eq!(c.name, "event_name"),
        _ => panic!("expected the custom event second"),
    }
    match &unit.events[2] {
        Event::DebugEvent(d) => assert_eq!(d.time, 3),
        _ => panic!("expected the debug event last"),
    }

    // the counters still reflect both access events; the debug event
    // does not aggregate
    assert_eq!(unit.access.counters.len(), 1);
    assert_eq!(unit.access.counters[0].counters.len(), 1);
    assert_eq!(unit.access.counters[0].counters[0].count, 2);
}

#[test]
fn empty_cycle_flushes_nothing() {
    let mut recorder = EventRecorder::new(10);
    assert!(recorder.begin_flush(50).is_none());
    assert_eq!(recorder.backlog_len(), 0);
}

#[test]
fn failed_delivery_retries_the_union_in_order() {
    let mut recorder = EventRecorder::new(10);

    recorder.record_event(access("first", 1, true));
    let payload = recorder.begin_flush(50).expect("one event was pending");
    assert_eq!(payload.len(), 1);
    recorder.on_delivery(payload, false);
    assert_eq!(recorder.backlog_len(), 1);

    recorder.record_event(access("second", 2, true));
    let payload = recorder.begin_flush(50).expect("one event was pending");
    let keys: Vec<String> = payload
        .iter()
        .map(|unit| unit.access.counters[0].key.clone())
        .collect();
    assert_eq!(keys, vec!["first".to_string(), "second".to_string()]);
    recorder.on_delivery(payload, true);
    assert_eq!(recorder.backlog_len(), 0);
    assert!(recorder.begin_flush(50).is_none());
}

#[test]
fn test_recorder() {
    let mut recorder = EventRecorder::new(10);
    for _ in 0..5 {
        recorder.record_event(access("key", 1, false));
    }
    for _ in 0..5 {
        recorder.record_event(custom("event_name"));
    }
    assert_eq!(recorder.pending_len(), 10);

    let payload = recorder.begin_flush(50).expect("events were pending");
    assert_eq!(recorder.pending_len(), 0);
    assert_eq!(payload.len(), 1);
    let unit = &payload[0];
    assert_eq!(unit.access.counters.len(), 1);
    let group = &unit.access.counters[0];
    assert_eq!(group.key, "key");
    assert_eq!(group.counters.len(), 1);
    let counter = &group.counters[0];
    assert_eq!(counter.count, 5);
    assert_eq!(counter.index, 0);
    assert_eq!(counter.version, Some(1));
    assert_eq!(counter.value, Value::String("1".to_string()));

    // the delivery endpoint accepts: the backlog is gone
    recorder.on_delivery(payload, true);
    assert_eq!(recorder.backlog_len(), 0);
}

#[test]
fn test_recorder_delivery_failure_keeps_the_unit() {
    let mut recorder = EventRecorder::new(10);
    for _ in 0..5 {
        recorder.record_event(access("key", 1, false));
    }
    let payload = recorder.begin_flush(50).expect("events were pending");
    recorder.on_delivery(payload, false);
    assert_eq!(recorder.backlog_len(), 1);
}

#[test]
fn unix_timestamp_is_after_the_epoch() {
    assert!(unix_timestamp() > 0);
}
