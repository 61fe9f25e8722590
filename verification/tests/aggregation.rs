use feature_probe_event::aggregate::build_access;
use feature_probe_event::event::{AccessEvent, CustomEvent, Event};
use serde_json::Value;

fn access(key: &str, time: u128, index: usize, version: Option<u64>, value: &str) -> Event {
    Event::AccessEvent(AccessEvent {
        kind: "access".to_string(),
        time,
        key: key.to_string(),
        user: "user_key".to_string(),
        value: Value::String(value.to_string()),
        variation_index: index,
        version,
        rule_index: None,
        track_access_events: true,
    })
}

fn custom(name: &str, time: u128) -> Event {
    Event::CustomEvent(CustomEvent {
        kind: "custom".to_string(),
        time,
        user: "user_key".to_string(),
        name: name.to_string(),
        value_bits: None,
    })
}

#[test]
fn counter_counts_and_keeps_first_value() {
    let events = vec![
        access("toggle", 10, 0, Some(1), "first"),
        access("toggle", 11, 0, Some(1), "second"),
        access("toggle", 12, 0, Some(1), "third"),
    ];
    let summary = build_access(&events, 777);
    assert_eq!(summary.counters.len(), 1);
    let group = &summary.counters[0];
    assert_eq!(group.key, "toggle");
    assert_eq!(group.counters.len(), 1);
    let counter = &group.counters[0];
    assert_eq!(counter.count, 3);
    assert_eq!(counter.index, 0);
    assert_eq!(counter.version, Some(1));
    assert_eq!(counter.value, Value::String("first".to_string()));
}

fn collect_counters(events: &Vec<Event>) -> Vec<(String, usize, Option<u64>, u128)> {
    let summary = build_access(events, 777);
    let mut out: Vec<(String, usize, Option<u64>, u128)> = Vec::new();
    for group in &summary.counters {
        for c in &group.counters {
            out.push((group.key.clone(), c.index, c.version, c.count));
        }
    }
    out.sort();
    out
}

#[test]
fn permuted_input_yields_same_counters() {
    let e1 = access("a", 1, 0, Some(1), "x");
    let e2 = access("a", 2, 1, Some(1), "y");
    let e3 = access("b", 3, 0, None, "z");
    let e4 = access("a", 4, 0, Some(1), "x");

    let forward = vec![clone_event(&e1), clone_event(&e2), clone_event(&e3), clone_event(&e4)];
    let backward = vec![e4, e3, e2, e1];

    let lhs = collect_counters(&forward);
    let rhs = collect_counters(&backward);
    assert_eq!(lhs.len(), 3);
    assert_eq!(lhs, rhs);
    assert!(lhs.contains(&("a".to_string(), 0, Some(1), 2)));
    assert!(lhs.contains(&("a".to_string(), 1, Some(1), 1)));
    assert!(lhs.contains(&("b".to_string(), 0, None, 1)));
}

fn clone_event(e: &Event) -> Event {
    match e {
            Event::AccessEvent(a) => Event::AccessEvent(AccessEvent {
                kind: a.kind.clone(),
                time: a.time,
                key: a.key.clone(),
                user: a.user.clone(),
                value: a.value.clone(),
                variation_index: a.variation_index,
                version: a.version,
                rule_index: a.rule_index,
                track_access_events: a.track_access_events,
            }),
            Event::CustomEvent(c) => Event::CustomEvent(CustomEvent {
                kind: c.kind.clone(),
                time: c.time,
                user: c.user.clone(),
                name: c.name.clone(),
                value_bits: c.value_bits,
            }),
        Event::DebugEvent(_) => panic!("not used in these tests"),
    }
}

#[test]
fn window_bounds_are_true_min_and_max() {
    let events = vec![
        access("k", 5, 0, None, "v"),
        custom("noise", 1),
        access("k", 2, 0, None, "v"),
        access("k", 9, 1, None, "v"),
        custom("noise", 100),
    ];
    let summary = build_access(&events, 777);
    assert_eq!(summary.start_time, 2);
    assert_eq!(summary.end_time, 9);
}

#[test]
fn export_flags_do_not_change_the_summary() {
    let marked = vec![access("k", 4, 0, None, "v"), access("k", 6, 1, None, "w")];
    let unmarked: Vec<Event> = marked
        .iter()
        .map(|e| match e {
            Event::AccessEvent(a) => Event::AccessEvent(AccessEvent {
                kind: a.kind.clone(),
                time: a.time,
                key: a.key.clone(),
                user: a.user.clone(),
                value: a.value.clone(),
                variation_index: a.variation_index,
                version: a.version,
                rule_index: a.rule_index,
                track_access_events: false,
            }),
            _ => panic!("only access events here"),
        })
        .collect();
    let with_flags = build_access(&marked, 777);
    let without_flags = build_access(&unmarked, 777);
    assert_eq!(with_flags.start_time, without_flags.start_time);
    assert_eq!(with_flags.end_time, without_flags.end_time);
    assert_eq!(collect_counters(&marked), collect_counters(&unmarked));
}

#[test]
fn window_without_access_events_is_empty_and_clamped_to_the_cycle() {
    let events = vec![custom("only", 42)];
    let summary = build_access(&events, 777);
    assert_eq!(summary.counters.len(), 0);
    assert_eq!(summary.start_time, 777);
    assert_eq!(summary.end_time, 777);
}

#[test]
fn missing_versions_group_together() {
    let events = vec![access("k", 1, 0, None, "v"), access("k", 2, 0, None, "v")];
    let summary = build_access(&events, 777);
    assert_eq!(summary.counters.len(), 1);
    assert_eq!(summary.counters[0].counters.len(), 1);
    assert_eq!(summary.counters[0].counters[0].count, 2);
    assert_eq!(summary.counters[0].counters[0].version, None);
}

#[test]
fn distinct_versions_get_distinct_counters() {
    let events = vec![access("k", 1, 0, None, "v"), access("k", 2, 0, Some(3), "v")];
    let summary = build_access(&events, 777);
    assert_eq!(summary.counters.len(), 1);
    assert_eq!(summary.counters[0].counters.len(), 2);
}
