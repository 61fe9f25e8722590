use feature_probe_event::event::{Access, PackedData};
use feature_probe_event::retry::RetryBuffer;

fn unit(stamp: u128) -> PackedData {
    PackedData {
        events: Vec::new(),
        access: Access { start_time: stamp, end_time: stamp, counters: Vec::new() },
    }
}

#[test]
fn pushes_beyond_capacity_evict_the_oldest() {
    let mut buffer = RetryBuffer::new(2);
    buffer.push(unit(1));
    buffer.push(unit(2));
    assert_eq!(buffer.len(), 2);
    buffer.push(unit(3));
    assert_eq!(buffer.len(), 2);
    buffer.push(unit(4));
    assert_eq!(buffer.len(), 2);
    let snapshot = buffer.snapshot_and_detach();
    let stamps: Vec<u128> = snapshot.iter().map(|u| u.access.start_time).collect();
    assert_eq!(stamps, vec![3, 4]);
}

#[test]
fn snapshot_detaches_and_restore_reinstalls() {
    let mut buffer = RetryBuffer::new(5);
    buffer.push(unit(7));
    buffer.push(unit(8));
    let snapshot = buffer.snapshot_and_detach();
    assert_eq!(buffer.len(), 0);
    assert_eq!(snapshot.len(), 2);
    buffer.restore(snapshot);
    assert_eq!(buffer.len(), 2);
    let again = buffer.snapshot_and_detach();
    let stamps: Vec<u128> = again.iter().map(|u| u.access.start_time).collect();
    assert_eq!(stamps, vec![7, 8]);
}

#[test]
fn zero_capacity_keeps_nothing() {
    let mut buffer = RetryBuffer::new(0);
    buffer.push(unit(1));
    assert_eq!(buffer.len(), 0);
    assert_eq!(buffer.evicted_total(), 1);
}

#[test]
fn evictions_are_counted() {
    let mut buffer = RetryBuffer::new(2);
    buffer.push(unit(1));
    buffer.push(unit(2));
    assert_eq!(buffer.evicted_total(), 0);
    buffer.push(unit(3));
    buffer.push(unit(4));
    assert_eq!(buffer.evicted_total(), 2);
}

#[test]
fn capacity_is_fixed_at_construction() {
    let buffer = RetryBuffer::new(3);
    assert_eq!(buffer.capacity(), 3);
}
