use mongo_insight::heartbeat::{HeartbeatAggregator, HeartbeatSample, HEARTBEAT_FAILURE_SENTINEL};

fn ok(latency: u64, ts: u64) -> HeartbeatSample {
    HeartbeatSample { latency_ms: Some(latency), timestamp_ms: ts }
}

fn failed(ts: u64) -> HeartbeatSample {
    HeartbeatSample { latency_ms: None, timestamp_ms: ts }
}

#[test]
fn empty_aggregator_reports_no_connections() {
    let aggregator = HeartbeatAggregator::new(4);
    assert_eq!(aggregator.get_connection_heartbeat(), vec![]);
}

#[test]
fn latest_successful_latency_is_reported() {
    let mut aggregator = HeartbeatAggregator::new(4);
    aggregator.record_heartbeat(7, ok(10, 1_000));
    aggregator.record_heartbeat(7, ok(20, 2_000));
    aggregator.record_heartbeat(7, failed(3_000));
    assert_eq!(aggregator.get_connection_heartbeat(), vec![(7, 20)]);
}

#[test]
fn all_failures_report_the_sentinel() {
    let mut aggregator = HeartbeatAggregator::new(4);
    aggregator.record_heartbeat(3, failed(1_000));
    aggregator.record_heartbeat(3, failed(2_000));
    assert_eq!(aggregator.get_connection_heartbeat(), vec![(3, HEARTBEAT_FAILURE_SENTINEL)]);
}

#[test]
fn ring_evicts_oldest_samples_first() {
    // Capacity 3: one success followed by three failures evicts the
    // success, so only the sentinel is left to report.
    let mut aggregator = HeartbeatAggregator::new(3);
    aggregator.record_heartbeat(1, ok(42, 1_000));
    aggregator.record_heartbeat(1, failed(2_000));
    aggregator.record_heartbeat(1, failed(3_000));
    assert_eq!(aggregator.get_connection_heartbeat(), vec![(1, 42)]);
    aggregator.record_heartbeat(1, failed(4_000));
    assert_eq!(aggregator.get_connection_heartbeat(), vec![(1, HEARTBEAT_FAILURE_SENTINEL)]);
}

#[test]
fn connections_are_tracked_independently() {
    let mut aggregator = HeartbeatAggregator::new(2);
    aggregator.record_heartbeat(1, ok(5, 1_000));
    aggregator.record_heartbeat(2, ok(8, 1_100));
    aggregator.record_heartbeat(1, ok(6, 2_000));
    assert_eq!(aggregator.get_connection_heartbeat(), vec![(1, 6), (2, 8)]);
}

#[test]
fn heartbeat_snapshot_is_idempotent() {
    let mut aggregator = HeartbeatAggregator::new(3);
    aggregator.record_heartbeat(9, ok(11, 500));
    aggregator.record_heartbeat(4, failed(600));
    let first = aggregator.get_connection_heartbeat();
    let second = aggregator.get_connection_heartbeat();
    assert_eq!(first, second);
}
