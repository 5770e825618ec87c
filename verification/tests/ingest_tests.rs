use mongo_insight::command::CommandCorrelator;
use mongo_insight::heartbeat::HeartbeatAggregator;
use mongo_insight::ingest::{handle_command_event, handle_discovery_event, CommandEvent, DiscoveryEvent};
use mongo_insight::metrics::CommandMetricsAggregator;
use mongo_insight::topology::{ServerDescription, ServerState, TopologyAggregator};

#[test]
fn matched_start_and_finish_produce_one_completion() {
    let mut correlator = CommandCorrelator::new();
    let mut metrics = CommandMetricsAggregator::new(8, 3);
    handle_command_event(
        &mut correlator,
        &mut metrics,
        CommandEvent::Started { request_id: 1, name: "find".to_string(), timestamp_ms: 4_000 },
    );
    assert_eq!(correlator.pending_len(), 1);
    handle_command_event(
        &mut correlator,
        &mut metrics,
        CommandEvent::Succeeded { request_id: 1, duration_ms: 25 },
    );
    assert_eq!(correlator.pending_len(), 0);
    assert_eq!(metrics.get_commands_statistics_per_sec(8), vec![(4, 1, 25)]);
    let slowest = metrics.get_n_slowest_commands(3);
    assert_eq!(slowest.len(), 1);
    assert_eq!(slowest[0].name, "find");
    assert_eq!(slowest[0].duration_ms, 25);
    assert_eq!(slowest[0].timestamp_ms, 4_000);
    assert!(slowest[0].success);
}

#[test]
fn unmatched_finish_is_discarded_silently() {
    let mut correlator = CommandCorrelator::new();
    let mut metrics = CommandMetricsAggregator::new(8, 3);
    handle_command_event(
        &mut correlator,
        &mut metrics,
        CommandEvent::Started { request_id: 1, name: "find".to_string(), timestamp_ms: 4_000 },
    );
    handle_command_event(
        &mut correlator,
        &mut metrics,
        CommandEvent::Succeeded { request_id: 1, duration_ms: 25 },
    );
    // A finish that was never started: no view may change.
    handle_command_event(
        &mut correlator,
        &mut metrics,
        CommandEvent::Failed { request_id: 99, duration_ms: 1_000 },
    );
    assert_eq!(correlator.pending_len(), 0);
    assert_eq!(metrics.get_commands_statistics_per_sec(8), vec![(4, 1, 25)]);
    assert_eq!(metrics.get_n_slowest_commands(3).len(), 1);
}

#[test]
fn failed_commands_are_recorded_with_their_outcome() {
    let mut correlator = CommandCorrelator::new();
    let mut metrics = CommandMetricsAggregator::new(8, 3);
    handle_command_event(
        &mut correlator,
        &mut metrics,
        CommandEvent::Started { request_id: 5, name: "aggregate".to_string(), timestamp_ms: 9_500 },
    );
    handle_command_event(
        &mut correlator,
        &mut metrics,
        CommandEvent::Failed { request_id: 5, duration_ms: 180 },
    );
    let slowest = metrics.get_n_slowest_commands(1);
    assert_eq!(slowest.len(), 1);
    assert_eq!(slowest[0].name, "aggregate");
    assert!(!slowest[0].success);
}

#[test]
fn discovery_events_feed_both_aggregators() {
    let mut topology = TopologyAggregator::new();
    let mut heartbeats = HeartbeatAggregator::new(4);
    handle_discovery_event(
        &mut topology,
        &mut heartbeats,
        DiscoveryEvent::TopologyChanged {
            servers: vec![ServerDescription {
                host: "alpha".to_string(),
                port: 27017,
                state: ServerState::RsPrimary,
                round_trip_time_ms: Some(2),
            }],
        },
    );
    handle_discovery_event(
        &mut topology,
        &mut heartbeats,
        DiscoveryEvent::HeartbeatStarted { connection_id: 1 },
    );
    handle_discovery_event(
        &mut topology,
        &mut heartbeats,
        DiscoveryEvent::HeartbeatSucceeded { connection_id: 1, latency_ms: 7, timestamp_ms: 1_000 },
    );
    handle_discovery_event(
        &mut topology,
        &mut heartbeats,
        DiscoveryEvent::HeartbeatFailed { connection_id: 2, timestamp_ms: 1_100 },
    );
    let topology_view = topology.get_database_topology();
    assert_eq!(topology_view.len(), 1);
    assert_eq!(topology_view[0].host, "alpha");
    assert_eq!(
        heartbeats.get_connection_heartbeat(),
        vec![(1, 7), (2, u64::MAX)]
    );
}

#[test]
fn repeated_start_replaces_the_pending_record() {
    let mut correlator = CommandCorrelator::new();
    let mut metrics = CommandMetricsAggregator::new(8, 3);
    handle_command_event(
        &mut correlator,
        &mut metrics,
        CommandEvent::Started { request_id: 2, name: "first".to_string(), timestamp_ms: 1_000 },
    );
    handle_command_event(
        &mut correlator,
        &mut metrics,
        CommandEvent::Started { request_id: 2, name: "second".to_string(), timestamp_ms: 2_000 },
    );
    assert_eq!(correlator.pending_len(), 1);
    handle_command_event(
        &mut correlator,
        &mut metrics,
        CommandEvent::Succeeded { request_id: 2, duration_ms: 5 },
    );
    let slowest = metrics.get_n_slowest_commands(1);
    assert_eq!(slowest[0].name, "second");
    assert_eq!(slowest[0].timestamp_ms, 2_000);
}
