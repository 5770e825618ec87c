use mongo_insight::topology::{ServerDescription, ServerState, TopologyAggregator};

fn server(host: &str, port: u16, state: ServerState, rtt: Option<u64>) -> ServerDescription {
    ServerDescription { host: host.to_string(), port, state, round_trip_time_ms: rtt }
}

#[test]
fn empty_aggregator_reports_no_servers() {
    let aggregator = TopologyAggregator::new();
    assert_eq!(aggregator.get_database_topology(), vec![]);
}

#[test]
fn snapshot_returns_recorded_servers() {
    let mut aggregator = TopologyAggregator::new();
    let servers = vec![
        server("alpha", 27017, ServerState::RsPrimary, Some(3)),
        server("beta", 27018, ServerState::RsSecondary, None),
    ];
    aggregator.record_topology(servers.clone());
    assert_eq!(aggregator.get_database_topology(), servers);
}

#[test]
fn last_topology_event_wins() {
    let mut aggregator = TopologyAggregator::new();
    aggregator.record_topology(vec![
        server("alpha", 27017, ServerState::RsPrimary, Some(3)),
        server("beta", 27018, ServerState::RsSecondary, Some(9)),
    ]);
    aggregator.record_topology(vec![server("gamma", 27019, ServerState::Standalone, None)]);
    let last = vec![server("delta", 27020, ServerState::Mongos, Some(1))];
    aggregator.record_topology(last.clone());
    // Full replace: nothing from the earlier events survives.
    assert_eq!(aggregator.get_database_topology(), last);
}

#[test]
fn empty_replacement_clears_the_set() {
    let mut aggregator = TopologyAggregator::new();
    aggregator.record_topology(vec![server("alpha", 27017, ServerState::Unknown, None)]);
    aggregator.record_topology(vec![]);
    assert_eq!(aggregator.get_database_topology(), vec![]);
}

#[test]
fn topology_snapshot_is_idempotent() {
    let mut aggregator = TopologyAggregator::new();
    aggregator.record_topology(vec![
        server("alpha", 27017, ServerState::RsArbiter, Some(12)),
        server("beta", 27018, ServerState::RsGhost, None),
    ]);
    let first = aggregator.get_database_topology();
    let second = aggregator.get_database_topology();
    assert_eq!(first, second);
}
