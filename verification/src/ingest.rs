//! Event ingestion handlers: the functions the driver-facing callbacks call
//! for every observed lifecycle event.
//!
//! Each handler is one constant-shape state transition on the aggregators it
//! feeds; the surrounding application performs the locking and invokes a
//! handler once per driver event, on whatever thread the driver uses. A
//! completion event whose request identifier matches no observed start is
//! discarded without touching any view, so a broken correlation never
//! disturbs the statistics of correctly matched commands.

use crate::command::{CommandCorrelator, FinishedCommandInfo, PendingCommand};
use crate::heartbeat::{heartbeat_effect, HeartbeatAggregator, HeartbeatSample};
use crate::histogram::histogram_step;
use crate::metrics::CommandMetricsAggregator;
use crate::slowest::topk_step;
use crate::topology::{ServerDescription, TopologyAggregator};
use vstd::prelude::*;

verus! {

/// One command lifecycle event, as reported by the driver: a start carries
/// the command name and its start timestamp, a completion carries the
/// elapsed duration; all are correlated through the request identifier.
pub enum CommandEvent {
    Started { request_id: u64, name: String, timestamp_ms: u64 },
    Succeeded { request_id: u64, duration_ms: u64 },
    Failed { request_id: u64, duration_ms: u64 },
}

/// One server discovery event, as reported by the driver: a full topology
/// replacement, or a single heartbeat observation for one monitor
/// connection. A heartbeat start carries no measurement yet.
pub enum DiscoveryEvent {
    TopologyChanged { servers: Vec<ServerDescription> },
    HeartbeatStarted { connection_id: usize },
    HeartbeatSucceeded { connection_id: usize, latency_ms: u64, timestamp_ms: u64 },
    HeartbeatFailed { connection_id: usize, timestamp_ms: u64 },
}

/// The finished-command record derived from a pending start and its
/// completion: the command keeps its name and start timestamp and gains the
/// measured duration and the outcome.
pub open spec fn finished_from(
    pending: PendingCommand,
    duration_ms: u64,
    success: bool,
) -> FinishedCommandInfo {
    FinishedCommandInfo {
        name: pending.name,
        duration_ms: duration_ms,
        timestamp_ms: pending.start_timestamp_ms,
        success: success,
    }
}

/// Effect of one completion event: with a matching pending start, the start
/// leaves the table and the derived finished command enters both metric
/// views; without one, the event is discarded and every view is unchanged.
pub open spec fn completion_effect(
    old_pending: Map<u64, PendingCommand>,
    new_pending: Map<u64, PendingCommand>,
    old_metrics: CommandMetricsAggregator,
    new_metrics: CommandMetricsAggregator,
    request_id: u64,
    duration_ms: u64,
    success: bool,
) -> bool {
    if old_pending.contains_key(request_id) {
        &&& new_pending == old_pending.remove(request_id)
        &&& new_metrics.histogram@ == histogram_step(
            old_metrics.histogram@,
            old_pending[request_id].start_timestamp_ms,
            duration_ms,
            old_metrics.histogram.capacity_spec(),
        )
        &&& new_metrics.slowest@ == topk_step(
            old_metrics.slowest@,
            finished_from(old_pending[request_id], duration_ms, success),
            old_metrics.slowest.capacity_spec(),
        )
    } else {
        &&& new_pending == old_pending
        &&& new_metrics.histogram@ == old_metrics.histogram@
        &&& new_metrics.slowest@ == old_metrics.slowest@
    }
}

/// Law: a completion whose request identifier has no pending start is
/// discarded without a trace — the pending table, the histogram and the
/// ranking all stay exactly as they were, so completions of correctly
/// matched commands are never affected.
pub proof fn lemma_unmatched_completion_changes_nothing(
    old_pending: Map<u64, PendingCommand>,
    new_pending: Map<u64, PendingCommand>,
    old_metrics: CommandMetricsAggregator,
    new_metrics: CommandMetricsAggregator,
    request_id: u64,
    duration_ms: u64,
    success: bool,
)
    requires
        !old_pending.contains_key(request_id),
        completion_effect(
            old_pending,
            new_pending,
            old_metrics,
            new_metrics,
            request_id,
            duration_ms,
            success,
        ),
    ensures
        new_pending == old_pending,
        new_metrics.histogram@ == old_metrics.histogram@,
        new_metrics.slowest@ == old_metrics.slowest@,
{
}

/// Ingests one command lifecycle event: a start enters the pending table, a
/// completion resolves against it and, when matched, feeds the finished
/// command to the metrics aggregator.
pub fn handle_command_event(
    correlator: &mut CommandCorrelator,
    metrics: &mut CommandMetricsAggregator,
    event: CommandEvent,
)
    ensures
        final(metrics).histogram.capacity_spec() == old(metrics).histogram.capacity_spec(),
        final(metrics).slowest.capacity_spec() == old(metrics).slowest.capacity_spec(),
        match event {
            CommandEvent::Started { request_id, name, timestamp_ms } => {
                &&& final(correlator)@ == old(correlator)@.insert(
                    request_id,
                    (PendingCommand { name: name, start_timestamp_ms: timestamp_ms }),
                )
                &&& final(metrics).histogram@ == old(metrics).histogram@
                &&& final(metrics).slowest@ == old(metrics).slowest@
            },
            CommandEvent::Succeeded { request_id, duration_ms } => completion_effect(
                old(correlator)@,
                final(correlator)@,
                *old(metrics),
                *final(metrics),
                request_id,
                duration_ms,
                true,
            ),
            CommandEvent::Failed { request_id, duration_ms } => completion_effect(
                old(correlator)@,
                final(correlator)@,
                *old(metrics),
                *final(metrics),
                request_id,
                duration_ms,
                false,
            ),
        },
{
    match event {
        CommandEvent::Started { request_id, name, timestamp_ms } => {
            correlator.on_started(request_id, name, timestamp_ms);
        },
        CommandEvent::Succeeded { request_id, duration_ms } => {
            match correlator.on_completed(request_id, duration_ms, true) {
                Some(finished) => {
                    metrics.record_finished(finished);
                },
                None => {},
            }
        },
        CommandEvent::Failed { request_id, duration_ms } => {
            match correlator.on_completed(request_id, duration_ms, false) {
                Some(finished) => {
                    metrics.record_finished(finished);
                },
                None => {},
            }
        },
    }
}

/// Ingests one discovery event: a topology change replaces the tracked
/// server set wholesale, a heartbeat result extends that connection's
/// latency ring, and a heartbeat start carries nothing to record.
pub fn handle_discovery_event(
    topology: &mut TopologyAggregator,
    heartbeats: &mut HeartbeatAggregator,
    event: DiscoveryEvent,
)
    ensures
        final(heartbeats).capacity_spec() == old(heartbeats).capacity_spec(),
        match event {
            DiscoveryEvent::TopologyChanged { servers } => {
                &&& final(topology)@ == servers@
                &&& final(heartbeats)@ == old(heartbeats)@
            },
            DiscoveryEvent::HeartbeatStarted { connection_id } => {
                &&& final(topology)@ == old(topology)@
                &&& final(heartbeats)@ == old(heartbeats)@
            },
            DiscoveryEvent::HeartbeatSucceeded { connection_id, latency_ms, timestamp_ms } => {
                &&& final(topology)@ == old(topology)@
                &&& heartbeat_effect(
                    old(heartbeats)@,
                    final(heartbeats)@,
                    old(heartbeats).capacity_spec(),
                    connection_id,
                    (HeartbeatSample { latency_ms: Some(latency_ms), timestamp_ms: timestamp_ms }),
                )
            },
            DiscoveryEvent::HeartbeatFailed { connection_id, timestamp_ms } => {
                &&& final(topology)@ == old(topology)@
                &&& heartbeat_effect(
                    old(heartbeats)@,
                    final(heartbeats)@,
                    old(heartbeats).capacity_spec(),
                    connection_id,
                    (HeartbeatSample { latency_ms: None, timestamp_ms: timestamp_ms }),
                )
            },
        },
{
    match event {
        DiscoveryEvent::TopologyChanged { servers } => {
            topology.record_topology(servers);
        },
        DiscoveryEvent::HeartbeatStarted { connection_id: _ } => {},
        DiscoveryEvent::HeartbeatSucceeded { connection_id, latency_ms, timestamp_ms } => {
            heartbeats.record_heartbeat(
                connection_id,
                HeartbeatSample { latency_ms: Some(latency_ms), timestamp_ms },
            );
        },
        DiscoveryEvent::HeartbeatFailed { connection_id, timestamp_ms } => {
            heartbeats.record_heartbeat(
                connection_id,
                HeartbeatSample { latency_ms: None, timestamp_ms },
            );
        },
    }
}

} // verus!
