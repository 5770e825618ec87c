//! Command metrics aggregator: two independent views fed by the same stream
//! of finished commands — the per-second throughput histogram and the top-K
//! slowest-commands ranking.
//!
//! Its history is deliberately cumulative across reconnects within one
//! process run: nothing here ever resets it.

use crate::command::FinishedCommandInfo;
use crate::histogram::{histogram_step, statistics_snapshot, ThroughputHistogram};
use crate::slowest::{ranking_order, slowest_snapshot, topk_step, SlowestCommands};
use vstd::prelude::*;

verus! {

/// Owns the throughput histogram and the slowest-commands ranking and feeds
/// every finished command to both.
pub struct CommandMetricsAggregator {
    pub histogram: ThroughputHistogram,
    pub slowest: SlowestCommands,
}

impl CommandMetricsAggregator {
    /// A fresh aggregator with the given bucket-ring and ranking capacities
    /// has observed nothing.
    pub fn new(histogram_capacity: usize, ranking_capacity: usize) -> (r: Self)
        requires
            histogram_capacity >= 1,
            ranking_capacity >= 1,
        ensures
            r.histogram@ == Seq::<crate::histogram::SecondBucket>::empty(),
            r.slowest@ == Seq::<FinishedCommandInfo>::empty(),
            r.histogram.capacity_spec() == histogram_capacity,
            r.slowest.capacity_spec() == ranking_capacity,
    {
        CommandMetricsAggregator {
            histogram: ThroughputHistogram::new(histogram_capacity),
            slowest: SlowestCommands::new(ranking_capacity),
        }
    }

    /// Folds one finished command into both views.
    pub fn record_finished(&mut self, command: FinishedCommandInfo)
        ensures
            final(self).histogram.capacity_spec() == old(self).histogram.capacity_spec(),
            final(self).slowest.capacity_spec() == old(self).slowest.capacity_spec(),
            final(self).histogram@ == histogram_step(
                old(self).histogram@,
                command.timestamp_ms,
                command.duration_ms,
                old(self).histogram.capacity_spec(),
            ),
            final(self).slowest@ == topk_step(
                old(self).slowest@,
                command,
                old(self).slowest.capacity_spec(),
            ),
            ranking_order(final(self).slowest@),
    {
        self.histogram.record_completion(command.timestamp_ms, command.duration_ms);
        self.slowest.record_command(command);
    }

    /// The most recent `count` per-second buckets, oldest first.
    pub fn get_commands_statistics_per_sec(&self, count: usize) -> (r: Vec<(u64, u64, u64)>)
        ensures
            r@ == statistics_snapshot(self.histogram@, count as int),
            forall|i: int, j: int| 0 <= i < j < r@.len() ==> (#[trigger] r@[i]).0 < (
            #[trigger] r@[j]).0,
    {
        self.histogram.get_commands_statistics_per_sec(count)
    }

    /// Up to `count` slowest commands, longest duration first.
    pub fn get_n_slowest_commands(&self, count: usize) -> (r: Vec<FinishedCommandInfo>)
        ensures
            r@ == slowest_snapshot(self.slowest@, count as int),
            ranking_order(r@),
    {
        self.slowest.get_n_slowest_commands(count)
    }
}

} // verus!
