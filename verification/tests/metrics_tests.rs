use mongo_insight::command::FinishedCommandInfo;
use mongo_insight::metrics::CommandMetricsAggregator;

fn finished(name: &str, duration_ms: u64, timestamp_ms: u64, success: bool) -> FinishedCommandInfo {
    FinishedCommandInfo { name: name.to_string(), duration_ms, timestamp_ms, success }
}

#[test]
fn degenerate_queries_return_empty() {
    let aggregator = CommandMetricsAggregator::new(8, 3);
    assert_eq!(aggregator.get_commands_statistics_per_sec(0), vec![]);
    assert_eq!(aggregator.get_commands_statistics_per_sec(5), vec![]);
    assert!(aggregator.get_n_slowest_commands(0).is_empty());
    assert!(aggregator.get_n_slowest_commands(5).is_empty());
}

#[test]
fn histogram_returns_most_recent_buckets_oldest_first() {
    // Seconds t, t+1, t+2 get 3, 1 and 2 completions; asking for the last
    // two buckets returns t+1 and t+2 in chronological order.
    let mut aggregator = CommandMetricsAggregator::new(8, 3);
    let t: u64 = 1_700_000_000;
    for _ in 0..3 {
        aggregator.record_finished(finished("find", 10, t * 1000, true));
    }
    aggregator.record_finished(finished("find", 10, (t + 1) * 1000, true));
    for _ in 0..2 {
        aggregator.record_finished(finished("find", 10, (t + 2) * 1000, true));
    }
    let stats = aggregator.get_commands_statistics_per_sec(2);
    assert_eq!(stats.len(), 2);
    assert_eq!((stats[0].0, stats[0].1), (t + 1, 1));
    assert_eq!((stats[1].0, stats[1].1), (t + 2, 2));
}

#[test]
fn histogram_reports_mean_duration() {
    let mut aggregator = CommandMetricsAggregator::new(4, 3);
    let t: u64 = 5_000;
    aggregator.record_finished(finished("insert", 30, t * 1000, true));
    aggregator.record_finished(finished("insert", 50, t * 1000 + 10, true));
    aggregator.record_finished(finished("insert", 100, t * 1000 + 20, false));
    // Three commands in one second: count 3, mean duration 180 / 3 = 60.
    assert_eq!(aggregator.get_commands_statistics_per_sec(4), vec![(t, 3, 60)]);
}

#[test]
fn histogram_evicts_oldest_second_when_full() {
    let mut aggregator = CommandMetricsAggregator::new(2, 3);
    aggregator.record_finished(finished("a", 1, 1_000, true));
    aggregator.record_finished(finished("b", 1, 2_000, true));
    aggregator.record_finished(finished("c", 1, 3_000, true));
    let stats = aggregator.get_commands_statistics_per_sec(10);
    assert_eq!(stats.len(), 2);
    assert_eq!((stats[0].0, stats[0].1), (2, 1));
    assert_eq!((stats[1].0, stats[1].1), (3, 1));
}

#[test]
fn histogram_merges_backward_clock_jump_into_newest_bucket() {
    let mut aggregator = CommandMetricsAggregator::new(4, 3);
    aggregator.record_finished(finished("a", 10, 7_000, true));
    // The clock jumps back a second: the completion is merged into the
    // newest bucket instead of failing or reordering the ring.
    aggregator.record_finished(finished("b", 30, 6_000, true));
    assert_eq!(aggregator.get_commands_statistics_per_sec(4), vec![(7, 2, 20)]);
}

#[test]
fn no_completion_is_lost_within_one_second() {
    let mut aggregator = CommandMetricsAggregator::new(4, 3);
    for i in 0..5_000u64 {
        aggregator.record_finished(finished("ping", i % 17, 9_000 + (i % 1000), true));
    }
    let stats = aggregator.get_commands_statistics_per_sec(4);
    assert_eq!(stats.len(), 1);
    assert_eq!(stats[0].1, 5_000);
}

#[test]
fn top_k_keeps_the_largest_durations_in_descending_order() {
    // Capacity 3, durations [50, 10, 90, 30, 95, 20] arriving in that
    // order: the ranking ends as [95, 90, 50].
    let mut aggregator = CommandMetricsAggregator::new(4, 3);
    for (i, d) in [50u64, 10, 90, 30, 95, 20].iter().enumerate() {
        aggregator.record_finished(finished("q", *d, 1_000 + i as u64, true));
    }
    let slowest = aggregator.get_n_slowest_commands(3);
    let durations: Vec<u64> = slowest.iter().map(|c| c.duration_ms).collect();
    assert_eq!(durations, vec![95, 90, 50]);
}

#[test]
fn top_k_breaks_duration_ties_by_earlier_timestamp() {
    let mut aggregator = CommandMetricsAggregator::new(4, 4);
    aggregator.record_finished(finished("late", 40, 9_000, true));
    aggregator.record_finished(finished("early", 40, 1_000, true));
    aggregator.record_finished(finished("slow", 70, 5_000, true));
    let slowest = aggregator.get_n_slowest_commands(4);
    let names: Vec<&str> = slowest.iter().map(|c| c.name.as_str()).collect();
    assert_eq!(names, vec!["slow", "early", "late"]);
}

#[test]
fn top_k_full_retains_incumbent_on_equal_duration() {
    let mut aggregator = CommandMetricsAggregator::new(4, 2);
    aggregator.record_finished(finished("first", 40, 2_000, true));
    aggregator.record_finished(finished("second", 60, 3_000, true));
    // Equal to the current minimum: the incumbent is retained.
    aggregator.record_finished(finished("tied", 40, 1_000, true));
    let names: Vec<String> =
        aggregator.get_n_slowest_commands(2).into_iter().map(|c| c.name).collect();
    assert_eq!(names, vec!["second".to_string(), "first".to_string()]);
}

#[test]
fn top_k_returns_fewer_when_less_observed() {
    let mut aggregator = CommandMetricsAggregator::new(4, 5);
    aggregator.record_finished(finished("only", 12, 1_000, false));
    let slowest = aggregator.get_n_slowest_commands(3);
    assert_eq!(slowest.len(), 1);
    assert_eq!(slowest[0].name, "only");
    assert_eq!(slowest[0].duration_ms, 12);
    assert_eq!(slowest[0].timestamp_ms, 1_000);
    assert!(!slowest[0].success);
}

#[test]
fn metrics_snapshots_are_idempotent() {
    let mut aggregator = CommandMetricsAggregator::new(4, 3);
    aggregator.record_finished(finished("a", 15, 2_500, true));
    aggregator.record_finished(finished("b", 25, 3_500, false));
    assert_eq!(
        aggregator.get_commands_statistics_per_sec(4),
        aggregator.get_commands_statistics_per_sec(4)
    );
    assert_eq!(aggregator.get_n_slowest_commands(3), aggregator.get_n_slowest_commands(3));
}
