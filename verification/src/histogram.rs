//! Per-second command throughput histogram.
//!
//! Completions are bucketed by the second of their timestamp into a bounded
//! ring of the most recent seconds: a completion in the newest bucket's
//! second increments it in place, a later second appends a bucket (evicting
//! the oldest when the ring is full), and a timestamp that jumps backwards
//! is merged into the newest bucket rather than failing — a deliberately
//! tolerated inconsistency under clock skew. Gap seconds are left implicit;
//! they are not backfilled with empty buckets.

use vstd::prelude::*;

verus! {

/// One per-second bucket: the second it covers, how many commands completed
/// in it, and their summed durations in milliseconds.
#[derive(Clone, Copy, PartialEq, Debug)]
#[verifier::ext_equal]
pub struct SecondBucket {
    pub second: u64,
    pub count: u64,
    pub total_duration_ms: u64,
}

/// Second-aligned bucket key of a millisecond timestamp.
pub open spec fn bucket_second(timestamp_ms: u64) -> u64 {
    timestamp_ms / 1000
}

/// Increment that sticks at the largest representable value instead of
/// wrapping.
pub open spec fn saturating_inc(c: u64) -> u64 {
    if c == u64::MAX {
        c
    } else {
        (c + 1) as u64
    }
}

/// Addition that sticks at the largest representable value instead of
/// wrapping.
pub open spec fn saturating_add(a: u64, b: u64) -> u64 {
    if a + b > u64::MAX {
        u64::MAX
    } else {
        (a + b) as u64
    }
}

/// One completion folded into the bucket ring of capacity `cap`: merged into
/// the newest bucket when its second is not newer, appended as a new bucket
/// otherwise, evicting the oldest bucket when the ring is full.
pub open spec fn histogram_step(
    buckets: Seq<SecondBucket>,
    timestamp_ms: u64,
    duration_ms: u64,
    cap: nat,
) -> Seq<SecondBucket> {
    let key = bucket_second(timestamp_ms);
    if buckets.len() > 0 && key <= buckets.last().second {
        buckets.update(
            buckets.len() - 1,
            (SecondBucket {
                second: buckets.last().second,
                count: saturating_inc(buckets.last().count),
                total_duration_ms: saturating_add(buckets.last().total_duration_ms, duration_ms),
            }),
        )
    } else if buckets.len() < cap {
        buckets.push(SecondBucket { second: key, count: 1, total_duration_ms: duration_ms })
    } else {
        buckets.drop_first().push(
            SecondBucket { second: key, count: 1, total_duration_ms: duration_ms },
        )
    }
}

/// Sum of the command counts over all retained buckets.
pub open spec fn total_count(buckets: Seq<SecondBucket>) -> int
    decreases buckets.len(),
{
    if buckets.len() == 0 {
        0
    } else {
        total_count(buckets.drop_last()) + buckets.last().count
    }
}

/// Bucket ring after the (timestamp, duration) completions in `events` have
/// been folded in, in order, starting from an empty ring.
pub open spec fn apply_completions(events: Seq<(u64, u64)>, cap: nat) -> Seq<SecondBucket>
    decreases events.len(),
{
    if events.len() == 0 {
        Seq::empty()
    } else {
        histogram_step(
            apply_completions(events.drop_last(), cap),
            events.last().0,
            events.last().1,
            cap,
        )
    }
}

/// The statistics view handed to the presentation layer for one bucket: its
/// second, its command count, and the mean command duration in milliseconds
/// over that second.
pub open spec fn bucket_statistic(b: SecondBucket) -> (u64, u64, u64) {
    (b.second, b.count, (((b.total_duration_ms as int) / (b.count as int)) as u64))
}

/// The most recent `count` buckets (all of them when fewer exist), oldest
/// first, each rendered as its statistics triple.
pub open spec fn statistics_snapshot(buckets: Seq<SecondBucket>, count: int) -> Seq<
    (u64, u64, u64),
> {
    let take = if count <= buckets.len() {
        count
    } else {
        buckets.len() as int
    };
    buckets.subrange(buckets.len() - take, buckets.len() as int).map_values(
        |b: SecondBucket| bucket_statistic(b),
    )
}

proof fn lemma_total_count_update_last(buckets: Seq<SecondBucket>, b: SecondBucket)
    requires
        buckets.len() > 0,
    ensures
        total_count(buckets.update(buckets.len() - 1, b)) == total_count(buckets)
            - buckets.last().count + b.count,
{
    let u = buckets.update(buckets.len() - 1, b);
    assert(u.drop_last() =~= buckets.drop_last());
    assert(u.last() == b);
}

proof fn lemma_total_count_push(buckets: Seq<SecondBucket>, b: SecondBucket)
    ensures
        total_count(buckets.push(b)) == total_count(buckets) + b.count,
{
    assert(buckets.push(b).drop_last() =~= buckets);
    assert(buckets.push(b).last() == b);
}

#[verifier::rlimit(100)]
proof fn lemma_apply_completions_shape(events: Seq<(u64, u64)>, cap: nat)
    requires
        cap >= 1,
        events.len() <= u64::MAX,
        forall|i: int, j: int|
            0 <= i <= j < events.len() ==> bucket_second((#[trigger] events[i]).0)
                <= bucket_second((#[trigger] events[j]).0),
        events.len() > 0 ==> bucket_second(events.last().0) < bucket_second(events[0].0) + cap,
    ensures
        total_count(apply_completions(events, cap)) == events.len(),
        apply_completions(events, cap).len() == 0 <==> events.len() == 0,
        events.len() > 0 ==> apply_completions(events, cap)[0].second == bucket_second(
            events[0].0,
        ),
        events.len() > 0 ==> apply_completions(events, cap).last().second == bucket_second(
            events.last().0,
        ),
        forall|i: int|
            0 <= i < apply_completions(events, cap).len() ==> (#[trigger] apply_completions(
                events,
                cap,
            )[i]).second - apply_completions(events, cap)[0].second >= i,
        forall|i: int, j: int|
            0 <= i < j < apply_completions(events, cap).len() ==> (#[trigger] apply_completions(
                events,
                cap,
            )[i]).second < (#[trigger] apply_completions(events, cap)[j]).second,
        forall|i: int|
            0 <= i < apply_completions(events, cap).len() ==> (#[trigger] apply_completions(
                events,
                cap,
            )[i]).count <= total_count(apply_completions(events, cap)),
    decreases events.len(),
{
    if events.len() == 0 {
    } else {
        let prefix = events.drop_last();
        assert(forall|i: int| 0 <= i < prefix.len() ==> #[trigger] prefix[i] == events[i]);
        if prefix.len() > 0 {
            assert(bucket_second(prefix.last().0) <= bucket_second(events.last().0));
        }
        lemma_apply_completions_shape(prefix, cap);
        let hp = apply_completions(prefix, cap);
        let ev = events.last();
        let key = bucket_second(ev.0);
        let h = apply_completions(events, cap);
        assert(h == histogram_step(hp, ev.0, ev.1, cap));
        if prefix.len() == 0 {
            assert(hp.len() == 0);
            let fresh = SecondBucket { second: key, count: 1, total_duration_ms: ev.1 };
            assert(h == hp.push(fresh));
            lemma_total_count_push(hp, fresh);
        } else {
            assert(hp.len() > 0);
            assert(hp.last().second == bucket_second(prefix.last().0));
            assert(hp.last().second <= key);
            if key <= hp.last().second {
                let merged = SecondBucket {
                    second: hp.last().second,
                    count: saturating_inc(hp.last().count),
                    total_duration_ms: saturating_add(hp.last().total_duration_ms, ev.1),
                };
                assert(h == hp.update(hp.len() - 1, merged));
                assert(hp.last().count <= total_count(hp));
                assert(total_count(hp) == prefix.len());
                assert(hp.last().count < u64::MAX);
                assert(merged.count == hp.last().count + 1);
                lemma_total_count_update_last(hp, merged);
                assert(total_count(h) == events.len());
                assert(forall|i: int|
                    0 <= i < h.len() ==> (#[trigger] h[i]).second == hp[i].second);
                assert(forall|i: int|
                    0 <= i < h.len() - 1 ==> (#[trigger] h[i]).count == hp[i].count);
            } else {
                assert(hp.last().second - hp[0].second >= hp.len() - 1);
                assert(hp[0].second == bucket_second(events[0].0));
                assert(key == bucket_second(events.last().0));
                assert(key < hp[0].second + cap);
                assert(hp.last().second <= key - 1);
                assert(hp.len() - 1 <= hp.last().second - hp[0].second);
                assert(hp.len() < cap);
                let fresh = SecondBucket { second: key, count: 1, total_duration_ms: ev.1 };
                assert(h == hp.push(fresh));
                lemma_total_count_push(hp, fresh);
                assert(forall|i: int|
                    0 <= i < hp.len() ==> (#[trigger] h[i]) == hp[i]);
                assert(h[h.len() - 1] == fresh);
                assert(forall|i: int|
                    0 <= i < hp.len() ==> (#[trigger] hp[i]).second <= hp.last().second);
                assert(fresh.second - h[0].second >= h.len() - 1);
            }
        }
    }
}

/// Law: as long as completions arrive with non-decreasing bucket seconds and
/// span fewer distinct seconds than the ring holds, no bucket is evicted and
/// the histogram's total count equals exactly the number of completions
/// recorded — no update is lost.
pub proof fn lemma_histogram_counts_every_completion(events: Seq<(u64, u64)>, cap: nat)
    requires
        cap >= 1,
        events.len() <= u64::MAX,
        forall|i: int, j: int|
            0 <= i <= j < events.len() ==> bucket_second((#[trigger] events[i]).0)
                <= bucket_second((#[trigger] events[j]).0),
        events.len() > 0 ==> bucket_second(events.last().0) < bucket_second(events[0].0) + cap,
    ensures
        total_count(apply_completions(events, cap)) == events.len(),
{
    lemma_apply_completions_shape(events, cap);
}

/// Bounded ring of per-second buckets, oldest first. Viewed as the sequence
/// of retained buckets.
pub struct ThroughputHistogram {
    capacity: usize,
    buckets: Vec<SecondBucket>,
}

impl View for ThroughputHistogram {
    type V = Seq<SecondBucket>;

    closed spec fn view(&self) -> Seq<SecondBucket> {
        self.buckets@
    }
}

impl ThroughputHistogram {
    /// Number of buckets the ring retains.
    pub closed spec fn capacity_spec(&self) -> nat {
        self.capacity as nat
    }

    /// Positive capacity, never more buckets than capacity, strictly
    /// increasing bucket seconds, and no empty bucket.
    #[verifier::type_invariant]
    spec fn wf(&self) -> bool {
        &&& self.capacity >= 1
        &&& self.buckets@.len() <= self.capacity
        &&& forall|i: int, j: int|
            0 <= i < j < self.buckets@.len() ==> (#[trigger] self.buckets@[i]).second < (
            #[trigger] self.buckets@[j]).second
        &&& forall|i: int| 0 <= i < self.buckets@.len() ==> (#[trigger] self.buckets@[i]).count >= 1
    }

    /// A fresh histogram with the given ring capacity holds no buckets.
    pub fn new(capacity: usize) -> (r: Self)
        requires
            capacity >= 1,
        ensures
            r@ == Seq::<SecondBucket>::empty(),
            r.capacity_spec() == capacity,
    {
        ThroughputHistogram { capacity, buckets: Vec::new() }
    }

    /// Folds one completion, given by its timestamp and duration in
    /// milliseconds, into the bucket ring.
    pub fn record_completion(&mut self, timestamp_ms: u64, duration_ms: u64)
        ensures
            final(self).capacity_spec() == old(self).capacity_spec(),
            final(self)@ == histogram_step(
                old(self)@,
                timestamp_ms,
                duration_ms,
                old(self).capacity_spec(),
            ),
            final(self)@.len() <= old(self).capacity_spec(),
    {
        proof {
            use_type_invariant(&*self);
        }
        let ghost pre = self@;
        let key = timestamp_ms / 1000;
        let mut buckets: Vec<SecondBucket> = Vec::new();
        std::mem::swap(&mut buckets, &mut self.buckets);
        let n = buckets.len();
        if n > 0 && key <= buckets[n - 1].second {
            let b = buckets[n - 1];
            let new_count = if b.count == u64::MAX {
                b.count
            } else {
                b.count + 1
            };
            let new_total = if duration_ms > u64::MAX - b.total_duration_ms {
                u64::MAX
            } else {
                b.total_duration_ms + duration_ms
            };
            buckets.set(
                n - 1,
                SecondBucket { second: b.second, count: new_count, total_duration_ms: new_total },
            );
        } else {
            if buckets.len() >= self.capacity {
                buckets.remove(0);
                proof {
                    assert(pre.remove(0) =~= pre.drop_first());
                }
            }
            buckets.push(SecondBucket { second: key, count: 1, total_duration_ms: duration_ms });
        }
        self.buckets = buckets;
        proof {
            assert(self@ == histogram_step(pre, timestamp_ms, duration_ms, self.capacity as nat));
        }
    }

    /// The most recent `count` buckets (all of them when fewer exist) in
    /// chronological order, oldest first, as (second, command count, mean
    /// duration in milliseconds) triples.
    pub fn get_commands_statistics_per_sec(&self, count: usize) -> (r: Vec<(u64, u64, u64)>)
        ensures
            r@ == statistics_snapshot(self@, count as int),
            forall|i: int, j: int| 0 <= i < j < r@.len() ==> (#[trigger] r@[i]).0 < (
            #[trigger] r@[j]).0,
    {
        proof {
            use_type_invariant(self);
        }
        let len = self.buckets.len();
        let take = if count <= len {
            count
        } else {
            len
        };
        let start = len - take;
        let mut r: Vec<(u64, u64, u64)> = Vec::new();
        let mut i: usize = start;
        while i < len
            invariant
                start <= i <= len,
                len == self.buckets@.len(),
                forall|k: int| 0 <= k < len ==> (#[trigger] self.buckets@[k]).count >= 1,
                r@.len() == i - start,
                forall|k: int|
                    0 <= k < r@.len() ==> r@[k] == bucket_statistic(self.buckets@[start + k]),
            decreases len - i,
        {
            let b = self.buckets[i];
            r.push((b.second, b.count, b.total_duration_ms / b.count));
            i = i + 1;
        }
        proof {
            assert(r@ =~= statistics_snapshot(self@, count as int));
        }
        r
    }
}

/// Law: a statistics snapshot is a function of the histogram state alone, so
/// two snapshots taken with no intervening writes are identical.
pub proof fn lemma_statistics_snapshot_idempotent(
    histogram: &ThroughputHistogram,
    count: int,
    first: Seq<(u64, u64, u64)>,
    second: Seq<(u64, u64, u64)>,
)
    requires
        first == statistics_snapshot(histogram@, count),
        second == statistics_snapshot(histogram@, count),
    ensures
        first == second,
{
}

} // verus!
