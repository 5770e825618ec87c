//! Heartbeat aggregator: a bounded, time-ordered history of heartbeat
//! latencies per monitored connection.
//!
//! Each connection keeps a ring of the most recent samples: appending to a
//! full ring evicts the oldest sample, and retained samples are never
//! reordered.

use vstd::prelude::*;

verus! {

/// Latency metric reported for a connection whose retained samples are all
/// failures: no successful heartbeat latency is known.
pub const HEARTBEAT_FAILURE_SENTINEL: u64 = u64::MAX;

/// One heartbeat observation: the measured latency in milliseconds, or
/// `None` when the heartbeat failed, and the wall-clock timestamp in
/// milliseconds at which it was observed.
#[derive(Clone, Copy, PartialEq, Debug)]
#[verifier::ext_equal]
pub struct HeartbeatSample {
    pub latency_ms: Option<u64>,
    pub timestamp_ms: u64,
}

/// Appending one sample to a ring of capacity `cap`: the sample goes at the
/// end, and the oldest sample is evicted first when the ring is full.
pub open spec fn push_bounded(
    history: Seq<HeartbeatSample>,
    sample: HeartbeatSample,
    cap: nat,
) -> Seq<HeartbeatSample> {
    if history.len() < cap {
        history.push(sample)
    } else {
        history.drop_first().push(sample)
    }
}

/// History retained by a ring of capacity `cap` after the samples in
/// `arrivals` have been appended, in order, starting from an empty ring.
pub open spec fn retained_history(arrivals: Seq<HeartbeatSample>, cap: nat) -> Seq<HeartbeatSample>
    decreases arrivals.len(),
{
    if arrivals.len() == 0 {
        Seq::empty()
    } else {
        push_bounded(retained_history(arrivals.drop_last(), cap), arrivals.last(), cap)
    }
}

/// Law: for any arrival sequence, a ring of capacity `cap` retains exactly
/// the most recent `cap` samples, in arrival order; shorter sequences are
/// retained whole.
pub proof fn lemma_ring_retains_most_recent(arrivals: Seq<HeartbeatSample>, cap: nat)
    requires
        cap >= 1,
    ensures
        arrivals.len() <= cap ==> retained_history(arrivals, cap) == arrivals,
        arrivals.len() > cap ==> retained_history(arrivals, cap) == arrivals.subrange(
            arrivals.len() - cap,
            arrivals.len() as int,
        ),
    decreases arrivals.len(),
{
    if arrivals.len() == 0 {
        assert(arrivals =~= Seq::<HeartbeatSample>::empty());
    } else {
        let prefix = arrivals.drop_last();
        lemma_ring_retains_most_recent(prefix, cap);
        if arrivals.len() <= cap {
            assert(retained_history(prefix, cap) == prefix);
            assert(prefix.push(arrivals.last()) =~= arrivals);
        } else if arrivals.len() == cap + 1 {
            assert(retained_history(prefix, cap) == prefix);
            assert(prefix.drop_first().push(arrivals.last()) =~= arrivals.subrange(
                arrivals.len() - cap,
                arrivals.len() as int,
            ));
        } else {
            let kept = prefix.subrange(prefix.len() - cap, prefix.len() as int);
            assert(retained_history(prefix, cap) == kept);
            assert(kept.len() == cap);
            assert(kept.drop_first().push(arrivals.last()) =~= arrivals.subrange(
                arrivals.len() - cap,
                arrivals.len() as int,
            ));
        }
    }
}

/// Latency metric of one connection: the latency of the most recent
/// successful sample, or the failure sentinel when every retained sample
/// failed (or none exists).
pub open spec fn latest_latency_metric(history: Seq<HeartbeatSample>) -> u64
    decreases history.len(),
{
    if history.len() == 0 {
        HEARTBEAT_FAILURE_SENTINEL
    } else {
        match history.last().latency_ms {
            Some(latency) => latency,
            None => latest_latency_metric(history.drop_last()),
        }
    }
}

proof fn lemma_latest_metric_push(history: Seq<HeartbeatSample>, sample: HeartbeatSample)
    ensures
        latest_latency_metric(history.push(sample)) == match sample.latency_ms {
            Some(latency) => latency,
            None => latest_latency_metric(history),
        },
{
    assert(history.push(sample).drop_last() =~= history);
}

/// The heartbeat view handed to the presentation layer: one pair per tracked
/// connection, in first-seen order, carrying that connection's latency
/// metric.
pub open spec fn heartbeat_snapshot(v: Seq<(usize, Seq<HeartbeatSample>)>) -> Seq<(usize, u64)> {
    v.map_values(|entry: (usize, Seq<HeartbeatSample>)| (entry.0, latest_latency_metric(entry.1)))
}

/// Effect of appending one sample for `connection_id` to a per-connection
/// ring view of capacity `cap`: a first sample appends a new entry, a later
/// one extends that connection's ring, evicting its oldest sample at
/// capacity; other connections are untouched.
pub open spec fn heartbeat_effect(
    old_view: Seq<(usize, Seq<HeartbeatSample>)>,
    new_view: Seq<(usize, Seq<HeartbeatSample>)>,
    cap: nat,
    connection_id: usize,
    sample: HeartbeatSample,
) -> bool {
    &&& ((forall|j: int| 0 <= j < old_view.len() ==> (#[trigger] old_view[j]).0 != connection_id)
        ==> new_view == old_view.push((connection_id, seq![sample])))
    &&& (forall|i: int|
        0 <= i < old_view.len() && (#[trigger] old_view[i]).0 == connection_id ==> new_view
            == old_view.update(i, (connection_id, push_bounded(old_view[i].1, sample, cap))))
}

struct ConnectionHistory {
    key: usize,
    samples: Vec<HeartbeatSample>,
}

/// Maintains, per monitored connection, a ring of the most recent heartbeat
/// samples. Viewed as a sequence of (connection key, retained history)
/// pairs in first-seen order, with one entry per connection.
pub struct HeartbeatAggregator {
    capacity: usize,
    connections: Vec<ConnectionHistory>,
}

impl View for HeartbeatAggregator {
    type V = Seq<(usize, Seq<HeartbeatSample>)>;

    closed spec fn view(&self) -> Seq<(usize, Seq<HeartbeatSample>)> {
        self.connections@.map_values(|c: ConnectionHistory| (c.key, c.samples@))
    }
}

impl HeartbeatAggregator {
    /// Ring capacity the aggregator was created with.
    pub closed spec fn capacity_spec(&self) -> nat {
        self.capacity as nat
    }

    /// Positive capacity, one entry per connection key, and every retained
    /// history nonempty and within capacity.
    #[verifier::type_invariant]
    spec fn wf(&self) -> bool {
        &&& self.capacity >= 1
        &&& forall|i: int, j: int|
            0 <= i < j < self.connections@.len() ==> (#[trigger] self.connections@[i]).key != (
            #[trigger] self.connections@[j]).key
        &&& forall|i: int|
            0 <= i < self.connections@.len() ==> 1 <= (
            #[trigger] self.connections@[i]).samples@.len() <= self.capacity
    }

    /// A fresh aggregator with the given ring capacity tracks nothing.
    pub fn new(capacity: usize) -> (r: Self)
        requires
            capacity >= 1,
        ensures
            r@ == Seq::<(usize, Seq<HeartbeatSample>)>::empty(),
            r.capacity_spec() == capacity,
    {
        let r = HeartbeatAggregator { capacity, connections: Vec::new() };
        proof {
            assert(r@ =~= Seq::<(usize, Seq<HeartbeatSample>)>::empty());
        }
        r
    }

    fn find_connection(&self, connection_id: usize) -> (r: Option<usize>)
        ensures
            match r {
                Some(i) => 0 <= i < self@.len() && self@[i as int].0 == connection_id,
                None => forall|j: int| 0 <= j < self@.len() ==> self@[j].0 != connection_id,
            },
    {
        let mut i: usize = 0;
        while i < self.connections.len()
            invariant
                i <= self.connections@.len(),
                self@.len() == self.connections@.len(),
                forall|j: int| 0 <= j < self@.len() ==> self@[j].0 == self.connections@[j].key,
                forall|j: int| 0 <= j < i ==> self@[j].0 != connection_id,
            decreases self.connections@.len() - i,
        {
            if self.connections[i].key == connection_id {
                return Some(i);
            }
            i = i + 1;
        }
        None
    }

    /// Appends the sample to the connection's ring, evicting the oldest
    /// sample if the ring is at capacity; a first sample creates the
    /// connection's entry at the end of the view.
    pub fn record_heartbeat(&mut self, connection_id: usize, sample: HeartbeatSample)
        ensures
            final(self).capacity_spec() == old(self).capacity_spec(),
            heartbeat_effect(
                old(self)@,
                final(self)@,
                old(self).capacity_spec(),
                connection_id,
                sample,
            ),
            forall|i: int|
                0 <= i < final(self)@.len() ==> 1 <= (#[trigger] final(self)@[i]).1.len() <= old(
                    self,
                ).capacity_spec(),
    {
        proof {
            use_type_invariant(&*self);
        }
        let ghost pre = self@;
        let found = self.find_connection(connection_id);
        let mut conns: Vec<ConnectionHistory> = Vec::new();
        std::mem::swap(&mut conns, &mut self.connections);
        match found {
            Some(i) => {
                let mut history = conns.remove(i);
                let ghost old_samples = history.samples@;
                if history.samples.len() >= self.capacity {
                    history.samples.remove(0);
                    proof {
                        assert(old_samples.remove(0) =~= old_samples.drop_first());
                    }
                }
                history.samples.push(sample);
                proof {
                    assert(history.samples@ == push_bounded(
                        old_samples,
                        sample,
                        self.capacity as nat,
                    ));
                }
                conns.insert(i, history);
                self.connections = conns;
                proof {
                    assert(self@ =~= pre.update(
                        i as int,
                        (connection_id, push_bounded(pre[i as int].1, sample, self.capacity as nat)),
                    ));
                    assert(forall|k: int|
                        0 <= k < pre.len() && (#[trigger] pre[k]).0 == connection_id ==> k
                            == i as int);
                }
            },
            None => {
                let mut samples: Vec<HeartbeatSample> = Vec::new();
                samples.push(sample);
                conns.push(ConnectionHistory { key: connection_id, samples });
                proof {
                    assert(samples@ =~= seq![sample]);
                    assert(forall|j: int|
                        0 <= j < pre.len() ==> (#[trigger] conns@[j]).key == pre[j].0);
                    assert(forall|j: int|
                        0 <= j < pre.len() ==> (#[trigger] conns@[j]).key != connection_id);
                }
                self.connections = conns;
                proof {
                    assert(self@ =~= pre.push((connection_id, seq![sample])));
                }
            },
        }
    }

    /// Point-in-time heartbeat view: one (connection key, latency metric)
    /// pair per tracked connection, in first-seen order.
    pub fn get_connection_heartbeat(&self) -> (r: Vec<(usize, u64)>)
        ensures
            r@ == heartbeat_snapshot(self@),
    {
        let mut r: Vec<(usize, u64)> = Vec::new();
        let mut i: usize = 0;
        while i < self.connections.len()
            invariant
                i <= self.connections@.len(),
                self@.len() == self.connections@.len(),
                forall|j: int|
                    0 <= j < self@.len() ==> self@[j] == (
                        self.connections@[j].key,
                        self.connections@[j].samples@,
                    ),
                r@.len() == i,
                forall|j: int|
                    0 <= j < i ==> r@[j] == (self@[j].0, latest_latency_metric(self@[j].1)),
            decreases self.connections@.len() - i,
        {
            let metric = latest_metric_of(&self.connections[i].samples);
            let key = self.connections[i].key;
            r.push((key, metric));
            i = i + 1;
        }
        proof {
            assert(r@ =~= heartbeat_snapshot(self@));
        }
        r
    }
}

fn latest_metric_of(samples: &Vec<HeartbeatSample>) -> (r: u64)
    ensures
        r == latest_latency_metric(samples@),
{
    let mut metric: u64 = HEARTBEAT_FAILURE_SENTINEL;
    let mut j: usize = 0;
    while j < samples.len()
        invariant
            j <= samples@.len(),
            metric == latest_latency_metric(samples@.subrange(0, j as int)),
        decreases samples@.len() - j,
    {
        proof {
            assert(samples@.subrange(0, (j + 1) as int) =~= samples@.subrange(0, j as int).push(
                samples@[j as int],
            ));
            lemma_latest_metric_push(samples@.subrange(0, j as int), samples@[j as int]);
        }
        match samples[j].latency_ms {
            Some(latency) => {
                metric = latency;
            },
            None => {},
        }
        j = j + 1;
    }
    proof {
        assert(samples@.subrange(0, samples@.len() as int) =~= samples@);
    }
    metric
}

/// Law: a heartbeat snapshot is a function of the aggregator state alone, so
/// two snapshots taken with no intervening writes are identical.
pub proof fn lemma_heartbeat_snapshot_idempotent(
    aggregator: &HeartbeatAggregator,
    first: Seq<(usize, u64)>,
    second: Seq<(usize, u64)>,
)
    requires
        first == heartbeat_snapshot(aggregator@),
        second == heartbeat_snapshot(aggregator@),
    ensures
        first == second,
{
}

} // verus!
