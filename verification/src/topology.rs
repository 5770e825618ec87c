//! Topology aggregator: the current known set of monitored servers.
//!
//! A topology-changed event carries the full new set of server descriptions
//! and replaces the tracked set wholesale; partial updates are never exposed.

use vstd::prelude::*;

verus! {

/// Discovery state of a monitored server, as reported by server discovery
/// and monitoring.
#[derive(Clone, Copy, PartialEq, Eq, Structural, Debug)]
pub enum ServerState {
    Unknown,
    Standalone,
    Mongos,
    RsPrimary,
    RsSecondary,
    RsArbiter,
    RsOther,
    RsGhost,
}

/// One monitored server endpoint: address, discovery state, and the last
/// known round-trip time in milliseconds (absent until first measured).
#[derive(Clone, PartialEq, Debug)]
#[verifier::ext_equal]
pub struct ServerDescription {
    pub host: String,
    pub port: u16,
    pub state: ServerState,
    pub round_trip_time_ms: Option<u64>,
}

impl ServerDescription {
    /// Field-for-field copy, equal to the original.
    pub fn duplicate(&self) -> (r: Self)
        ensures
            r == *self,
    {
        let r = ServerDescription {
            host: self.host.clone(),
            port: self.port,
            state: self.state,
            round_trip_time_ms: self.round_trip_time_ms,
        };
        proof {
            assert(r =~= *self);
        }
        r
    }
}

/// One topology-changed event: the reported description set replaces the
/// current one wholesale, with no merging.
pub open spec fn topology_step(
    current: Seq<ServerDescription>,
    reported: Seq<ServerDescription>,
) -> Seq<ServerDescription> {
    reported
}

/// Tracked set after a sequence of topology-changed events, starting from
/// `init` and applying the events in order.
pub open spec fn apply_topology_events(
    init: Seq<ServerDescription>,
    events: Seq<Seq<ServerDescription>>,
) -> Seq<ServerDescription>
    decreases events.len(),
{
    if events.len() == 0 {
        init
    } else {
        apply_topology_events(topology_step(init, events[0]), events.drop_first())
    }
}

/// Law: after any nonempty sequence of topology-changed events, the tracked
/// set equals exactly the descriptions of the last event, whatever the
/// initial state and the earlier events were.
pub proof fn lemma_topology_last_event_wins(
    init: Seq<ServerDescription>,
    events: Seq<Seq<ServerDescription>>,
)
    requires
        events.len() > 0,
    ensures
        apply_topology_events(init, events) == events.last(),
    decreases events.len(),
{
    if events.len() == 1 {
        assert(events.drop_first().len() == 0);
        assert(apply_topology_events(events[0], events.drop_first()) == events[0]);
        assert(apply_topology_events(init, events) == events[0]);
    } else {
        lemma_topology_last_event_wins(events[0], events.drop_first());
        assert(apply_topology_events(init, events) == apply_topology_events(
            events[0],
            events.drop_first(),
        ));
        assert(events.drop_first().last() == events.last());
    }
}

/// Maintains the current known set of servers; replaced as a whole on every
/// topology-changed event and copied out on demand.
pub struct TopologyAggregator {
    servers: Vec<ServerDescription>,
}

impl View for TopologyAggregator {
    type V = Seq<ServerDescription>;

    closed spec fn view(&self) -> Seq<ServerDescription> {
        self.servers@
    }
}

impl TopologyAggregator {
    /// A fresh aggregator tracks no servers.
    pub fn new() -> (r: Self)
        ensures
            r@ == Seq::<ServerDescription>::empty(),
    {
        TopologyAggregator { servers: Vec::new() }
    }

    /// Replaces the whole tracked set with the descriptions of the latest
    /// topology-changed event.
    pub fn record_topology(&mut self, new_servers: Vec<ServerDescription>)
        ensures
            final(self)@ == new_servers@,
            final(self)@ == topology_step(old(self)@, new_servers@),
    {
        self.servers = new_servers;
    }

    /// Point-in-time copy of the tracked set, equal to it element for
    /// element; the caller may keep it without holding any lock.
    pub fn get_database_topology(&self) -> (r: Vec<ServerDescription>)
        ensures
            r@ == self@,
    {
        let mut r: Vec<ServerDescription> = Vec::new();
        let mut i: usize = 0;
        while i < self.servers.len()
            invariant
                i <= self.servers@.len(),
                r@ == self.servers@.subrange(0, i as int),
            decreases self.servers@.len() - i,
        {
            r.push(self.servers[i].duplicate());
            proof {
                assert(self.servers@.subrange(0, (i + 1) as int) =~= self.servers@.subrange(
                    0,
                    i as int,
                ).push(self.servers@[i as int]));
            }
            i = i + 1;
        }
        proof {
            assert(self.servers@.subrange(0, self.servers@.len() as int) =~= self.servers@);
        }
        r
    }
}

/// Law: a topology snapshot is a function of the aggregator state alone, so
/// two snapshots taken with no intervening writes are identical.
pub proof fn lemma_topology_snapshot_idempotent(
    aggregator: &TopologyAggregator,
    first: Seq<ServerDescription>,
    second: Seq<ServerDescription>,
)
    requires
        first == aggregator@,
        second == aggregator@,
    ensures
        first == second,
{
}

} // verus!
