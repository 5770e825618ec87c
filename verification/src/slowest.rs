//! Bounded top-K ranking of the slowest completed commands.
//!
//! Entries are ordered by duration, longest first; equal durations keep the
//! earlier timestamp first. Once the structure is full, a new command enters
//! only by displacing the current minimum, and on equal durations the
//! incumbent is retained.

use crate::command::FinishedCommandInfo;
use vstd::prelude::*;

verus! {

/// `a` is ranked at least as high as `b`: a strictly longer duration, or an
/// equal duration with a timestamp no later.
pub open spec fn ranked_before(a: FinishedCommandInfo, b: FinishedCommandInfo) -> bool {
    a.duration_ms > b.duration_ms || (a.duration_ms == b.duration_ms && a.timestamp_ms
        <= b.timestamp_ms)
}

/// The candidate goes in front of the incumbent: a strictly longer duration,
/// or an equal duration with a strictly earlier timestamp.
pub open spec fn displaces(candidate: FinishedCommandInfo, incumbent: FinishedCommandInfo) -> bool {
    incumbent.duration_ms < candidate.duration_ms || (incumbent.duration_ms
        == candidate.duration_ms && incumbent.timestamp_ms > candidate.timestamp_ms)
}

/// Descending ranking order: every earlier entry is ranked at least as high
/// as every later one.
pub open spec fn ranking_order(s: Seq<FinishedCommandInfo>) -> bool {
    forall|i: int, j: int| 0 <= i < j < s.len() ==> ranked_before(s[i], s[j])
}

/// Index at which a candidate enters a ranked sequence: before the first
/// entry it displaces, after every entry it does not.
pub open spec fn insertion_position(
    entries: Seq<FinishedCommandInfo>,
    candidate: FinishedCommandInfo,
) -> int
    decreases entries.len(),
{
    if entries.len() == 0 {
        0
    } else if displaces(candidate, entries[0]) {
        0
    } else {
        1 + insertion_position(entries.drop_first(), candidate)
    }
}

proof fn lemma_insertion_position_found(
    entries: Seq<FinishedCommandInfo>,
    candidate: FinishedCommandInfo,
    i: int,
)
    requires
        0 <= i <= entries.len(),
        forall|j: int| 0 <= j < i ==> !displaces(candidate, #[trigger] entries[j]),
        i < entries.len() ==> displaces(candidate, entries[i]),
    ensures
        insertion_position(entries, candidate) == i,
    decreases i,
{
    if entries.len() == 0 {
    } else if i == 0 {
    } else {
        assert(!displaces(candidate, entries[0]));
        lemma_insertion_position_found(entries.drop_first(), candidate, i - 1);
    }
}

/// One insertion into the ranking with capacity `cap`: below capacity the
/// candidate enters at its rank; at capacity it enters only with a duration
/// strictly above the current minimum, which is evicted; otherwise the
/// ranking is unchanged.
pub open spec fn topk_step(
    entries: Seq<FinishedCommandInfo>,
    candidate: FinishedCommandInfo,
    cap: nat,
) -> Seq<FinishedCommandInfo> {
    if entries.len() < cap {
        entries.insert(insertion_position(entries, candidate), candidate)
    } else if candidate.duration_ms > entries.last().duration_ms {
        let kept = entries.drop_last();
        kept.insert(insertion_position(kept, candidate), candidate)
    } else {
        entries
    }
}

/// The ranking view handed to the presentation layer: the first `count`
/// entries, or all of them when fewer exist.
pub open spec fn slowest_snapshot(entries: Seq<FinishedCommandInfo>, count: int) -> Seq<
    FinishedCommandInfo,
> {
    if count <= entries.len() {
        entries.subrange(0, count)
    } else {
        entries
    }
}

/// Bounded ranking of the slowest completed commands ever observed, longest
/// duration first. Viewed as the ranked sequence of retained entries.
pub struct SlowestCommands {
    capacity: usize,
    entries: Vec<FinishedCommandInfo>,
}

impl View for SlowestCommands {
    type V = Seq<FinishedCommandInfo>;

    closed spec fn view(&self) -> Seq<FinishedCommandInfo> {
        self.entries@
    }
}

impl SlowestCommands {
    /// Number of entries the ranking retains.
    pub closed spec fn capacity_spec(&self) -> nat {
        self.capacity as nat
    }

    /// Positive capacity, never more entries than capacity, and the entries
    /// in descending ranking order.
    #[verifier::type_invariant]
    spec fn wf(&self) -> bool {
        &&& self.capacity >= 1
        &&& self.entries@.len() <= self.capacity
        &&& ranking_order(self.entries@)
    }

    /// A fresh ranking with the given capacity holds nothing.
    pub fn new(capacity: usize) -> (r: Self)
        requires
            capacity >= 1,
        ensures
            r@ == Seq::<FinishedCommandInfo>::empty(),
            r.capacity_spec() == capacity,
    {
        SlowestCommands { capacity, entries: Vec::new() }
    }

    /// Inserts one completed command into the ranking.
    pub fn record_command(&mut self, command: FinishedCommandInfo)
        ensures
            final(self).capacity_spec() == old(self).capacity_spec(),
            final(self)@ == topk_step(old(self)@, command, old(self).capacity_spec()),
            ranking_order(final(self)@),
            final(self)@.len() <= old(self).capacity_spec(),
    {
        proof {
            use_type_invariant(&*self);
        }
        let ghost pre = self@;
        let mut entries: Vec<FinishedCommandInfo> = Vec::new();
        std::mem::swap(&mut entries, &mut self.entries);
        if entries.len() < self.capacity {
            let pos = position_for(&entries, &command);
            proof {
                lemma_ranked_insert(pre, command);
            }
            entries.insert(pos, command);
        } else if command.duration_ms > entries[entries.len() - 1].duration_ms {
            let _evicted = entries.pop();
            proof {
                assert(entries@ =~= pre.drop_last());
            }
            let ghost kept = entries@;
            let pos = position_for(&entries, &command);
            proof {
                lemma_ranked_insert(kept, command);
            }
            entries.insert(pos, command);
        }
        self.entries = entries;
    }

    /// Up to `count` slowest commands, longest duration first; equal
    /// durations come earlier timestamp first.
    pub fn get_n_slowest_commands(&self, count: usize) -> (r: Vec<FinishedCommandInfo>)
        ensures
            r@ == slowest_snapshot(self@, count as int),
            ranking_order(r@),
    {
        proof {
            use_type_invariant(self);
        }
        let take = if count <= self.entries.len() {
            count
        } else {
            self.entries.len()
        };
        let mut r: Vec<FinishedCommandInfo> = Vec::new();
        let mut i: usize = 0;
        while i < take
            invariant
                take <= self.entries@.len(),
                i <= take,
                r@ == self.entries@.subrange(0, i as int),
            decreases take - i,
        {
            r.push(self.entries[i].duplicate());
            proof {
                assert(self.entries@.subrange(0, (i + 1) as int) =~= self.entries@.subrange(
                    0,
                    i as int,
                ).push(self.entries@[i as int]));
            }
            i = i + 1;
        }
        proof {
            assert(r@ =~= slowest_snapshot(self@, count as int));
        }
        r
    }
}

fn position_for(entries: &Vec<FinishedCommandInfo>, candidate: &FinishedCommandInfo) -> (r: usize)
    ensures
        r <= entries@.len(),
        r == insertion_position(entries@, *candidate),
{
    let mut i: usize = 0;
    while i < entries.len()
        invariant
            i <= entries@.len(),
            forall|j: int| 0 <= j < i ==> !displaces(*candidate, #[trigger] entries@[j]),
        decreases entries@.len() - i,
    {
        let e = &entries[i];
        if candidate.duration_ms > e.duration_ms || (candidate.duration_ms == e.duration_ms
            && e.timestamp_ms > candidate.timestamp_ms) {
            proof {
                lemma_insertion_position_found(entries@, *candidate, i as int);
            }
            return i;
        }
        i = i + 1;
    }
    proof {
        lemma_insertion_position_found(entries@, *candidate, entries@.len() as int);
    }
    entries.len()
}

#[verifier::rlimit(50)]
proof fn lemma_ranked_insert(entries: Seq<FinishedCommandInfo>, candidate: FinishedCommandInfo)
    requires
        ranking_order(entries),
    ensures
        ranking_order(
            entries.insert(insertion_position(entries, candidate), candidate),
        ),
{
    let pos = insertion_position(entries, candidate);
    lemma_insertion_position_splits(entries, candidate);
    entries.insert_ensures(pos, candidate);
    let inserted = entries.insert(pos, candidate);
    assert forall|i: int, j: int| 0 <= i < j < inserted.len() implies ranked_before(
        inserted[i],
        inserted[j],
    ) by {
        if i < pos {
            assert(inserted[i] == entries[i]);
        }
        if j < pos {
            assert(inserted[j] == entries[j]);
        }
        if i > pos {
            assert(inserted[i] == entries[i - 1]);
        }
        if j > pos {
            assert(inserted[j] == entries[j - 1]);
        }
        if i < pos && j == pos {
            assert(!displaces(candidate, entries[i]));
        } else if i == pos && j > pos {
            assert(displaces(candidate, entries[pos]));
            if j - 1 > pos {
                assert(ranked_before(entries[pos], entries[j - 1]));
            }
        } else if i < pos && j > pos {
            if i < j - 1 {
                assert(ranked_before(entries[i], entries[j - 1]));
            } else {
                assert(inserted[i] == inserted[j]);
            }
        }
    }
}

proof fn lemma_insertion_position_splits(
    entries: Seq<FinishedCommandInfo>,
    candidate: FinishedCommandInfo,
)
    ensures
        0 <= insertion_position(entries, candidate) <= entries.len(),
        forall|j: int|
            0 <= j < insertion_position(entries, candidate) ==> !displaces(
                candidate,
                #[trigger] entries[j],
            ),
        insertion_position(entries, candidate) < entries.len() ==> displaces(
            candidate,
            entries[insertion_position(entries, candidate)],
        ),
    decreases entries.len(),
{
    if entries.len() == 0 {
    } else if displaces(candidate, entries[0]) {
    } else {
        lemma_insertion_position_splits(entries.drop_first(), candidate);
        let pos = insertion_position(entries, candidate);
        assert(pos == 1 + insertion_position(entries.drop_first(), candidate));
        assert forall|j: int| 0 <= j < pos implies !displaces(candidate, #[trigger] entries[j]) by {
            if j > 0 {
                assert(entries.drop_first()[j - 1] == entries[j]);
                assert(!displaces(candidate, entries.drop_first()[j - 1]));
            }
        }
        if pos < entries.len() {
            assert(entries.drop_first()[pos - 1] == entries[pos]);
        }
    }
}

/// Law: a slowest-commands snapshot is a function of the ranking state
/// alone, so two snapshots taken with no intervening writes are identical.
pub proof fn lemma_slowest_snapshot_idempotent(
    ranking: &SlowestCommands,
    count: int,
    first: Seq<FinishedCommandInfo>,
    second: Seq<FinishedCommandInfo>,
)
    requires
        first == slowest_snapshot(ranking@, count),
        second == slowest_snapshot(ranking@, count),
    ensures
        first == second,
{
}

} // verus!
