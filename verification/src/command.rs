//! Command correlation: matching a command-started event with its later
//! completion event through the shared request identifier.
//!
//! A started record waits in a pending table keyed by request identifier; a
//! completion with no matching pending record is discarded silently, so a
//! broken correlation can never fail the observation pipeline.

use std::collections::HashMap;
use vstd::prelude::*;

verus! {

broadcast use vstd::std_specs::hash::group_hash_axioms;

/// Derived, immutable record of one completed command: name, elapsed
/// duration, the timestamp at which the command started (both in
/// milliseconds), and whether it succeeded.
#[derive(Clone, PartialEq, Debug)]
#[verifier::ext_equal]
pub struct FinishedCommandInfo {
    pub name: String,
    pub duration_ms: u64,
    pub timestamp_ms: u64,
    pub success: bool,
}

impl FinishedCommandInfo {
    /// Field-for-field copy, equal to the original.
    pub fn duplicate(&self) -> (r: Self)
        ensures
            r == *self,
    {
        let r = FinishedCommandInfo {
            name: self.name.clone(),
            duration_ms: self.duration_ms,
            timestamp_ms: self.timestamp_ms,
            success: self.success,
        };
        proof {
            assert(r =~= *self);
        }
        r
    }
}

/// A command whose start has been observed and whose completion has not:
/// its name and the timestamp in milliseconds at which it started.
#[derive(Clone, PartialEq, Debug)]
#[verifier::ext_equal]
pub struct PendingCommand {
    pub name: String,
    pub start_timestamp_ms: u64,
}

/// Pending-correlation table: maps the request identifier of every observed
/// but not yet completed command to its pending record.
pub struct CommandCorrelator {
    pending: HashMap<u64, PendingCommand>,
}

impl View for CommandCorrelator {
    type V = Map<u64, PendingCommand>;

    closed spec fn view(&self) -> Map<u64, PendingCommand> {
        self.pending@
    }
}

impl CommandCorrelator {
    /// A fresh correlator has nothing pending.
    pub fn new() -> (r: Self)
        ensures
            r@ == Map::<u64, PendingCommand>::empty(),
    {
        CommandCorrelator { pending: HashMap::new() }
    }

    /// Records a started command under its request identifier; a repeated
    /// identifier replaces the earlier pending record.
    pub fn on_started(&mut self, request_id: u64, name: String, timestamp_ms: u64)
        ensures
            final(self)@ == old(self)@.insert(
                request_id,
                (PendingCommand { name: name, start_timestamp_ms: timestamp_ms }),
            ),
    {
        self.pending.insert(request_id, PendingCommand { name, start_timestamp_ms: timestamp_ms });
    }

    /// Resolves a completion event: removes the matching pending record and
    /// returns the finished-command record built from it, or returns `None`
    /// and leaves the table unchanged when no start was observed for this
    /// request identifier.
    pub fn on_completed(&mut self, request_id: u64, duration_ms: u64, success: bool) -> (r: Option<
        FinishedCommandInfo,
    >)
        ensures
            old(self)@.contains_key(request_id) ==> {
                &&& final(self)@ == old(self)@.remove(request_id)
                &&& r == Some(
                    (FinishedCommandInfo {
                        name: old(self)@[request_id].name,
                        duration_ms: duration_ms,
                        timestamp_ms: old(self)@[request_id].start_timestamp_ms,
                        success: success,
                    }),
                )
            },
            !old(self)@.contains_key(request_id) ==> {
                &&& final(self)@ == old(self)@
                &&& r is None
            },
    {
        match self.pending.remove(&request_id) {
            Some(started) => Some(
                FinishedCommandInfo {
                    name: started.name,
                    duration_ms,
                    timestamp_ms: started.start_timestamp_ms,
                    success,
                },
            ),
            None => None,
        }
    }

    /// Number of commands whose completion is still awaited.
    pub fn pending_len(&self) -> (r: usize)
        ensures
            r == self@.dom().len(),
    {
        self.pending.len()
    }
}

} // verus!
