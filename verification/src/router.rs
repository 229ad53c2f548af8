//! Tasks for the part of raft that applies logs.

use vstd::prelude::*;

use crate::messages::RegionLocalState;
use crate::raft_entry::Entry;

verus! {

/// Entries that were committed, in their order.
#[derive(Debug)]
pub struct CommittedEntries {
    pub entries: Vec<Entry>,
}

/// A task for the part that applies logs.
#[derive(Debug)]
pub enum ApplyTask {
    CommittedEntries(CommittedEntries),
    CheckCompact {
        region_id: u64,
        voter_replicated_index: u64,
        voter_replicated_term: u64,
        applied_index: Option<u64>,
    },
}

/// How far a log was applied.
#[derive(Debug)]
pub struct ApplyRes {
    pub applied_index: u64,
    pub applied_term: u64,
    pub region_state: Option<RegionLocalState>,
}

/// The task to look whether a region's log can be cut off.
pub open spec fn check_compact(
    region_id: u64,
    compact_index: u64,
    compact_term: u64,
    applied_index: u64,
) -> ApplyTask {
    ApplyTask::CheckCompact {
        region_id,
        voter_replicated_index: compact_index,
        voter_replicated_term: compact_term,
        applied_index: Some(applied_index),
    }
}

/// Hands tasks to the part that applies logs.
pub trait ApplyRouterHelper {
    /// The tasks that were handed over, each with its region.
    spec fn scheduled(&self) -> Seq<(u64, ApplyTask)>;

    /// Hands over the task to look whether a region's log can be cut off.
    fn schedule_compact_log_task(
        &mut self,
        region_id: u64,
        compact_index: u64,
        compact_term: u64,
        applied_index: u64,
    )
        ensures
            final(self).scheduled() == old(self).scheduled().push(
                (region_id, check_compact(region_id, compact_index, compact_term, applied_index)),
            ),
    ;
}

/// Keeps tasks in their order until they are sent.
pub struct ProxyApplyRouterHelper {
    pub apply_router: Vec<(u64, ApplyTask)>,
}

impl ProxyApplyRouterHelper {
    pub fn new() -> (r: Self)
        ensures
            r.apply_router@.len() == 0,
    {
        ProxyApplyRouterHelper { apply_router: Vec::new() }
    }
}

impl ApplyRouterHelper for ProxyApplyRouterHelper {
    open spec fn scheduled(&self) -> Seq<(u64, ApplyTask)> {
        self.apply_router@
    }

    fn schedule_compact_log_task(
        &mut self,
        region_id: u64,
        compact_index: u64,
        compact_term: u64,
        applied_index: u64,
    ) {
        self.apply_router.push(
            (
                region_id,
                ApplyTask::CheckCompact {
                    region_id,
                    voter_replicated_index: compact_index,
                    voter_replicated_term: compact_term,
                    applied_index: Some(applied_index),
                },
            ),
        );
    }
}

} // verus!
