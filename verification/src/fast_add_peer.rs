//! Adding a peer the fast way: its region is copied from another store that holds it.

use vstd::prelude::*;

use crate::bytes_map;
use crate::engine_store;
use crate::engine_store::{EngineStoreServer, EngineStoreServerView};
use crate::keys;
use crate::messages::{
    PeerState, RaftApplyState, RaftLocalState, Region, RegionLocalState, RegionLocalStateView,
    RegionView,
};
use crate::page_storage::{MockPageStorage, Pages};
use crate::ps_engine;
use crate::ps_engine::{EngineError, PSEngine};
use crate::ps_engine_laws;
use crate::raft_entry;
use crate::raft_entry::Entry;
use crate::region;
use crate::region::{MockRegion, MockRegionView};

verus! {

/// How adding a peer ended.
#[derive(Clone, Copy, Debug, PartialEq, Eq, Structural)]
pub enum FastAddPeerStatus {
    Added,
    WaitForData,
    OtherError,
    NoSuitable,
    BadData,
    FailedInject,
}

/// The answer to a request to add a peer; where it succeeded, with the state and the region
/// that were copied.
pub struct FastAddPeerRes {
    pub status: FastAddPeerStatus,
    pub apply_state: Option<RaftApplyState>,
    pub region: Option<Region>,
}

/// How often adding a peer is tried.
pub const FAST_ADD_PEER_ATTEMPTS: u32 = 300;

/// How many milliseconds pass before it is tried again.
pub const FAST_ADD_PEER_DELAY_MS: u64 = 30;

/// How long to wait before an attempt, counted from 0; nothing where there is none left.
pub fn attempt_delay(attempt: u32) -> (r: Option<u64>)
    ensures
        r == (if attempt >= FAST_ADD_PEER_ATTEMPTS {
            None
        } else if attempt == 0 {
            Some(0u64)
        } else {
            Some(FAST_ADD_PEER_DELAY_MS)
        }),
{
    if attempt >= FAST_ADD_PEER_ATTEMPTS {
        None
    } else if attempt == 0 {
        Some(0)
    } else {
        Some(FAST_ADD_PEER_DELAY_MS)
    }
}

/// The answer where adding a peer failed.
pub fn failed_add_peer_res(status: FastAddPeerStatus) -> (r: FastAddPeerRes)
    ensures
        r.status == status,
        r.apply_state is None,
        r.region is None,
{
    FastAddPeerRes { status, apply_state: None, region: None }
}

/// The answer once all attempts are used up.
pub fn attempts_used_up() -> (r: FastAddPeerRes)
    ensures
        r.status == FastAddPeerStatus::BadData,
        r.apply_state is None,
        r.region is None,
{
    failed_add_peer_res(FastAddPeerStatus::BadData)
}

/// Whether a region has a certain peer on a store, that is, whether the change that adds the
/// peer was applied.
pub open spec fn has_peer(region: RegionView, store_id: u64, peer_id: u64) -> bool {
    match region.peer_on(store_id) {
        Some(p) => p.id == peer_id,
        None => false,
    }
}

/// Whether a region has a certain peer on a store.
pub fn validate_remote_peer_region(region: &Region, store_id: u64, peer_id: u64) -> (r: bool)
    ensures
        r == has_peer(region@, store_id, peer_id),
{
    match region.find_peer(store_id) {
        Some(p) => p.id == peer_id,
        None => false,
    }
}

/// A region after all keys of another one were put into it.
pub open spec fn with_data_of(target: MockRegionView, source: MockRegionView) -> MockRegionView {
    target.put_all(0, source.cfs[0].data).put_all(1, source.cfs[1].data).put_all(
        2,
        source.cfs[2].data,
    )
}

/// Puts all keys of a region into another one.
pub fn copy_data_from(source: &MockRegion, target: &mut MockRegion)
    ensures
        final(target)@ == with_data_of(old(target)@, source@),
{
    region::put_map(target, 0, &source.data[0]);
    region::put_map(target, 1, &source.data[1]);
    region::put_map(target, 2, &source.data[2]);
}

/// The pages of a region's log.
pub open spec fn whole_log(p: Pages, region_id: u64) -> Seq<Seq<u8>> {
    ps_engine::log_pages(p, region_id, 0, u64::MAX)
}

/// Copies the log of a region from one page storage to another; where that fails, the other
/// one is left as it was. Gives how many entries there were.
pub fn copy_raft_log(
    source: &MockPageStorage,
    target: &mut MockPageStorage,
    region_id: u64,
) -> (r: Result<usize, EngineError>)
    ensures
        ({
            let p = whole_log(source@, region_id);
            let es = ps_engine::entries_in(p);
            let log = ps_engine::with_entries(Pages::empty(), region_id, es);
            match r {
                Ok(n) => {
                    &&& forall|i: int| 0 <= i < p.len() ==> ps_engine::is_entry(#[trigger] p[i])
                    &&& forall|i: int|
                        0 <= i < es.len() ==> raft_entry::can_encode(#[trigger] es[i])
                            && ps_engine::round_trips(es[i])
                    &&& n == log.dom().len()
                    &&& final(target)@ == old(target)@.union_prefer_right(log)
                },
                Err(EngineError::Codec) => {
                    &&& exists|i: int| 0 <= i < p.len() && !ps_engine::is_entry(#[trigger] p[i])
                    &&& final(target)@ == old(target)@
                },
                Err(EngineError::TooLarge) => {
                    &&& forall|i: int| 0 <= i < p.len() ==> ps_engine::is_entry(#[trigger] p[i])
                    &&& exists|i: int|
                        0 <= i < es.len() && !raft_entry::can_encode(#[trigger] es[i])
                    &&& final(target)@ == old(target)@
                },
            }
        }),
{
    let engine = PSEngine::new();
    let mut entries: Vec<Entry> = Vec::new();
    let ghost p = whole_log(source@, region_id);
    let ghost es = ps_engine::entries_in(p);
    match engine.get_all_entries_to(source, region_id, &mut entries) {
        Ok(_) => {},
        Err(_) => {
            proof {
                let n = choose|n: int| #[trigger] ps_engine::first_other(p, n);
                assert(!ps_engine::is_entry(p[n]));
            }
            return Err(EngineError::Codec);
        },
    }
    assert(raft_entry::entry_views(Seq::<Entry>::empty()) + es =~= es);
    assert(raft_entry::entry_views(entries@) == es);
    let n: usize = entries.len();
    let mut i: usize = 0;
    while i < n
        invariant
            i <= n,
            n == entries@.len(),
            es == raft_entry::entry_views(entries@),
            p == whole_log(source@, region_id),
            es == ps_engine::entries_in(p),
            forall|j: int| 0 <= j < p.len() ==> ps_engine::is_entry(#[trigger] p[j]),
            forall|j: int| 0 <= j < i ==> raft_entry::can_encode((#[trigger] entries@[j])@),
            target@ == old(target)@,
        decreases n - i,
    {
        if !entries[i].fits() {
            assert(es[i as int] == entries@[i as int]@);
            return Err(EngineError::TooLarge);
        }
        i = i + 1;
    }
    let r = engine.append(target, region_id, &entries);
    assert forall|j: int| 0 <= j < es.len() implies raft_entry::can_encode(#[trigger] es[j])
        && ps_engine::round_trips(es[j]) by {
        assert(es[j] == entries@[j]@);
    }
    r
}

/// A log that was copied is read like the one that it was copied from, where its indexes rise
/// and the other storage held nothing of the region's log.
pub proof fn copied_log_is_read(source: Pages, target: Pages, region_id: u64)
    requires
        ({
            let es = ps_engine::entries_in(whole_log(source, region_id));
            &&& ps_engine_laws::indexes_rise(es)
            &&& forall|i: int|
                0 <= i < es.len() ==> 0 < (#[trigger] es[i]).index < u64::MAX
                    && ps_engine::round_trips(es[i])
        }),
        bytes_map::range_of(
            target,
            keys::spec_raft_log_key(region_id, 0),
            keys::spec_raft_log_key(region_id, u64::MAX),
        ) == Pages::empty(),
    ensures
        ({
            let es = ps_engine::entries_in(whole_log(source, region_id));
            let after = target.union_prefer_right(
                ps_engine::with_entries(Pages::empty(), region_id, es),
            );
            ps_engine::entries_in(whole_log(after, region_id)) == es
        }),
{
    let es = ps_engine::entries_in(whole_log(source, region_id));
    ps_engine_laws::stored_log_is_read(target, region_id, es);
}

/// What comes next in adding a peer.
pub enum FastAddPeerStep {
    /// Try again.
    Retry,
    /// Adding the peer failed.
    Failed(FastAddPeerStatus),
    /// The raft log has to be copied; `fast_add_peer_copied` then gives the answer.
    CopyLog { apply_state: RaftApplyState, region: Region },
}

/// The data to copy is not there yet.
pub open spec fn not_yet(block_wait: bool) -> FastAddPeerStep {
    if block_wait {
        FastAddPeerStep::Retry
    } else {
        FastAddPeerStep::Failed(FastAddPeerStatus::WaitForData)
    }
}

/// What one attempt to add a peer comes to: the step, and the target store after it.
pub open spec fn attempted(
    source: Option<EngineStoreServerView>,
    local: Option<RegionLocalStateView>,
    apply_state: Option<RaftApplyState>,
    target: EngineStoreServerView,
    region_id: u64,
    new_peer_id: u64,
    block_wait: bool,
    step: FastAddPeerStep,
    after: EngineStoreServerView,
) -> bool {
    if source is None {
        step == FastAddPeerStep::Failed(FastAddPeerStatus::NoSuitable) && after == target
    } else if !source->0.engines || !source->0.regions.contains_key(region_id) {
        step == FastAddPeerStep::Failed(FastAddPeerStatus::BadData) && after == target
    } else if local is None || !has_peer(local->0.region, target.id, new_peer_id) {
        step == not_yet(block_wait) && after == target
    } else {
        let meta = local->0.region;
        let fresh = engine_store::new_region_on(meta, target.id);
        let placed = target.with_regions(target.regions.insert(region_id, fresh));
        if !target.engines {
            step == FastAddPeerStep::Failed(FastAddPeerStatus::OtherError) && after == placed
        } else if apply_state is None {
            step == FastAddPeerStep::Failed(FastAddPeerStatus::BadData) && after == placed
        } else {
            let filled = with_data_of(fresh, source->0.regions[region_id]);
            &&& step is CopyLog
            &&& step->apply_state == apply_state->0
            &&& step->region@ == meta
            &&& after == target.with_regions(target.regions.insert(region_id, filled))
        }
    }
}

/// Tries once to add a peer of a region to a store, from another store. `local` and
/// `apply_state` are the source's states of the region, where it has them.
pub fn fast_add_peer_attempt(
    source: Option<&EngineStoreServer>,
    local: Option<&RegionLocalState>,
    apply_state: Option<RaftApplyState>,
    target: &mut EngineStoreServer,
    region_id: u64,
    new_peer_id: u64,
    block_wait: bool,
) -> (r: FastAddPeerStep)
    ensures
        attempted(
            match source {
                Some(s) => Some(s@),
                None => None,
            },
            match local {
                Some(l) => Some(l@),
                None => None,
            },
            apply_state,
            old(target)@,
            region_id,
            new_peer_id,
            block_wait,
            r,
            final(target)@,
        ),
{
    let source = match source {
        Some(s) => s,
        None => return FastAddPeerStep::Failed(FastAddPeerStatus::NoSuitable),
    };
    if !source.engines {
        return FastAddPeerStep::Failed(FastAddPeerStatus::BadData);
    }
    let source_region = match source.get_region(region_id) {
        Some(r) => r,
        None => return FastAddPeerStep::Failed(FastAddPeerStatus::BadData),
    };
    let store_id: u64 = target.id;
    let local = match local {
        Some(l) => l,
        None => {
            if block_wait {
                return FastAddPeerStep::Retry;
            }
            return FastAddPeerStep::Failed(FastAddPeerStatus::WaitForData);
        },
    };
    if !validate_remote_peer_region(&local.region, store_id, new_peer_id) {
        if block_wait {
            return FastAddPeerStep::Retry;
        }
        return FastAddPeerStep::Failed(FastAddPeerStatus::WaitForData);
    }
    let mut new_region = engine_store::make_new_region(
        Some(local.region.clone()),
        Some(store_id),
    );
    let ready = target.engines && apply_state.is_some();
    if ready {
        copy_data_from(source_region, &mut new_region);
    }
    target.put_region(region_id, new_region);
    if !target.engines {
        return FastAddPeerStep::Failed(FastAddPeerStatus::OtherError);
    }
    match apply_state {
        Some(s) => FastAddPeerStep::CopyLog { apply_state: s, region: local.region.clone() },
        None => FastAddPeerStep::Failed(FastAddPeerStatus::BadData),
    }
}

/// The answer once the raft log was copied, or could not be.
pub fn fast_add_peer_copied(apply_state: RaftApplyState, region: Region, copied: bool) -> (r:
    FastAddPeerRes)
    ensures
        if copied {
            &&& r.status == FastAddPeerStatus::Added
            &&& r.apply_state == Some(apply_state)
            &&& r.region is Some
            &&& r.region->0@ == region@
        } else {
            &&& r.status == FastAddPeerStatus::FailedInject
            &&& r.apply_state is None
            &&& r.region is None
        },
{
    if copied {
        FastAddPeerRes {
            status: FastAddPeerStatus::Added,
            apply_state: Some(apply_state),
            region: Some(region),
        }
    } else {
        failed_add_peer_res(FastAddPeerStatus::FailedInject)
    }
}

/// The target of an attempt that got as far as copying the log holds the source's keys, all of
/// them marked to be flushed.
pub proof fn copied_keys_are_pending(
    target: EngineStoreServerView,
    source: MockRegionView,
    meta: RegionView,
    cf: int,
)
    requires
        0 <= cf < 3,
    ensures
        ({
            let r = with_data_of(engine_store::new_region_on(meta, target.id), source);
            &&& r.cfs[cf].data == source.cfs[cf].data
            &&& r.cfs[cf].written == source.cfs[cf].data
            &&& r.cfs[cf].deleted == Set::<Seq<u8>>::empty()
        }),
{
    let r = with_data_of(engine_store::new_region_on(meta, target.id), source);
    assert(r.cfs[cf].data =~= source.cfs[cf].data);
    assert(r.cfs[cf].written =~= source.cfs[cf].data);
    assert(r.cfs[cf].deleted =~= Set::<Seq<u8>>::empty());
}

/// Why the states of a region could not be copied.
#[derive(Clone, Copy, Debug, PartialEq, Eq, Structural)]
pub enum CopyMetaError {
    BadRaftApplyState,
    BadRaftLocalState,
}

/// What copying the states of a region writes to the target's engines.
pub struct CopyMeta {
    /// The writes to the key-value engine are made.
    pub written: bool,
    pub region_state: Option<(Vec<u8>, RegionLocalState)>,
    pub apply_state: Option<(Vec<u8>, RaftApplyState)>,
    pub raft_state: Option<RaftLocalState>,
    pub result: Result<(), CopyMetaError>,
}

/// Copies the states of a region that are asked for. Where the source has no apply state,
/// nothing is written; where it has no raft state, the others are still written.
pub fn copy_meta_from(
    source: &MockRegion,
    target: &mut MockRegion,
    new_region_meta: Region,
    copy_region_state: bool,
    copy_apply_state: bool,
    copy_raft_state: bool,
    source_apply_state: Option<RaftApplyState>,
    source_raft_state: Option<RaftLocalState>,
) -> (r: CopyMeta)
    ensures
        r.written == !(copy_apply_state && source_apply_state is None),
        final(target)@ == (if copy_apply_state && source_apply_state is Some {
            MockRegionView {
                apply_state: source_apply_state->0,
                applied_term: source@.applied_term,
                ..old(target)@
            }
        } else {
            old(target)@
        }),
        r.region_state is Some == (r.written && copy_region_state),
        r.region_state is Some ==> {
            &&& (r.region_state->0).0@ == keys::spec_region_state_key(source@.region.id)
            &&& (r.region_state->0).1@ == (RegionLocalStateView {
                state: PeerState::Normal,
                region: new_region_meta@,
            })
        },
        r.apply_state is Some == (r.written && copy_apply_state),
        r.apply_state is Some ==> {
            &&& (r.apply_state->0).0@ == keys::spec_apply_state_key(source@.region.id)
            &&& (r.apply_state->0).1 == source_apply_state->0
        },
        r.raft_state == (if r.written && copy_raft_state {
            source_raft_state
        } else {
            None
        }),
        r.result == (if !r.written {
            Err::<(), CopyMetaError>(CopyMetaError::BadRaftApplyState)
        } else if copy_raft_state && source_raft_state is None {
            Err::<(), CopyMetaError>(CopyMetaError::BadRaftLocalState)
        } else {
            Ok::<(), CopyMetaError>(())
        }),
{
    let region_id: u64 = source.region.id;
    if copy_apply_state && source_apply_state.is_none() {
        return CopyMeta {
            written: false,
            region_state: None,
            apply_state: None,
            raft_state: None,
            result: Err(CopyMetaError::BadRaftApplyState),
        };
    }
    let region_state = if copy_region_state {
        Some(
            (
                keys::region_state_key(region_id),
                RegionLocalState { state: PeerState::Normal, region: new_region_meta },
            ),
        )
    } else {
        None
    };
    let apply_state = if copy_apply_state {
        let s = source_apply_state.unwrap();
        target.apply_state = s;
        target.applied_term = source.applied_term;
        Some((keys::apply_state_key(region_id), s))
    } else {
        None
    };
    if copy_raft_state {
        let result = if source_raft_state.is_none() {
            Err(CopyMetaError::BadRaftLocalState)
        } else {
            Ok(())
        };
        CopyMeta { written: true, region_state, apply_state, raft_state: source_raft_state, result }
    } else {
        CopyMeta { written: true, region_state, apply_state, raft_state: None, result: Ok(()) }
    }
}

/// A region's local state as an engine returned it; a failed read counts as nothing there.
pub fn general_get_region_local_state(
    read: Result<Option<RegionLocalState>, String>,
) -> (r: Option<RegionLocalState>)
    ensures
        r == (match read {
            Ok(x) => x,
            Err(_) => None,
        }),
{
    match read {
        Ok(x) => x,
        Err(_) => None,
    }
}

/// A region's apply state as an engine returned it; a failed read counts as nothing there.
pub fn general_get_apply_state(read: Result<Option<RaftApplyState>, String>) -> (r: Option<
    RaftApplyState,
>)
    ensures
        r == (match read {
            Ok(x) => x,
            Err(_) => None,
        }),
{
    match read {
        Ok(x) => x,
        Err(_) => None,
    }
}

/// A region's raft state as an engine returned it; a failed read counts as nothing there.
pub fn get_raft_local_state(read: Result<Option<RaftLocalState>, String>) -> (r: Option<
    RaftLocalState,
>)
    ensures
        r == (match read {
            Ok(x) => x,
            Err(_) => None,
        }),
{
    match read {
        Ok(Some(x)) => Some(x),
        _ => None,
    }
}

} // verus!
