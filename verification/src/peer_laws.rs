//! What adding a peer the fast way does to the stores.

use vstd::prelude::*;

use crate::admin_laws::{same_region, same_store};
use crate::bytes_map;
use crate::engine_store::EngineStoreServer;
use crate::fast_add_peer;
use crate::fast_add_peer::{
    CopyMeta, CopyMetaError, FastAddPeerRes, FastAddPeerStatus, FastAddPeerStep,
};
use crate::keys;
use crate::messages;
use crate::messages::{
    Peer, PeerState, RaftApplyState, RaftLocalState, Region, RegionLocalState, RegionView,
};
use crate::page_storage::{MockPageStorage, Pages};
use crate::ps_engine;
use crate::ps_engine::EngineError;
use crate::ps_engine_laws;
use crate::region::MockRegion;

verus! {

/// Of a region's peers on a store, the one that is listed first has a certain number.
pub open spec fn lists_peer(meta: RegionView, store_id: u64, peer_id: u64) -> bool {
    exists|i: int|
        {
            &&& 0 <= i < meta.peers.len()
            &&& (#[trigger] meta.peers[i]).store_id == store_id
            &&& meta.peers[i].id == peer_id
            &&& forall|j: int| 0 <= j < i ==> (#[trigger] meta.peers[j]).store_id != store_id
        }
}

proof fn first_listed(peers: Seq<Peer>, store_id: u64)
    ensures
        match messages::first_on(peers, store_id) {
            Some(p) => exists|i: int|
                {
                    &&& 0 <= i < peers.len()
                    &&& #[trigger] peers[i] == p
                    &&& p.store_id == store_id
                    &&& forall|j: int| 0 <= j < i ==> (#[trigger] peers[j]).store_id != store_id
                },
            None => forall|j: int|
                0 <= j < peers.len() ==> (#[trigger] peers[j]).store_id != store_id,
        },
    decreases peers.len(),
{
    if peers.len() == 0 {
    } else if peers[0].store_id == store_id {
        assert(peers[0] == messages::first_on(peers, store_id)->0);
    } else {
        let rest = peers.skip(1);
        first_listed(rest, store_id);
        match messages::first_on(rest, store_id) {
            Some(p) => {
                let i = choose|i: int|
                    {
                        &&& 0 <= i < rest.len()
                        &&& #[trigger] rest[i] == p
                        &&& p.store_id == store_id
                        &&& forall|j: int| 0 <= j < i ==> (#[trigger] rest[j]).store_id != store_id
                    };
                assert(peers[i + 1] == p);
                assert forall|j: int| 0 <= j < i + 1 implies (#[trigger] peers[j]).store_id
                    != store_id by {
                    if j > 0 {
                        assert(rest[j - 1] == peers[j]);
                    }
                }
            },
            None => {
                assert forall|j: int| 0 <= j < peers.len() implies (#[trigger] peers[j]).store_id
                    != store_id by {
                    if j > 0 {
                        assert(rest[j - 1] == peers[j]);
                    }
                }
            },
        }
    }
}

proof fn peer_is_listed(meta: RegionView, store_id: u64, peer_id: u64)
    ensures
        fast_add_peer::has_peer(meta, store_id, peer_id) == lists_peer(meta, store_id, peer_id),
{
    first_listed(meta.peers, store_id);
    if fast_add_peer::has_peer(meta, store_id, peer_id) {
        let p = meta.peer_on(store_id)->0;
        let i = choose|i: int|
            {
                &&& 0 <= i < meta.peers.len()
                &&& #[trigger] meta.peers[i] == p
                &&& p.store_id == store_id
                &&& forall|j: int| 0 <= j < i ==> (#[trigger] meta.peers[j]).store_id != store_id
            };
        assert(meta.peers[i].id == peer_id);
        assert(lists_peer(meta, store_id, peer_id));
    } else if lists_peer(meta, store_id, peer_id) {
        let i = choose|i: int|
            {
                &&& 0 <= i < meta.peers.len()
                &&& (#[trigger] meta.peers[i]).store_id == store_id
                &&& meta.peers[i].id == peer_id
                &&& forall|j: int| 0 <= j < i ==> (#[trigger] meta.peers[j]).store_id != store_id
            };
        let p = meta.peer_on(store_id)->0;
        let k = choose|k: int|
            {
                &&& 0 <= k < meta.peers.len()
                &&& #[trigger] meta.peers[k] == p
                &&& p.store_id == store_id
                &&& forall|j: int| 0 <= j < k ==> (#[trigger] meta.peers[j]).store_id != store_id
            };
        assert(i == k) by {
            if i < k {
                assert(meta.peers[i].store_id != store_id);
            }
            if k < i {
                assert(meta.peers[k].store_id != store_id);
            }
        }
    }
}

/// After an attempt that goes on to copy the log, the region of the target store holds in each
/// column family exactly the keys and values that the region of the source store holds there,
/// and all of them are still to be written to its engine.
pub proof fn data_is_copied(
    source: Option<&EngineStoreServer>,
    local: Option<&RegionLocalState>,
    apply_state: Option<RaftApplyState>,
    target: &mut EngineStoreServer,
    region_id: u64,
    new_peer_id: u64,
    block_wait: bool,
    r: FastAddPeerStep,
    key: Seq<u8>,
)
    requires
        call_ensures(
            fast_add_peer::fast_add_peer_attempt,
            (source, local, apply_state, target, region_id, new_peer_id, block_wait),
            r,
        ),
        r is CopyLog,
    ensures
        source is Some,
        (source->0)@.regions.contains_key(region_id),
        final(target)@.regions.contains_key(region_id),
        final(target)@.regions[region_id].cfs.len() == 3,
        final(target)@.regions[region_id].cfs[0].data
            == (source->0)@.regions[region_id].cfs[0].data,
        final(target)@.regions[region_id].cfs[1].data
            == (source->0)@.regions[region_id].cfs[1].data,
        final(target)@.regions[region_id].cfs[2].data
            == (source->0)@.regions[region_id].cfs[2].data,
        final(target)@.regions[region_id].cfs[0].written
            == (source->0)@.regions[region_id].cfs[0].data,
        final(target)@.regions[region_id].cfs[1].written
            == (source->0)@.regions[region_id].cfs[1].data,
        final(target)@.regions[region_id].cfs[2].written
            == (source->0)@.regions[region_id].cfs[2].data,
        !final(target)@.regions[region_id].cfs[0].deleted.contains(key),
        !final(target)@.regions[region_id].cfs[1].deleted.contains(key),
        !final(target)@.regions[region_id].cfs[2].deleted.contains(key),
{
    let from = (source->0)@.regions[region_id];
    let meta = (local->0)@.region;
    fast_add_peer::copied_keys_are_pending(old(target)@, from, meta, 0);
    fast_add_peer::copied_keys_are_pending(old(target)@, from, meta, 1);
    fast_add_peer::copied_keys_are_pending(old(target)@, from, meta, 2);
}

/// An attempt that goes on to copy the log places the region as the source's local state
/// describes it, with the new peer on the target store, and nothing of it counts as applied
/// yet; the apply state and the region that it gives are the source's.
pub proof fn region_is_placed(
    source: Option<&EngineStoreServer>,
    local: Option<&RegionLocalState>,
    apply_state: Option<RaftApplyState>,
    target: &mut EngineStoreServer,
    region_id: u64,
    new_peer_id: u64,
    block_wait: bool,
    r: FastAddPeerStep,
)
    requires
        call_ensures(
            fast_add_peer::fast_add_peer_attempt,
            (source, local, apply_state, target, region_id, new_peer_id, block_wait),
            r,
        ),
        r is CopyLog,
    ensures
        local is Some,
        apply_state == Some(r->apply_state),
        r->region@ == (local->0).region@,
        final(target)@.regions[region_id].region == (local->0).region@,
        final(target)@.regions[region_id].peer.store_id == old(target)@.id,
        final(target)@.regions[region_id].peer.id == new_peer_id,
        (local->0).region@.peers.contains(final(target)@.regions[region_id].peer),
        final(target)@.regions[region_id].apply_state.applied_index == 0,
        final(target)@.regions[region_id].apply_state.commit_index == 0,
        final(target)@.regions[region_id].apply_state.commit_term == 0,
        final(target)@.regions[region_id].apply_state.truncated_state.index == 0,
        final(target)@.regions[region_id].apply_state.truncated_state.term == 0,
        final(target)@.regions[region_id].applied_term == 0,
{
    let meta = (local->0).region@;
    first_listed(meta.peers, old(target)@.id);
}

/// An attempt touches no region of the target store but the one that is added, and leaves the
/// rest of the store as it was. Where it is to be made again, or there is nothing to copy from
/// or nothing to copy yet, it leaves that region alone too.
pub proof fn attempt_touches_its_region(
    source: Option<&EngineStoreServer>,
    local: Option<&RegionLocalState>,
    apply_state: Option<RaftApplyState>,
    target: &mut EngineStoreServer,
    region_id: u64,
    new_peer_id: u64,
    block_wait: bool,
    r: FastAddPeerStep,
    other: u64,
)
    requires
        call_ensures(
            fast_add_peer::fast_add_peer_attempt,
            (source, local, apply_state, target, region_id, new_peer_id, block_wait),
            r,
        ),
    ensures
        same_store(old(target)@, final(target)@),
        other != region_id ==> same_region(old(target)@, final(target)@, other),
        r is Retry ==> same_region(old(target)@, final(target)@, other),
        r == FastAddPeerStep::Failed(FastAddPeerStatus::WaitForData) ==> same_region(
            old(target)@,
            final(target)@,
            other,
        ),
        r == FastAddPeerStep::Failed(FastAddPeerStatus::NoSuitable) ==> same_region(
            old(target)@,
            final(target)@,
            other,
        ),
{
}

/// When an attempt comes to what: without a source there is no suitable store; a source that
/// has no engines or not the region has bad data, and so has one that has no apply state for
/// it; where the source's local state does not list the new peer on the target store yet,
/// the attempt is made again or, if it must not block, reported as too early; a target without
/// engines is another error; and only where nothing is missing the log is copied.
pub proof fn attempts_come_to(
    source: Option<&EngineStoreServer>,
    local: Option<&RegionLocalState>,
    apply_state: Option<RaftApplyState>,
    target: &mut EngineStoreServer,
    region_id: u64,
    new_peer_id: u64,
    block_wait: bool,
    r: FastAddPeerStep,
)
    requires
        call_ensures(
            fast_add_peer::fast_add_peer_attempt,
            (source, local, apply_state, target, region_id, new_peer_id, block_wait),
            r,
        ),
    ensures
        ({
            let here = source is Some && (source->0)@.engines
                && (source->0)@.regions.contains_key(region_id);
            let listed = local is Some && lists_peer(
                (local->0).region@,
                old(target)@.id,
                new_peer_id,
            );
            let ready = old(target)@.engines;
            &&& (r == FastAddPeerStep::Failed(FastAddPeerStatus::NoSuitable)) == (source is None)
            &&& (r == FastAddPeerStep::Failed(FastAddPeerStatus::BadData)) == (source is Some && (
            !here || (listed && ready && apply_state is None)))
            &&& r is Retry == (here && !listed && block_wait)
            &&& (r == FastAddPeerStep::Failed(FastAddPeerStatus::WaitForData)) == (here && !listed
                && !block_wait)
            &&& (r == FastAddPeerStep::Failed(FastAddPeerStatus::OtherError)) == (here && listed
                && !ready)
            &&& r is CopyLog == (here && listed && ready && apply_state is Some)
        }),
{
    if local is Some {
        peer_is_listed((local->0).region@, old(target)@.id, new_peer_id);
    }
}

/// Once the log was copied, the answer is that the peer was added, with the state and the
/// region of the attempt; a log that could not be copied fails it, with nothing.
pub proof fn copied_peer_is_added(
    apply_state: RaftApplyState,
    meta: Region,
    copied: bool,
    r: FastAddPeerRes,
)
    requires
        call_ensures(fast_add_peer::fast_add_peer_copied, (apply_state, meta, copied), r),
    ensures
        copied <==> r.status == FastAddPeerStatus::Added,
        !copied <==> r.status == FastAddPeerStatus::FailedInject,
        copied ==> r.apply_state == Some(apply_state),
        copied ==> r.region is Some && r.region->0@ == meta@,
        !copied ==> r.apply_state is None && r.region is None,
{
}

/// A peer is added by 300 attempts at most: the first is made at once, the others after 30
/// milliseconds each, and after the last the data count as bad.
pub proof fn attempts_are_bounded(
    attempt: u32,
    delay: Option<u64>,
    status: FastAddPeerStatus,
    failed: FastAddPeerRes,
    given_up: FastAddPeerRes,
)
    requires
        call_ensures(fast_add_peer::attempt_delay, (attempt,), delay),
        call_ensures(fast_add_peer::failed_add_peer_res, (status,), failed),
        call_ensures(fast_add_peer::attempts_used_up, (), given_up),
    ensures
        delay is Some <==> attempt < 300,
        attempt == 0 ==> delay == Some(0u64),
        0 < attempt < 300 ==> delay == Some(30u64),
        failed.status == status,
        failed.apply_state is None && failed.region is None,
        given_up.status == FastAddPeerStatus::BadData,
        given_up.apply_state is None && given_up.region is None,
{
}

/// A region passes as one that the peer was added to exactly where its first peer on the store
/// is that peer.
pub proof fn added_peer_is_found(meta: &Region, store_id: u64, peer_id: u64, r: bool)
    requires
        call_ensures(
            fast_add_peer::validate_remote_peer_region,
            (meta, store_id, peer_id),
            r,
        ),
    ensures
        r <==> lists_peer(meta@, store_id, peer_id),
{
    peer_is_listed(meta@, store_id, peer_id);
}

/// Copying a region's data puts every key of the source into the target, in its column family,
/// to be written to the engine; what the source lacks the target keeps.
pub proof fn keys_are_copied(
    source: &MockRegion,
    target: &mut MockRegion,
    cf: int,
    key: Seq<u8>,
)
    requires
        call_ensures(fast_add_peer::copy_data_from, (source, target), ()),
        0 <= cf < 3,
    ensures
        source@.cfs[cf].data.contains_key(key) ==> {
            &&& final(target)@.cfs[cf].data.contains_key(key)
            &&& final(target)@.cfs[cf].data[key] == source@.cfs[cf].data[key]
            &&& final(target)@.cfs[cf].written.contains_key(key)
            &&& final(target)@.cfs[cf].written[key] == source@.cfs[cf].data[key]
            &&& !final(target)@.cfs[cf].deleted.contains(key)
        },
        !source@.cfs[cf].data.contains_key(key) ==> {
            &&& final(target)@.cfs[cf].data.contains_key(key)
                == old(target)@.cfs[cf].data.contains_key(key)
            &&& final(target)@.cfs[cf].data.contains_key(key) ==> final(target)@.cfs[cf].data[key]
                == old(target)@.cfs[cf].data[key]
            &&& final(target)@.cfs[cf].deleted.contains(key)
                == old(target)@.cfs[cf].deleted.contains(key)
        },
        final(target)@.region == old(target)@.region,
        final(target)@.peer == old(target)@.peer,
        final(target)@.apply_state == old(target)@.apply_state,
        final(target)@.applied_term == old(target)@.applied_term,
{
}

/// Copying a region's states writes those that are asked for and there, under the source
/// region's keys: the local state with the new description of the region and in normal state,
/// the apply state, which the target region takes over too, and the raft state. A missing apply
/// state stops everything, a missing raft state only itself.
pub proof fn states_are_copied(
    source: &MockRegion,
    target: &mut MockRegion,
    meta: Region,
    copy_region_state: bool,
    copy_apply_state: bool,
    copy_raft_state: bool,
    apply_state: Option<RaftApplyState>,
    raft_state: Option<RaftLocalState>,
    r: CopyMeta,
)
    requires
        call_ensures(
            fast_add_peer::copy_meta_from,
            (
                source,
                target,
                meta,
                copy_region_state,
                copy_apply_state,
                copy_raft_state,
                apply_state,
                raft_state,
            ),
            r,
        ),
    ensures
        copy_apply_state && apply_state is None ==> {
            &&& r.result == Err::<(), CopyMetaError>(CopyMetaError::BadRaftApplyState)
            &&& !r.written
            &&& r.region_state is None && r.apply_state is None && r.raft_state is None
            &&& final(target)@ == old(target)@
        },
        !(copy_apply_state && apply_state is None) ==> {
            &&& r.written
            &&& copy_region_state ==> {
                &&& r.region_state is Some
                &&& (r.region_state->0).0@ == seq![1u8, 3u8] + keys::be8(source@.region.id)
                    + seq![1u8]
                &&& (r.region_state->0).1.state == PeerState::Normal
                &&& (r.region_state->0).1.region@ == meta@
            }
            &&& !copy_region_state ==> r.region_state is None
            &&& copy_apply_state ==> {
                &&& r.apply_state is Some
                &&& (r.apply_state->0).0@ == seq![1u8, 2u8] + keys::be8(source@.region.id)
                    + seq![3u8]
                &&& apply_state == Some((r.apply_state->0).1)
                &&& apply_state == Some(final(target)@.apply_state)
                &&& final(target)@.applied_term == source@.applied_term
            }
            &&& !copy_apply_state ==> r.apply_state is None && final(target)@ == old(target)@
            &&& copy_raft_state ==> r.raft_state == raft_state
            &&& !copy_raft_state ==> r.raft_state is None
            &&& copy_raft_state && raft_state is None <==> r.result == Err::<(), CopyMetaError>(
                CopyMetaError::BadRaftLocalState,
            )
            &&& copy_raft_state && raft_state is None || r.result is Ok
        },
        final(target)@.region == old(target)@.region,
        final(target)@.peer == old(target)@.peer,
        final(target)@.cfs == old(target)@.cfs,
{
}

/// A log whose indexes rise, copied to a storage that held nothing of it, is read there like
/// the one that it was copied from, and the source's entries are counted; a log that cannot be
/// copied leaves the other storage as it was.
pub proof fn log_is_copied(
    source: &MockPageStorage,
    target: &mut MockPageStorage,
    region_id: u64,
    r: Result<usize, EngineError>,
)
    requires
        call_ensures(fast_add_peer::copy_raft_log, (source, target, region_id), r),
    ensures
        r is Err ==> final(target)@ == old(target)@,
        ({
            let es = ps_engine::entries_in(ps_engine::log_pages(source@, region_id, 0, u64::MAX));
            r is Ok && ps_engine_laws::indexes_rise(es) && (forall|i: int|
                0 <= i < es.len() ==> 0 < (#[trigger] es[i]).index < u64::MAX)
                && bytes_map::range_of(
                old(target)@,
                keys::spec_raft_log_key(region_id, 0),
                keys::spec_raft_log_key(region_id, u64::MAX),
            ) == Pages::empty() ==> ps_engine::entries_in(
                ps_engine::log_pages(final(target)@, region_id, 0, u64::MAX),
            ) == es
        }),
{
    let p = fast_add_peer::whole_log(source@, region_id);
    let es = ps_engine::entries_in(p);
    if r is Ok && ps_engine_laws::indexes_rise(es) && (forall|i: int|
        0 <= i < es.len() ==> 0 < (#[trigger] es[i]).index < u64::MAX) && bytes_map::range_of(
        old(target)@,
        keys::spec_raft_log_key(region_id, 0),
        keys::spec_raft_log_key(region_id, u64::MAX),
    ) == Pages::empty() {
        fast_add_peer::copied_log_is_read(source@, old(target)@, region_id);
    }
}

/// A state that could not be read counts as one that is not there; one that was read is given
/// as it is.
pub proof fn failed_reads_give_nothing(
    local: Result<Option<RegionLocalState>, String>,
    apply: Result<Option<RaftApplyState>, String>,
    raft: Result<Option<RaftLocalState>, String>,
    l: Option<RegionLocalState>,
    a: Option<RaftApplyState>,
    f: Option<RaftLocalState>,
)
    requires
        call_ensures(fast_add_peer::general_get_region_local_state, (local,), l),
        call_ensures(fast_add_peer::general_get_apply_state, (apply,), a),
        call_ensures(fast_add_peer::get_raft_local_state, (raft,), f),
    ensures
        local is Err ==> l is None,
        local is Ok ==> l == local->Ok_0,
        apply is Err ==> a is None,
        apply is Ok ==> a == apply->Ok_0,
        raft is Err ==> f is None,
        raft is Ok ==> f == raft->Ok_0,
{
}

/// An attempt that finds the peer listed but cannot go on, because the target has no engines or
/// the source no apply state, leaves the region in the target store as it is described, without
/// any key; any other failure leaves the store as it was.
pub proof fn failed_attempt_copies_nothing(
    source: Option<&EngineStoreServer>,
    local: Option<&RegionLocalState>,
    apply_state: Option<RaftApplyState>,
    target: &mut EngineStoreServer,
    region_id: u64,
    new_peer_id: u64,
    block_wait: bool,
    r: FastAddPeerStep,
    cf: int,
    key: Seq<u8>,
    other: u64,
)
    requires
        call_ensures(
            fast_add_peer::fast_add_peer_attempt,
            (source, local, apply_state, target, region_id, new_peer_id, block_wait),
            r,
        ),
        !(r is CopyLog),
        0 <= cf < 3,
    ensures
        ({
            let here = source is Some && (source->0)@.engines
                && (source->0)@.regions.contains_key(region_id);
            let listed = local is Some && lists_peer(
                (local->0).region@,
                old(target)@.id,
                new_peer_id,
            );
            let now = final(target)@.regions[region_id];
            &&& here && listed ==> {
                &&& final(target)@.regions.contains_key(region_id)
                &&& now.region == (local->0).region@
                &&& now.peer.id == new_peer_id
                &&& now.peer.store_id == old(target)@.id
                &&& !now.cfs[cf].data.contains_key(key)
                &&& !now.cfs[cf].written.contains_key(key)
                &&& !now.cfs[cf].deleted.contains(key)
            }
            &&& !(here && listed) ==> same_region(old(target)@, final(target)@, other)
        }),
{
    if local is Some {
        peer_is_listed((local->0).region@, old(target)@.id, new_peer_id);
        first_listed((local->0).region@.peers, old(target)@.id);
    }
}

} // verus!
