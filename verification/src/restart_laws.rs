//! What a store keeps when it is stopped and started again, and what is read of it.

use vstd::prelude::*;

use crate::admin_laws;
use crate::admin_laws::{same_region, same_store};
use crate::bytes_map;
use crate::engine_store;
use crate::engine_store::{
    EngineStoreServer, EngineStoreServerWrap, RegionRead, RegionStats, StoreStats,
};
use crate::engine_store_laws;
use crate::ffi::ColumnFamilyType;
use crate::messages::{RaftApplyState, Region, RegionLocalState};
use crate::region::{DbWrite, Disk, MockRegion};
use crate::store_laws;
use crate::store_laws::{
    after_writes, in_memory, in_step, is_pending, keeps_step, on_disk, unchanged_besides_keys,
};

verus! {

/// Of the pairs of a scan the `i`th is the last one that stands for a key of a user.
pub open spec fn reads_last(scan: Seq<(Vec<u8>, Vec<u8>)>, i: int, key: Seq<u8>) -> bool {
    &&& 0 <= i < scan.len()
    &&& stands_for(scan[i].0@, key)
    &&& forall|j: int| i < j < scan.len() ==> !stands_for((#[trigger] scan[j]).0@, key)
}

/// A key in the engine stands for the key of a user that follows its `z`, or for itself where it
/// does not start with one.
pub open spec fn stands_for(stored: Seq<u8>, key: Seq<u8>) -> bool {
    if stored.len() > 0 && stored[0] == 122 {
        stored == seq![122u8] + key
    } else {
        stored == key
    }
}

/// A column family holds what a scan says and nothing else: of each key the last value.
pub open spec fn holds_scan(
    data: Map<Seq<u8>, Seq<u8>>,
    scan: Seq<(Vec<u8>, Vec<u8>)>,
    key: Seq<u8>,
) -> bool {
    &&& forall|i: int| #[trigger]
        reads_last(scan, i, key) ==> data.contains_key(key) && data[key] == scan[i].1@
    &&& data.contains_key(key) ==> exists|i: int|
        0 <= i < scan.len() && stands_for((#[trigger] scan[i]).0@, key)
}

proof fn user_key_is(stored: Seq<u8>, key: Seq<u8>)
    ensures
        (engine_store::user_key(stored) == key) == stands_for(stored, key),
{
    if stored.len() > 0 && stored[0] == 122 {
        assert(stored =~= seq![122u8] + stored.skip(1));
        assert((seq![122u8] + key).skip(1) =~= key);
    }
}

proof fn scan_is_held(scan: Seq<(Vec<u8>, Vec<u8>)>, key: Seq<u8>)
    ensures
        holds_scan(
            bytes_map::map_of(engine_store::user_pairs(bytes_map::pair_views(scan))),
            scan,
            key,
        ),
    decreases scan.len(),
{
    let u = engine_store::user_pairs(bytes_map::pair_views(scan));
    let data = bytes_map::map_of(u);
    if scan.len() > 0 {
        let p = scan.drop_last();
        let n = scan.len() - 1;
        let v = engine_store::user_pairs(bytes_map::pair_views(p));
        assert(u.drop_last() =~= v);
        scan_is_held(p, key);
        user_key_is(scan[n].0@, key);
        assert(u.last() == u[n]);
        assert(forall|j: int| 0 <= j < p.len() ==> p[j] == scan[j]);
        let before = bytes_map::map_of(v);
        assert forall|i: int| #[trigger] reads_last(scan, i, key) implies data.contains_key(key)
            && data[key] == scan[i].1@ by {
            if i < n {
                assert(!stands_for(scan[n].0@, key));
                assert(reads_last(p, i, key));
            }
        }
        if data.contains_key(key) {
            if stands_for(scan[n].0@, key) {
                assert(stands_for(scan[n].0@, key));
            } else {
                let i = choose|i: int| 0 <= i < p.len() && stands_for((#[trigger] p[i]).0@, key);
                assert(stands_for(scan[i].0@, key));
            }
        }
    }
}

/// A store that stops loses what is in memory and what was pending of every region, and forgets
/// what was applied; which regions there are, their metadata, their peers and the terms of what
/// was applied last stay, and so does the rest of the store.
pub proof fn stop_loses_memory(s: &mut EngineStoreServer, id: u64, cf: int, key: Seq<u8>)
    requires
        call_ensures(EngineStoreServer::stop, (s,), ()),
        0 <= cf < 3,
    ensures
        same_store(old(s)@, final(s)@),
        old(s)@.regions.contains_key(id) == final(s)@.regions.contains_key(id),
        old(s)@.regions.contains_key(id) ==> {
            let was = old(s)@.regions[id];
            let now = final(s)@.regions[id];
            &&& !now.cfs[cf].data.contains_key(key)
            &&& !now.cfs[cf].written.contains_key(key)
            &&& !now.cfs[cf].deleted.contains(key)
            &&& now.region == was.region
            &&& now.peer == was.peer
            &&& now.applied_term == was.applied_term
            &&& now.apply_state.applied_index == 0
            &&& now.apply_state.truncated_state.index == 0
            &&& now.apply_state.truncated_state.term == 0
            &&& now.apply_state.commit_index == 0
            &&& now.apply_state.commit_term == 0
        },
{
}

/// Reading the keys of a region back takes each scan into its column family: afterwards the
/// region holds what the scans say, nothing is pending, and nothing else changed.
pub proof fn scans_are_read_back(
    s: &mut EngineStoreServer,
    region_id: u64,
    lock: &Vec<(Vec<u8>, Vec<u8>)>,
    write: &Vec<(Vec<u8>, Vec<u8>)>,
    default: &Vec<(Vec<u8>, Vec<u8>)>,
    key: Seq<u8>,
    cf: int,
    other: u64,
)
    requires
        old(s)@.regions.contains_key(region_id),
        call_ensures(
            EngineStoreServer::load_data_from_db,
            (s, region_id, lock, write, default),
            (),
        ),
        0 <= cf < 3,
    ensures
        same_store(old(s)@, final(s)@),
        other != region_id ==> same_region(old(s)@, final(s)@, other),
        ({
            let now = final(s)@.regions[region_id];
            &&& final(s)@.regions.contains_key(region_id)
            &&& holds_scan(now.cfs[0].data, lock@, key)
            &&& holds_scan(now.cfs[1].data, write@, key)
            &&& holds_scan(now.cfs[2].data, default@, key)
            &&& !now.cfs[cf].written.contains_key(key)
            &&& !now.cfs[cf].deleted.contains(key)
            &&& unchanged_besides_keys(old(s)@.regions[region_id], now)
        }),
{
    scan_is_held(lock@, key);
    scan_is_held(write@, key);
    scan_is_held(default@, key);
}

/// Reading a region back takes its apply state, its metadata and its keys from what was read;
/// its peer is the one that the metadata list for the store, where they list one.
pub proof fn region_is_read_back(
    s: &mut EngineStoreServer,
    region_id: u64,
    apply_state: RaftApplyState,
    state: &RegionLocalState,
    lock: &Vec<(Vec<u8>, Vec<u8>)>,
    write: &Vec<(Vec<u8>, Vec<u8>)>,
    default: &Vec<(Vec<u8>, Vec<u8>)>,
    key: Seq<u8>,
    cf: int,
    other: u64,
)
    requires
        old(s)@.regions.contains_key(region_id),
        call_ensures(
            EngineStoreServer::load_from_db,
            (s, region_id, apply_state, state, lock, write, default),
            (),
        ),
        0 <= cf < 3,
    ensures
        same_store(old(s)@, final(s)@),
        other != region_id ==> same_region(old(s)@, final(s)@, other),
        ({
            let was = old(s)@.regions[region_id];
            let now = final(s)@.regions[region_id];
            let peers = state.region@.peers;
            &&& final(s)@.regions.contains_key(region_id)
            &&& holds_scan(now.cfs[0].data, lock@, key)
            &&& holds_scan(now.cfs[1].data, write@, key)
            &&& holds_scan(now.cfs[2].data, default@, key)
            &&& !now.cfs[cf].written.contains_key(key)
            &&& !now.cfs[cf].deleted.contains(key)
            &&& now.apply_state == apply_state
            &&& now.applied_term == was.applied_term
            &&& now.region == state.region@
            &&& peers.contains(now.peer) && now.peer.store_id == old(s)@.id || now.peer == was.peer
                && forall|i: int|
                0 <= i < peers.len() ==> (#[trigger] peers[i]).store_id != old(s)@.id
        }),
{
    scan_is_held(lock@, key);
    scan_is_held(write@, key);
    scan_is_held(default@, key);
    admin_laws::first_on_is_there(state.region@.peers, old(s)@.id);
}

/// Reading regions back does for each of them what reading it back alone does, and touches no
/// other one.
pub proof fn regions_are_read_back(
    s: &mut EngineStoreServer,
    reads: &Vec<RegionRead>,
    i: int,
    key: Seq<u8>,
    cf: int,
    other: u64,
)
    requires
        call_ensures(EngineStoreServer::restore, (s, reads), ()),
        0 <= i < reads@.len(),
        forall|a: int, b: int|
            0 <= a < b < reads@.len() ==> (#[trigger] reads@[a]).region_id != (
            #[trigger] reads@[b]).region_id,
        forall|a: int| 0 <= a < reads@.len() ==> (#[trigger] reads@[a]).region_id != other,
        0 <= cf < 3,
    ensures
        same_store(old(s)@, final(s)@),
        same_region(old(s)@, final(s)@, other),
        ({
            let read = reads@[i];
            let was = old(s)@.regions[read.region_id];
            let now = final(s)@.regions[read.region_id];
            let peers = read.region_state.region@.peers;
            &&& final(s)@.regions.contains_key(read.region_id)
            &&& holds_scan(now.cfs[0].data, read.lock@, key)
            &&& holds_scan(now.cfs[1].data, read.write@, key)
            &&& holds_scan(now.cfs[2].data, read.default@, key)
            &&& !now.cfs[cf].written.contains_key(key)
            &&& !now.cfs[cf].deleted.contains(key)
            &&& now.apply_state == read.apply_state
            &&& now.applied_term == was.applied_term
            &&& now.region == read.region_state.region@
            &&& peers.contains(now.peer) && now.peer.store_id == old(s)@.id || now.peer == was.peer
        }),
{
    let read = reads@[i];
    let views = engine_store::read_views(reads@);
    assert(views[i] == read@);
    assert forall|a: int, b: int| 0 <= a < b < views.len() implies (#[trigger] views[a]).region_id
        != (#[trigger] views[b]).region_id by {
        assert(reads@[a].region_id != reads@[b].region_id);
    }
    assert forall|a: int| 0 <= a < views.len() implies (#[trigger] views[a]).region_id != other by {
        assert(reads@[a].region_id != other);
    }
    engine_store_laws::restore_reads_each(old(s)@.regions, old(s)@.id, views, i);
    engine_store_laws::restored_elsewhere(old(s)@.regions, old(s)@.id, views, other);
    scan_is_held(read.lock@, key);
    scan_is_held(read.write@, key);
    scan_is_held(read.default@, key);
    admin_laws::first_on_is_there(read.region_state.region@.peers, old(s)@.id);
}

/// A scan lists what the engine has between two of its keys, each key once; an empty end sets no
/// bound.
pub open spec fn lists_disk(
    scan: Seq<(Vec<u8>, Vec<u8>)>,
    t: ColumnFamilyType,
    disk: Disk,
    start: Seq<u8>,
    end: Seq<u8>,
) -> bool {
    &&& forall|i: int, j: int| 0 <= i < j < scan.len() ==> (#[trigger] scan[i]).0@ != (
        #[trigger] scan[j]).0@
    &&& forall|i: int|
        0 <= i < scan.len() ==> {
            let k = (#[trigger] scan[i]).0@;
            &&& k.len() > 0 && k[0] == 122
            &&& admin_laws::lies_in(k, start, end)
            &&& disk.contains_key((t, k)) && disk[(t, k)] == scan[i].1@
        }
    &&& forall|k: Seq<u8>| #[trigger]
        disk.contains_key((t, k)) && admin_laws::lies_in(k, start, end) ==> exists|i: int|
            0 <= i < scan.len() && (#[trigger] scan[i]).0@ == k
}

proof fn listed_is_held(
    scan: Seq<(Vec<u8>, Vec<u8>)>,
    t: ColumnFamilyType,
    disk: Disk,
    start: Seq<u8>,
    end: Seq<u8>,
    data: Map<Seq<u8>, Seq<u8>>,
    key: Seq<u8>,
)
    requires
        lists_disk(scan, t, disk, start, end),
        holds_scan(data, scan, key),
        admin_laws::lies_in(seq![122u8] + key, start, end),
    ensures
        data.contains_key(key) == on_disk(disk, t, key) is Some,
        data.contains_key(key) ==> on_disk(disk, t, key) == Some(data[key]),
{
    let k = seq![122u8] + key;
    if disk.contains_key((t, k)) {
        let i = choose|i: int| 0 <= i < scan.len() && (#[trigger] scan[i]).0@ == k;
        assert(stands_for(scan[i].0@, key));
        assert forall|j: int| i < j < scan.len() implies !stands_for(
            (#[trigger] scan[j]).0@,
            key,
        ) by {
            assert(scan[i].0@ != scan[j].0@);
        }
        assert(reads_last(scan, i, key));
    }
    if data.contains_key(key) {
        let i = choose|i: int| 0 <= i < scan.len() && stands_for((#[trigger] scan[i]).0@, key);
        assert(scan[i].0@ == k);
    }
}

/// A restart loses nothing of a region that was flushed: where a region was in step with the
/// engine, was flushed, the store was stopped, and the region is read back from scans of the
/// engine, each key between the bounds of the scans has in memory the value that it had.
pub proof fn restart_loses_nothing(
    a: &mut EngineStoreServer,
    ws: Vec<DbWrite>,
    disk: Disk,
    b: &mut EngineStoreServer,
    c: &mut EngineStoreServer,
    region_id: u64,
    apply_state: RaftApplyState,
    state: &RegionLocalState,
    lock: &Vec<(Vec<u8>, Vec<u8>)>,
    write: &Vec<(Vec<u8>, Vec<u8>)>,
    default: &Vec<(Vec<u8>, Vec<u8>)>,
    bounds: (Vec<u8>, Vec<u8>),
    t: ColumnFamilyType,
    key: Seq<u8>,
)
    requires
        old(a)@.regions.contains_key(region_id),
        in_step(old(a)@.regions[region_id], disk),
        call_ensures(EngineStoreServer::write_to_db_by_region_id, (a, region_id), ws),
        old(b)@ == final(a)@,
        call_ensures(EngineStoreServer::stop, (b,), ()),
        old(c)@ == final(b)@,
        call_ensures(engine_store::scan_bounds, (state,), bounds),
        ({
            let after = after_writes(disk, ws@);
            let (start, end) = (bounds.0@, bounds.1@);
            &&& lists_disk(lock@, ColumnFamilyType::Lock, after, start, end)
            &&& lists_disk(write@, ColumnFamilyType::Write, after, start, end)
            &&& lists_disk(default@, ColumnFamilyType::Default, after, start, end)
        }),
        call_ensures(
            EngineStoreServer::load_from_db,
            (c, region_id, apply_state, state, lock, write, default),
            (),
        ),
        admin_laws::lies_in(
            seq![122u8] + key,
            state.region.start_key@,
            state.region.end_key@,
        ),
    ensures
        in_memory(final(c)@.regions[region_id], t, key) == in_memory(
            old(a)@.regions[region_id],
            t,
            key,
        ),
        !is_pending(final(c)@.regions[region_id], t, key),
{
    let v = old(a)@.regions[region_id];
    let after = after_writes(disk, ws@);
    let now = final(c)@.regions[region_id];
    let (start, end) = (bounds.0@, bounds.1@);
    store_laws::store_is_finite(*old(a), region_id);
    store_laws::same_writes(disk, ws@);
    store_laws::flush_effect(v, disk, t, key);
    assert(keeps_step(v, disk, t, key));
    scan_is_held(lock@, key);
    scan_is_held(write@, key);
    scan_is_held(default@, key);
    listed_is_held(lock@, ColumnFamilyType::Lock, after, start, end, now.cfs[0].data, key);
    listed_is_held(write@, ColumnFamilyType::Write, after, start, end, now.cfs[1].data, key);
    listed_is_held(default@, ColumnFamilyType::Default, after, start, end, now.cfs[2].data, key);
}

/// What is read of a key is what the store holds of it in memory: the value in the column family
/// that is asked for, or nothing.
pub proof fn memory_is_read(
    s: &EngineStoreServer,
    region_id: u64,
    t: ColumnFamilyType,
    key: &Vec<u8>,
    r: Option<&Vec<u8>>,
)
    requires
        call_ensures(EngineStoreServer::get_mem, (s, region_id, t, key), r),
    ensures
        r is Some <==> s@.regions.contains_key(region_id) && in_memory(
            s@.regions[region_id],
            t,
            key@,
        ) is Some,
        r is Some ==> in_memory(s@.regions[region_id], t, key@) == Some((r->0)@),
{
}

/// A region that is put into a store is found there, and one that is destroyed is not; other
/// regions stay.
pub proof fn regions_come_and_go(
    p: &mut EngineStoreServer,
    id: u64,
    v: MockRegion,
    d: &mut EngineStoreServer,
    w: &mut EngineStoreServerWrap,
    other: u64,
)
    requires
        call_ensures(EngineStoreServer::put_region, (p, id, v), ()),
        call_ensures(EngineStoreServer::destroy_region, (d, id), ()),
        call_ensures(EngineStoreServerWrap::ffi_handle_destroy, (w, id), ()),
    ensures
        final(p)@.regions.contains_key(id) && final(p)@.regions[id] == v@,
        !final(d)@.regions.contains_key(id),
        !final(w).engine_store_server@.regions.contains_key(id),
        same_store(old(p)@, final(p)@),
        same_store(old(d)@, final(d)@),
        same_store(old(w).engine_store_server@, final(w).engine_store_server@),
        other != id ==> same_region(old(p)@, final(p)@, other),
        other != id ==> same_region(old(d)@, final(d)@, other),
        other != id ==> same_region(
            old(w).engine_store_server@,
            final(w).engine_store_server@,
            other,
        ),
        final(w).maybe_proxy_helper == old(w).maybe_proxy_helper,
        final(w).cluster_ptr == old(w).cluster_ptr,
{
}

/// A store is made without regions, statistics or pages, and says of each region whether it has
/// it and what it is; the list of the regions names each of them once.
pub proof fn regions_are_known(
    id: u64,
    engines: bool,
    fresh: EngineStoreServer,
    s: &EngineStoreServer,
    region_id: u64,
    has: bool,
    got: Option<&MockRegion>,
    ids: Vec<u64>,
)
    requires
        call_ensures(EngineStoreServer::new, (id, engines), fresh),
        call_ensures(EngineStoreServer::has_region, (s, region_id), has),
        call_ensures(EngineStoreServer::get_region, (s, region_id), got),
        call_ensures(EngineStoreServer::region_ids, (s,), ids),
    ensures
        fresh.id == id && fresh.engines == engines && !fresh.proxy_compat,
        !fresh.mock_cfg.panic_when_flush_no_found,
        !fresh@.regions.contains_key(region_id),
        !fresh@.region_states.contains_key(region_id),
        fresh@.pages =~= Map::empty(),
        has <==> s@.regions.contains_key(region_id),
        got is Some <==> has,
        has ==> (got->0)@ == s@.regions[region_id],
        has <==> ids@.contains(region_id),
        ids@.no_duplicates(),
{
}

/// A new region has the metadata that it is made from, and nothing in it; where a store is
/// named, its peer is the first that the metadata list there.
pub proof fn regions_are_made(
    meta: Option<Region>,
    store_id: Option<u64>,
    r: MockRegion,
    plain: Region,
    p: MockRegion,
    cf: int,
    key: Seq<u8>,
)
    requires
        call_ensures(engine_store::make_new_region, (meta, store_id), r),
        call_ensures(MockRegion::new, (plain,), p),
        0 <= cf < 3,
    ensures
        meta is Some ==> r@.region == (meta->0)@,
        meta is None ==> r@.region.id == 0 && r@.region.start_key.len() == 0
            && r@.region.end_key.len() == 0 && r@.region.peers.len() == 0,
        !r@.cfs[cf].data.contains_key(key),
        !r@.cfs[cf].written.contains_key(key),
        !r@.cfs[cf].deleted.contains(key),
        r@.apply_state.applied_index == 0 && r@.applied_term == 0,
        r@.apply_state.truncated_state.index == 0 && r@.apply_state.truncated_state.term == 0,
        ({
            let peers = r@.region.peers;
            let on = store_id is Some && exists|i: int|
                0 <= i < peers.len() && (#[trigger] peers[i]).store_id == store_id->0;
            &&& on ==> peers.contains(r@.peer) && r@.peer.store_id == store_id->0
            &&& !on ==> r@.peer.id == 0 && r@.peer.store_id == 0
        }),
        p@.region == plain@,
        !p@.cfs[cf].data.contains_key(key),
        !p@.cfs[cf].written.contains_key(key),
        !p@.cfs[cf].deleted.contains(key),
        p@.apply_state.applied_index == 0 && p@.applied_term == 0,
{
    if let Some(s) = store_id {
        admin_laws::first_on_is_there(r@.region.peers, s);
    }
}

/// A region's peer becomes the first that its metadata list on a store; where they list none it
/// stays. Nothing else of the region changes.
pub proof fn peer_is_noted(r: &mut MockRegion, store_id: u64)
    requires
        call_ensures(engine_store::set_new_region_peer, (r, store_id), ()),
    ensures
        final(r)@.region == old(r)@.region,
        final(r)@.cfs == old(r)@.cfs,
        final(r)@.apply_state == old(r)@.apply_state,
        final(r)@.applied_term == old(r)@.applied_term,
        ({
            let peers = old(r)@.region.peers;
            let on = exists|i: int|
                0 <= i < peers.len() && (#[trigger] peers[i]).store_id == store_id;
            &&& on ==> peers.contains(final(r)@.peer) && final(r)@.peer.store_id == store_id
            &&& !on ==> final(r)@.peer == old(r)@.peer
        }),
{
    admin_laws::first_on_is_there(old(r)@.region.peers, store_id);
}

/// The keys of the default column family of a region move to the regions whose ranges they lie
/// in: each of those gains exactly them, and other regions, and other column families, do not
/// gain any.
pub proof fn data_moves(
    s: &mut EngineStoreServer,
    from: u64,
    to: &[u64],
    i: int,
    cf: int,
    key: Seq<u8>,
    other: u64,
)
    requires
        old(s)@.regions.contains_key(from),
        forall|j: int| 0 <= j < to@.len() ==> old(s)@.regions.contains_key(#[trigger] to@[j]),
        call_ensures(engine_store::move_data_from, (s, from, to), ()),
        to@.no_duplicates(),
        0 <= i < to@.len(),
        0 <= cf < 3,
        other != from,
        !to@.contains(other),
    ensures
        same_store(old(s)@, final(s)@),
        same_region(old(s)@, final(s)@, other),
        ({
            let kvs = old(s)@.regions[from].cfs[2].data;
            let was = old(s)@.regions[to@[i]];
            let now = final(s)@.regions[to@[i]];
            let moves = kvs.contains_key(key) && admin_laws::lies_in(
                key,
                was.region.start_key,
                was.region.end_key,
            ) && !admin_laws::is_own_key(key);
            let c = now.cfs[2];
            &&& final(s)@.regions.contains_key(to@[i])
            &&& unchanged_besides_keys(was, now)
            &&& moves ==> {
                &&& c.data.contains_key(key) && c.data[key] == kvs[key]
                &&& c.written.contains_key(key) && c.written[key] == kvs[key]
                &&& !c.deleted.contains(key)
            }
            &&& !moves && to@[i] != from ==> store_laws::unchanged_at(was, now, 2, key)
            &&& !moves && to@[i] == from ==> !c.data.contains_key(key)
            &&& cf != 2 && to@[i] != from ==> store_laws::unchanged_at(was, now, cf, key)
        }),
        !to@.contains(from) ==> {
            &&& final(s)@.regions.contains_key(from)
            &&& !final(s)@.regions[from].cfs[cf].data.contains_key(key)
        },
{
    let m = old(s)@.regions;
    let kvs = m[from].cfs[2].data;
    let emptied = m.insert(from, m[from].emptied());
    store_laws::store_is_finite(*old(s), from);
    store_laws::store_is_finite(*old(s), to@[i]);
    engine_store_laws::spread_at(emptied, kvs, to@, i);
    engine_store_laws::spread_elsewhere(emptied, kvs, to@, other);
    if !to@.contains(from) {
        engine_store_laws::spread_elsewhere(emptied, kvs, to@, from);
    }
    admin_laws::what_moves(m[to@[i]].region, kvs, key);
}

/// A scan of a region starts at its first key and ends before its end.
pub proof fn scans_keep_to_the_region(state: &RegionLocalState, r: (Vec<u8>, Vec<u8>))
    requires
        call_ensures(engine_store::scan_bounds, (state,), r),
    ensures
        r.0@ == state.region.start_key@,
        r.1@ == state.region.end_key@,
{
}

/// A store always wants a flush before a log is cut off; it notes the proxy's functions, and its
/// statistics are fixed.
pub proof fn store_answers(
    w: &EngineStoreServerWrap,
    region_id: u64,
    need: u8,
    u: &mut EngineStoreServerWrap,
    helper: usize,
    stats: StoreStats,
)
    requires
        call_ensures(EngineStoreServerWrap::ffi_need_flush_data, (w, region_id), need),
        call_ensures(EngineStoreServerWrap::ffi_atomic_update_proxy, (u, helper), ()),
        call_ensures(EngineStoreServerWrap::ffi_handle_compute_store_stats, (w,), stats),
    ensures
        need == 1,
        final(u).maybe_proxy_helper == Some(helper),
        final(u).engine_store_server == old(u).engine_store_server,
        final(u).cluster_ptr == old(u).cluster_ptr,
        stats.fs_stats.capacity_size == 444444,
        stats.fs_stats.used_size == 111111,
        stats.fs_stats.avail_size == 333333,
        stats.fs_stats.capacity_size == stats.fs_stats.used_size + stats.fs_stats.avail_size,
        stats.fs_stats.ok == 1,
        stats.engine_bytes_written == 0 && stats.engine_keys_written == 0,
        stats.engine_bytes_read == 0 && stats.engine_keys_read == 0,
{
}

/// Changing the statistics of a region changes only those, to what is made of the ones that it
/// had, or of none where it had none.
pub proof fn statistics_change<F: Fn(RegionStats) -> RegionStats>(
    s: &mut EngineStoreServer,
    region_id: u64,
    f: F,
    other: u64,
)
    requires
        call_ensures(EngineStoreServer::mutate_region_states::<F>, (s, region_id, f), ()),
    ensures
        ({
            let was = old(s)@.region_states;
            let now = final(s)@.region_states;
            &&& now.contains_key(region_id)
            &&& was.contains_key(region_id) ==> f.ensures((was[region_id],), now[region_id])
            &&& !was.contains_key(region_id) ==> f.ensures(
                (RegionStats { pre_handle_count: 0, fast_add_peer_count: 0 },),
                now[region_id],
            )
            &&& other != region_id ==> {
                &&& now.contains_key(other) == was.contains_key(other)
                &&& was.contains_key(other) ==> now[other] == was[other]
            }
        }),
        final(s)@.regions == old(s)@.regions,
        final(s)@.id == old(s)@.id,
        final(s)@.pages == old(s)@.pages,
{
}

} // verus!
