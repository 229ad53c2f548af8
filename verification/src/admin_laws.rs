//! What administrative commands do to an engine store.

use vstd::prelude::*;

use crate::bytes;
use crate::engine_store;
use crate::engine_store::{EngineStoreServerView, EngineStoreServerWrap};
use crate::engine_store_laws;
use crate::ffi::{ColumnFamilyType, EngineStoreApplyRes, RaftCmdHeader};
use crate::keys;
use crate::messages;
use crate::messages::{AdminCmdType, AdminRequest, AdminResponse, Peer, RegionView};
use crate::region;
use crate::region::{DbWrite, Disk, MockRegionView};

verus! {

/// A key lies from `start` on and before `end`; an empty end sets no bound.
pub open spec fn lies_in(key: Seq<u8>, start: Seq<u8>, end: Seq<u8>) -> bool {
    &&& key == start || bytes::lex_lt(start, key)
    &&& end.len() == 0 || bytes::lex_lt(key, end)
}

/// The keys under which a store keeps its identity and its first region do not belong to regions.
pub open spec fn is_own_key(key: Seq<u8>) -> bool {
    key == seq![1u8, 1u8] || key == seq![1u8, 2u8]
}

/// A range that is not empty.
pub open spec fn proper(r: RegionView) -> bool {
    r.end_key.len() == 0 || bytes::lex_lt(r.start_key, r.end_key)
}

pub(crate) proof fn lies_in_is_covered(r: RegionView, key: Seq<u8>)
    ensures
        r.covers(key) == lies_in(key, r.start_key, r.end_key),
{
    bytes::lex_total(key, r.start_key);
    if bytes::lex_lt(key, r.start_key) {
        bytes::lex_lt_asym(key, r.start_key);
    }
    if bytes::lex_lt(r.start_key, key) {
        bytes::lex_lt_asym(r.start_key, key);
    }
}

pub(crate) proof fn what_moves(meta: RegionView, kvs: Map<Seq<u8>, Seq<u8>>, key: Seq<u8>)
    ensures
        region::value_of(region::moved(meta, kvs), key) == (if lies_in(
            key,
            meta.start_key,
            meta.end_key,
        ) && !is_own_key(key) {
            region::value_of(kvs, key)
        } else {
            None
        }),
{
    lies_in_is_covered(meta, key);
    assert(keys::prepare_bootstrap() =~= seq![1u8, 2u8]);
    assert(keys::store_ident() =~= seq![1u8, 1u8]);
}

/// What the store is, besides its regions, is the same.
pub open spec fn same_store(a: EngineStoreServerView, b: EngineStoreServerView) -> bool {
    &&& a.id == b.id
    &&& a.engines == b.engines
    &&& a.proxy_compat == b.proxy_compat
    &&& a.mock_cfg == b.mock_cfg
    &&& a.region_states == b.region_states
    &&& a.pages == b.pages
}

/// A region is the same in both.
pub open spec fn same_region(a: EngineStoreServerView, b: EngineStoreServerView, id: u64) -> bool {
    &&& a.regions.contains_key(id) == b.regions.contains_key(id)
    &&& a.regions.contains_key(id) ==> a.regions[id] == b.regions[id]
}

/// All keys and values in memory are the same.
pub open spec fn same_data(a: MockRegionView, b: MockRegionView) -> bool {
    forall|cf: int| 0 <= cf < 3 ==> (#[trigger] a.cfs[cf]).data == b.cfs[cf].data
}

/// A command counts as applied.
pub open spec fn is_applied(r: MockRegionView, header: RaftCmdHeader) -> bool {
    r.apply_state.applied_index == header.index && r.applied_term == header.term
}

/// A command was handed to the store, which has its region.
pub open spec fn handled(
    w: &mut EngineStoreServerWrap,
    req: &AdminRequest,
    resp: &AdminResponse,
    header: RaftCmdHeader,
    r: (EngineStoreApplyRes, Vec<DbWrite>),
) -> bool {
    &&& w.engine_store_server@.regions.contains_key(header.region_id)
    &&& call_ensures(EngineStoreServerWrap::handle_admin_raft_cmd, (w, req, resp, header), r)
}

pub(crate) proof fn view_is_whole(w: EngineStoreServerWrap, id: u64)
    requires
        w.engine_store_server@.regions.contains_key(id),
    ensures
        w.engine_store_server@.regions[id].cfs.len() == 3,
{
}

/// An administrative command asks for the proxy's own state to be made durable. It touches no
/// region but its own, those that a split results in, and one that is merged.
pub proof fn admin_touches_its_regions(
    w: &mut EngineStoreServerWrap,
    req: &AdminRequest,
    resp: &AdminResponse,
    header: RaftCmdHeader,
    r: (EngineStoreApplyRes, Vec<DbWrite>),
    other: u64,
)
    requires
        handled(w, req, resp, header, r),
        other != header.region_id,
        req.cmd_type == AdminCmdType::CommitMerge ==> other != req.commit_merge_source.id,
        req.cmd_type == AdminCmdType::BatchSplit ==> forall|i: int|
            0 <= i < resp.splits@.len() ==> (#[trigger] resp.splits@[i]).id != other,
    ensures
        r.0 == EngineStoreApplyRes::Persist,
        same_store(old(w).engine_store_server@, final(w).engine_store_server@),
        same_region(old(w).engine_store_server@, final(w).engine_store_server@, other),
        final(w).maybe_proxy_helper == old(w).maybe_proxy_helper,
        final(w).cluster_ptr == old(w).cluster_ptr,
{
    let s = old(w).engine_store_server@;
    let id = header.region_id;
    if req.cmd_type == AdminCmdType::BatchSplit {
        let metas = resp@.splits;
        let ids = engine_store::ids_of(metas);
        assert(!ids.contains(other)) by {
            if ids.contains(other) {
                let i = ids.index_of(other);
                assert(resp.splits@[i].id == other);
            }
        }
        let placed = engine_store::split_metas(s.regions, id, s.id, metas);
        engine_store_laws::split_metas_elsewhere(s.regions, id, s.id, metas, other);
        engine_store_laws::spread_elsewhere(
            placed.insert(id, placed[id].emptied()),
            placed[id].cfs[2].data,
            ids,
            other,
        );
    } else if req.cmd_type == AdminCmdType::CommitMerge {
        let source = req@.commit_merge_source;
        let t = (MockRegionView {
            region: engine_store::merged(s.regions[id].region, source),
            ..s.regions[id]
        }).applied(header.index, header.term);
        let m = s.regions.insert(id, t);
        assert(!seq![id].contains(other));
        engine_store_laws::spread_elsewhere(
            m.insert(source.id, m[source.id].emptied()),
            m[source.id].cfs[2].data,
            seq![id],
            other,
        );
    }
}

/// A change of peers gives the region its new metadata and keeps its data, unless the store had a
/// peer of the region and has none any more: then the region is gone.
pub proof fn peers_change(
    w: &mut EngineStoreServerWrap,
    req: &AdminRequest,
    resp: &AdminResponse,
    header: RaftCmdHeader,
    r: (EngineStoreApplyRes, Vec<DbWrite>),
)
    requires
        handled(w, req, resp, header, r),
        req.cmd_type == AdminCmdType::ChangePeer || req.cmd_type == AdminCmdType::ChangePeerV2,
    ensures
        ({
            let was = old(w).engine_store_server@.regions[header.region_id];
            let t = final(w).engine_store_server@.regions;
            let here = was.peer.store_id;
            let gone = here != 0 && forall|i: int|
                0 <= i < resp.change_peer.peers@.len()
                    ==> (#[trigger] resp.change_peer.peers@[i]).store_id != here;
            &&& t.contains_key(header.region_id) == !gone
            &&& !gone ==> {
                let now = t[header.region_id];
                &&& now.region == resp.change_peer@
                &&& now.peer == was.peer
                &&& same_data(was, now)
                &&& is_applied(now, header)
                &&& now.apply_state.truncated_state == was.apply_state.truncated_state
            }
            &&& gone ==> r.1@.len() == 0
        }),
{
    let was = old(w).engine_store_server@.regions[header.region_id];
    let meta = resp@.change_peer;
    let here = was.peer.store_id;
    assert(region::db_views(r.1@).len() == r.1@.len());
    assert(meta.peers == resp.change_peer.peers@);
    if !meta.on_store(here) {
        assert forall|i: int| 0 <= i < resp.change_peer.peers@.len() implies (
        #[trigger] resp.change_peer.peers@[i]).store_id != here by {
            if resp.change_peer.peers@[i].store_id == here {
                assert(meta.peers[i].store_id == here);
            }
        }
    } else {
        let i = choose|i: int|
            0 <= i < meta.peers.len() && (#[trigger] meta.peers[i]).store_id == here;
        assert(resp.change_peer.peers@[i].store_id == here);
    }
    view_is_whole(*old(w), header.region_id);
}

/// Preparing a merge counts both versions of the region on, rolling it back only that of the
/// range; range, peers and data stay.
pub proof fn merges_count_versions(
    w: &mut EngineStoreServerWrap,
    req: &AdminRequest,
    resp: &AdminResponse,
    header: RaftCmdHeader,
    r: (EngineStoreApplyRes, Vec<DbWrite>),
)
    requires
        handled(w, req, resp, header, r),
        req.cmd_type == AdminCmdType::PrepareMerge || req.cmd_type == AdminCmdType::RollbackMerge,
        ({
            let e = old(w).engine_store_server@.regions[header.region_id].region.region_epoch;
            e is Some && e->0.version < u64::MAX && e->0.conf_ver < u64::MAX
        }),
    ensures
        ({
            let was = old(w).engine_store_server@.regions[header.region_id];
            let t = final(w).engine_store_server@.regions;
            let now = t[header.region_id];
            &&& t.contains_key(header.region_id)
            &&& now.region.id == was.region.id
            &&& now.region.start_key == was.region.start_key
            &&& now.region.end_key == was.region.end_key
            &&& now.region.peers == was.region.peers
            &&& now.region.region_epoch is Some
            &&& now.region.region_epoch->0.version == was.region.region_epoch->0.version + 1
            &&& now.region.region_epoch->0.conf_ver == was.region.region_epoch->0.conf_ver + (
            if req.cmd_type == AdminCmdType::PrepareMerge {
                1int
            } else {
                0
            })
            &&& now.peer == was.peer
            &&& same_data(was, now)
            &&& is_applied(now, header)
            &&& now.apply_state.truncated_state == was.apply_state.truncated_state
        }),
{
    view_is_whole(*old(w), header.region_id);
}

proof fn neighbours_share(left: RegionView, right: RegionView, key: Seq<u8>)
    requires
        proper(left),
        proper(right),
        left.end_key.len() > 0,
        left.end_key == right.start_key,
    ensures
        lies_in(key, left.start_key, right.end_key) == (lies_in(key, left.start_key, left.end_key)
            || lies_in(key, right.start_key, right.end_key)),
{
    broadcast use {bytes::lex_lt_trans, bytes::lex_lt_asym};

    bytes::lex_total(key, left.end_key);
    bytes::lex_total(key, left.start_key);
}

/// A merge of two neighbours, in either order, gives the target the range of both, and in the
/// default column family all keys that either of them held in its own range. The source is gone,
/// and the version of the range is beyond both.
pub proof fn neighbours_are_merged(
    w: &mut EngineStoreServerWrap,
    req: &AdminRequest,
    resp: &AdminResponse,
    header: RaftCmdHeader,
    r: (EngineStoreApplyRes, Vec<DbWrite>),
    key: Seq<u8>,
)
    requires
        handled(w, req, resp, header, r),
        req.cmd_type == AdminCmdType::CommitMerge,
        req.commit_merge_source.id != header.region_id,
        proper(req.commit_merge_source@),
        proper(old(w).engine_store_server@.regions[header.region_id].region),
        old(w).engine_store_server@.regions.contains_key(req.commit_merge_source.id),
        req.commit_merge_source@.epoch().version < u64::MAX,
        old(w).engine_store_server@.regions[header.region_id].region.epoch().version < u64::MAX,
        ({
            let target = old(w).engine_store_server@.regions[header.region_id].region;
            let source = req.commit_merge_source@;
            ||| source.end_key == target.start_key && target.start_key.len() > 0
            ||| target.end_key == source.start_key && source.start_key.len() > 0
        }),
    ensures
        ({
            let s = old(w).engine_store_server@;
            let t = final(w).engine_store_server@.regions;
            let was = s.regions[header.region_id];
            let source = req.commit_merge_source@;
            let now = t[header.region_id];
            let from = s.regions[source.id].cfs[2].data;
            let left = source.end_key == was.region.start_key && was.region.start_key.len() > 0;
            &&& !t.contains_key(source.id)
            &&& t.contains_key(header.region_id)
            &&& now.region.id == was.region.id
            &&& now.region.peers == was.region.peers
            &&& now.region.start_key == (if left {
                source.start_key
            } else {
                was.region.start_key
            })
            &&& now.region.end_key == (if left {
                was.region.end_key
            } else {
                source.end_key
            })
            &&& lies_in(key, now.region.start_key, now.region.end_key) == (lies_in(
                key,
                source.start_key,
                source.end_key,
            ) || lies_in(key, was.region.start_key, was.region.end_key))
            &&& lies_in(key, now.region.start_key, now.region.end_key) && !is_own_key(key)
                && from.contains_key(key) ==> now.cfs[2].data.contains_key(key)
                && now.cfs[2].data[key] == from[key]
            &&& !from.contains_key(key) || is_own_key(key) ==> region::value_of(
                now.cfs[2].data,
                key,
            ) == region::value_of(was.cfs[2].data, key)
            &&& now.cfs[0].data == was.cfs[0].data
            &&& now.cfs[1].data == was.cfs[1].data
            &&& now.region.region_epoch is Some
            &&& now.region.epoch().conf_ver == was.region.epoch().conf_ver
            &&& now.region.epoch().version > was.region.epoch().version
            &&& now.region.epoch().version > source.epoch().version
            &&& now.region.epoch().version == was.region.epoch().version + 1
                || now.region.epoch().version == source.epoch().version + 1
            &&& now.peer == was.peer
            &&& is_applied(now, header)
        }),
{
    broadcast use {bytes::lex_lt_trans, bytes::lex_lt_asym};

    let s = old(w).engine_store_server@;
    let id = header.region_id;
    let was = s.regions[id];
    let source = req@.commit_merge_source;
    view_is_whole(*old(w), id);
    let left = source.end_key == was.region.start_key && was.region.start_key.len() > 0;
    let meta = engine_store::merged(was.region, source);
    assert(engine_store::source_at_left(source, was.region) == left) by {
        if !left && was.region.start_key.len() > 0 && source.end_key == was.region.start_key {
            assert(false);
        }
    }
    if left {
        neighbours_share(source, was.region, key);
    } else {
        neighbours_share(was.region, source, key);
    }
    let t = (MockRegionView { region: meta, ..was }).applied(header.index, header.term);
    let m = s.regions.insert(id, t);
    let kvs = m[source.id].cfs[2].data;
    let emptied = m.insert(source.id, m[source.id].emptied());
    let ids = seq![id];
    assert(ids[0] == id);
    engine_store_laws::spread_at(emptied, kvs, ids, 0);
    what_moves(meta, kvs, key);
    let now = final(w).engine_store_server@.regions[id];
    assert(now.cfs[2].data == was.cfs[2].data.union_prefer_right(region::moved(meta, kvs)));
    assert(region::value_of(region::moved(meta, kvs), key) is Some
        == region::moved(meta, kvs).contains_key(key));
}

/// A split gives every region that it results in its metadata, and in the default column family
/// exactly those keys of the region that was split that lie in its range.
pub proof fn keys_are_split(
    w: &mut EngineStoreServerWrap,
    req: &AdminRequest,
    resp: &AdminResponse,
    header: RaftCmdHeader,
    r: (EngineStoreApplyRes, Vec<DbWrite>),
    i: int,
    key: Seq<u8>,
)
    requires
        handled(w, req, resp, header, r),
        req.cmd_type == AdminCmdType::BatchSplit,
        forall|a: int, b: int|
            0 <= a < b < resp.splits@.len() ==> (#[trigger] resp.splits@[a]).id != (
            #[trigger] resp.splits@[b]).id,
        0 <= i < resp.splits@.len(),
    ensures
        ({
            let s = old(w).engine_store_server@;
            let t = final(w).engine_store_server@.regions;
            let was = s.regions[header.region_id];
            let meta = resp.splits@[i]@;
            let now = t[meta.id];
            &&& t.contains_key(meta.id)
            &&& now.region == meta
            &&& region::value_of(now.cfs[2].data, key) == (if lies_in(
                key,
                meta.start_key,
                meta.end_key,
            ) && !is_own_key(key) {
                region::value_of(was.cfs[2].data, key)
            } else {
                None
            })
            &&& !now.cfs[0].data.contains_key(key)
            &&& !now.cfs[1].data.contains_key(key)
            &&& meta.id == header.region_id ==> now.peer == was.peer && now.apply_state
                == was.apply_state && now.applied_term == was.applied_term
            &&& meta.id != header.region_id ==> {
                &&& now.apply_state.applied_index == 0
                &&& now.apply_state.truncated_state.index == 0
                &&& meta.on_store(s.id) ==> now.peer.store_id == s.id && meta.peers.contains(
                    now.peer,
                )
                &&& !meta.on_store(s.id) ==> now.peer.store_id == 0
            }
        }),
{
    let s = old(w).engine_store_server@;
    let id = header.region_id;
    let was = s.regions[id];
    view_is_whole(*old(w), id);
    let metas = resp@.splits;
    let ids = engine_store::ids_of(metas);
    assert forall|a: int, b: int| 0 <= a < b < ids.len() implies ids[a] != ids[b] by {
        assert(resp.splits@[a].id != resp.splits@[b].id);
    }
    let placed = engine_store::split_metas(s.regions, id, s.id, metas);
    assert(ids[i] == metas[i].id);
    engine_store_laws::split_metas_at(s.regions, id, s.id, metas, i);
    if ids.contains(id) {
        let j = ids.index_of(id);
        assert(metas[j].id == id);
        engine_store_laws::split_metas_at(s.regions, id, s.id, metas, j);
    } else {
        engine_store_laws::split_metas_elsewhere(s.regions, id, s.id, metas, id);
    }
    let kvs = placed[id].cfs[2].data;
    assert(kvs == was.cfs[2].data);
    let emptied = placed.insert(id, placed[id].emptied());
    engine_store_laws::spread_at(emptied, kvs, ids, i);
    let before = emptied[metas[i].id];
    assert(before.region == metas[i]);
    assert(before.cfs[2].data =~= Map::empty());
    what_moves(metas[i], kvs, key);
    let after = before.put_all(2, region::moved(metas[i], kvs));
    assert(after.cfs[2].data =~= region::moved(metas[i], kvs));
    first_on_is_there(metas[i].peers, s.id);
}

/// The first peer on a store is one of the peers, and on the store; there is one exactly where a
/// peer is on the store.
pub proof fn first_on_is_there(peers: Seq<Peer>, store_id: u64)
    ensures
        messages::first_on(peers, store_id) matches Some(p) ==> p.store_id == store_id
            && peers.contains(p),
        messages::first_on(peers, store_id) is None ==> forall|i: int|
            0 <= i < peers.len() ==> (#[trigger] peers[i]).store_id != store_id,
    decreases peers.len(),
{
    if peers.len() > 0 {
        let rest = peers.skip(1);
        first_on_is_there(rest, store_id);
        if peers[0].store_id == store_id {
            assert(peers.contains(peers[0]));
        } else if let Some(p) = messages::first_on(rest, store_id) {
            let i = rest.index_of(p);
            assert(peers[i + 1] == p);
        } else {
            assert forall|i: int| 0 <= i < peers.len() implies (#[trigger] peers[i]).store_id
                != store_id by {
                if i > 0 {
                    assert(rest[i - 1] == peers[i]);
                }
            }
        }
    }
}

/// A region that is split and does not come out of it keeps its metadata and loses its keys.
pub proof fn split_region_is_emptied(
    w: &mut EngineStoreServerWrap,
    req: &AdminRequest,
    resp: &AdminResponse,
    header: RaftCmdHeader,
    r: (EngineStoreApplyRes, Vec<DbWrite>),
    cf: int,
)
    requires
        handled(w, req, resp, header, r),
        req.cmd_type == AdminCmdType::BatchSplit,
        forall|i: int|
            0 <= i < resp.splits@.len() ==> (#[trigger] resp.splits@[i]).id != header.region_id,
        0 <= cf < 3,
    ensures
        ({
            let was = old(w).engine_store_server@.regions[header.region_id];
            let t = final(w).engine_store_server@.regions;
            &&& t.contains_key(header.region_id)
            &&& t[header.region_id].region == was.region
            &&& t[header.region_id].cfs[cf].data =~= Map::empty()
        }),
{
    let s = old(w).engine_store_server@;
    let id = header.region_id;
    let metas = resp@.splits;
    let ids = engine_store::ids_of(metas);
    view_is_whole(*old(w), id);
    assert(!ids.contains(id)) by {
        if ids.contains(id) {
            let i = ids.index_of(id);
            assert(resp.splits@[i].id == id);
        }
    }
    let placed = engine_store::split_metas(s.regions, id, s.id, metas);
    engine_store_laws::split_metas_elsewhere(s.regions, id, s.id, metas, id);
    engine_store_laws::spread_elsewhere(
        placed.insert(id, placed[id].emptied()),
        placed[id].cfs[2].data,
        ids,
        id,
    );
}

/// Cutting off the log notes up to where, touches no key, neither in memory nor in what is
/// pending, and writes nothing.
pub proof fn log_is_cut_off(
    w: &mut EngineStoreServerWrap,
    req: &AdminRequest,
    resp: &AdminResponse,
    header: RaftCmdHeader,
    r: (EngineStoreApplyRes, Vec<DbWrite>),
)
    requires
        handled(w, req, resp, header, r),
        req.cmd_type == AdminCmdType::CompactLog,
    ensures
        ({
            let was = old(w).engine_store_server@.regions[header.region_id];
            let t = final(w).engine_store_server@.regions;
            let now = t[header.region_id];
            &&& t.contains_key(header.region_id)
            &&& now.apply_state.truncated_state.index == req.compact_log.compact_index
            &&& now.apply_state.truncated_state.term == req.compact_log.compact_term
            &&& is_applied(now, header)
            &&& now.cfs == was.cfs
            &&& now.region == was.region
            &&& now.peer == was.peer
            &&& r.1@.len() == 0
        }),
{
    assert(region::db_views(r.1@).len() == r.1@.len());
}

/// Any other command only counts as applied.
pub proof fn other_commands_are_noted(
    w: &mut EngineStoreServerWrap,
    req: &AdminRequest,
    resp: &AdminResponse,
    header: RaftCmdHeader,
    r: (EngineStoreApplyRes, Vec<DbWrite>),
)
    requires
        handled(w, req, resp, header, r),
        req.cmd_type != AdminCmdType::ChangePeer,
        req.cmd_type != AdminCmdType::ChangePeerV2,
        req.cmd_type != AdminCmdType::BatchSplit,
        req.cmd_type != AdminCmdType::PrepareMerge,
        req.cmd_type != AdminCmdType::CommitMerge,
        req.cmd_type != AdminCmdType::RollbackMerge,
        req.cmd_type != AdminCmdType::CompactLog,
    ensures
        ({
            let was = old(w).engine_store_server@.regions[header.region_id];
            let t = final(w).engine_store_server@.regions;
            let now = t[header.region_id];
            &&& t.contains_key(header.region_id)
            &&& is_applied(now, header)
            &&& now.apply_state.truncated_state == was.apply_state.truncated_state
            &&& same_data(was, now)
            &&& now.region == was.region
            &&& now.peer == was.peer
        }),
{
    view_is_whole(*old(w), header.region_id);
}

/// A command on a region that the store does not know makes a new one, which holds nothing.
pub proof fn unknown_region_is_made(
    w: &mut EngineStoreServerWrap,
    req: &AdminRequest,
    resp: &AdminResponse,
    header: RaftCmdHeader,
    r: (EngineStoreApplyRes, Vec<DbWrite>),
    cf: int,
)
    requires
        !w.engine_store_server@.regions.contains_key(header.region_id),
        call_ensures(EngineStoreServerWrap::handle_admin_raft_cmd, (w, req, resp, header), r),
        req.cmd_type == AdminCmdType::ChangePeer || req.cmd_type == AdminCmdType::CompactLog
            || req.cmd_type == AdminCmdType::InvalidAdmin,
        0 <= cf < 3,
    ensures
        ({
            let t = final(w).engine_store_server@.regions;
            let now = t[header.region_id];
            &&& t.contains_key(header.region_id)
            &&& is_applied(now, header)
            &&& now.cfs[cf].data =~= Map::empty()
            &&& req.cmd_type == AdminCmdType::ChangePeer ==> now.region == resp.change_peer@
        }),
{
}

/// A command that leaves its region in the store, and does more than cut off the log, leaves
/// nothing pending of it.
pub proof fn commands_flush(
    w: &mut EngineStoreServerWrap,
    req: &AdminRequest,
    resp: &AdminResponse,
    header: RaftCmdHeader,
    r: (EngineStoreApplyRes, Vec<DbWrite>),
    cf: int,
    key: Seq<u8>,
)
    requires
        handled(w, req, resp, header, r),
        req.cmd_type != AdminCmdType::CompactLog,
        final(w).engine_store_server@.regions.contains_key(header.region_id),
        0 <= cf < 3,
    ensures
        ({
            let now = final(w).engine_store_server@.regions[header.region_id];
            &&& !now.cfs[cf].written.contains_key(key)
            &&& !now.cfs[cf].deleted.contains(key)
        }),
{
}

/// What a command writes to the engine makes the region durable, where it was in step with the
/// engine: afterwards the engine holds the keys that are in memory, also those that came with a
/// merge. A split is left out: keys that moved are still in the engine, and are written again
/// with the regions that they moved to.
pub proof fn commands_make_durable(
    w: &mut EngineStoreServerWrap,
    req: &AdminRequest,
    resp: &AdminResponse,
    header: RaftCmdHeader,
    r: (EngineStoreApplyRes, Vec<DbWrite>),
    disk: Disk,
    key: Seq<u8>,
)
    requires
        handled(w, req, resp, header, r),
        req.cmd_type != AdminCmdType::CompactLog,
        req.cmd_type != AdminCmdType::BatchSplit,
        req.cmd_type == AdminCmdType::CommitMerge ==> req.commit_merge_source.id
            != header.region_id,
        final(w).engine_store_server@.regions.contains_key(header.region_id),
        region::in_sync(old(w).engine_store_server@.regions[header.region_id], disk),
        region::pending_finite(
            engine_store::admin_applied(
                old(w).engine_store_server@,
                req@,
                resp@,
                header,
            )[header.region_id],
        ),
    ensures
        ({
            let after = region::apply_writes(disk, region::db_views(r.1@));
            let now = final(w).engine_store_server@.regions[header.region_id];
            let k = keys::spec_data_key(key);
            &&& region::value_of(after, (ColumnFamilyType::Lock, k)) == region::value_of(
                now.cfs[0].data,
                key,
            )
            &&& region::value_of(after, (ColumnFamilyType::Write, k)) == region::value_of(
                now.cfs[1].data,
                key,
            )
            &&& region::value_of(after, (ColumnFamilyType::Default, k)) == region::value_of(
                now.cfs[2].data,
                key,
            )
        }),
{
    let s = old(w).engine_store_server@;
    let id = header.region_id;
    let was = s.regions[id];
    let v = engine_store::admin_applied(s, req@, resp@, header)[id];
    if req.cmd_type == AdminCmdType::CommitMerge {
        let source = req@.commit_merge_source;
        let meta = engine_store::merged(was.region, source);
        let t = (MockRegionView { region: meta, ..was }).applied(header.index, header.term);
        let m = s.regions.insert(id, t);
        let kvs = m[source.id].cfs[2].data;
        let ids = seq![id];
        assert(ids[0] == id);
        engine_store_laws::spread_at(
            m.insert(source.id, m[source.id].emptied()),
            kvs,
            ids,
            0,
        );
        assert(region::in_sync(t, disk));
        region::put_all_keeps_in_sync(t, disk, 2, region::moved(meta, kvs));
        assert(v == t.put_all(2, region::moved(meta, kvs)));
    } else {
        assert(v.cfs == was.cfs);
        assert(region::in_sync(v, disk));
    }
    region::flush_makes_durable(v, disk, key);
}

} // verus!
