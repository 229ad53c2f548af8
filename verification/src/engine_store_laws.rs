//! What holds of the engine store as a whole.

use vstd::prelude::*;

use crate::bytes;
use crate::bytes_map;
use crate::engine_store;
use crate::engine_store::{EngineStoreServerView, Regions};
use crate::ffi::{ColumnFamilyType, RaftCmdHeader, WriteCmdSpec, WriteCmdType};
use crate::keys;
use crate::messages::{AdminCmdType, AdminRequestView, AdminResponseView, RegionView};
use crate::region;
use crate::region::{Disk, MockRegionView};

verus! {

pub(crate) proof fn spread_elsewhere(m: Regions, kvs: Map<Seq<u8>, Seq<u8>>, ids: Seq<u64>, id: u64)
    requires
        !ids.contains(id),
    ensures
        engine_store::spread(m, kvs, ids).contains_key(id) == m.contains_key(id),
        engine_store::spread(m, kvs, ids)[id] == m[id],
    decreases ids.len(),
{
    if ids.len() > 0 {
        let p = ids.drop_last();
        assert(!p.contains(id)) by {
            if p.contains(id) {
                assert(ids[p.index_of(id)] == id);
            }
        }
        assert(ids[ids.len() - 1] != id);
        spread_elsewhere(m, kvs, p, id);
    }
}

pub(crate) proof fn spread_at(m: Regions, kvs: Map<Seq<u8>, Seq<u8>>, ids: Seq<u64>, i: int)
    requires
        0 <= i < ids.len(),
        ids.no_duplicates(),
    ensures
        engine_store::spread(m, kvs, ids).contains_key(ids[i]),
        engine_store::spread(m, kvs, ids)[ids[i]] == m[ids[i]].put_all(
            2,
            region::moved(m[ids[i]].region, kvs),
        ),
    decreases ids.len(),
{
    let p = ids.drop_last();
    if i == ids.len() - 1 {
        assert(!p.contains(ids[i])) by {
            if p.contains(ids[i]) {
                assert(ids[p.index_of(ids[i])] == ids[i]);
            }
        }
        spread_elsewhere(m, kvs, p, ids[i]);
    } else {
        assert(p[i] == ids[i]);
        spread_at(m, kvs, p, i);
        assert(ids[ids.len() - 1] != ids[i]);
    }
}

pub(crate) proof fn split_metas_elsewhere(
    m: Regions,
    id: u64,
    store_id: u64,
    metas: Seq<RegionView>,
    x: u64,
)
    requires
        !engine_store::ids_of(metas).contains(x),
    ensures
        engine_store::split_metas(m, id, store_id, metas).contains_key(x) == m.contains_key(x),
        engine_store::split_metas(m, id, store_id, metas)[x] == m[x],
    decreases metas.len(),
{
    if metas.len() > 0 {
        let p = metas.drop_last();
        assert(!engine_store::ids_of(p).contains(x)) by {
            if engine_store::ids_of(p).contains(x) {
                let i = engine_store::ids_of(p).index_of(x);
                assert(engine_store::ids_of(metas)[i] == x);
            }
        }
        assert(engine_store::ids_of(metas)[metas.len() - 1] == metas.last().id);
        split_metas_elsewhere(m, id, store_id, p, x);
    }
}

pub(crate) proof fn split_metas_at(
    m: Regions,
    id: u64,
    store_id: u64,
    metas: Seq<RegionView>,
    i: int,
)
    requires
        0 <= i < metas.len(),
        engine_store::ids_of(metas).no_duplicates(),
    ensures
        engine_store::split_metas(m, id, store_id, metas).contains_key(metas[i].id),
        engine_store::split_metas(m, id, store_id, metas)[metas[i].id] == (if metas[i].id == id {
            MockRegionView { region: metas[i], ..m[id] }
        } else {
            engine_store::new_region_on(metas[i], store_id)
        }),
    decreases metas.len(),
{
    let p = metas.drop_last();
    let ids = engine_store::ids_of(metas);
    assert(ids[i] == metas[i].id);
    assert(engine_store::ids_of(p) =~= ids.drop_last());
    if i == metas.len() - 1 {
        assert(!engine_store::ids_of(p).contains(metas[i].id)) by {
            if engine_store::ids_of(p).contains(metas[i].id) {
                let j = engine_store::ids_of(p).index_of(metas[i].id);
                assert(ids[j] == ids[i]);
            }
        }
        split_metas_elsewhere(m, id, store_id, p, metas[i].id);
    } else {
        assert(p[i] == metas[i]);
        split_metas_at(m, id, store_id, p, i);
        assert(ids[metas.len() - 1] != ids[i]);
    }
}

/// The region of a number, or an empty one where the store has none.
pub open spec fn known(s: EngineStoreServerView, id: u64) -> MockRegionView {
    engine_store::with_entry(s.regions, id)[id]
}

/// A split divides the keys of the default column family: each region that it results in
/// has its new metadata and exactly those keys of the region that was split that lie in
/// its range.
pub proof fn split_divides_keys(
    s: EngineStoreServerView,
    req: AdminRequestView,
    resp: AdminResponseView,
    header: RaftCmdHeader,
    i: int,
)
    requires
        req.cmd_type == AdminCmdType::BatchSplit,
        known(s, header.region_id).cfs.len() == 3,
        engine_store::ids_of(resp.splits).no_duplicates(),
        0 <= i < resp.splits.len(),
    ensures
        ({
            let a = engine_store::admin_applied(s, req, resp, header);
            let kvs = known(s, header.region_id).cfs[2].data;
            &&& a.contains_key(resp.splits[i].id)
            &&& a[resp.splits[i].id].region == resp.splits[i]
            &&& a[resp.splits[i].id].cfs[2].data == region::moved(resp.splits[i], kvs)
        }),
{
    let id = header.region_id;
    let m = engine_store::with_entry(s.regions, id);
    let metas = resp.splits;
    let ids = engine_store::ids_of(metas);
    let placed = engine_store::split_metas(m, id, s.id, metas);
    assert(ids[i] == metas[i].id);
    split_metas_at(m, id, s.id, metas, i);
    if ids.contains(id) {
        let j = ids.index_of(id);
        assert(metas[j].id == id);
        split_metas_at(m, id, s.id, metas, j);
    } else {
        split_metas_elsewhere(m, id, s.id, metas, id);
    }
    let kvs = placed[id].cfs[2].data;
    assert(kvs == m[id].cfs[2].data);
    let emptied = placed.insert(id, placed[id].emptied());
    spread_at(emptied, kvs, ids, i);
    let r = emptied[metas[i].id];
    assert(r.region == metas[i]);
    assert(r.cfs[2].data =~= Map::empty());
    assert(r.put_all(2, region::moved(metas[i], kvs)).cfs[2].data =~= region::moved(metas[i], kvs));
}

/// A merge joins the keys of the default column family: the target has its own keys and
/// those of the source that lie in the merged range, and the source is gone.
pub proof fn merge_joins_keys(
    s: EngineStoreServerView,
    req: AdminRequestView,
    resp: AdminResponseView,
    header: RaftCmdHeader,
)
    requires
        req.cmd_type == AdminCmdType::CommitMerge,
        s.regions.contains_key(req.commit_merge_source.id),
        req.commit_merge_source.id != header.region_id,
        known(s, header.region_id).cfs.len() == 3,
    ensures
        ({
            let a = engine_store::admin_applied(s, req, resp, header);
            let source = req.commit_merge_source;
            let target = known(s, header.region_id);
            let meta = engine_store::merged(target.region, source);
            &&& !a.contains_key(source.id)
            &&& a.contains_key(header.region_id)
            &&& a[header.region_id].region == meta
            &&& a[header.region_id].cfs[2].data == target.cfs[2].data.union_prefer_right(
                region::moved(meta, s.regions[source.id].cfs[2].data),
            )
        }),
{
    let id = header.region_id;
    let source = req.commit_merge_source;
    let r = known(s, id);
    let t = (MockRegionView { region: engine_store::merged(r.region, source), ..r }).applied(
        header.index,
        header.term,
    );
    let m = engine_store::with_entry(s.regions, id).insert(id, t);
    let emptied = m.insert(source.id, m[source.id].emptied());
    let ids = seq![id];
    assert(ids[0] == id);
    spread_at(emptied, m[source.id].cfs[2].data, ids, 0);
}

proof fn spread_keeps_state(m: Regions, kvs: Map<Seq<u8>, Seq<u8>>, ids: Seq<u64>, id: u64)
    ensures
        engine_store::spread(m, kvs, ids)[id].apply_state == m[id].apply_state,
    decreases ids.len(),
{
    if ids.len() > 0 {
        spread_keeps_state(m, kvs, ids.drop_last(), id);
    }
}

proof fn split_keeps_state(m: Regions, id: u64, store_id: u64, metas: Seq<RegionView>)
    ensures
        engine_store::split_metas(m, id, store_id, metas)[id].apply_state == m[id].apply_state,
    decreases metas.len(),
{
    if metas.len() > 0 {
        split_keeps_state(m, id, store_id, metas.drop_last());
    }
}

/// An administrative command never lowers the index up to which its region counts as applied.
pub proof fn applied_index_never_falls(
    s: EngineStoreServerView,
    req: AdminRequestView,
    resp: AdminResponseView,
    header: RaftCmdHeader,
)
    requires
        engine_store::admin_fits(s, req, resp, header),
    ensures
        ({
            let a = engine_store::admin_done(s, req, resp, header).regions;
            a.contains_key(header.region_id) ==> a[header.region_id].apply_state.applied_index
                >= known(s, header.region_id).apply_state.applied_index
        }),
{
    let id = header.region_id;
    let m = engine_store::with_entry(s.regions, id);
    if req.cmd_type == AdminCmdType::BatchSplit {
        let metas = resp.splits;
        let ids = engine_store::ids_of(metas);
        let placed = engine_store::split_metas(m, id, s.id, metas);
        let emptied = placed.insert(id, placed[id].emptied());
        split_keeps_state(m, id, s.id, metas);
        spread_keeps_state(emptied, placed[id].cfs[2].data, ids, id);
    } else if req.cmd_type == AdminCmdType::CommitMerge {
        let source = req.commit_merge_source;
        let r = m[id];
        let t = (MockRegionView { region: engine_store::merged(r.region, source), ..r }).applied(
            header.index,
            header.term,
        );
        let placed = m.insert(id, t);
        let ids = seq![id];
        assert(ids[0] == id);
        spread_at(
            placed.insert(source.id, placed[source.id].emptied()),
            placed[source.id].cfs[2].data,
            ids,
            0,
        );
    }
}

/// A key of the engine lies from `start` on and before `end`; an empty `end` sets no bound.
pub open spec fn in_bounds(key: Seq<u8>, start: Seq<u8>, end: Seq<u8>) -> bool {
    !bytes::lex_lt(key, start) && (end.len() == 0 || bytes::lex_lt(key, end))
}

/// A scan that lists what the engine holds of a column family between two keys: every pair once,
/// under data keys, in the order of the keys.
pub open spec fn scan_of(
    scan: Seq<(Seq<u8>, Seq<u8>)>,
    t: ColumnFamilyType,
    disk: Disk,
    start: Seq<u8>,
    end: Seq<u8>,
) -> bool {
    &&& bytes_map::sorted(scan)
    &&& forall|i: int|
        0 <= i < scan.len() ==> keys::is_data_key(#[trigger] scan[i].0) && in_bounds(
            scan[i].0,
            start,
            end,
        )
    &&& forall|i: int|
        0 <= i < scan.len() ==> region::value_of(disk, (t, #[trigger] scan[i].0)) == Some(scan[i].1)
    &&& forall|k: Seq<u8>| #[trigger]
        disk.contains_key((t, k)) && in_bounds(k, start, end) ==> exists|i: int|
            0 <= i < scan.len() && #[trigger] scan[i].0 == k
}

/// The value of a key, where the scan between two keys of the engine comes by it.
pub open spec fn value_within(
    m: Map<Seq<u8>, Seq<u8>>,
    k: Seq<u8>,
    start: Seq<u8>,
    end: Seq<u8>,
) -> Option<Seq<u8>> {
    if in_bounds(keys::spec_data_key(k), start, end) {
        region::value_of(m, k)
    } else {
        None
    }
}

/// A column family that is read back holds what the engine holds between the bounds of the scan.
pub proof fn reload_restores(
    scan: Seq<(Seq<u8>, Seq<u8>)>,
    t: ColumnFamilyType,
    disk: Disk,
    start: Seq<u8>,
    end: Seq<u8>,
    k: Seq<u8>,
)
    requires
        scan_of(scan, t, disk, start, end),
    ensures
        region::value_of(engine_store::loaded_cf(scan).data, k) == (if in_bounds(
            keys::spec_data_key(k),
            start,
            end,
        ) {
            region::value_of(disk, (t, keys::spec_data_key(k)))
        } else {
            None
        }),
{
    let u = engine_store::user_pairs(scan);
    assert forall|i: int, j: int| 0 <= i < j < u.len() implies bytes::lex_lt(
        #[trigger] u[i].0,
        #[trigger] u[j].0,
    ) by {
        let a = scan[i].0;
        let b = scan[j].0;
        assert(bytes::lex_lt(a, b));
        keys::data_key_round_trip(a, b);
        keys::data_key_round_trip(b, a);
        keys::data_key_round_trip(keys::spec_origin_key(a), keys::spec_origin_key(b));
    }
    bytes_map::map_of_sorted(u);
    let data = bytes_map::map_of(u);
    let key = keys::spec_data_key(k);
    keys::data_key_round_trip(k, k);
    if disk.contains_key((t, key)) && in_bounds(key, start, end) {
        let i = choose|i: int| 0 <= i < scan.len() && #[trigger] scan[i].0 == key;
        assert(u[i].0 == k);
        assert(data[u[i].0] == u[i].1);
    }
    if data.contains_key(k) {
        let i = choose|i: int| 0 <= i < u.len() && #[trigger] u[i].0 == k;
        let a = scan[i].0;
        keys::data_key_round_trip(a, a);
        assert(a == key);
        assert(region::value_of(disk, (t, scan[i].0)) == Some(scan[i].1));
    }
}

/// A restart loses nothing that the scans come by: where a region was in step with the engine and
/// was flushed, what is read back between the region's bounds after the memory was lost is what
/// was there.
pub proof fn restart_restores(
    v: MockRegionView,
    disk: Disk,
    lock: Seq<(Seq<u8>, Seq<u8>)>,
    write: Seq<(Seq<u8>, Seq<u8>)>,
    default: Seq<(Seq<u8>, Seq<u8>)>,
    k: Seq<u8>,
)
    requires
        region::in_sync(v, disk),
        region::pending_finite(v),
        ({
            let after = region::apply_writes(disk, v.flush_writes());
            let (start, end) = (v.region.start_key, v.region.end_key);
            &&& scan_of(lock, ColumnFamilyType::Lock, after, start, end)
            &&& scan_of(write, ColumnFamilyType::Write, after, start, end)
            &&& scan_of(default, ColumnFamilyType::Default, after, start, end)
        }),
    ensures
        ({
            let l = engine_store::loaded(engine_store::stopped(v), lock, write, default);
            let w = v.flushed();
            let (start, end) = (v.region.start_key, v.region.end_key);
            &&& region::value_of(l.cfs[0].data, k) == value_within(w.cfs[0].data, k, start, end)
            &&& region::value_of(l.cfs[1].data, k) == value_within(w.cfs[1].data, k, start, end)
            &&& region::value_of(l.cfs[2].data, k) == value_within(w.cfs[2].data, k, start, end)
        }),
{
    let after = region::apply_writes(disk, v.flush_writes());
    let (start, end) = (v.region.start_key, v.region.end_key);
    region::flush_makes_durable(v, disk, k);
    reload_restores(lock, ColumnFamilyType::Lock, after, start, end, k);
    reload_restores(write, ColumnFamilyType::Write, after, start, end, k);
    reload_restores(default, ColumnFamilyType::Default, after, start, end, k);
}

/// A restart loses nothing of a region that holds all keys: what is read back after the memory
/// was lost is what was there.
pub proof fn restart_restores_all(
    v: MockRegionView,
    disk: Disk,
    lock: Seq<(Seq<u8>, Seq<u8>)>,
    write: Seq<(Seq<u8>, Seq<u8>)>,
    default: Seq<(Seq<u8>, Seq<u8>)>,
)
    requires
        region::in_sync(v, disk),
        region::pending_finite(v),
        v.region.start_key.len() == 0,
        v.region.end_key.len() == 0,
        ({
            let after = region::apply_writes(disk, v.flush_writes());
            let (start, end) = (v.region.start_key, v.region.end_key);
            &&& scan_of(lock, ColumnFamilyType::Lock, after, start, end)
            &&& scan_of(write, ColumnFamilyType::Write, after, start, end)
            &&& scan_of(default, ColumnFamilyType::Default, after, start, end)
        }),
    ensures
        engine_store::loaded(engine_store::stopped(v), lock, write, default).cfs == v.flushed().cfs,
{
    let l = engine_store::loaded(engine_store::stopped(v), lock, write, default);
    let w = v.flushed();
    assert forall|k: Seq<u8>|
        #![trigger l.cfs[0].data.contains_key(k)]
        #![trigger l.cfs[1].data.contains_key(k)]
        #![trigger l.cfs[2].data.contains_key(k)]
        region::value_of(l.cfs[0].data, k) == region::value_of(w.cfs[0].data, k)
            && region::value_of(l.cfs[1].data, k) == region::value_of(w.cfs[1].data, k)
            && region::value_of(l.cfs[2].data, k) == region::value_of(w.cfs[2].data, k) by {
        restart_restores(v, disk, lock, write, default, k);
        assert(!bytes::lex_lt(keys::spec_data_key(k), v.region.start_key));
    }
    assert forall|i: int, k: Seq<u8>| 0 <= i < 3 implies #[trigger] l.cfs[i].data.contains_key(k)
        == w.cfs[i].data.contains_key(k) && (l.cfs[i].data.contains_key(k) ==> l.cfs[i].data[k]
        == w.cfs[i].data[k]) by {
        assert(i == 0 || i == 1 || i == 2);
        assert(l.cfs[0].data.contains_key(k) || !l.cfs[0].data.contains_key(k));
    }
    assert forall|i: int| 0 <= i < 3 implies #[trigger] l.cfs[i] == w.cfs[i] by {
        assert(l.cfs[i].data =~= w.cfs[i].data) by {
            assert forall|k: Seq<u8>| l.cfs[i].data.dom().contains(k) == w.cfs[i].data.dom().contains(
                k,
            ) by {
                assert(l.cfs[i].data.contains_key(k) == w.cfs[i].data.contains_key(k));
            }
            assert(l.cfs[i].data.dom() =~= w.cfs[i].data.dom());
            assert forall|k: Seq<u8>| l.cfs[i].data.dom().contains(k) implies l.cfs[i].data[k]
                == w.cfs[i].data[k] by {
                assert(l.cfs[i].data.contains_key(k));
            }
        }
        assert(l.cfs[i].deleted =~= w.cfs[i].deleted);
        assert(l.cfs[i].written =~= w.cfs[i].written);
    }
    assert(l.cfs =~= w.cfs);
}

/// After some regions were read back, each of them is what was read of it, and no other one
/// has changed.
pub proof fn restore_reads_each(
    m: Regions,
    store_id: u64,
    reads: Seq<engine_store::RegionReadView>,
    i: int,
)
    requires
        0 <= i < reads.len(),
        forall|a: int, b: int|
            0 <= a < b < reads.len() ==> (#[trigger] reads[a]).region_id != (
            #[trigger] reads[b]).region_id,
    ensures
        ({
            let r = engine_store::restored(m, store_id, reads);
            let id = reads[i].region_id;
            &&& r.contains_key(id)
            &&& r[id] == engine_store::reloaded(m[id], store_id, reads[i])
        }),
    decreases reads.len(),
{
    let p = reads.drop_last();
    assert(forall|a: int| 0 <= a < p.len() ==> p[a] == reads[a]);
    if i == reads.len() - 1 {
        assert forall|a: int| 0 <= a < p.len() implies (#[trigger] p[a]).region_id
            != reads[i].region_id by {
            assert(reads[a].region_id != reads[i].region_id);
        }
        restored_elsewhere(m, store_id, p, reads[i].region_id);
    } else {
        restore_reads_each(m, store_id, p, i);
        assert(p[i] == reads[i]);
        assert(reads[i].region_id != reads[reads.len() - 1].region_id);
    }
}

/// Reading some regions back changes no other one.
pub proof fn restored_elsewhere(
    m: Regions,
    store_id: u64,
    reads: Seq<engine_store::RegionReadView>,
    id: u64,
)
    requires
        forall|a: int| 0 <= a < reads.len() ==> (#[trigger] reads[a]).region_id != id,
    ensures
        engine_store::restored(m, store_id, reads).contains_key(id) == m.contains_key(id),
        engine_store::restored(m, store_id, reads)[id] == m[id],
    decreases reads.len(),
{
    if reads.len() > 0 {
        let p = reads.drop_last();
        assert(forall|a: int| 0 <= a < p.len() ==> p[a] == reads[a]);
        assert(reads[reads.len() - 1].region_id != id);
        restored_elsewhere(m, store_id, p, id);
    }
}

/// A merge undoes a split: where a range was divided at a key and its keys were handed to the
/// two parts, merging the left part into the right one gives back the range and its keys.
pub proof fn merge_undoes_split(
    kvs: Map<Seq<u8>, Seq<u8>>,
    whole: RegionView,
    left: RegionView,
    right: RegionView,
)
    requires
        left.start_key == whole.start_key,
        left.end_key == right.start_key,
        right.end_key == whole.end_key,
        bytes::lex_lt(left.start_key, left.end_key),
        right.end_key.len() == 0 || bytes::lex_lt(right.start_key, right.end_key),
    ensures
        ({
            let meta = engine_store::merged(right, left);
            let joined = region::moved(right, kvs).union_prefer_right(
                region::moved(meta, region::moved(left, kvs)),
            );
            &&& meta.start_key == whole.start_key
            &&& meta.end_key == whole.end_key
            &&& joined == region::moved(whole, kvs)
        }),
{
    broadcast use {bytes::lex_lt_trans, bytes::lex_lt_asym};

    let cut = left.end_key;
    let meta = engine_store::merged(right, left);
    assert(cut.len() > 0);
    assert(engine_store::source_at_left(left, right));
    assert forall|k: Seq<u8>| whole.covers(k) == (left.covers(k) || right.covers(k)) by {
        bytes::lex_total(k, cut);
        bytes::lex_total(k, whole.start_key);
    }
    assert forall|k: Seq<u8>| meta.covers(k) == whole.covers(k) by {}
    let joined = region::moved(right, kvs).union_prefer_right(
        region::moved(meta, region::moved(left, kvs)),
    );
    assert(joined =~= region::moved(whole, kvs));
}

/// A write concerns a key of a column family.
pub open spec fn touches(c: WriteCmdSpec, cf: int, key: Seq<u8>) -> bool {
    c.cf == cf && c.key == key
}

/// What is read of a key in memory after some writes is what the last write of the key says:
/// its value, or nothing where it deleted the key.
pub proof fn last_write_is_read(
    r: MockRegionView,
    cmds: Seq<WriteCmdSpec>,
    i: int,
    cf: int,
    key: Seq<u8>,
)
    requires
        r.cfs.len() == 3,
        forall|j: int| 0 <= j < cmds.len() ==> (#[trigger] cmds[j]).cf < 3,
        0 <= cf < 3,
        0 <= i < cmds.len(),
        touches(cmds[i], cf, key),
        forall|j: int| i < j < cmds.len() ==> !touches(#[trigger] cmds[j], cf, key),
    ensures
        engine_store::written(r, cmds).cfs.len() == 3,
        region::value_of(engine_store::written(r, cmds).cfs[cf].data, key) == (
        match cmds[i].cmd_type {
            WriteCmdType::Put => Some(cmds[i].val),
            WriteCmdType::Del => None,
        }),
    decreases cmds.len(),
{
    let p = cmds.drop_last();
    assert(forall|j: int| 0 <= j < p.len() ==> p[j] == cmds[j]);
    written_keeps_families(r, p);
    assert(cmds[cmds.len() - 1] == cmds.last());
    if i < cmds.len() - 1 {
        last_write_is_read(r, p, i, cf, key);
        assert(!touches(cmds[cmds.len() - 1], cf, key));
    }
}

proof fn written_keeps_families(r: MockRegionView, cmds: Seq<WriteCmdSpec>)
    requires
        r.cfs.len() == 3,
        forall|j: int| 0 <= j < cmds.len() ==> (#[trigger] cmds[j]).cf < 3,
    ensures
        engine_store::written(r, cmds).cfs.len() == 3,
    decreases cmds.len(),
{
    if cmds.len() > 0 {
        let p = cmds.drop_last();
        assert(forall|j: int| 0 <= j < p.len() ==> p[j] == cmds[j]);
        assert(cmds[cmds.len() - 1].cf < 3);
        written_keeps_families(r, p);
    }
}

/// Writes leave the keys that they do not concern as they were.
pub proof fn other_keys_stay(r: MockRegionView, cmds: Seq<WriteCmdSpec>, cf: int, key: Seq<u8>)
    requires
        r.cfs.len() == 3,
        forall|j: int| 0 <= j < cmds.len() ==> (#[trigger] cmds[j]).cf < 3,
        0 <= cf < 3,
        forall|j: int| 0 <= j < cmds.len() ==> !touches(#[trigger] cmds[j], cf, key),
    ensures
        region::value_of(engine_store::written(r, cmds).cfs[cf].data, key) == region::value_of(
            r.cfs[cf].data,
            key,
        ),
    decreases cmds.len(),
{
    if cmds.len() > 0 {
        let p = cmds.drop_last();
        assert(forall|j: int| 0 <= j < p.len() ==> p[j] == cmds[j]);
        written_keeps_families(r, p);
        assert(!touches(cmds[cmds.len() - 1], cf, key));
        other_keys_stay(r, p, cf, key);
    }
}

} // verus!
