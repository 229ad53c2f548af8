//! What writes, snapshots, files, flushes and restarts do to an engine store.

use vstd::prelude::*;

use crate::admin_laws;
use crate::admin_laws::{same_region, same_store};
use crate::bytes_map;
use crate::bytes_map::BytesMap;
use crate::engine_store;
use crate::engine_store::{EngineStoreServer, EngineStoreServerWrap};
use crate::engine_store_laws;
use crate::ffi::{
    ColumnFamilyType, EngineStoreApplyRes, RaftCmdHeader, WriteCmdSpec, WriteCmdType,
    WriteCmdsView,
};
use crate::keys;
use crate::messages::{AdminCmdType, AdminRequest, AdminResponse, RegionView};
use crate::region;
use crate::region::{DbWrite, Disk, MockRegion, MockRegionView};

verus! {

/// Locks stand in the first column family, writes in the second, everything else in the third.
pub open spec fn place_of(t: ColumnFamilyType) -> int {
    match t {
        ColumnFamilyType::Lock => 0,
        ColumnFamilyType::Write => 1,
        ColumnFamilyType::Default => 2,
    }
}

/// The value that a region has in memory for a key.
pub open spec fn in_memory(r: MockRegionView, t: ColumnFamilyType, key: Seq<u8>) -> Option<
    Seq<u8>,
> {
    let m = r.cfs[place_of(t)].data;
    if m.contains_key(key) {
        Some(m[key])
    } else {
        None
    }
}

/// The value that the engine below has for a key of a user, which stands there behind a `z`.
pub open spec fn on_disk(disk: Disk, t: ColumnFamilyType, key: Seq<u8>) -> Option<Seq<u8>> {
    let slot = (t, seq![122u8] + key);
    if disk.contains_key(slot) {
        Some(disk[slot])
    } else {
        None
    }
}

/// A key has still to be written to the engine, or to be deleted from it.
pub open spec fn is_pending(r: MockRegionView, t: ColumnFamilyType, key: Seq<u8>) -> bool {
    r.cfs[place_of(t)].written.contains_key(key) || r.cfs[place_of(t)].deleted.contains(key)
}

/// The engine after some changes were made to it, one after the other.
pub open spec fn after_writes(disk: Disk, ws: Seq<DbWrite>) -> Disk
    decreases ws.len(),
{
    if ws.len() == 0 {
        disk
    } else {
        let before = after_writes(disk, ws.drop_last());
        match ws.last() {
            DbWrite::Put { cf, key, value } => before.insert((cf, key@), value@),
            DbWrite::Delete { cf, key } => before.remove((cf, key@)),
        }
    }
}

/// A key is in memory what the engine will have of it once what is pending was written there: a
/// key that is to be deleted is not in memory, one that is to be written has its new value
/// there, and any other one the value that the engine has.
pub open spec fn keeps_step(
    r: MockRegionView,
    disk: Disk,
    t: ColumnFamilyType,
    key: Seq<u8>,
) -> bool {
    let c = r.cfs[place_of(t)];
    &&& c.deleted.contains(key) ==> in_memory(r, t, key) is None && !c.written.contains_key(key)
    &&& c.written.contains_key(key) ==> in_memory(r, t, key) == Some(c.written[key])
    &&& !is_pending(r, t, key) ==> in_memory(r, t, key) == on_disk(disk, t, key)
}

/// A region is in step with the engine.
pub open spec fn in_step(r: MockRegionView, disk: Disk) -> bool {
    &&& r.cfs.len() == 3
    &&& forall|t: ColumnFamilyType, key: Seq<u8>| #[trigger] keeps_step(r, disk, t, key)
}

/// The metadata and the peer of a region are the same, and up to where its log is committed.
pub open spec fn same_but_applied(a: MockRegionView, b: MockRegionView) -> bool {
    &&& a.region == b.region
    &&& a.peer == b.peer
    &&& a.apply_state.commit_index == b.apply_state.commit_index
    &&& a.apply_state.commit_term == b.apply_state.commit_term
}

pub(crate) proof fn same_writes(disk: Disk, ws: Seq<DbWrite>)
    ensures
        after_writes(disk, ws) == region::apply_writes(disk, region::db_views(ws)),
    decreases ws.len(),
{
    if ws.len() > 0 {
        same_writes(disk, ws.drop_last());
        assert(region::db_views(ws).drop_last() =~= region::db_views(ws.drop_last()));
        assert(region::db_views(ws).last() == ws.last()@);
    }
}

pub(crate) proof fn region_is_finite(r: MockRegion)
    ensures
        region::pending_finite(r@),
{
    assert forall|i: int| 0 <= i < 3 implies (#[trigger] r@.cfs[i]).written.dom().finite()
        && r@.cfs[i].deleted.finite() by {
        bytes_map::map_of_keys(r.pending_write@[i].pairs());
        bytes_map::members_are_finite(r.pending_delete@[i]);
    }
}

pub(crate) proof fn store_is_finite(s: EngineStoreServer, id: u64)
    requires
        s@.regions.contains_key(id),
    ensures
        region::pending_finite(s@.regions[id]),
        s@.regions[id].cfs.len() == 3,
{
    region_is_finite(s.kvstore@[id]);
}

pub(crate) proof fn flush_effect(v: MockRegionView, disk: Disk, t: ColumnFamilyType, k: Seq<u8>)
    requires
        region::pending_finite(v),
        v.cfs.len() == 3,
    ensures
        on_disk(region::apply_writes(disk, v.flush_writes()), t, k) == ({
            let c = v.cfs[place_of(t)];
            if c.written.contains_key(k) && !c.deleted.contains(k) {
                Some(c.written[k])
            } else if c.deleted.contains(k) && !c.written.contains_key(k) {
                None
            } else {
                on_disk(disk, t, k)
            }
        }),
{
    let a = region::cf_writes(v.cfs[0], ColumnFamilyType::Lock);
    let b = region::cf_writes(v.cfs[1], ColumnFamilyType::Write);
    let c = region::cf_writes(v.cfs[2], ColumnFamilyType::Default);
    let d1 = region::apply_writes(disk, a);
    let d2 = region::apply_writes(d1, b);
    let d3 = region::apply_writes(d2, c);
    region::apply_concat(disk, a + b, c);
    region::apply_concat(disk, a, b);
    region::flush_slots(disk, d1, v.cfs[0], ColumnFamilyType::Lock, k);
    region::flush_slots(d1, d2, v.cfs[1], ColumnFamilyType::Write, k);
    region::flush_slots(d2, d3, v.cfs[2], ColumnFamilyType::Default, k);
    let s = (t, keys::spec_data_key(k));
    assert(s == (t, seq![122u8] + k));
    assert(region::value_of(d3, s) == on_disk(d3, t, k));
    assert(region::value_of(d2, s) == on_disk(d2, t, k));
    assert(region::value_of(d1, s) == on_disk(d1, t, k));
    assert(region::value_of(disk, s) == on_disk(disk, t, k));
}

/// Writing a key in memory sets its value, and marks it to be written to the engine with that
/// value; everything else of the region stays.
pub proof fn key_is_written(
    r: &mut MockRegion,
    cf: usize,
    k: &[u8],
    v: &[u8],
    other_cf: int,
    other: Seq<u8>,
)
    requires
        cf < 3,
        call_ensures(region::write_kv_in_mem, (r, cf, k, v), ()),
        0 <= other_cf < 3,
        other_cf != cf || other != k@,
    ensures
        final(r)@.cfs.len() == 3,
        final(r)@.cfs[cf as int].data.contains_key(k@),
        final(r)@.cfs[cf as int].data[k@] == v@,
        final(r)@.cfs[cf as int].written.contains_key(k@),
        final(r)@.cfs[cf as int].written[k@] == v@,
        !final(r)@.cfs[cf as int].deleted.contains(k@),
        unchanged_at(old(r)@, final(r)@, other_cf, other),
        unchanged_besides_keys(old(r)@, final(r)@),
{
}

/// Deleting a key in memory takes it out, forgets a pending write of it, and marks it to be
/// deleted from the engine; everything else of the region stays.
pub proof fn key_is_deleted(
    r: &mut MockRegion,
    cf: usize,
    k: &[u8],
    other_cf: int,
    other: Seq<u8>,
)
    requires
        cf < 3,
        call_ensures(region::delete_kv_in_mem, (r, cf, k), ()),
        0 <= other_cf < 3,
        other_cf != cf || other != k@,
    ensures
        final(r)@.cfs.len() == 3,
        !final(r)@.cfs[cf as int].data.contains_key(k@),
        !final(r)@.cfs[cf as int].written.contains_key(k@),
        final(r)@.cfs[cf as int].deleted.contains(k@),
        unchanged_at(old(r)@, final(r)@, other_cf, other),
        unchanged_besides_keys(old(r)@, final(r)@),
{
}

/// A key of a column family is as it was, in memory and in what is pending.
pub open spec fn unchanged_at(a: MockRegionView, b: MockRegionView, cf: int, key: Seq<u8>) -> bool {
    &&& a.cfs[cf].data.contains_key(key) == b.cfs[cf].data.contains_key(key)
    &&& a.cfs[cf].data.contains_key(key) ==> a.cfs[cf].data[key] == b.cfs[cf].data[key]
    &&& a.cfs[cf].written.contains_key(key) == b.cfs[cf].written.contains_key(key)
    &&& a.cfs[cf].written.contains_key(key) ==> a.cfs[cf].written[key] == b.cfs[cf].written[key]
    &&& a.cfs[cf].deleted.contains(key) == b.cfs[cf].deleted.contains(key)
}

/// All but the keys is as it was.
pub open spec fn unchanged_besides_keys(a: MockRegionView, b: MockRegionView) -> bool {
    &&& a.region == b.region
    &&& a.peer == b.peer
    &&& a.apply_state == b.apply_state
    &&& a.applied_term == b.applied_term
}

/// Putting a map into a region sets each of its keys, to be written to the engine, and leaves
/// every other key as it was.
pub proof fn map_is_put(
    r: &mut MockRegion,
    cf: usize,
    kvs: &BytesMap,
    other_cf: int,
    key: Seq<u8>,
)
    requires
        cf < 3,
        call_ensures(region::put_map, (r, cf, kvs), ()),
        0 <= other_cf < 3,
    ensures
        kvs@.contains_key(key) ==> {
            let c = final(r)@.cfs[cf as int];
            &&& c.data.contains_key(key) && c.data[key] == kvs@[key]
            &&& c.written.contains_key(key) && c.written[key] == kvs@[key]
            &&& !c.deleted.contains(key)
        },
        !kvs@.contains_key(key) ==> unchanged_at(old(r)@, final(r)@, cf as int, key),
        other_cf != cf ==> unchanged_at(old(r)@, final(r)@, other_cf, key),
        unchanged_besides_keys(old(r)@, final(r)@),
{
}

/// Of the pairs that are offered to a region those move to it whose keys lie in its range and
/// are no keys of the store itself; every other key stays as it was.
pub proof fn keys_in_range_move(
    r: &mut MockRegion,
    cf: usize,
    kvs: &BytesMap,
    other_cf: int,
    key: Seq<u8>,
)
    requires
        cf < 3,
        call_ensures(region::put_moved, (r, cf, kvs), ()),
        0 <= other_cf < 3,
    ensures
        ({
            let meta = old(r)@.region;
            let moves = kvs@.contains_key(key) && admin_laws::lies_in(
                key,
                meta.start_key,
                meta.end_key,
            ) && !admin_laws::is_own_key(key);
            let c = final(r)@.cfs[cf as int];
            &&& moves ==> {
                &&& c.data.contains_key(key) && c.data[key] == kvs@[key]
                &&& c.written.contains_key(key) && c.written[key] == kvs@[key]
                &&& !c.deleted.contains(key)
            }
            &&& !moves ==> unchanged_at(old(r)@, final(r)@, cf as int, key)
        }),
        other_cf != cf ==> unchanged_at(old(r)@, final(r)@, other_cf, key),
        unchanged_besides_keys(old(r)@, final(r)@),
{
    admin_laws::what_moves(old(r)@.region, kvs@, key);
}

/// Noting what was applied or cut off sets just that.
pub proof fn marks_are_set(
    r: &mut MockRegion,
    t: &mut MockRegion,
    c: &mut MockRegion,
    index: u64,
    term: u64,
    cf: int,
    key: Seq<u8>,
)
    requires
        call_ensures(MockRegion::set_applied, (r, index, term), ()),
        call_ensures(MockRegion::set_truncated, (t, index, term), ()),
        call_ensures(MockRegion::clear_data, (c,), ()),
        0 <= cf < 3,
    ensures
        final(r)@.apply_state.applied_index == index,
        final(r)@.applied_term == term,
        final(r)@.apply_state.truncated_state == old(r)@.apply_state.truncated_state,
        same_but_applied(old(r)@, final(r)@),
        final(r)@.cfs == old(r)@.cfs,
        final(t)@.apply_state.truncated_state.index == index,
        final(t)@.apply_state.truncated_state.term == term,
        final(t)@.apply_state.applied_index == old(t)@.apply_state.applied_index,
        final(t)@.applied_term == old(t)@.applied_term,
        same_but_applied(old(t)@, final(t)@),
        final(t)@.cfs == old(t)@.cfs,
        !final(c)@.cfs[cf].data.contains_key(key),
        final(c)@.cfs[cf].written == old(c)@.cfs[cf].written,
        final(c)@.cfs[cf].deleted == old(c)@.cfs[cf].deleted,
        unchanged_besides_keys(old(c)@, final(c)@),
{
}

/// The flush of a region leaves its keys in memory and nothing pending. Of each key that was
/// pending the engine then has what the flush was for, and any other key of the engine is as
/// it was.
pub proof fn pending_reaches_the_engine(
    r: &mut MockRegion,
    ws: Vec<DbWrite>,
    disk: Disk,
    t: ColumnFamilyType,
    key: Seq<u8>,
)
    requires
        call_ensures(region::write_to_db_data_by_engine, (r,), ws),
    ensures
        is_flushed(old(r)@, final(r)@, disk, after_writes(disk, ws@), t, key),
        unchanged_besides_keys(old(r)@, final(r)@),
{
    region_is_finite(*old(r));
    same_writes(disk, ws@);
    flush_effect(old(r)@, disk, t, key);
    if in_step(old(r)@, disk) {
        assert(keeps_step(old(r)@, disk, t, key));
    }
}

/// A key of a region was flushed: it is in memory as before, nothing of it is pending, and the
/// engine has what was pending of it. Where the region was in step with the engine, the engine
/// has what is in memory.
pub open spec fn is_flushed(
    a: MockRegionView,
    b: MockRegionView,
    disk: Disk,
    after: Disk,
    t: ColumnFamilyType,
    key: Seq<u8>,
) -> bool {
    let c = a.cfs[place_of(t)];
    &&& in_memory(b, t, key) == in_memory(a, t, key)
    &&& !is_pending(b, t, key)
    &&& !is_pending(a, t, key) ==> on_disk(after, t, key) == on_disk(disk, t, key)
    &&& c.written.contains_key(key) && !c.deleted.contains(key) ==> on_disk(after, t, key) == Some(
        c.written[key],
    )
    &&& c.deleted.contains(key) && !c.written.contains_key(key) ==> on_disk(after, t, key) is None
    &&& in_step(a, disk) ==> on_disk(after, t, key) == in_memory(b, t, key)
}

/// The region of a number, or an empty one where the store has none.
pub open spec fn known(w: EngineStoreServerWrap, id: u64) -> MockRegionView {
    if w.engine_store_server@.regions.contains_key(id) {
        w.engine_store_server@.regions[id]
    } else {
        MockRegionView::spec_new(RegionView::spec_default())
    }
}

/// The value that a store has in memory for a key; nothing where it does not have the region.
pub open spec fn held(
    w: EngineStoreServerWrap,
    id: u64,
    t: ColumnFamilyType,
    key: Seq<u8>,
) -> Option<Seq<u8>> {
    if w.engine_store_server@.regions.contains_key(id) {
        in_memory(w.engine_store_server@.regions[id], t, key)
    } else {
        None
    }
}

/// A write is about a key.
pub open spec fn is_about(c: WriteCmdSpec, t: ColumnFamilyType, key: Seq<u8>) -> bool {
    c.cf == place_of(t) && c.key == key
}

proof fn written_effect(
    v: MockRegionView,
    cmds: Seq<WriteCmdSpec>,
    t: ColumnFamilyType,
    key: Seq<u8>,
    i: int,
)
    requires
        v.cfs.len() == 3,
        forall|j: int| 0 <= j < cmds.len() ==> (#[trigger] cmds[j]).cf < 3,
        -1 <= i < cmds.len(),
        i >= 0 ==> is_about(cmds[i], t, key),
        forall|j: int| i < j < cmds.len() ==> !is_about(#[trigger] cmds[j], t, key),
    ensures
        ({
            let w = engine_store::written(v, cmds);
            let c = w.cfs[place_of(t)];
            &&& w.cfs.len() == 3
            &&& unchanged_besides_keys(v, w)
            &&& i < 0 ==> unchanged_at(v, w, place_of(t), key)
            &&& i >= 0 && cmds[i].cmd_type == WriteCmdType::Put ==> {
                &&& in_memory(w, t, key) == Some(cmds[i].val)
                &&& c.written.contains_key(key) && c.written[key] == cmds[i].val
                &&& !c.deleted.contains(key)
            }
            &&& i >= 0 && cmds[i].cmd_type == WriteCmdType::Del ==> {
                &&& in_memory(w, t, key) is None
                &&& !c.written.contains_key(key)
                &&& c.deleted.contains(key)
            }
        }),
    decreases cmds.len(),
{
    if cmds.len() > 0 {
        let p = cmds.drop_last();
        let n = cmds.len() - 1;
        assert(forall|j: int| 0 <= j < p.len() ==> p[j] == cmds[j]);
        assert(cmds[n] == cmds.last());
        if i < n {
            written_effect(v, p, t, key, i);
            assert(!is_about(cmds[n], t, key));
        } else {
            last_about(p, t, key);
            let k = choose|k: int|
                {
                    &&& -1 <= k < p.len()
                    &&& k >= 0 ==> is_about(p[k], t, key)
                    &&& #[trigger] none_after(p, k, t, key)
                };
            written_effect(v, p, t, key, k);
        }
    }
}

/// No write after one of them is about a key.
pub open spec fn none_after(
    cmds: Seq<WriteCmdSpec>,
    i: int,
    t: ColumnFamilyType,
    key: Seq<u8>,
) -> bool {
    forall|j: int| i < j < cmds.len() ==> !is_about(#[trigger] cmds[j], t, key)
}

pub(crate) proof fn last_about(cmds: Seq<WriteCmdSpec>, t: ColumnFamilyType, key: Seq<u8>)
    ensures
        exists|k: int|
            {
                &&& -1 <= k < cmds.len()
                &&& k >= 0 ==> is_about(cmds[k], t, key)
                &&& #[trigger] none_after(cmds, k, t, key)
            },
    decreases cmds.len(),
{
    if cmds.len() == 0 {
        assert(none_after(cmds, -1, t, key));
    } else if is_about(cmds.last(), t, key) {
        assert(none_after(cmds, cmds.len() - 1, t, key));
    } else {
        let p = cmds.drop_last();
        assert(forall|j: int| 0 <= j < p.len() ==> p[j] == cmds[j]);
        last_about(p, t, key);
        let k = choose|k: int|
            {
                &&& -1 <= k < p.len()
                &&& k >= 0 ==> is_about(p[k], t, key)
                &&& #[trigger] none_after(p, k, t, key)
            };
        assert forall|j: int| k < j < cmds.len() implies !is_about(#[trigger] cmds[j], t, key) by {
            if j < p.len() {
                assert(p[j] == cmds[j]);
            }
        }
        assert(none_after(cmds, k, t, key));
    }
}

proof fn written_keeps_step(v: MockRegionView, cmds: Seq<WriteCmdSpec>, disk: Disk)
    requires
        in_step(v, disk),
        forall|j: int| 0 <= j < cmds.len() ==> (#[trigger] cmds[j]).cf < 3,
    ensures
        in_step(engine_store::written(v, cmds), disk),
    decreases cmds.len(),
{
    if cmds.len() > 0 {
        let p = cmds.drop_last();
        assert(forall|j: int| 0 <= j < p.len() ==> p[j] == cmds[j]);
        assert(cmds[cmds.len() - 1].cf < 3);
        written_keeps_step(v, p, disk);
        let a = engine_store::written(v, p);
        let b = engine_store::written(v, cmds);
        assert forall|t: ColumnFamilyType, key: Seq<u8>| #[trigger] keeps_step(b, disk, t, key) by {
            assert(keeps_step(a, disk, t, key));
        }
    }
}

proof fn written_is_finite(v: MockRegionView, cmds: Seq<WriteCmdSpec>)
    requires
        region::pending_finite(v),
        v.cfs.len() == 3,
        forall|j: int| 0 <= j < cmds.len() ==> (#[trigger] cmds[j]).cf < 3,
    ensures
        region::pending_finite(engine_store::written(v, cmds)),
        engine_store::written(v, cmds).cfs.len() == 3,
    decreases cmds.len(),
{
    if cmds.len() > 0 {
        let p = cmds.drop_last();
        assert(forall|j: int| 0 <= j < p.len() ==> p[j] == cmds[j]);
        assert(cmds[cmds.len() - 1].cf < 3);
        written_is_finite(v, p);
        let a = engine_store::written(v, p);
        let b = engine_store::written(v, cmds);
        assert forall|i: int| 0 <= i < 3 implies (#[trigger] b.cfs[i]).written.dom().finite()
            && b.cfs[i].deleted.finite() by {
            assert(a.cfs[i].written.dom().finite() && a.cfs[i].deleted.finite());
            let c = cmds.last();
            assert(a.cfs[i].put(c.key, c.val).written.dom() =~= a.cfs[i].written.dom().insert(
                c.key,
            ));
            assert(a.cfs[i].del(c.key).written.dom() =~= a.cfs[i].written.dom().remove(c.key));
        }
    }
}

pub(crate) proof fn known_is_fit(w: EngineStoreServerWrap, id: u64)
    ensures
        region::pending_finite(known(w, id)),
        known(w, id).cfs.len() == 3,
        engine_store::with_entry(w.engine_store_server@.regions, id)[id] == known(w, id),
        forall|t: ColumnFamilyType, key: Seq<u8>| #[trigger]
            in_memory(known(w, id), t, key) == held(w, id, t, key),
{
    if w.engine_store_server@.regions.contains_key(id) {
        store_is_finite(w.engine_store_server, id);
    } else {
        let v = MockRegionView::spec_new(RegionView::spec_default());
        assert forall|i: int| 0 <= i < 3 implies (#[trigger] v.cfs[i]).written.dom().finite()
            && v.cfs[i].deleted.finite() by {
            assert(v.cfs[i].written.dom() =~= Set::empty());
        }
    }
}

/// Writes were handed to a store, which could take them.
pub open spec fn wrote(
    w: &mut EngineStoreServerWrap,
    cmds: &WriteCmdsView,
    header: RaftCmdHeader,
    r: (EngineStoreApplyRes, Vec<DbWrite>),
) -> bool {
    &&& forall|j: int| 0 <= j < cmds@.len() ==> (#[trigger] cmds@[j]).cf < 3
    &&& call_ensures(EngineStoreServerWrap::handle_write_raft_cmd, (w, cmds, header), r)
}

/// After writes, a key that one of them is about has in memory what the last of those said: its
/// value, or none where it was deleted.
pub proof fn last_write_stands(
    w: &mut EngineStoreServerWrap,
    cmds: &WriteCmdsView,
    header: RaftCmdHeader,
    r: (EngineStoreApplyRes, Vec<DbWrite>),
    i: int,
    t: ColumnFamilyType,
)
    requires
        wrote(w, cmds, header, r),
        0 <= i < cmds@.len(),
        cmds@[i].cf == place_of(t),
        forall|j: int| i < j < cmds@.len() ==> !is_about(#[trigger] cmds@[j], t, cmds@[i].key),
    ensures
        cmds@[i].cmd_type == WriteCmdType::Put ==> held(
            *final(w),
            header.region_id,
            t,
            cmds@[i].key,
        ) == Some(cmds@[i].val),
        cmds@[i].cmd_type == WriteCmdType::Del ==> held(
            *final(w),
            header.region_id,
            t,
            cmds@[i].key,
        ) is None,
{
    known_is_fit(*old(w), header.region_id);
    written_effect(known(*old(w), header.region_id), cmds@, t, cmds@[i].key, i);
}

/// After writes, a key that none of them is about has the value that it had.
pub proof fn unwritten_keys_stay(
    w: &mut EngineStoreServerWrap,
    cmds: &WriteCmdsView,
    header: RaftCmdHeader,
    r: (EngineStoreApplyRes, Vec<DbWrite>),
    t: ColumnFamilyType,
    key: Seq<u8>,
)
    requires
        wrote(w, cmds, header, r),
        forall|j: int| 0 <= j < cmds@.len() ==> !is_about(#[trigger] cmds@[j], t, key),
    ensures
        held(*final(w), header.region_id, t, key) == held(*old(w), header.region_id, t, key),
{
    known_is_fit(*old(w), header.region_id);
    written_effect(known(*old(w), header.region_id), cmds@, t, key, -1);
}

/// Writes do not ask for the proxy's state to be made durable. They count as applied in their
/// region, and change nothing else of it but keys, and nothing of other regions.
pub proof fn writes_touch_their_region(
    w: &mut EngineStoreServerWrap,
    cmds: &WriteCmdsView,
    header: RaftCmdHeader,
    r: (EngineStoreApplyRes, Vec<DbWrite>),
    other: u64,
)
    requires
        wrote(w, cmds, header, r),
    ensures
        r.0 == EngineStoreApplyRes::NoPersist,
        same_store(old(w).engine_store_server@, final(w).engine_store_server@),
        other != header.region_id ==> same_region(
            old(w).engine_store_server@,
            final(w).engine_store_server@,
            other,
        ),
        final(w).maybe_proxy_helper == old(w).maybe_proxy_helper,
        final(w).cluster_ptr == old(w).cluster_ptr,
        ({
            let m = final(w).engine_store_server@.regions;
            let now = m[header.region_id];
            &&& m.contains_key(header.region_id)
            &&& now.apply_state.applied_index == header.index
            &&& now.applied_term == header.term
            &&& same_but_applied(known(*old(w), header.region_id), now)
            &&& now.apply_state.truncated_state == known(
                *old(w),
                header.region_id,
            ).apply_state.truncated_state
        }),
{
    known_is_fit(*old(w), header.region_id);
    last_about(cmds@, ColumnFamilyType::Lock, Seq::empty());
    let k = choose|k: int|
        {
            &&& -1 <= k < cmds@.len()
            &&& k >= 0 ==> is_about(cmds@[k], ColumnFamilyType::Lock, Seq::empty())
            &&& #[trigger] none_after(cmds@, k, ColumnFamilyType::Lock, Seq::empty())
        };
    written_effect(known(*old(w), header.region_id), cmds@, ColumnFamilyType::Lock, Seq::empty(), k);
}

/// Where the proxy asks for flushes, writes stay in memory and the region stays in step with the
/// engine, to which nothing is written. Otherwise they reach the engine at once: it then has
/// what is in memory, and nothing is pending.
pub proof fn writes_are_durable_in_time(
    w: &mut EngineStoreServerWrap,
    cmds: &WriteCmdsView,
    header: RaftCmdHeader,
    r: (EngineStoreApplyRes, Vec<DbWrite>),
    disk: Disk,
    t: ColumnFamilyType,
    key: Seq<u8>,
)
    requires
        wrote(w, cmds, header, r),
        in_step(known(*old(w), header.region_id), disk),
    ensures
        ({
            let now = final(w).engine_store_server@.regions[header.region_id];
            let after = after_writes(disk, r.1@);
            &&& in_step(now, after)
            &&& old(w).engine_store_server@.proxy_compat ==> r.1@.len() == 0 && after == disk
            &&& !old(w).engine_store_server@.proxy_compat ==> {
                &&& !is_pending(now, t, key)
                &&& on_disk(after, t, key) == in_memory(now, t, key)
            }
        }),
{
    let id = header.region_id;
    let was = known(*old(w), id);
    known_is_fit(*old(w), id);
    written_is_finite(was, cmds@);
    written_keeps_step(was, cmds@, disk);
    let v = engine_store::written(was, cmds@).applied(header.index, header.term);
    let now = final(w).engine_store_server@.regions[id];
    let after = after_writes(disk, r.1@);
    same_writes(disk, r.1@);
    assert(in_step(v, disk)) by {
        assert forall|u: ColumnFamilyType, k: Seq<u8>| #[trigger] keeps_step(v, disk, u, k) by {
            assert(keeps_step(engine_store::written(was, cmds@), disk, u, k));
        }
    }
    if old(w).engine_store_server@.proxy_compat {
        assert(after == disk);
    } else {
        assert forall|u: ColumnFamilyType, k: Seq<u8>| #[trigger] keeps_step(now, after, u, k)
            && !is_pending(now, u, k) by {
            flush_effect(v, disk, u, k);
            assert(keeps_step(v, disk, u, k));
        }
        assert(keeps_step(now, after, t, key));
    }
}

/// A flush that the proxy asks for always succeeds. It leaves the keys of the region in memory
/// and nothing of it pending, and what was pending reaches the engine; a region that is not
/// there needs no flush. Nothing else changes.
pub proof fn flushes_succeed(
    w: &mut EngineStoreServerWrap,
    region_id: u64,
    try_until_succeed: u8,
    index: u64,
    term: u64,
    r: (u8, Vec<DbWrite>),
    disk: Disk,
    t: ColumnFamilyType,
    key: Seq<u8>,
    other: u64,
)
    requires
        call_ensures(
            EngineStoreServerWrap::ffi_try_flush_data,
            (w, region_id, try_until_succeed, index, term),
            r,
        ),
    ensures
        r.0 == 1,
        ({
            let s = old(w).engine_store_server@;
            let n = final(w).engine_store_server@;
            &&& same_store(s, n)
            &&& other != region_id ==> same_region(s, n, other)
            &&& s.regions.contains_key(region_id) == n.regions.contains_key(region_id)
            &&& s.regions.contains_key(region_id) ==> {
                &&& is_flushed(
                    s.regions[region_id],
                    n.regions[region_id],
                    disk,
                    after_writes(disk, r.1@),
                    t,
                    key,
                )
                &&& unchanged_besides_keys(s.regions[region_id], n.regions[region_id])
            }
            &&& !s.regions.contains_key(region_id) ==> r.1@.len() == 0
        }),
        final(w).maybe_proxy_helper == old(w).maybe_proxy_helper,
        final(w).cluster_ptr == old(w).cluster_ptr,
{
    let s = old(w).engine_store_server@;
    if s.regions.contains_key(region_id) {
        store_is_finite(old(w).engine_store_server, region_id);
        same_writes(disk, r.1@);
        flush_effect(s.regions[region_id], disk, t, key);
        if in_step(s.regions[region_id], disk) {
            assert(keeps_step(s.regions[region_id], disk, t, key));
        }
    }
}

/// The flush of a region of a store is the flush of that region and touches no other one.
pub proof fn region_is_flushed(
    s: &mut EngineStoreServer,
    region_id: u64,
    r: Vec<DbWrite>,
    disk: Disk,
    t: ColumnFamilyType,
    key: Seq<u8>,
    other: u64,
)
    requires
        old(s)@.regions.contains_key(region_id),
        call_ensures(EngineStoreServer::write_to_db_by_region_id, (s, region_id), r),
    ensures
        same_store(old(s)@, final(s)@),
        other != region_id ==> same_region(old(s)@, final(s)@, other),
        final(s)@.regions.contains_key(region_id),
        is_flushed(
            old(s)@.regions[region_id],
            final(s)@.regions[region_id],
            disk,
            after_writes(disk, r@),
            t,
            key,
        ),
        unchanged_besides_keys(old(s)@.regions[region_id], final(s)@.regions[region_id]),
{
    store_is_finite(*old(s), region_id);
    same_writes(disk, r@);
    flush_effect(old(s)@.regions[region_id], disk, t, key);
    if in_step(old(s)@.regions[region_id], disk) {
        assert(keeps_step(old(s)@.regions[region_id], disk, t, key));
    }
}

/// Writes that stay in memory are in the engine after the next flush: what the last write of a
/// key said is then what the engine has.
pub proof fn flushed_writes_are_durable(
    w: &mut EngineStoreServerWrap,
    cmds: &WriteCmdsView,
    header: RaftCmdHeader,
    r: (EngineStoreApplyRes, Vec<DbWrite>),
    f: &mut EngineStoreServerWrap,
    flushed: (u8, Vec<DbWrite>),
    disk: Disk,
    i: int,
    t: ColumnFamilyType,
)
    requires
        wrote(w, cmds, header, r),
        old(w).engine_store_server@.proxy_compat,
        old(f).engine_store_server@ == final(w).engine_store_server@,
        call_ensures(
            EngineStoreServerWrap::ffi_try_flush_data,
            (f, header.region_id, 0u8, header.index, header.term),
            flushed,
        ),
        0 <= i < cmds@.len(),
        cmds@[i].cf == place_of(t),
        forall|j: int| i < j < cmds@.len() ==> !is_about(#[trigger] cmds@[j], t, cmds@[i].key),
    ensures
        cmds@[i].cmd_type == WriteCmdType::Put ==> on_disk(
            after_writes(disk, flushed.1@),
            t,
            cmds@[i].key,
        ) == Some(cmds@[i].val),
        cmds@[i].cmd_type == WriteCmdType::Del ==> on_disk(
            after_writes(disk, flushed.1@),
            t,
            cmds@[i].key,
        ) is None,
{
    known_is_fit(*old(w), header.region_id);
    written_effect(known(*old(w), header.region_id), cmds@, t, cmds@[i].key, i);
    store_is_finite(old(f).engine_store_server, header.region_id);
    same_writes(disk, flushed.1@);
    flush_effect(old(f).engine_store_server@.regions[header.region_id], disk, t, cmds@[i].key);
}

/// No key that a split moves is lost to the engine: in the region that was split it is written
/// at once, and in each other region that the split results in it has still to be written, with
/// its value.
pub proof fn split_keys_are_durable_in_time(
    w: &mut EngineStoreServerWrap,
    req: &AdminRequest,
    resp: &AdminResponse,
    header: RaftCmdHeader,
    r: (EngineStoreApplyRes, Vec<DbWrite>),
    i: int,
    disk: Disk,
    key: Seq<u8>,
)
    requires
        admin_laws::handled(w, req, resp, header, r),
        req.cmd_type == AdminCmdType::BatchSplit,
        forall|a: int, b: int|
            0 <= a < b < resp.splits@.len() ==> (#[trigger] resp.splits@[a]).id != (
            #[trigger] resp.splits@[b]).id,
        0 <= i < resp.splits@.len(),
        admin_laws::lies_in(key, resp.splits@[i].start_key@, resp.splits@[i].end_key@),
        !admin_laws::is_own_key(key),
        in_memory(
            old(w).engine_store_server@.regions[header.region_id],
            ColumnFamilyType::Default,
            key,
        ) is Some,
    ensures
        ({
            let was = old(w).engine_store_server@.regions[header.region_id];
            let now = final(w).engine_store_server@.regions[resp.splits@[i].id];
            let value = in_memory(was, ColumnFamilyType::Default, key);
            &&& in_memory(now, ColumnFamilyType::Default, key) == value
            &&& resp.splits@[i].id == header.region_id ==> on_disk(
                after_writes(disk, r.1@),
                ColumnFamilyType::Default,
                key,
            ) == value
            &&& resp.splits@[i].id != header.region_id ==> {
                &&& now.cfs[2].written.contains_key(key)
                &&& Some(now.cfs[2].written[key]) == value
                &&& !now.cfs[2].deleted.contains(key)
            }
        }),
{
    let s = old(w).engine_store_server@;
    let id = header.region_id;
    let was = s.regions[id];
    store_is_finite(old(w).engine_store_server, id);
    admin_laws::keys_are_split(w, req, resp, header, r, i, key);
    let metas = resp@.splits;
    let ids = engine_store::ids_of(metas);
    assert forall|a: int, b: int| 0 <= a < b < ids.len() implies ids[a] != ids[b] by {
        assert(resp.splits@[a].id != resp.splits@[b].id);
    }
    let placed = engine_store::split_metas(s.regions, id, s.id, metas);
    assert(ids[i] == metas[i].id);
    engine_store_laws::split_metas_at(s.regions, id, s.id, metas, i);
    if ids.contains(id) {
        let j = ids.index_of(id);
        assert(metas[j].id == id);
        engine_store_laws::split_metas_at(s.regions, id, s.id, metas, j);
    } else {
        engine_store_laws::split_metas_elsewhere(s.regions, id, s.id, metas, id);
    }
    let kvs = placed[id].cfs[2].data;
    assert(kvs == was.cfs[2].data);
    let emptied = placed.insert(id, placed[id].emptied());
    engine_store_laws::spread_at(emptied, kvs, ids, i);
    admin_laws::what_moves(metas[i], kvs, key);
    let moved = region::moved(metas[i], kvs);
    assert(region::value_of(moved, key) is Some);
    let before = emptied[metas[i].id].put_all(2, moved);
    assert(before.cfs[2].written.contains_key(key) && before.cfs[2].written[key] == kvs[key]);
    assert(!before.cfs[2].deleted.contains(key));
    if metas[i].id == id {
        assert forall|x: int| 0 <= x < 3 implies (#[trigger] before.cfs[x]).written.dom().finite()
            && before.cfs[x].deleted.finite() by {
            assert(was.cfs[x].written.dom().finite() && was.cfs[x].deleted.finite());
            let d = moved.dom();
            assert(d.subset_of(kvs.dom()));
            bytes_map::map_of_keys(
                old(w).engine_store_server.kvstore@[id].data@[2].pairs(),
            );
            assert(kvs.dom().finite());
            vstd::set_lib::lemma_set_subset_finite(kvs.dom(), d);
            assert(was.cfs[x].put_all(moved).written.dom() =~= was.cfs[x].written.dom().union(d));
        }
        same_writes(disk, r.1@);
        flush_effect(before, disk, ColumnFamilyType::Default, key);
    }
}

} // verus!
