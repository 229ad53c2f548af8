//! What snapshots and sorted files do to an engine store.

use vstd::prelude::*;

use crate::admin_laws::{same_region, same_store};
use crate::bytes_map;
use crate::engine_store;
use crate::engine_store::{EngineStoreServerWrap, PrehandledSnapshot};
use crate::ffi::{ColumnFamilyType, EngineStoreApplyRes, RaftCmdHeader};
use crate::messages::Region;
use crate::region;
use crate::region::{DbWrite, Disk, MockRegionView};
use crate::sst_reader;
use crate::sst_reader::SstData;
use crate::store_laws;
use crate::store_laws::{
    after_writes, held, in_memory, in_step, is_pending, keeps_step, known, on_disk, place_of,
    same_but_applied, unchanged_at, unchanged_besides_keys,
};

verus! {

/// The `j`th pair of the `i`th file is about a key.
pub open spec fn brings(
    snaps: Seq<SstData>,
    i: int,
    j: int,
    t: ColumnFamilyType,
    key: Seq<u8>,
) -> bool {
    &&& 0 <= i < snaps.len()
    &&& 0 <= j < snaps[i].kvs@.len()
    &&& snaps[i].type_ == t
    &&& snaps[i].kvs@[j].0@ == key
}

/// One pair of the files stands before another one.
pub open spec fn before(i: int, j: int, a: int, b: int) -> bool {
    i < a || i == a && j < b
}

/// The `j`th pair of the `i`th file is the last one about its key.
pub open spec fn brings_last(
    snaps: Seq<SstData>,
    i: int,
    j: int,
    t: ColumnFamilyType,
    key: Seq<u8>,
) -> bool {
    &&& brings(snaps, i, j, t, key)
    &&& forall|a: int, b: int| before(i, j, a, b) ==> !#[trigger] brings(snaps, a, b, t, key)
}

/// No pair of the files is about a key.
pub open spec fn brings_none(snaps: Seq<SstData>, t: ColumnFamilyType, key: Seq<u8>) -> bool {
    forall|a: int, b: int| !#[trigger] brings(snaps, a, b, t, key)
}

pub(crate) proof fn last_pair(s: Seq<(Seq<u8>, Seq<u8>)>, j: int, key: Seq<u8>)
    requires
        0 <= j < s.len(),
        s[j].0 == key,
        forall|b: int| j < b < s.len() ==> (#[trigger] s[b]).0 != key,
    ensures
        bytes_map::map_of(s).contains_key(key),
        bytes_map::map_of(s)[key] == s[j].1,
    decreases s.len(),
{
    if j < s.len() - 1 {
        assert(s[s.len() - 1].0 != key);
        assert(forall|b: int| 0 <= b < s.drop_last().len() ==> s.drop_last()[b] == s[b]);
        last_pair(s.drop_last(), j, key);
    }
}

pub(crate) proof fn no_pair(s: Seq<(Seq<u8>, Seq<u8>)>, key: Seq<u8>)
    requires
        forall|b: int| 0 <= b < s.len() ==> (#[trigger] s[b]).0 != key,
    ensures
        !bytes_map::map_of(s).contains_key(key),
    decreases s.len(),
{
    if s.len() > 0 {
        assert(s[s.len() - 1].0 != key);
        assert(forall|b: int| 0 <= b < s.drop_last().len() ==> s.drop_last()[b] == s[b]);
        no_pair(s.drop_last(), key);
    }
}

spec fn done(v: MockRegionView, snaps: Seq<SstData>) -> MockRegionView {
    engine_store::ingested(v, sst_reader::sst_views(snaps))
}

proof fn done_step(v: MockRegionView, snaps: Seq<SstData>)
    requires
        snaps.len() > 0,
    ensures
        done(v, snaps) == done(v, snaps.drop_last()).put_each(
            snaps.last().type_.code() as int,
            bytes_map::pair_views(snaps.last().kvs@),
        ),
        snaps.last().type_.code() == place_of(snaps.last().type_),
{
    let w = sst_reader::sst_views(snaps);
    assert(w.drop_last() =~= sst_reader::sst_views(snaps.drop_last()));
    assert(w.last() == snaps.last()@);
}

proof fn done_shape(v: MockRegionView, snaps: Seq<SstData>)
    requires
        v.cfs.len() == 3,
    ensures
        done(v, snaps).cfs.len() == 3,
        unchanged_besides_keys(v, done(v, snaps)),
        region::pending_finite(v) ==> region::pending_finite(done(v, snaps)),
    decreases snaps.len(),
{
    if snaps.len() > 0 {
        let p = snaps.drop_last();
        done_step(v, snaps);
        done_shape(v, p);
        let kvs = bytes_map::pair_views(snaps.last().kvs@);
        bytes_map::map_of_keys(kvs);
        if region::pending_finite(v) {
            let a = done(v, p);
            let b = done(v, snaps);
            let m = bytes_map::map_of(kvs);
            assert forall|i: int| 0 <= i < 3 implies (#[trigger] b.cfs[i]).written.dom().finite()
                && b.cfs[i].deleted.finite() by {
                assert(a.cfs[i].written.dom().finite() && a.cfs[i].deleted.finite());
                assert(a.cfs[i].put_all(m).written.dom() =~= a.cfs[i].written.dom().union(m.dom()));
            }
        }
    }
}

proof fn done_at(
    v: MockRegionView,
    snaps: Seq<SstData>,
    i: int,
    j: int,
    t: ColumnFamilyType,
    key: Seq<u8>,
)
    requires
        v.cfs.len() == 3,
        brings_last(snaps, i, j, t, key),
    ensures
        in_memory(done(v, snaps), t, key) == Some(snaps[i].kvs@[j].1@),
        done(v, snaps).cfs[place_of(t)].written.contains_key(key),
        done(v, snaps).cfs[place_of(t)].written[key] == snaps[i].kvs@[j].1@,
        !done(v, snaps).cfs[place_of(t)].deleted.contains(key),
    decreases snaps.len(),
{
    let p = snaps.drop_last();
    let n = snaps.len() - 1;
    let kvs = bytes_map::pair_views(snaps.last().kvs@);
    done_step(v, snaps);
    done_shape(v, p);
    if i == n {
        assert forall|b: int| j < b < kvs.len() implies (#[trigger] kvs[b]).0 != key by {
            assert(before(i, j, n, b));
            assert(!brings(snaps, n, b, t, key));
        }
        last_pair(kvs, j, key);
    } else {
        assert(brings(p, i, j, t, key));
        assert forall|a: int, b: int| before(i, j, a, b) implies !#[trigger] brings(
            p,
            a,
            b,
            t,
            key,
        ) by {
            assert(!brings(snaps, a, b, t, key));
        }
        done_at(v, p, i, j, t, key);
        if snaps.last().type_ == t {
            assert forall|b: int| 0 <= b < kvs.len() implies (#[trigger] kvs[b]).0 != key by {
                assert(before(i, j, n, b));
                assert(!brings(snaps, n, b, t, key));
            }
            no_pair(kvs, key);
        }
    }
}

proof fn done_elsewhere(v: MockRegionView, snaps: Seq<SstData>, t: ColumnFamilyType, key: Seq<u8>)
    requires
        v.cfs.len() == 3,
        brings_none(snaps, t, key),
    ensures
        unchanged_at(v, done(v, snaps), place_of(t), key),
    decreases snaps.len(),
{
    if snaps.len() > 0 {
        let p = snaps.drop_last();
        let n = snaps.len() - 1;
        let kvs = bytes_map::pair_views(snaps.last().kvs@);
        done_step(v, snaps);
        done_shape(v, p);
        assert forall|a: int, b: int| !#[trigger] brings(p, a, b, t, key) by {
            assert(!brings(snaps, a, b, t, key));
        }
        done_elsewhere(v, p, t, key);
        if snaps.last().type_ == t {
            assert forall|b: int| 0 <= b < kvs.len() implies (#[trigger] kvs[b]).0 != key by {
                assert(!brings(snaps, n, b, t, key));
            }
            no_pair(kvs, key);
        }
    }
}

proof fn done_keeps_step(v: MockRegionView, snaps: Seq<SstData>, disk: Disk)
    requires
        in_step(v, disk),
    ensures
        in_step(done(v, snaps), disk),
    decreases snaps.len(),
{
    if snaps.len() > 0 {
        let p = snaps.drop_last();
        done_step(v, snaps);
        done_shape(v, p);
        done_shape(v, snaps);
        done_keeps_step(v, p, disk);
        let a = done(v, p);
        let b = done(v, snaps);
        assert forall|t: ColumnFamilyType, key: Seq<u8>| #[trigger] keeps_step(b, disk, t, key) by {
            assert(keeps_step(a, disk, t, key));
        }
    }
}

/// A region that is built from a snapshot holds of each key that the files bring the last value
/// that they bring.
pub proof fn snapshot_brings_its_keys(
    w: &mut EngineStoreServerWrap,
    meta: Region,
    snaps: &Vec<SstData>,
    index: u64,
    term: u64,
    r: PrehandledSnapshot,
    i: int,
    j: int,
    t: ColumnFamilyType,
    key: Seq<u8>,
)
    requires
        call_ensures(
            EngineStoreServerWrap::ffi_pre_handle_snapshot,
            (w, meta, snaps, index, term),
            r,
        ),
        brings_last(snaps@, i, j, t, key),
    ensures
        r.region is Some,
        in_memory(r.region->0@, t, key) == Some(snaps@[i].kvs@[j].1@),
{
    done_at(MockRegionView::spec_new(meta@), snaps@, i, j, t, key);
}

/// A region that is built from a snapshot holds no key that the files do not bring.
pub proof fn snapshot_brings_nothing_else(
    w: &mut EngineStoreServerWrap,
    meta: Region,
    snaps: &Vec<SstData>,
    index: u64,
    term: u64,
    r: PrehandledSnapshot,
    t: ColumnFamilyType,
    key: Seq<u8>,
)
    requires
        call_ensures(
            EngineStoreServerWrap::ffi_pre_handle_snapshot,
            (w, meta, snaps, index, term),
            r,
        ),
        brings_none(snaps@, t, key),
    ensures
        r.region is Some,
        in_memory(r.region->0@, t, key) is None,
{
    done_elsewhere(MockRegionView::spec_new(meta@), snaps@, t, key);
}

/// A region that is built from a snapshot has the metadata that came with it, and counts as
/// applied and cut off where the snapshot was taken. Building it puts nothing into the store;
/// it is counted for that region, and the count starts again once it is full.
pub proof fn snapshot_is_built_aside(
    w: &mut EngineStoreServerWrap,
    meta: Region,
    snaps: &Vec<SstData>,
    index: u64,
    term: u64,
    r: PrehandledSnapshot,
    other: u64,
)
    requires
        call_ensures(
            EngineStoreServerWrap::ffi_pre_handle_snapshot,
            (w, meta, snaps, index, term),
            r,
        ),
    ensures
        ({
            let v = r.region->0@;
            &&& r.region is Some
            &&& v.region == meta@
            &&& v.apply_state.applied_index == index
            &&& v.applied_term == term
            &&& v.apply_state.truncated_state.index == index
            &&& v.apply_state.truncated_state.term == term
        }),
        ({
            let s = old(w).engine_store_server@;
            let n = final(w).engine_store_server@;
            let was = s.region_states;
            let now = n.region_states;
            &&& s.regions == n.regions
            &&& s.pages == n.pages
            &&& s.id == n.id && s.engines == n.engines && s.proxy_compat == n.proxy_compat
            &&& s.mock_cfg == n.mock_cfg
            &&& now.contains_key(meta@.id)
            &&& was.contains_key(meta@.id) ==> {
                &&& now[meta@.id].pre_handle_count as int == (was[meta@.id].pre_handle_count + 1)
                    % 0x1_0000_0000_0000_0000
                &&& now[meta@.id].fast_add_peer_count == was[meta@.id].fast_add_peer_count
            }
            &&& !was.contains_key(meta@.id) ==> {
                &&& now[meta@.id].pre_handle_count == 1
                &&& now[meta@.id].fast_add_peer_count == 0
            }
            &&& other != meta@.id ==> {
                &&& now.contains_key(other) == was.contains_key(other)
                &&& was.contains_key(other) ==> now[other] == was[other]
            }
        }),
        final(w).maybe_proxy_helper == old(w).maybe_proxy_helper,
        final(w).cluster_ptr == old(w).cluster_ptr,
{
    done_shape(MockRegionView::spec_new(meta@), snaps@);
}

/// Applying a snapshot puts the region that was built from it into the store, under its number
/// and in place of an earlier one, and takes it from where it was kept. What was pending of it
/// reaches the engine, and no other region changes.
pub proof fn snapshot_enters_the_store(
    w: &mut EngineStoreServerWrap,
    snap: &mut PrehandledSnapshot,
    r: Vec<DbWrite>,
    disk: Disk,
    t: ColumnFamilyType,
    key: Seq<u8>,
    other: u64,
)
    requires
        old(snap).region is Some,
        call_ensures(EngineStoreServerWrap::ffi_apply_pre_handled_snapshot, (w, snap), r),
    ensures
        final(snap).region is None,
        ({
            let v = old(snap).region->0@;
            let s = old(w).engine_store_server@;
            let n = final(w).engine_store_server@;
            &&& same_store(s, n)
            &&& n.regions.contains_key(v.region.id)
            &&& unchanged_besides_keys(v, n.regions[v.region.id])
            &&& store_laws::is_flushed(
                v,
                n.regions[v.region.id],
                disk,
                after_writes(disk, r@),
                t,
                key,
            )
            &&& other != v.region.id ==> same_region(s, n, other)
        }),
        final(w).maybe_proxy_helper == old(w).maybe_proxy_helper,
        final(w).cluster_ptr == old(w).cluster_ptr,
{
    let v = old(snap).region->0@;
    store_laws::region_is_finite(old(snap).region->0);
    store_laws::same_writes(disk, r@);
    store_laws::flush_effect(v, disk, t, key);
    if in_step(v, disk) {
        assert(keeps_step(v, disk, t, key));
    }
}

/// A snapshot that was built and applied is in memory and in the engine: of each key that its
/// files bring the store holds the last value that they bring, and so does the engine.
pub proof fn applied_snapshot_is_durable(
    w: &mut EngineStoreServerWrap,
    meta: Region,
    snaps: &Vec<SstData>,
    index: u64,
    term: u64,
    built: PrehandledSnapshot,
    a: &mut EngineStoreServerWrap,
    snap: &mut PrehandledSnapshot,
    r: Vec<DbWrite>,
    disk: Disk,
    i: int,
    j: int,
    t: ColumnFamilyType,
    key: Seq<u8>,
)
    requires
        call_ensures(
            EngineStoreServerWrap::ffi_pre_handle_snapshot,
            (w, meta, snaps, index, term),
            built,
        ),
        *old(snap) == built,
        call_ensures(EngineStoreServerWrap::ffi_apply_pre_handled_snapshot, (a, snap), r),
        brings_last(snaps@, i, j, t, key),
    ensures
        held(*final(a), meta@.id, t, key) == Some(snaps@[i].kvs@[j].1@),
        on_disk(after_writes(disk, r@), t, key) == Some(snaps@[i].kvs@[j].1@),
{
    let fresh = MockRegionView::spec_new(meta@);
    let v = old(snap).region->0@;
    done_at(fresh, snaps@, i, j, t, key);
    done_shape(fresh, snaps@);
    store_laws::region_is_finite(old(snap).region->0);
    store_laws::same_writes(disk, r@);
    store_laws::flush_effect(v, disk, t, key);
}

/// Files that are put into a region bring of each of their keys the last value that they
/// bring, in memory and in the engine.
pub proof fn files_bring_their_keys(
    w: &mut EngineStoreServerWrap,
    snaps: &Vec<SstData>,
    header: RaftCmdHeader,
    r: (EngineStoreApplyRes, Vec<DbWrite>),
    disk: Disk,
    i: int,
    j: int,
    t: ColumnFamilyType,
    key: Seq<u8>,
)
    requires
        call_ensures(EngineStoreServerWrap::ffi_handle_ingest_sst, (w, snaps, header), r),
        brings_last(snaps@, i, j, t, key),
    ensures
        held(*final(w), header.region_id, t, key) == Some(snaps@[i].kvs@[j].1@),
        on_disk(after_writes(disk, r.1@), t, key) == Some(snaps@[i].kvs@[j].1@),
{
    let was = known(*old(w), header.region_id);
    store_laws::known_is_fit(*old(w), header.region_id);
    done_at(was, snaps@, i, j, t, key);
    done_shape(was, snaps@);
    let v = done(was, snaps@).applied(header.index, header.term).truncated(
        header.index,
        header.term,
    );
    store_laws::same_writes(disk, r.1@);
    store_laws::flush_effect(v, disk, t, key);
}

/// Files that are put into a region leave the keys that they do not bring.
pub proof fn files_leave_other_keys(
    w: &mut EngineStoreServerWrap,
    snaps: &Vec<SstData>,
    header: RaftCmdHeader,
    r: (EngineStoreApplyRes, Vec<DbWrite>),
    t: ColumnFamilyType,
    key: Seq<u8>,
)
    requires
        call_ensures(EngineStoreServerWrap::ffi_handle_ingest_sst, (w, snaps, header), r),
        brings_none(snaps@, t, key),
    ensures
        held(*final(w), header.region_id, t, key) == held(*old(w), header.region_id, t, key),
{
    let was = known(*old(w), header.region_id);
    store_laws::known_is_fit(*old(w), header.region_id);
    done_elsewhere(was, snaps@, t, key);
    done_shape(was, snaps@);
}

/// Files that are put into a region ask for the proxy's state to be made durable. The region
/// counts as applied and cut off there, nothing of it is pending, and where it was in step with
/// the engine it is so again. Nothing else changes.
pub proof fn files_make_durable(
    w: &mut EngineStoreServerWrap,
    snaps: &Vec<SstData>,
    header: RaftCmdHeader,
    r: (EngineStoreApplyRes, Vec<DbWrite>),
    disk: Disk,
    t: ColumnFamilyType,
    key: Seq<u8>,
    other: u64,
)
    requires
        call_ensures(EngineStoreServerWrap::ffi_handle_ingest_sst, (w, snaps, header), r),
    ensures
        r.0 == EngineStoreApplyRes::Persist,
        ({
            let s = old(w).engine_store_server@;
            let n = final(w).engine_store_server@;
            let now = n.regions[header.region_id];
            let after = after_writes(disk, r.1@);
            &&& same_store(s, n)
            &&& other != header.region_id ==> same_region(s, n, other)
            &&& n.regions.contains_key(header.region_id)
            &&& same_but_applied(known(*old(w), header.region_id), now)
            &&& now.apply_state.applied_index == header.index
            &&& now.applied_term == header.term
            &&& now.apply_state.truncated_state.index == header.index
            &&& now.apply_state.truncated_state.term == header.term
            &&& !is_pending(now, t, key)
            &&& in_step(known(*old(w), header.region_id), disk) ==> on_disk(after, t, key)
                == in_memory(now, t, key)
        }),
        final(w).maybe_proxy_helper == old(w).maybe_proxy_helper,
        final(w).cluster_ptr == old(w).cluster_ptr,
{
    let was = known(*old(w), header.region_id);
    store_laws::known_is_fit(*old(w), header.region_id);
    done_shape(was, snaps@);
    let v = done(was, snaps@).applied(header.index, header.term).truncated(
        header.index,
        header.term,
    );
    store_laws::same_writes(disk, r.1@);
    store_laws::flush_effect(v, disk, t, key);
    if in_step(was, disk) {
        done_keeps_step(was, snaps@, disk);
        assert(keeps_step(done(was, snaps@), disk, t, key));
    }
}

} // verus!
