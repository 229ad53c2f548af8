//! What holds of snapshots on their way to the engine store.

use vstd::prelude::*;

use crate::cached_region::CachedRegionInfo;
use crate::command;
use crate::ffi::WriteCmdCf;
use crate::forwarder::{
    PostApply, Prehandled, ProxyForwarder, ProxyForwarderView, RegionChangeEvent,
};
use crate::messages::Region;
use crate::observer::TiFlashObserver;
use crate::snapshot;
use crate::snapshot::{CfFile, PreHandleRequest, PrehandleTask, SnapKey, Snapshot};

verus! {

/// A column family of a snapshot that holds something: its first file is not empty.
pub open spec fn filled(f: CfFile) -> bool {
    f.size@.len() > 0 && f.size@[0] > 0
}

/// How many files the first `n` column families of a snapshot have that hold something.
pub open spec fn paths_before(v: Seq<CfFile>, n: int) -> nat
    decreases n,
{
    if n <= 0 {
        0
    } else {
        paths_before(v, n - 1) + (if filled(v[n - 1]) {
            v[n - 1].file_paths@.len()
        } else {
            0nat
        })
    }
}

/// A column family goes by a name.
pub open spec fn goes_by(cf: WriteCmdCf, name: Seq<char>) -> bool {
    match cf {
        WriteCmdCf::Lock => name == "lock"@,
        WriteCmdCf::Write => name == "write"@,
        WriteCmdCf::Default => name == "default"@ || name.len() == 0,
    }
}

/// The file `j` of the column family `i` stands in its place, with its column family.
pub open spec fn file_stands(
    ssts: Seq<(String, WriteCmdCf)>,
    v: Seq<CfFile>,
    i: int,
    j: int,
) -> bool {
    let at = paths_before(v, i) + j;
    &&& at < ssts.len()
    &&& ssts[at].0@ == v[i].file_paths@[j]@
    &&& goes_by(ssts[at].1, v[i].cf@)
}

/// All files of a snapshot, each in its place and with its column family, but none of a column
/// family that holds nothing.
pub open spec fn has_all_files(ssts: Seq<(String, WriteCmdCf)>, v: Seq<CfFile>) -> bool {
    &&& ssts.len() == paths_before(v, v.len() as int)
    &&& forall|i: int, j: int|
        0 <= i < v.len() && filled(v[i]) && 0 <= j < v[i].file_paths@.len()
            ==> #[trigger] file_stands(ssts, v, i, j)
}

/// What is asked of the engine store for a snapshot: to build this region for this peer from all
/// files, as it was at the snapshot's place in the log.
pub open spec fn asks_for(
    req: PreHandleRequest,
    region: Region,
    peer_id: u64,
    key: SnapKey,
    snap: Snapshot,
) -> bool {
    &&& req.region@ == region@
    &&& req.peer_id == peer_id
    &&& req.index == key.idx
    &&& req.term == key.term
    &&& has_all_files(req.ssts@, snap.cf_files@)
}

proof fn files_counted(v: Seq<CfFile>, n: int)
    requires
        0 <= n <= v.len(),
    ensures
        snapshot::all_files(v.take(n)).len() == paths_before(v, n),
    decreases n,
{
    if n > 0 {
        files_counted(v, n - 1);
        assert(v.take(n).drop_last() =~= v.take(n - 1));
        assert(v.take(n).last() == v[n - 1]);
    }
}

proof fn file_in_place(v: Seq<CfFile>, n: int, i: int, j: int)
    requires
        0 <= i < n <= v.len(),
        snapshot::snapshot_fits(v),
        filled(v[i]),
        0 <= j < v[i].file_paths@.len(),
    ensures
        ({
            let fs = snapshot::all_files(v.take(n));
            let at = paths_before(v, i) + j;
            &&& at < fs.len()
            &&& fs[at].0 == v[i].file_paths@[j]@
            &&& goes_by(fs[at].1, v[i].cf@)
        }),
    decreases n,
{
    let p = snapshot::all_files(v.take(n - 1));
    let last = snapshot::files_of(v[n - 1]);
    files_counted(v, n - 1);
    assert(v.take(n).drop_last() =~= v.take(n - 1));
    assert(v.take(n).last() == v[n - 1]);
    assert(snapshot::all_files(v.take(n)) == p + last);
    if i < n - 1 {
        file_in_place(v, n - 1, i, j);
    } else {
        assert(snapshot::has_data(v[i]));
        assert(last[j] == (p + last)[p.len() + j]);
    }
}

proof fn views_have_all_files(ssts: Seq<(String, WriteCmdCf)>, v: Seq<CfFile>)
    requires
        snapshot::snapshot_fits(v),
        command::path_views(ssts) == snapshot::all_files(v),
    ensures
        has_all_files(ssts, v),
{
    let n = v.len() as int;
    let views = command::path_views(ssts);
    assert(v.take(n) =~= v);
    files_counted(v, n);
    assert(views.len() == ssts.len());
    assert forall|i: int, j: int|
        0 <= i < v.len() && filled(v[i]) && 0 <= j
            < v[i].file_paths@.len() implies #[trigger] file_stands(ssts, v, i, j) by {
        let at = paths_before(v, i) + j;
        file_in_place(v, n, i, j);
        assert(views[at].0 == ssts[at].0@);
        assert(views[at].1 == ssts[at].1);
    }
}

proof fn request_asks(
    req: PreHandleRequest,
    region: Region,
    peer_id: u64,
    key: SnapKey,
    snap: Snapshot,
)
    requires
        snapshot::snapshot_fits(snap.cf_files@),
        req@ == snapshot::request_for(region@, peer_id, key, snap.cf_files@),
    ensures
        asks_for(req, region, peer_id, key, snap),
{
    assert(req@.region == region@);
    assert(req@.ssts == command::path_views(req.ssts@));
    views_have_all_files(req.ssts@, snap.cf_files@);
}

/// No file of a snapshot is lost, and each keeps its place and its column family.
pub proof fn no_snapshot_file_lost(snap: &Snapshot, r: Vec<(String, WriteCmdCf)>)
    requires
        snapshot::snapshot_fits(snap.cf_files@),
        call_ensures(snapshot::retrieve_sst_files, (snap,), r),
    ensures
        has_all_files(r@, snap.cf_files@),
{
    views_have_all_files(r@, snap.cf_files@);
}

/// A region is on the fast way and has not passed its first snapshot: the fast way is switched on,
/// the region is remembered, and it is not initialized.
pub open spec fn waits_for_first(f: ProxyForwarderView, region_id: u64) -> bool {
    f.enable_fast_add_peer && f.cached.contains_key(region_id) && !f.cached[region_id].inited
}

/// Nothing but what is said of tasks and of their number has changed.
pub open spec fn same_but_tasks(a: ProxyForwarderView, b: ProxyForwarderView) -> bool {
    &&& a.store_id == b.store_id
    &&& a.enable_fast_add_peer == b.enable_fast_add_peer
    &&& a.cached == b.cached
    &&& a.apply_snap_pool == b.apply_snap_pool
    &&& a.pending_delete_ssts == b.pending_delete_ssts
}

/// A task is remembered in both, or in neither.
pub open spec fn same_task(
    a: Map<SnapKey, PrehandleTask>,
    b: Map<SnapKey, PrehandleTask>,
    key: SnapKey,
) -> bool {
    &&& a.contains_key(key) == b.contains_key(key)
    &&& a.contains_key(key) ==> a[key] == b[key]
}

/// The same is remembered of a region, or nothing in either.
pub open spec fn same_info(
    a: Map<u64, CachedRegionInfo>,
    b: Map<u64, CachedRegionInfo>,
    id: u64,
) -> bool {
    &&& a.contains_key(id) == b.contains_key(id)
    &&& a.contains_key(id) ==> a[id] == b[id]
}

/// A snapshot that is there is handed to the background, where there is one, unless its region
/// waits for its first one on the fast way. The task is remembered under the snapshot's key, and
/// counted; other tasks stay.
pub proof fn snapshots_are_started(
    f: &mut ProxyForwarder,
    region: &Region,
    peer_id: u64,
    key: &SnapKey,
    snap: Option<&Snapshot>,
    recv: u64,
    r: Option<PreHandleRequest>,
)
    requires
        call_ensures(ProxyForwarder::pre_apply_snapshot, (f, region, peer_id, key, snap, recv), r),
        snap is Some ==> snapshot::snapshot_fits(snap->0.cf_files@),
    ensures
        r is Some <==> snap is Some && old(f)@.apply_snap_pool && !waits_for_first(
            old(f)@,
            region.id,
        ),
        r is Some ==> asks_for(r->0, *region, peer_id, *key, *(snap->0)),
        r is Some ==> {
            &&& final(f)@.tracer.contains_key(*key)
            &&& final(f)@.tracer[*key].recv == recv
            &&& final(f)@.tracer[*key].peer_id == peer_id
            &&& final(f)@.pending_applies_count == old(f)@.pending_applies_count.wrapping_add(1)
        },
        forall|k: SnapKey|
            k != *key || r is None ==> #[trigger] same_task(
                old(f)@.tracer,
                final(f)@.tracer,
                k,
            ),
        r is None ==> final(f)@.pending_applies_count == old(f)@.pending_applies_count,
        same_but_tasks(old(f)@, final(f)@),
{
    if r is Some {
        request_asks(r->0, *region, peer_id, *key, *(snap->0));
    }
}

/// A snapshot that raft has applied is finished without the engine store only where its region
/// waited for its first one on the fast way, which it does no longer, or where there is none. A
/// task that was started for it is asked for, and forgotten; without one the engine store is
/// asked now.
pub proof fn snapshots_are_finished(
    f: &mut ProxyForwarder,
    region: &Region,
    peer_id: u64,
    key: &SnapKey,
    snap: Option<&Snapshot>,
    r: PostApply,
)
    requires
        call_ensures(ProxyForwarder::post_apply_snapshot, (f, region, peer_id, key, snap), r),
        snap is Some ==> snapshot::snapshot_fits(snap->0.cf_files@),
    ensures
        r is Finished <==> waits_for_first(old(f)@, region.id) || snap is None,
        r is AwaitTask <==> !(r is Finished) && old(f)@.tracer.contains_key(*key),
        r is AwaitTask ==> r->AwaitTask_0 == old(f)@.tracer[*key],
        r is AwaitTask ==> !final(f)@.tracer.contains_key(*key),
        r is PreHandle ==> asks_for(r->PreHandle_0, *region, peer_id, *key, *(snap->0)),
        !waits_for_first(final(f)@, region.id) || snap is None && !waits_for_first(
            old(f)@,
            region.id,
        ),
        !waits_for_first(old(f)@, region.id) ==> final(f)@.cached == old(f)@.cached,
        forall|id: u64|
            id != region.id ==> #[trigger] same_info(old(f)@.cached, final(f)@.cached, id),
        waits_for_first(old(f)@, region.id) ==> {
            let (was, now) = (old(f)@.cached[region.id], final(f)@.cached[region.id]);
            &&& final(f)@.cached.contains_key(region.id)
            &&& now.inited
            &&& now.snapshot_inflight == 0
            &&& now.fast_add_peer_start == 0
            &&& now.replicated_or_created == was.replicated_or_created
        },
        forall|k: SnapKey|
            k != *key || !(r is AwaitTask) ==> #[trigger] same_task(
                old(f)@.tracer,
                final(f)@.tracer,
                k,
            ),
        final(f)@.pending_applies_count == old(f)@.pending_applies_count,
        final(f)@.pending_delete_ssts == old(f)@.pending_delete_ssts,
        final(f)@.enable_fast_add_peer == old(f)@.enable_fast_add_peer,
        final(f)@.apply_snap_pool == old(f)@.apply_snap_pool,
{
    if r is PreHandle {
        request_asks(r->PreHandle_0, *region, peer_id, *key, *(snap->0));
    }
}

/// Where the fast way is switched off, no snapshot is passed over, whatever is remembered of its
/// region: with a background it is started there, and then its result is waited for; without one
/// the engine store is asked once raft has applied it.
pub proof fn no_snapshot_passed_over(
    f: &mut ProxyForwarder,
    g: &mut ProxyForwarder,
    region: &Region,
    peer_id: u64,
    key: &SnapKey,
    snap: &Snapshot,
    recv: u64,
    first: Option<PreHandleRequest>,
    second: PostApply,
)
    requires
        !old(f)@.enable_fast_add_peer,
        snapshot::snapshot_fits(snap.cf_files@),
        call_ensures(
            ProxyForwarder::pre_apply_snapshot,
            (f, region, peer_id, key, Some(snap), recv),
            first,
        ),
        old(g)@ == final(f)@,
        call_ensures(
            ProxyForwarder::post_apply_snapshot,
            (g, region, peer_id, key, Some(snap)),
            second,
        ),
    ensures
        first is Some == old(f)@.apply_snap_pool,
        !(second is Finished),
        old(f)@.apply_snap_pool ==> second == PostApply::AwaitTask(PrehandleTask { recv, peer_id }),
        !old(f)@.apply_snap_pool && !old(f)@.tracer.contains_key(*key) ==> second is PreHandle,
{
}

/// On the fast way a new peer's first snapshot does not reach the engine store, and its next one
/// does.
pub proof fn only_the_first_is_passed_over(
    a: &mut ProxyForwarder,
    b: &mut ProxyForwarder,
    c: &mut ProxyForwarder,
    region: &Region,
    peer_id: u64,
    key: &SnapKey,
    snap: &Snapshot,
    first: PostApply,
    second: PostApply,
)
    requires
        old(a)@.enable_fast_add_peer,
        !old(a)@.cached.contains_key(region.id),
        snapshot::snapshot_fits(snap.cf_files@),
        call_ensures(ProxyForwarder::on_role_change, (a, region, false), ()),
        old(b)@ == final(a)@,
        call_ensures(
            ProxyForwarder::post_apply_snapshot,
            (b, region, peer_id, key, Some(snap)),
            first,
        ),
        old(c)@ == final(b)@,
        call_ensures(
            ProxyForwarder::post_apply_snapshot,
            (c, region, peer_id, key, Some(snap)),
            second,
        ),
    ensures
        first is Finished,
        !(second is Finished),
{
}

/// Once the background has answered, its result is applied; where it failed, the engine store is
/// asked now. One task less is under way.
pub proof fn results_are_applied(
    f: &mut ProxyForwarder,
    region: &Region,
    peer_id: u64,
    key: &SnapKey,
    snap: &Snapshot,
    received: Option<usize>,
    r: Prehandled,
)
    requires
        snapshot::snapshot_fits(snap.cf_files@),
        call_ensures(
            ProxyForwarder::post_apply_snapshot_received,
            (f, region, peer_id, key, snap, received),
            r,
        ),
    ensures
        received is Some ==> r == Prehandled::Apply(received->0),
        received is None ==> r is PreHandle && asks_for(
            r->PreHandle_0,
            *region,
            peer_id,
            *key,
            *snap,
        ),
        final(f)@.pending_applies_count == old(f)@.pending_applies_count.wrapping_sub(1),
        final(f)@.tracer == old(f)@.tracer,
        same_but_tasks(old(f)@, final(f)@),
{
    if received is None {
        request_asks(r->PreHandle_0, *region, peer_id, *key, *snap);
    }
}

/// A snapshot that was started, asked for and answered leaves the forwarder as it was.
pub proof fn handled_snapshot_leaves_no_trace(
    a: &mut ProxyForwarder,
    b: &mut ProxyForwarder,
    c: &mut ProxyForwarder,
    region: &Region,
    peer_id: u64,
    key: &SnapKey,
    snap: &Snapshot,
    recv: u64,
    started: Option<PreHandleRequest>,
    asked: PostApply,
    received: Option<usize>,
    r: Prehandled,
)
    requires
        snapshot::snapshot_fits(snap.cf_files@),
        !old(a)@.tracer.contains_key(*key),
        call_ensures(
            ProxyForwarder::pre_apply_snapshot,
            (a, region, peer_id, key, Some(snap), recv),
            started,
        ),
        started is Some,
        old(b)@ == final(a)@,
        call_ensures(
            ProxyForwarder::post_apply_snapshot,
            (b, region, peer_id, key, Some(snap)),
            asked,
        ),
        old(c)@ == final(b)@,
        call_ensures(
            ProxyForwarder::post_apply_snapshot_received,
            (c, region, peer_id, key, snap, received),
            r,
        ),
    ensures
        asked == PostApply::AwaitTask(PrehandleTask { recv, peer_id }),
        final(c)@ == old(a)@,
{
    assert(final(b)@.tracer =~= old(a)@.tracer);
}

/// A peer that was created by replication is remembered as such; nothing else is remembered of
/// it, and nothing is where the peer is there already.
pub proof fn new_peers_are_remembered(
    f: &mut ProxyForwarder,
    o: &mut TiFlashObserver,
    region: &Region,
    initialized: bool,
    id: u64,
)
    requires
        call_ensures(ProxyForwarder::on_role_change, (f, region, initialized), ()),
        call_ensures(TiFlashObserver::on_peer_created, (o, region.id), ()),
    ensures
        ({
            let (was, now) = (old(f)@.cached, final(f)@.cached);
            &&& initialized || id != region.id ==> was.contains_key(id) == now.contains_key(id)
                && (was.contains_key(id) ==> now[id] == was[id])
            &&& !initialized ==> now.contains_key(region.id) && now[region.id].replicated_or_created
            &&& !initialized && was.contains_key(region.id) ==> now[region.id].inited
                == was[region.id].inited && now[region.id].snapshot_inflight
                == was[region.id].snapshot_inflight && now[region.id].fast_add_peer_start
                == was[region.id].fast_add_peer_start
            &&& !initialized && !was.contains_key(region.id) ==> !now[region.id].inited
        }),
        final(f)@.tracer == old(f)@.tracer,
        ({
            let (was, now) = (old(o)@.cached, final(o)@.cached);
            &&& now.contains_key(region.id)
            &&& now[region.id].replicated_or_created
            &&& now[region.id].inited == (was.contains_key(region.id) && was[region.id].inited)
            &&& id != region.id ==> was.contains_key(id) == now.contains_key(id) && (
            was.contains_key(id) ==> now[id] == was[id])
        }),
        final(o)@.tracer == old(o)@.tracer,
{
}

/// A destroyed region is forgotten on the fast way, so that a peer that is added again goes the
/// fast way again; the engine store is told exactly of destroyed regions.
pub proof fn destroyed_regions_are_forgotten(
    f: &mut ProxyForwarder,
    region: &Region,
    event: RegionChangeEvent,
    r: Option<u64>,
    id: u64,
)
    requires
        call_ensures(ProxyForwarder::on_region_changed, (f, region, event), r),
    ensures
        r is Some <==> event == RegionChangeEvent::Destroy,
        r is Some ==> r->0 == region.id,
        r is Some && old(f)@.enable_fast_add_peer ==> !final(f)@.cached.contains_key(region.id),
        id != region.id || r is None || !old(f)@.enable_fast_add_peer ==> same_info(
            old(f)@.cached,
            final(f)@.cached,
            id,
        ),
        final(f)@.tracer == old(f)@.tracer,
{
}

/// The observer registers a snapshot that is there, and hands it to the background where there is
/// one.
pub proof fn observed_snapshots_are_started(
    o: &mut TiFlashObserver,
    region: &Region,
    peer_id: u64,
    key: &SnapKey,
    snap: Option<&Snapshot>,
    recv: u64,
    r: Option<PreHandleRequest>,
)
    requires
        call_ensures(TiFlashObserver::pre_apply_snapshot, (o, region, peer_id, key, snap, recv), r),
        snap is Some ==> snapshot::snapshot_fits(snap->0.cf_files@),
    ensures
        r is Some <==> snap is Some && old(o)@.apply_snap_pool,
        r is Some ==> asks_for(r->0, *region, peer_id, *key, *(snap->0)),
        snap is Some ==> {
            &&& final(o)@.tracer.contains_key(*key)
            &&& final(o)@.tracer[*key].recv == recv
            &&& final(o)@.tracer[*key].peer_id == peer_id
        },
        final(o)@.pending_applies_count == (if r is Some {
            old(o)@.pending_applies_count.wrapping_add(1)
        } else {
            old(o)@.pending_applies_count
        }),
        forall|k: SnapKey|
            k != *key || snap is None ==> #[trigger] same_task(
                old(o)@.tracer,
                final(o)@.tracer,
                k,
            ),
        final(o)@.cached == old(o)@.cached,
        final(o)@.pending_delete_ssts == old(o)@.pending_delete_ssts,
{
    if r is Some {
        request_asks(r->0, *region, peer_id, *key, *(snap->0));
    }
}

/// At the observer a region is initialized by its first snapshot, which goes to the engine store;
/// later ones do not.
pub proof fn observed_snapshots_are_finished(
    o: &mut TiFlashObserver,
    region: &Region,
    peer_id: u64,
    key: &SnapKey,
    snap: Option<&Snapshot>,
    r: PostApply,
)
    requires
        call_ensures(TiFlashObserver::post_apply_snapshot, (o, region, peer_id, key, snap), r),
        old(o)@.cached.contains_key(region.id),
        snap is Some ==> snapshot::snapshot_fits(snap->0.cf_files@),
    ensures
        r is Finished <==> old(o)@.cached[region.id].inited || snap is None,
        r is AwaitTask <==> !(r is Finished) && old(o)@.tracer.contains_key(*key),
        r is AwaitTask ==> r->AwaitTask_0 == old(o)@.tracer[*key],
        r is AwaitTask ==> !final(o)@.tracer.contains_key(*key),
        r is PreHandle ==> asks_for(r->PreHandle_0, *region, peer_id, *key, *(snap->0)),
        final(o)@.cached.contains_key(region.id),
        final(o)@.cached[region.id].inited,
        final(o)@.cached[region.id].replicated_or_created
            == old(o)@.cached[region.id].replicated_or_created,
        forall|id: u64|
            id != region.id ==> #[trigger] same_info(old(o)@.cached, final(o)@.cached, id),
        forall|k: SnapKey|
            k != *key || !(r is AwaitTask) ==> #[trigger] same_task(
                old(o)@.tracer,
                final(o)@.tracer,
                k,
            ),
        final(o)@.pending_applies_count == old(o)@.pending_applies_count,
        final(o)@.pending_delete_ssts == old(o)@.pending_delete_ssts,
{
    if r is PreHandle {
        request_asks(r->PreHandle_0, *region, peer_id, *key, *(snap->0));
    }
}

/// Once the background has answered to the observer, its result is applied; where it failed, the
/// engine store is asked now.
pub proof fn observed_results_are_applied(
    o: &mut TiFlashObserver,
    region: &Region,
    peer_id: u64,
    key: &SnapKey,
    snap: &Snapshot,
    received: Option<usize>,
    r: Prehandled,
)
    requires
        snapshot::snapshot_fits(snap.cf_files@),
        call_ensures(
            TiFlashObserver::post_apply_snapshot_received,
            (o, region, peer_id, key, snap, received),
            r,
        ),
    ensures
        received is Some ==> r == Prehandled::Apply(received->0),
        received is None ==> r is PreHandle && asks_for(
            r->PreHandle_0,
            *region,
            peer_id,
            *key,
            *snap,
        ),
        final(o)@.pending_applies_count == old(o)@.pending_applies_count.wrapping_sub(1),
        final(o)@.tracer == old(o)@.tracer,
        final(o)@.cached == old(o)@.cached,
{
    if received is None {
        request_asks(r->PreHandle_0, *region, peer_id, *key, *snap);
    }
}

} // verus!
