//! What becomes of messages, what is remembered of regions, and how values cross the border.

use vstd::prelude::*;

use crate::admin_laws;
use crate::cached_region::{CachedRegionInfo, CachedRegionManager};
use crate::command;
use crate::command::{RaftCmdRequest, SstMetaInfo};
use crate::engine_store::StoreStats;
use crate::ffi;
use crate::ffi::{
    BaseBuffView, ColumnFamilyType, RaftCmdHeader, TiFlashApplyRes, WriteCmdType, WriteCmds,
    WriteCmdsView,
};
use crate::forwarder::ProxyForwarder;
use crate::hash;
use crate::messages::{
    AdminCmdType, AdminRequest, Peer, RaftApplyState, Region, RegionEpoch, RegionLocalState,
};
use crate::observer;
use crate::observer::{
    FsStatsExt, MessageType, MsgVerdict, ObserverKind, RaftMessage, SnapshotMessage, StoreSizeInfo,
    TiFlashFFIHub, TiFlashObserver, UseLeaderForRegion,
};
use crate::snapshot;
use crate::snapshot::{PreHandleRequest, PrehandleContext, PrehandleTask, SnapKey};

verus! {

/// All but what is remembered of regions is the same.
pub open spec fn same_but_cached(a: TiFlashObserver, b: TiFlashObserver) -> bool {
    &&& a@.store_id == b@.store_id
    &&& a@.tracer == b@.tracer
    &&& a@.apply_snap_pool == b@.apply_snap_pool
    &&& a@.snap_handle_pool_size == b@.snap_handle_pool_size
    &&& a@.pending_applies_count == b@.pending_applies_count
    &&& a@.pending_delete_ssts == b@.pending_delete_ssts
}

/// An append to a region that was not heard of goes to raft, and the region is known from then
/// on, as one whose peer was not created and that has seen no snapshot. To a known region it
/// goes to raft until the region was initialized; after that it is skipped until the peer was
/// created, and then the engine store is told of that region and a snapshot answers it. Nothing
/// else is ever skipped or remembered.
pub proof fn appends_are_judged(
    o: &mut TiFlashObserver,
    msg: &RaftMessage,
    r: MsgVerdict,
    other: u64,
)
    requires
        call_ensures(TiFlashObserver::should_skip_raft_message, (o, msg), r),
    ensures
        ({
            let was = old(o)@.cached;
            let now = final(o)@.cached;
            let id = msg.region_id;
            let append = msg.msg_type == MessageType::MsgAppend;
            let ready = was.contains_key(id) && was[id].inited;
            &&& same_but_cached(*old(o), *final(o))
            &&& r == MsgVerdict::Skip(true) <==> append && ready && !was[id].replicated_or_created
            &&& r is SendSnapshot <==> append && ready && was[id].replicated_or_created
            &&& r is SendSnapshot ==> r == MsgVerdict::SendSnapshot(
                UseLeaderForRegion { region_id: id },
            )
            &&& other != id || !append || was.contains_key(id) ==> {
                &&& now.contains_key(other) == was.contains_key(other)
                &&& was.contains_key(other) ==> now[other] == was[other]
            }
            &&& append && !was.contains_key(id) ==> {
                &&& now.contains_key(id)
                &&& !now[id].inited
                &&& !now[id].replicated_or_created
                &&& now[id].snapshot_inflight == 0
                &&& now[id].fast_add_peer_start == 0
            }
        }),
{
}

/// The first message test and the test of any message come to the same for an append.
pub proof fn append_tests_agree(
    a: &mut TiFlashObserver,
    b: &mut TiFlashObserver,
    msg: &RaftMessage,
    x: MsgVerdict,
    y: MsgVerdict,
)
    requires
        old(a)@ == old(b)@,
        call_ensures(TiFlashObserver::is_first_msg_append, (a, msg), x),
        call_ensures(TiFlashObserver::should_skip_raft_message, (b, msg), y),
    ensures
        x == y,
        final(a)@ == final(b)@,
{
}

/// Two appends in a row to a region that was not heard of both go to raft.
pub proof fn first_appends_pass(
    a: &mut TiFlashObserver,
    b: &mut TiFlashObserver,
    m: &RaftMessage,
    n: &RaftMessage,
    x: MsgVerdict,
    y: MsgVerdict,
)
    requires
        !old(a)@.cached.contains_key(m.region_id),
        m.region_id == n.region_id,
        call_ensures(TiFlashObserver::should_skip_raft_message, (a, m), x),
        old(b)@ == final(a)@,
        call_ensures(TiFlashObserver::should_skip_raft_message, (b, n), y),
    ensures
        x == MsgVerdict::Skip(false),
        y == MsgVerdict::Skip(false),
{
}

/// A snapshot that answers an append goes between the peers of the append and is at its place in
/// the log; it is registered under the region and where the store's state was applied, carries
/// the region as the store has it and no data, and makes its sender the voter and its receiver
/// the learner.
pub proof fn snapshot_answers_append(
    msg: &RaftMessage,
    apply_state: &RaftApplyState,
    state: &RegionLocalState,
    r: SnapshotMessage,
)
    requires
        call_ensures(observer::compose_snapshot, (msg, apply_state, state), r),
    ensures
        r.msg_type == MessageType::MsgSnapshot,
        r.region_id == msg.region_id,
        r.from_peer == msg.from_peer,
        r.to_peer == msg.to_peer,
        r.index == msg.index,
        r.term == msg.term,
        r.key.region_id == msg.region_id,
        r.key.term == apply_state.commit_term,
        r.key.idx == apply_state.applied_index,
        r.region@ == state.region@,
        state.region.region_epoch is Some ==> r.region_epoch == state.region.region_epoch->0,
        state.region.region_epoch is None ==> r.region_epoch.conf_ver == 0
            && r.region_epoch.version == 0,
        r.file_size == 0,
        r.version == 2,
        r.voters@ == seq![msg.from_peer.id],
        r.learners@ == seq![msg.to_peer.id],
{
    assert(r@.key == r.key);
    assert(r@.voters == r.voters@);
}

/// The next snapshot of a region is its first on the fast way exactly where peers are added
/// that way, the region is known, and none of its snapshots was passed yet; where the fast way
/// is off, none ever is.
pub proof fn first_snapshots_are_known(f: &ProxyForwarder, region_id: u64, r: bool)
    requires
        call_ensures(ProxyForwarder::is_first_snapshot, (f, region_id), r),
    ensures
        !f.enable_fast_add_peer ==> !r,
        f.enable_fast_add_peer ==> (r <==> f.cached@.contains_key(region_id)
            && !f.cached@[region_id].inited),
{
}

/// The apply state is never written by raft itself, snapshots are always handled before they are
/// applied, and a message goes to raft exactly where it is not for the fast way.
pub proof fn hooks_answer(
    f: &ProxyForwarder,
    a: bool,
    b: bool,
    fast: bool,
    c: bool,
    o: &TiFlashObserver,
    d: bool,
    e: bool,
)
    requires
        call_ensures(ProxyForwarder::pre_write_apply_state, (f,), a),
        call_ensures(ProxyForwarder::should_pre_apply_snapshot, (f,), b),
        call_ensures(ProxyForwarder::on_raft_message, (f, fast), c),
        call_ensures(TiFlashObserver::pre_write_apply_state, (o,), d),
        call_ensures(TiFlashObserver::should_pre_apply_snapshot, (o,), e),
    ensures
        !a,
        b,
        c == !fast,
        !d,
        e,
{
}

/// The sizes of a store come out of the engine store's statistics as they are, each in its
/// place.
pub proof fn sizes_are_told(
    o: &TiFlashObserver,
    hub: &TiFlashFFIHub,
    stats: StoreStats,
    size: &mut Option<StoreSizeInfo>,
    x: FsStatsExt,
    y: FsStatsExt,
)
    requires
        call_ensures(TiFlashObserver::on_compute_engine_size, (o, stats, size), ()),
        call_ensures(observer::into_fs_stats_ext, (stats,), x),
        call_ensures(TiFlashFFIHub::get_store_stats, (hub, stats), y),
    ensures
        (*final(size)) is Some,
        (*final(size))->0.capacity == stats.fs_stats.capacity_size,
        (*final(size))->0.used == stats.fs_stats.used_size,
        (*final(size))->0.avail == stats.fs_stats.avail_size,
        x.capacity == stats.fs_stats.capacity_size,
        x.used == stats.fs_stats.used_size,
        x.available == stats.fs_stats.avail_size,
        x == y,
{
}

/// The observer is registered once for each thing that it is called for, before all others, and
/// behind what was registered already.
pub proof fn observer_is_registered(
    o: &TiFlashObserver,
    registry: &mut Vec<(u32, ObserverKind)>,
    kind: ObserverKind,
)
    requires
        call_ensures(TiFlashObserver::register_to, (o, registry), ()),
    ensures
        final(registry)@.len() == old(registry)@.len() + 6,
        forall|i: int|
            0 <= i < old(registry)@.len() ==> #[trigger] final(registry)@[i] == old(registry)@[i],
        forall|i: int|
            old(registry)@.len() <= i < final(registry)@.len() ==> (
            #[trigger] final(registry)@[i]).0 == 0,
        exists|i: int|
            old(registry)@.len() <= i < final(registry)@.len() && (
            #[trigger] final(registry)@[i]).1 == kind,
{
    let n = old(registry)@.len() as int;
    let f = final(registry)@;
    assert(f[n].1 == ObserverKind::Admin);
    assert(f[n + 1].1 == ObserverKind::Query);
    assert(f[n + 2].1 == ObserverKind::ApplySnapshot);
    assert(f[n + 3].1 == ObserverKind::RegionChange);
    assert(f[n + 4].1 == ObserverKind::PdTask);
    assert(f[n + 5].1 == ObserverKind::UpdateSafeTs);
}

/// What was remembered of a region last is what is known of it, until it is forgotten; other
/// regions are not concerned.
pub proof fn regions_are_remembered(
    fresh: CachedRegionManager,
    s: &mut CachedRegionManager,
    region_id: u64,
    info: Option<CachedRegionInfo>,
    after: &CachedRegionManager,
    other: u64,
    r: Option<CachedRegionInfo>,
    before: &CachedRegionManager,
    b: Option<CachedRegionInfo>,
    f: &mut CachedRegionManager,
)
    requires
        call_ensures(CachedRegionManager::new, (), fresh),
        call_ensures(CachedRegionManager::set_cached_region_info, (s, region_id, info), ()),
        after@ == final(s)@,
        call_ensures(CachedRegionManager::get_cached_region_info, (after, other), r),
        before@ == old(s)@,
        call_ensures(CachedRegionManager::get_cached_region_info, (before, other), b),
        call_ensures(CachedRegionManager::remove_cached_region_info, (f, region_id), ()),
    ensures
        !fresh@.contains_key(other),
        other == region_id ==> r == info,
        other != region_id ==> r == b,
        b is Some <==> before@.contains_key(other),
        b is Some ==> b == Some(before@[other]),
        !final(f)@.contains_key(region_id),
        other != region_id ==> {
            &&& final(f)@.contains_key(other) == old(f)@.contains_key(other)
            &&& old(f)@.contains_key(other) ==> final(f)@[other] == old(f)@[other]
        },
{
}

/// A key is in a region exactly where it lies from its first key on and before its end; an empty
/// end sets no bound.
pub proof fn keys_are_in_ranges(meta: &Region, key: &[u8], r: bool)
    requires
        call_ensures(Region::contains_key, (meta, key), r),
    ensures
        r <==> admin_laws::lies_in(key@, meta.start_key@, meta.end_key@),
{
    admin_laws::lies_in_is_covered(meta@, key@);
}

/// A peer is found on a store exactly where one is listed there, and it is one of those; a
/// region without an epoch has the first one.
pub proof fn peers_are_found(
    meta: &Region,
    store_id: u64,
    r: Option<Peer>,
    epoch: RegionEpoch,
)
    requires
        call_ensures(Region::find_peer, (meta, store_id), r),
        call_ensures(Region::get_region_epoch, (meta,), epoch),
    ensures
        r is Some <==> exists|i: int|
            0 <= i < meta.peers@.len() && (#[trigger] meta.peers@[i]).store_id == store_id,
        r is Some ==> (r->0).store_id == store_id && meta.peers@.contains(r->0),
        meta.region_epoch is Some ==> epoch == meta.region_epoch->0,
        meta.region_epoch is None ==> epoch.conf_ver == 0 && epoch.version == 0,
{
    admin_laws::first_on_is_there(meta.peers@, store_id);
}

/// A command has the administrative request that it carries; without one it has an invalid one.
pub proof fn admin_requests_are_given(
    c: &RaftCmdRequest,
    r: AdminRequest,
    t: AdminCmdType,
)
    requires
        call_ensures(RaftCmdRequest::get_admin_request, (c,), r),
        call_ensures(RaftCmdRequest::get_admin_type, (c,), t),
    ensures
        c.admin_request is Some ==> r@ == (c.admin_request->0)@ && t == (
        c.admin_request->0).cmd_type,
        c.admin_request is None ==> r.cmd_type == AdminCmdType::InvalidAdmin && t
            == AdminCmdType::InvalidAdmin,
{
}

/// Taking the files of a region out takes all of them and none of another region.
pub proof fn files_of_a_region_are_taken(
    v: &mut Vec<SstMetaInfo>,
    region_id: u64,
    r: Vec<SstMetaInfo>,
    x: SstMetaInfo,
)
    requires
        call_ensures(command::drain_region, (v, region_id), r),
    ensures
        r@.contains(x) <==> old(v)@.contains(x) && x.meta.region_id == region_id,
        final(v)@.contains(x) <==> old(v)@.contains(x) && x.meta.region_id != region_id,
        r@.len() + final(v)@.len() == old(v)@.len(),
{
    filters_split(old(v)@, region_id, x);
}

proof fn held_at_end(s: Seq<SstMetaInfo>, last: SstMetaInfo, x: SstMetaInfo)
    ensures
        s.push(last).contains(x) <==> s.contains(x) || x == last,
{
    let t = s.push(last);
    if s.contains(x) {
        assert(t[s.index_of(x)] == x);
    }
    if x == last {
        assert(t[s.len() as int] == x);
    }
    if t.contains(x) {
        let i = t.index_of(x);
        if i < s.len() {
            assert(s[i] == x);
        }
    }
}

proof fn filters_split(s: Seq<SstMetaInfo>, region_id: u64, x: SstMetaInfo)
    ensures
        ({
            let a = command::of_region(s, region_id);
            let b = command::not_of_region(s, region_id);
            &&& a.len() + b.len() == s.len()
            &&& a.contains(x) <==> s.contains(x) && x.meta.region_id == region_id
            &&& b.contains(x) <==> s.contains(x) && x.meta.region_id != region_id
        }),
    decreases s.len(),
{
    reveal(Seq::filter);
    if s.len() > 0 {
        let p = s.drop_last();
        filters_split(p, region_id, x);
        assert(s =~= p.push(s.last()));
        held_at_end(p, s.last(), x);
        held_at_end(command::of_region(p, region_id), s.last(), x);
        held_at_end(command::not_of_region(p, region_id), s.last(), x);
    }
}

/// A snapshot that is being handled is found under its key until it is taken out, and only
/// under that.
pub proof fn tasks_are_found(
    c: &mut PrehandleContext,
    key: SnapKey,
    task: PrehandleTask,
    after: &PrehandleContext,
    other: SnapKey,
    found: bool,
    d: &mut PrehandleContext,
    r: Option<PrehandleTask>,
)
    requires
        call_ensures(PrehandleContext::insert, (c, key, task), ()),
        after@ == final(c)@,
        call_ensures(PrehandleContext::contains_key, (after, other), found),
        old(d)@ == final(c)@,
        call_ensures(PrehandleContext::remove, (d, other), r),
    ensures
        found <==> other == key || old(c)@.contains_key(other),
        other == key ==> r == Some(task),
        other != key && old(c)@.contains_key(other) ==> r == Some(old(c)@[other]),
        !found <==> r is None,
        !final(d)@.contains_key(other),
        other != key ==> final(d)@.contains_key(key) && final(d)@[key] == task,
{
}

/// The engine store is handed the region, the peer and the files as they are, and where the
/// snapshot was taken.
pub proof fn requests_are_whole(
    peer_id: u64,
    ssts: Vec<(String, ColumnFamilyType)>,
    meta: &Region,
    key: &SnapKey,
    r: PreHandleRequest,
)
    requires
        call_ensures(snapshot::pre_handle_snapshot_impl, (peer_id, ssts, meta, key), r),
    ensures
        r.peer_id == peer_id,
        r.region@ == meta@,
        r.index == key.idx,
        r.term == key.term,
        r.ssts@.len() == ssts@.len(),
        forall|i: int|
            0 <= i < ssts@.len() ==> (#[trigger] r.ssts@[i]).0@ == ssts@[i].0@ && r.ssts@[i].1
                == ssts@[i].1,
{
    let a = command::path_views(r.ssts@);
    let b = command::path_views(ssts@);
    assert(r@.ssts == a);
    assert(a.len() == r.ssts@.len());
    assert forall|i: int| 0 <= i < ssts@.len() implies (#[trigger] r.ssts@[i]).0@ == ssts@[i].0@
        && r.ssts@[i].1 == ssts@[i].1 by {
        assert(a[i] == b[i]);
    }
}

/// Mixing a number can be undone, so that no two numbers are mixed to the same one; the slot of
/// a region is one of the slots.
pub proof fn mixing_is_undone(
    x: u64,
    h: u64,
    back: u64,
    u: u64,
    forth: u64,
    slot: usize,
    y: u64,
    g: u64,
)
    requires
        call_ensures(hash::hash_u64, (x,), h),
        call_ensures(hash::unhash_u64, (h,), back),
        call_ensures(hash::unhash_u64, (x,), u),
        call_ensures(hash::hash_u64, (u,), forth),
        call_ensures(hash::slot_index, (x,), slot),
        call_ensures(hash::hash_u64, (y,), g),
    ensures
        back == x,
        forth == x,
        h == g <==> x == y,
        slot < 256,
        slot == h % 256,
{
    hash::unhash_undoes_hash(x);
    hash::hash_undoes_unhash(x);
    hash::unhash_undoes_hash(y);
}

/// The numbers under which things cross the border: of the answers to a command, of the kinds of
/// writes, and of the column families.
pub proof fn numbers_cross(
    o: u32,
    res: TiFlashApplyRes,
    kind: WriteCmdType,
    k: u8,
    t: ColumnFamilyType,
    c: u8,
    i: usize,
    f: ColumnFamilyType,
)
    requires
        o <= 2,
        call_ensures(TiFlashApplyRes::from, (o,), res),
        call_ensures(WriteCmdType::into, (kind,), k),
        call_ensures(ColumnFamilyType::into, (t,), c),
        i < 3,
        call_ensures(ColumnFamilyType::from, (i,), f),
    ensures
        o == 0 <==> res == TiFlashApplyRes::NoPersist,
        o == 1 <==> res == TiFlashApplyRes::Persist,
        o == 2 <==> res == TiFlashApplyRes::NotFound,
        kind == WriteCmdType::Put ==> k == 0,
        kind == WriteCmdType::Del ==> k == 1,
        t == ColumnFamilyType::Lock ==> c == 0,
        t == ColumnFamilyType::Write ==> c == 1,
        t == ColumnFamilyType::Default ==> c == 2,
        i == 0 ==> f == ColumnFamilyType::Lock,
        i == 1 ==> f == ColumnFamilyType::Write,
        i == 2 ==> f == ColumnFamilyType::Default,
{
}

/// The names of the column families lead to them and back; an empty name leads to the default
/// one.
pub proof fn names_cross(name: &str, f: ColumnFamilyType, t: ColumnFamilyType, back: &'static str)
    requires
        call_ensures(ffi::name_to_cf, (name,), f),
        name@ == "lock"@ || name@ == "write"@ || name@ == "default"@ || name@.len() == 0,
        call_ensures(ffi::cf_to_name, (t,), back),
    ensures
        name@ == "lock"@ ==> f == ColumnFamilyType::Lock,
        name@ == "write"@ ==> f == ColumnFamilyType::Write,
        name@ == "default"@ || name@.len() == 0 ==> f == ColumnFamilyType::Default,
        t == ColumnFamilyType::Lock ==> back@ == "lock"@,
        t == ColumnFamilyType::Write ==> back@ == "write"@,
        t == ColumnFamilyType::Default ==> back@ == "default"@,
{
    reveal_strlit("lock");
    reveal_strlit("write");
    reveal_strlit("default");
    assert("lock"@.len() == 4);
    assert("write"@.len() == 5);
    assert("default"@.len() == 7);
}

/// Bytes that are handed over are those that come out on the other side.
pub proof fn bytes_cross(s: &[u8], v: BaseBuffView, null: bool, len: u64, back: &[u8])
    requires
        call_ensures(BaseBuffView::from, (s,), v),
        call_ensures(BaseBuffView::is_null, (&v,), null),
        call_ensures(BaseBuffView::len, (&v,), len),
        call_ensures(BaseBuffView::to_slice, (&v,), back),
    ensures
        !null,
        len == s@.len(),
        back@ == s@,
{
}

/// A write that was put into a list is found at its end on the other side, with its key, its
/// value, its kind and its column family; earlier writes keep their places.
pub proof fn writes_cross<'a>(
    fresh: WriteCmds<'a>,
    w: &mut WriteCmds<'a>,
    key: &'a [u8],
    val: &'a [u8],
    kind: WriteCmdType,
    cf: u8,
    list: &WriteCmds<'a>,
    n: usize,
    v: WriteCmdsView<'a, 'a>,
    m: usize,
    k: &'a [u8],
    x: &'a [u8],
    t: WriteCmdType,
    f: u8,
    i: usize,
)
    requires
        call_ensures(WriteCmds::new, (), fresh),
        call_ensures(WriteCmds::push, (w, key, val, kind, cf), ()),
        list@ == final(w)@,
        call_ensures(WriteCmds::len, (list,), n),
        call_ensures(WriteCmds::gen_view, (list,), v),
        call_ensures(WriteCmdsView::len, (&v,), m),
        i < m,
        call_ensures(WriteCmdsView::key, (&v, i), k),
        call_ensures(WriteCmdsView::val, (&v, i), x),
        call_ensures(WriteCmdsView::cmd_type, (&v, i), t),
        call_ensures(WriteCmdsView::cf, (&v, i), f),
    ensures
        fresh@.len() == 0,
        n == m,
        m == old(w)@.len() + 1,
        i == m - 1 ==> k@ == key@ && x@ == val@ && t == kind && f == cf,
        i < m - 1 ==> {
            &&& k@ == old(w)@[i as int].key
            &&& x@ == old(w)@[i as int].val
            &&& t == old(w)@[i as int].cmd_type
            &&& f == old(w)@[i as int].cf
        },
{
}

/// A header carries the numbers that it is made from.
pub proof fn headers_cross(region_id: u64, index: u64, term: u64, r: RaftCmdHeader)
    requires
        call_ensures(RaftCmdHeader::new, (region_id, index, term), r),
    ensures
        r.region_id == region_id,
        r.index == index,
        r.term == term,
{
}

/// What is made of what is remembered of a region is remembered of it; nothing is remembered
/// where nothing is made, and other regions are not concerned.
pub proof fn memories_change<F: Fn(Option<CachedRegionInfo>) -> Option<CachedRegionInfo>>(
    m: &mut CachedRegionManager,
    region_id: u64,
    f: F,
    r: Result<(), String>,
    o: &mut TiFlashObserver,
    q: Result<(), String>,
    other: u64,
)
    requires
        call_ensures(
            CachedRegionManager::access_cached_region_info_mut::<F>,
            (m, region_id, f),
            r,
        ),
        call_ensures(TiFlashObserver::access_cached_region_info_mut::<F>, (o, region_id, f), q),
    ensures
        r is Ok && q is Ok,
        f.ensures((memory(old(m)@, region_id),), memory(final(m)@, region_id)),
        f.ensures((memory(old(o)@.cached, region_id),), memory(final(o)@.cached, region_id)),
        other != region_id ==> memory(final(m)@, other) == memory(old(m)@, other),
        other != region_id ==> memory(final(o)@.cached, other) == memory(old(o)@.cached, other),
        same_but_cached(*old(o), *final(o)),
{
}

/// What is remembered of a region, if anything.
pub open spec fn memory(m: Map<u64, CachedRegionInfo>, id: u64) -> Option<CachedRegionInfo> {
    if m.contains_key(id) {
        Some(m[id])
    } else {
        None
    }
}

/// A forwarder and an observer start with nothing remembered, nothing under way and no files
/// kept, and with what they are made with.
pub proof fn nothing_is_known_at_first(
    store_id: u64,
    fast: bool,
    pool: bool,
    f: ProxyForwarder,
    size: usize,
    o: TiFlashObserver,
    c: PrehandleContext,
    id: u64,
    key: SnapKey,
)
    requires
        call_ensures(ProxyForwarder::new, (store_id, fast, pool), f),
        call_ensures(TiFlashObserver::new, (store_id, size), o),
        call_ensures(PrehandleContext::new, (), c),
    ensures
        f@.store_id == store_id && f@.enable_fast_add_peer == fast && f@.apply_snap_pool == pool,
        !f@.cached.contains_key(id),
        !f@.tracer.contains_key(key),
        f@.pending_applies_count == 0,
        f@.pending_delete_ssts.len() == 0,
        o@.store_id == store_id && o@.apply_snap_pool && o@.snap_handle_pool_size == size,
        !o@.cached.contains_key(id),
        !o@.tracer.contains_key(key),
        o@.pending_applies_count == 0,
        o@.pending_delete_ssts.len() == 0,
        !c@.contains_key(key),
{
}

/// Keys of snapshots, tasks and empty commands carry what they are made from.
pub proof fn values_are_made(
    region_id: u64,
    term: u64,
    idx: u64,
    key: SnapKey,
    recv: u64,
    peer_id: u64,
    task: PrehandleTask,
    t: AdminCmdType,
    req: AdminRequest,
)
    requires
        call_ensures(SnapKey::new, (region_id, term, idx), key),
        call_ensures(PrehandleTask::new, (recv, peer_id), task),
        call_ensures(AdminRequest::new, (t,), req),
    ensures
        key.region_id == region_id && key.term == term && key.idx == idx,
        task.recv == recv && task.peer_id == peer_id,
        req.cmd_type == t,
        req.compact_log.compact_index == 0 && req.compact_log.compact_term == 0,
        req.prepare_merge is None,
        req.commit_merge_source.id == 0,
{
    assert(req@.cmd_type == req.cmd_type);
    assert(req@.prepare_merge is None);
}

} // verus!
