//! What writes and snapshots do to the engine store that keeps nothing pending.

use vstd::prelude::*;

use crate::bytes_map;
use crate::ffi::{
    ColumnFamilyType, EngineStoreApplyRes, RaftCmdHeader, WriteCmdSpec, WriteCmdType,
    WriteCmdsView,
};
use crate::file_laws;
use crate::file_laws::{before, brings, brings_last, brings_none};
use crate::messages::Region;
use crate::region;
use crate::region::DbWrite;
use crate::simple_store;
use crate::simple_store::{
    EngineStoreServer, EngineStoreServerView, EngineStoreServerWrap, SimpleRegionView,
};
use crate::sst_reader;
use crate::sst_reader::SstData;
use crate::store_laws;
use crate::store_laws::{is_about, none_after, place_of};

verus! {

/// The value that a store has for a key; nothing where it does not have the region.
pub open spec fn holds(
    s: EngineStoreServer,
    id: u64,
    t: ColumnFamilyType,
    key: Seq<u8>,
) -> Option<Seq<u8>> {
    if s@.regions.contains_key(id) && s@.regions[id].data[place_of(t)].contains_key(key) {
        Some(s@.regions[id].data[place_of(t)][key])
    } else {
        None
    }
}

/// Both stores have the same region, or both have none.
pub open spec fn same(a: EngineStoreServerView, b: EngineStoreServerView, id: u64) -> bool {
    &&& a.id == b.id
    &&& a.regions.contains_key(id) == b.regions.contains_key(id)
    &&& a.regions.contains_key(id) ==> a.regions[id] == b.regions[id]
}

/// How many of the first `n` writes are puts.
pub open spec fn puts_before(cmds: Seq<WriteCmdSpec>, n: int) -> nat
    decreases n,
{
    if n <= 0 {
        0
    } else {
        puts_before(cmds, n - 1) + (if cmds[n - 1].cmd_type == WriteCmdType::Put {
            1nat
        } else {
            0nat
        })
    }
}

/// Writes were handed to a store; each names one of the column families.
pub open spec fn wrote(
    w: &mut EngineStoreServerWrap,
    cmds: &WriteCmdsView,
    header: RaftCmdHeader,
    r: (EngineStoreApplyRes, Vec<DbWrite>),
) -> bool {
    &&& forall|j: int| 0 <= j < cmds@.len() ==> (#[trigger] cmds@[j]).cf < 3
    &&& call_ensures(EngineStoreServerWrap::handle_write_raft_cmd, (w, cmds, header), r)
}

/// Writes are old where the region was applied up to them already.
pub open spec fn is_old(s: EngineStoreServerView, header: RaftCmdHeader) -> bool {
    if s.regions.contains_key(header.region_id) {
        s.regions[header.region_id].apply_state.applied_index >= header.index
    } else {
        header.index == 0
    }
}

spec fn value_in(v: SimpleRegionView, t: ColumnFamilyType, key: Seq<u8>) -> Option<Seq<u8>> {
    if v.data[place_of(t)].contains_key(key) {
        Some(v.data[place_of(t)][key])
    } else {
        None
    }
}

proof fn written_effect(
    v: SimpleRegionView,
    cmds: Seq<WriteCmdSpec>,
    t: ColumnFamilyType,
    key: Seq<u8>,
    i: int,
)
    requires
        v.data.len() == 3,
        forall|j: int| 0 <= j < cmds.len() ==> (#[trigger] cmds[j]).cf < 3,
        -1 <= i < cmds.len(),
        i >= 0 ==> is_about(cmds[i], t, key),
        forall|j: int| i < j < cmds.len() ==> !is_about(#[trigger] cmds[j], t, key),
    ensures
        ({
            let w = simple_store::written(v, cmds);
            &&& w.data.len() == 3
            &&& w.region == v.region && w.peer == v.peer && w.apply_state == v.apply_state
            &&& i < 0 ==> value_in(w, t, key) == value_in(v, t, key)
            &&& i >= 0 && cmds[i].cmd_type == WriteCmdType::Put ==> value_in(w, t, key) == Some(
                cmds[i].val,
            )
            &&& i >= 0 && cmds[i].cmd_type == WriteCmdType::Del ==> value_in(w, t, key) is None
        }),
    decreases cmds.len(),
{
    if cmds.len() > 0 {
        let p = cmds.drop_last();
        let n = cmds.len() - 1;
        assert(forall|j: int| 0 <= j < p.len() ==> p[j] == cmds[j]);
        assert(cmds[n] == cmds.last());
        if i < n {
            written_effect(v, p, t, key, i);
            assert(!is_about(cmds[n], t, key));
        } else {
            store_laws::last_about(p, t, key);
            let k = choose|k: int|
                {
                    &&& -1 <= k < p.len()
                    &&& k >= 0 ==> is_about(p[k], t, key)
                    &&& #[trigger] none_after(p, k, t, key)
                };
            written_effect(v, p, t, key, k);
        }
    }
}

/// After writes that are not old, a key that one of them is about has what the last of those
/// said: its value, or none where it was deleted. Old ones change nothing.
pub proof fn last_write_stands(
    w: &mut EngineStoreServerWrap,
    cmds: &WriteCmdsView,
    header: RaftCmdHeader,
    r: (EngineStoreApplyRes, Vec<DbWrite>),
    i: int,
    t: ColumnFamilyType,
)
    requires
        wrote(w, cmds, header, r),
        0 <= i < cmds@.len(),
        cmds@[i].cf == place_of(t),
        forall|j: int| i < j < cmds@.len() ==> !is_about(#[trigger] cmds@[j], t, cmds@[i].key),
    ensures
        ({
            let id = header.region_id;
            let was = holds(old(w).engine_store_server, id, t, cmds@[i].key);
            let now = holds(final(w).engine_store_server, id, t, cmds@[i].key);
            let s = old(w).engine_store_server@;
            &&& is_old(s, header) ==> now == was
            &&& !is_old(s, header) && cmds@[i].cmd_type == WriteCmdType::Put ==> now == Some(
                cmds@[i].val,
            )
            &&& !is_old(s, header) && cmds@[i].cmd_type == WriteCmdType::Del ==> now is None
        }),
{
    let s = old(w).engine_store_server@;
    simple_store::regions_have_families(old(w).engine_store_server, header.region_id);
    let v = simple_store::region_or_new(s.regions, header.region_id);
    written_effect(v, cmds@, t, cmds@[i].key, i);
}

/// After writes, a key that none of them is about has the value that it had.
pub proof fn unwritten_keys_stay(
    w: &mut EngineStoreServerWrap,
    cmds: &WriteCmdsView,
    header: RaftCmdHeader,
    r: (EngineStoreApplyRes, Vec<DbWrite>),
    t: ColumnFamilyType,
    key: Seq<u8>,
)
    requires
        wrote(w, cmds, header, r),
        forall|j: int| 0 <= j < cmds@.len() ==> !is_about(#[trigger] cmds@[j], t, key),
    ensures
        holds(final(w).engine_store_server, header.region_id, t, key) == holds(
            old(w).engine_store_server,
            header.region_id,
            t,
            key,
        ),
{
    let s = old(w).engine_store_server@;
    simple_store::regions_have_families(old(w).engine_store_server, header.region_id);
    let v = simple_store::region_or_new(s.regions, header.region_id);
    written_effect(v, cmds@, t, key, -1);
}

proof fn puts_are_listed(cmds: Seq<WriteCmdSpec>, i: int)
    requires
        0 <= i < cmds.len(),
    ensures
        simple_store::puts_of(cmds).len() == puts_before(cmds, cmds.len() as int),
        cmds[i].cmd_type == WriteCmdType::Put ==> {
            &&& puts_before(cmds, i) < simple_store::puts_of(cmds).len()
            &&& simple_store::puts_of(cmds)[puts_before(cmds, i) as int] == (
            region::DbWriteView::Put {
                cf: ColumnFamilyType::Default,
                key: cmds[i].key,
                value: cmds[i].val,
            })
        },
    decreases cmds.len(),
{
    let p = cmds.drop_last();
    let n = cmds.len() - 1;
    same_counts(p, cmds, n);
    assert(cmds[n] == cmds.last());
    if p.len() > 0 {
        puts_are_listed(p, 0);
        if i < n {
            puts_are_listed(p, i);
            same_counts(p, cmds, i);
        }
    }
}

proof fn same_counts(a: Seq<WriteCmdSpec>, b: Seq<WriteCmdSpec>, n: int)
    requires
        n <= a.len(),
        n <= b.len(),
        forall|j: int| 0 <= j < n ==> a[j] == b[j],
    ensures
        puts_before(a, n) == puts_before(b, n),
    decreases n,
{
    if n > 0 {
        same_counts(a, b, n - 1);
    }
}

/// Each put of writes that are not old reaches the engine in its place, under its plain key in
/// the default column family, and nothing else does. The proxy's state is not to be made
/// durable, and nothing but keys of the region changes.
pub proof fn puts_reach_the_engine(
    w: &mut EngineStoreServerWrap,
    cmds: &WriteCmdsView,
    header: RaftCmdHeader,
    r: (EngineStoreApplyRes, Vec<DbWrite>),
    i: int,
    other: u64,
)
    requires
        wrote(w, cmds, header, r),
        0 <= i < cmds@.len(),
    ensures
        r.0 == EngineStoreApplyRes::NoPersist,
        is_old(old(w).engine_store_server@, header) ==> r.1@.len() == 0,
        !is_old(old(w).engine_store_server@, header) ==> {
            &&& r.1@.len() == puts_before(cmds@, cmds@.len() as int)
            &&& cmds@[i].cmd_type == WriteCmdType::Put ==> {
                let x = r.1@[puts_before(cmds@, i) as int];
                &&& puts_before(cmds@, i) < r.1@.len()
                &&& x is Put
                &&& x->Put_cf == ColumnFamilyType::Default
                &&& x->Put_key@ == cmds@[i].key
                &&& x->Put_value@ == cmds@[i].val
            }
        },
        ({
            let s = old(w).engine_store_server@;
            let n = final(w).engine_store_server@;
            let id = header.region_id;
            &&& other != id ==> same(s, n, other)
            &&& n.id == s.id
            &&& n.regions.contains_key(id)
            &&& s.regions.contains_key(id) ==> {
                &&& n.regions[id].region == s.regions[id].region
                &&& n.regions[id].peer == s.regions[id].peer
                &&& n.regions[id].apply_state == s.regions[id].apply_state
            }
        }),
        final(w).maybe_proxy_helper == old(w).maybe_proxy_helper,
{
    let s = old(w).engine_store_server@;
    puts_are_listed(cmds@, i);
    simple_store::regions_have_families(old(w).engine_store_server, header.region_id);
    let v = simple_store::region_or_new(s.regions, header.region_id);
    let none = Seq::<u8>::empty();
    store_laws::last_about(cmds@, ColumnFamilyType::Lock, none);
    let k = choose|k: int|
        {
            &&& -1 <= k < cmds@.len()
            &&& k >= 0 ==> is_about(cmds@[k], ColumnFamilyType::Lock, none)
            &&& #[trigger] none_after(cmds@, k, ColumnFamilyType::Lock, none)
        };
    written_effect(v, cmds@, ColumnFamilyType::Lock, none, k);
    let d = region::db_views(r.1@);
    assert(d.len() == r.1@.len());
    if !is_old(s, header) && cmds@[i].cmd_type == WriteCmdType::Put {
        let x = puts_before(cmds@, i) as int;
        assert(d[x] == r.1@[x]@);
    }
}

spec fn done(v: SimpleRegionView, snaps: Seq<SstData>, index: u64, term: u64) -> SimpleRegionView {
    simple_store::restored(v, sst_reader::sst_views(snaps), index, term)
}

proof fn done_step(v: SimpleRegionView, snaps: Seq<SstData>, index: u64, term: u64)
    requires
        snaps.len() > 0,
    ensures
        done(v, snaps, index, term) == done(v, snaps.drop_last(), index, term).at_snapshot(
            index,
            term,
        ).put_each(
            snaps.last().type_.code() as int,
            bytes_map::pair_views(snaps.last().kvs@),
        ),
        snaps.last().type_.code() == place_of(snaps.last().type_),
{
    let w = sst_reader::sst_views(snaps);
    assert(w.drop_last() =~= sst_reader::sst_views(snaps.drop_last()));
    assert(w.last() == snaps.last()@);
}

proof fn done_shape(v: SimpleRegionView, snaps: Seq<SstData>, index: u64, term: u64)
    requires
        v.data.len() == 3,
    ensures
        ({
            let d = done(v, snaps, index, term);
            &&& d.data.len() == 3
            &&& d.region == v.region
            &&& snaps.len() > 0 ==> {
                &&& d.apply_state.applied_index == index
                &&& d.apply_state.truncated_state.index == index
                &&& d.apply_state.truncated_state.term == term
            }
        }),
    decreases snaps.len(),
{
    if snaps.len() > 0 {
        done_step(v, snaps, index, term);
        done_shape(v, snaps.drop_last(), index, term);
    }
}

proof fn done_at(
    v: SimpleRegionView,
    snaps: Seq<SstData>,
    index: u64,
    term: u64,
    i: int,
    j: int,
    t: ColumnFamilyType,
    key: Seq<u8>,
)
    requires
        v.data.len() == 3,
        brings_last(snaps, i, j, t, key),
    ensures
        value_in(done(v, snaps, index, term), t, key) == Some(snaps[i].kvs@[j].1@),
    decreases snaps.len(),
{
    let p = snaps.drop_last();
    let n = snaps.len() - 1;
    let kvs = bytes_map::pair_views(snaps.last().kvs@);
    done_step(v, snaps, index, term);
    done_shape(v, p, index, term);
    if i == n {
        assert forall|b: int| j < b < kvs.len() implies (#[trigger] kvs[b]).0 != key by {
            assert(before(i, j, n, b));
            assert(!brings(snaps, n, b, t, key));
        }
        file_laws::last_pair(kvs, j, key);
    } else {
        assert(brings(p, i, j, t, key));
        assert forall|a: int, b: int| before(i, j, a, b) implies !#[trigger] brings(
            p,
            a,
            b,
            t,
            key,
        ) by {
            assert(!brings(snaps, a, b, t, key));
        }
        done_at(v, p, index, term, i, j, t, key);
        if snaps.last().type_ == t {
            assert forall|b: int| 0 <= b < kvs.len() implies (#[trigger] kvs[b]).0 != key by {
                assert(before(i, j, n, b));
                assert(!brings(snaps, n, b, t, key));
            }
            file_laws::no_pair(kvs, key);
        }
    }
}

proof fn done_elsewhere(
    v: SimpleRegionView,
    snaps: Seq<SstData>,
    index: u64,
    term: u64,
    t: ColumnFamilyType,
    key: Seq<u8>,
)
    requires
        v.data.len() == 3,
        brings_none(snaps, t, key),
    ensures
        value_in(done(v, snaps, index, term), t, key) == value_in(v, t, key),
    decreases snaps.len(),
{
    if snaps.len() > 0 {
        let p = snaps.drop_last();
        let n = snaps.len() - 1;
        let kvs = bytes_map::pair_views(snaps.last().kvs@);
        done_step(v, snaps, index, term);
        done_shape(v, p, index, term);
        assert forall|a: int, b: int| !#[trigger] brings(p, a, b, t, key) by {
            assert(!brings(snaps, a, b, t, key));
        }
        done_elsewhere(v, p, index, term, t, key);
        if snaps.last().type_ == t {
            assert forall|b: int| 0 <= b < kvs.len() implies (#[trigger] kvs[b]).0 != key by {
                assert(!brings(snaps, n, b, t, key));
            }
            file_laws::no_pair(kvs, key);
        }
    }
}

/// A snapshot puts the region that comes with it into the store: of each key that its files
/// bring the region has the last value that they bring, and it has no other key.
pub proof fn snapshot_brings_its_keys(
    w: &mut EngineStoreServerWrap,
    meta: Region,
    snaps: &Vec<SstData>,
    index: u64,
    term: u64,
    i: int,
    j: int,
    t: ColumnFamilyType,
    key: Seq<u8>,
    u: ColumnFamilyType,
    none: Seq<u8>,
)
    requires
        call_ensures(
            EngineStoreServerWrap::ffi_pre_handle_snapshot,
            (w, meta, snaps, index, term),
            (),
        ),
        brings_last(snaps@, i, j, t, key),
        brings_none(snaps@, u, none),
    ensures
        holds(final(w).engine_store_server, meta@.id, t, key) == Some(snaps@[i].kvs@[j].1@),
        holds(final(w).engine_store_server, meta@.id, u, none) is None,
{
    let v = SimpleRegionView::spec_new(meta@);
    done_at(v, snaps@, index, term, i, j, t, key);
    done_elsewhere(v, snaps@, index, term, u, none);
}

/// A snapshot leaves its region where it was taken, and all other regions as they were.
pub proof fn snapshot_places_its_region(
    w: &mut EngineStoreServerWrap,
    meta: Region,
    snaps: &Vec<SstData>,
    index: u64,
    term: u64,
    other: u64,
)
    requires
        call_ensures(
            EngineStoreServerWrap::ffi_pre_handle_snapshot,
            (w, meta, snaps, index, term),
            (),
        ),
    ensures
        ({
            let n = final(w).engine_store_server@;
            let now = n.regions[meta@.id];
            &&& n.regions.contains_key(meta@.id)
            &&& now.region == meta@
            &&& snaps@.len() > 0 ==> {
                &&& now.apply_state.applied_index == index
                &&& now.apply_state.truncated_state.index == index
                &&& now.apply_state.truncated_state.term == term
            }
            &&& other != meta@.id ==> same(old(w).engine_store_server@, n, other)
        }),
        final(w).maybe_proxy_helper == old(w).maybe_proxy_helper,
{
    done_shape(SimpleRegionView::spec_new(meta@), snaps@, index, term);
}

/// An administrative command asks for the proxy's state to be made durable, and changes nothing
/// but that its region is there; a region that is destroyed is gone, and others stay.
pub proof fn other_commands_change_no_keys(
    w: &mut EngineStoreServerWrap,
    header: RaftCmdHeader,
    r: EngineStoreApplyRes,
    d: &mut EngineStoreServerWrap,
    region_id: u64,
    u: &mut EngineStoreServerWrap,
    helper: usize,
    id: u64,
    t: ColumnFamilyType,
    key: Seq<u8>,
    other: u64,
)
    requires
        call_ensures(EngineStoreServerWrap::handle_admin_raft_cmd, (w, header), r),
        call_ensures(EngineStoreServerWrap::ffi_handle_destroy, (d, region_id), ()),
        call_ensures(EngineStoreServerWrap::ffi_atomic_update_proxy, (u, helper), ()),
    ensures
        r == EngineStoreApplyRes::Persist,
        final(w).engine_store_server@.regions.contains_key(header.region_id),
        holds(final(w).engine_store_server, id, t, key) == holds(
            old(w).engine_store_server,
            id,
            t,
            key,
        ),
        !final(d).engine_store_server@.regions.contains_key(region_id),
        other != region_id ==> same(
            old(d).engine_store_server@,
            final(d).engine_store_server@,
            other,
        ),
        final(u).maybe_proxy_helper == Some(helper),
        final(u).engine_store_server == old(u).engine_store_server,
{
}

/// What is read of a key is what the store has for it.
pub proof fn memory_is_read(
    id: u64,
    fresh: EngineStoreServer,
    s: &EngineStoreServer,
    region_id: u64,
    t: ColumnFamilyType,
    key: &[u8],
    r: Option<&Vec<u8>>,
)
    requires
        call_ensures(EngineStoreServer::new, (id,), fresh),
        call_ensures(EngineStoreServer::get_mem, (s, region_id, t, key), r),
    ensures
        fresh@.id == id,
        !fresh@.regions.contains_key(region_id),
        r is Some <==> holds(*s, region_id, t, key@) is Some,
        r is Some ==> holds(*s, region_id, t, key@) == Some((r->0)@),
{
}

} // verus!
