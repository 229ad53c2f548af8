//! An engine store without pending writes: what it is told to put reaches the engine below at
//! once, and it keeps no count of what was applied by commands.

use std::collections::HashMap;

use vstd::prelude::*;

use crate::bytes;
use crate::bytes_map::BytesMap;
use crate::ffi::{
    ColumnFamilyType, EngineStoreApplyRes, RaftCmdHeader, WriteCmdSpec, WriteCmdType,
    WriteCmdsView,
};
use crate::messages::{Peer, RaftApplyState, RaftTruncatedState, Region, RegionView};
use crate::region;
use crate::region::{DbWrite, DbWriteView};
use crate::bytes_map;
use crate::sst_reader;
use crate::sst_reader::{SSTReader, SstData, SstDataView};

verus! {

/// A region in memory.
pub struct SimpleRegion {
    pub region: Region,
    pub peer: Peer,
    pub data: [BytesMap; 3],
    pub apply_state: RaftApplyState,
}

#[verifier::ext_equal]
pub struct SimpleRegionView {
    pub region: RegionView,
    pub peer: Peer,
    pub data: Seq<Map<Seq<u8>, Seq<u8>>>,
    pub apply_state: RaftApplyState,
}

impl View for SimpleRegion {
    type V = SimpleRegionView;

    open spec fn view(&self) -> SimpleRegionView {
        SimpleRegionView {
            region: self.region@,
            peer: self.peer,
            data: Seq::new(3, |i: int| self.data@[i]@),
            apply_state: self.apply_state,
        }
    }
}

impl SimpleRegionView {
    pub open spec fn spec_new(meta: RegionView) -> SimpleRegionView {
        SimpleRegionView {
            region: meta,
            peer: Peer::spec_default(),
            data: Seq::new(3, |i: int| Map::empty()),
            apply_state: RaftApplyState::spec_default(),
        }
    }

    pub open spec fn put(self, cf: int, key: Seq<u8>, value: Seq<u8>) -> SimpleRegionView {
        SimpleRegionView { data: self.data.update(cf, self.data[cf].insert(key, value)), ..self }
    }

    pub open spec fn del(self, cf: int, key: Seq<u8>) -> SimpleRegionView {
        SimpleRegionView { data: self.data.update(cf, self.data[cf].remove(key)), ..self }
    }

    pub open spec fn put_each(self, cf: int, kvs: Seq<(Seq<u8>, Seq<u8>)>) -> SimpleRegionView {
        SimpleRegionView {
            data: self.data.update(
                cf,
                self.data[cf].union_prefer_right(bytes_map::map_of(kvs)),
            ),
            ..self
        }
    }

    /// The region stands at a snapshot.
    pub open spec fn at_snapshot(self, index: u64, term: u64) -> SimpleRegionView {
        SimpleRegionView {
            apply_state: RaftApplyState {
                applied_index: index,
                truncated_state: RaftTruncatedState { index, term },
                ..self.apply_state
            },
            ..self
        }
    }
}

/// A region after some writes.
pub open spec fn written(r: SimpleRegionView, cmds: Seq<WriteCmdSpec>) -> SimpleRegionView
    decreases cmds.len(),
{
    if cmds.len() == 0 {
        r
    } else {
        let p = written(r, cmds.drop_last());
        let c = cmds.last();
        match c.cmd_type {
            WriteCmdType::Put => p.put(c.cf as int, c.key, c.val),
            WriteCmdType::Del => p.del(c.cf as int, c.key),
        }
    }
}

/// The puts among some writes as they reach the engine below: all in its default column
/// family, under their plain keys.
pub open spec fn puts_of(cmds: Seq<WriteCmdSpec>) -> Seq<DbWriteView>
    decreases cmds.len(),
{
    if cmds.len() == 0 {
        Seq::empty()
    } else {
        let p = puts_of(cmds.drop_last());
        let c = cmds.last();
        match c.cmd_type {
            WriteCmdType::Put => p.push(
                DbWriteView::Put { cf: ColumnFamilyType::Default, key: c.key, value: c.val },
            ),
            WriteCmdType::Del => p,
        }
    }
}

/// A region after the files of a snapshot were put into it.
pub open spec fn restored(
    r: SimpleRegionView,
    snaps: Seq<SstDataView>,
    index: u64,
    term: u64,
) -> SimpleRegionView
    decreases snaps.len(),
{
    if snaps.len() == 0 {
        r
    } else {
        restored(r, snaps.drop_last(), index, term).at_snapshot(index, term).put_each(
            snaps.last().type_.code() as int,
            snaps.last().kvs,
        )
    }
}

/// A store that holds regions in memory.
pub struct EngineStoreServer {
    pub id: u64,
    kvstore: HashMap<u64, SimpleRegion>,
}

#[verifier::ext_equal]
pub struct EngineStoreServerView {
    pub id: u64,
    pub regions: Map<u64, SimpleRegionView>,
}

impl View for EngineStoreServer {
    type V = EngineStoreServerView;

    closed spec fn view(&self) -> EngineStoreServerView {
        EngineStoreServerView {
            id: self.id,
            regions: self.kvstore@.map_values(|r: SimpleRegion| r@),
        }
    }
}

/// Each region has a map for each column family.
pub proof fn regions_have_families(s: EngineStoreServer, id: u64)
    ensures
        s@.regions.contains_key(id) ==> s@.regions[id].data.len() == 3,
{
}

/// The region of a number, or an empty one.
pub open spec fn region_or_new(m: Map<u64, SimpleRegionView>, id: u64) -> SimpleRegionView {
    if m.contains_key(id) {
        m[id]
    } else {
        SimpleRegionView::spec_new(RegionView::spec_default())
    }
}

fn new_region(meta: Region) -> (r: SimpleRegion)
    ensures
        r@ == SimpleRegionView::spec_new(meta@),
{
    let r = SimpleRegion {
        region: meta,
        peer: Peer::default(),
        data: [BytesMap::new(), BytesMap::new(), BytesMap::new()],
        apply_state: RaftApplyState::default(),
    };
    assert(r@.data =~= SimpleRegionView::spec_new(meta@).data);
    r
}

fn put_kv(r: &mut SimpleRegion, cf: u8, key: &[u8], value: &[u8])
    requires
        cf < 3,
    ensures
        final(r)@ == old(r)@.put(cf as int, key@, value@),
{
    let ghost before = r@;
    r.data[cf as usize].insert(bytes::copy_of(key), bytes::copy_of(value));
    assert(r@.data =~= before.put(cf as int, key@, value@).data);
}

fn put_file(r: &mut SimpleRegion, snap: &SstData)
    ensures
        final(r)@ == old(r)@.put_each(snap.type_.code() as int, snap@.kvs),
{
    let ghost v = r@;
    let ghost p = snap@.kvs;
    let cf: u8 = snap.type_.into();
    let mut reader = SSTReader::new(snap);
    let ghost mut done: int = 0;
    proof {
        assert(p.take(0) =~= Seq::empty());
        assert(p.skip(0) =~= p);
        assert(v.data[cf as int].union_prefer_right(Map::empty()) =~= v.data[cf as int]);
        assert(v.put_each(cf as int, p.take(0)).data =~= v.data);
    }
    while reader.remained()
        invariant
            cf < 3,
            cf == snap.type_.code(),
            v.data.len() == 3,
            0 <= done <= p.len(),
            reader.rest() == p.skip(done),
            r@ == v.put_each(cf as int, p.take(done)),
        decreases p.len() - done,
    {
        let key = reader.key();
        let value = reader.value();
        put_kv(r, cf, key.to_slice(), value.to_slice());
        proof {
            assert(p.take(done + 1).drop_last() =~= p.take(done));
            let m = bytes_map::map_of(p.take(done));
            assert(v.data[cf as int].union_prefer_right(m).insert(p[done].0, p[done].1)
                =~= v.data[cf as int].union_prefer_right(m.insert(p[done].0, p[done].1)));
            assert(r@.data =~= v.data.update(
                cf as int,
                v.data[cf as int].union_prefer_right(m.insert(p[done].0, p[done].1)),
            ));
            assert(p.skip(done).skip(1) =~= p.skip(done + 1));
        }
        reader.next();
        proof {
            done = done + 1;
        }
    }
    assert(p.take(done) =~= p);
}

impl EngineStoreServer {
    pub fn new(id: u64) -> (r: Self)
        ensures
            r@ == (EngineStoreServerView { id, regions: Map::empty() }),
    {
        broadcast use vstd::std_specs::hash::group_hash_axioms;

        let r = EngineStoreServer { id, kvstore: HashMap::new() };
        assert(r@.regions =~= Map::empty());
        r
    }

    fn take_or_new(&mut self, id: u64) -> (r: SimpleRegion)
        ensures
            r@ == region_or_new(old(self)@.regions, id),
            final(self)@ == (EngineStoreServerView {
                regions: old(self)@.regions.remove(id),
                ..old(self)@
            }),
    {
        broadcast use vstd::std_specs::hash::group_hash_axioms;

        let ghost m = self@.regions;
        match self.kvstore.remove(&id) {
            Some(r) => {
                assert(self@.regions =~= m.remove(id));
                r
            },
            None => {
                assert(self@.regions =~= m.remove(id));
                new_region(Region::default())
            },
        }
    }

    fn put_region(&mut self, id: u64, r: SimpleRegion)
        ensures
            final(self)@ == (EngineStoreServerView {
                regions: old(self)@.regions.insert(id, r@),
                ..old(self)@
            }),
    {
        broadcast use vstd::std_specs::hash::group_hash_axioms;

        let ghost m = self@.regions;
        let ghost v = r@;
        self.kvstore.insert(id, r);
        assert(self@.regions =~= m.insert(id, v));
    }

    /// The value of a key in memory.
    pub fn get_mem(&self, region_id: u64, cf: ColumnFamilyType, key: &[u8]) -> (r: Option<&Vec<u8>>)
        ensures
            match r {
                Some(v) => {
                    &&& self@.regions.contains_key(region_id)
                    &&& self@.regions[region_id].data[cf.code() as int].contains_key(key@)
                    &&& self@.regions[region_id].data[cf.code() as int][key@] == v@
                },
                None => self@.regions.contains_key(region_id)
                    ==> !self@.regions[region_id].data[cf.code() as int].contains_key(key@),
            },
    {
        broadcast use vstd::std_specs::hash::group_hash_axioms;

        match self.kvstore.get(&region_id) {
            Some(r) => {
                let i: u8 = cf.into();
                r.data[i as usize].get(key)
            },
            None => None,
        }
    }
}

/// A store with what the other side of the border handed to it.
pub struct EngineStoreServerWrap {
    pub engine_store_server: EngineStoreServer,
    /// The address of the proxy's functions, once it is known.
    pub maybe_proxy_helper: Option<usize>,
}

impl EngineStoreServerWrap {
    pub fn new(engine_store_server: EngineStoreServer, maybe_proxy_helper: Option<usize>) -> (r:
        Self)
        ensures
            r == (EngineStoreServerWrap { engine_store_server, maybe_proxy_helper }),
    {
        EngineStoreServerWrap { engine_store_server, maybe_proxy_helper }
    }

    /// Takes an administrative command: its region is known afterwards, and the proxy's own
    /// state is to be made durable.
    pub fn handle_admin_raft_cmd(&mut self, header: RaftCmdHeader) -> (r: EngineStoreApplyRes)
        ensures
            r == EngineStoreApplyRes::Persist,
            ({
                let s = old(self).engine_store_server@;
                let id = header.region_id;
                final(self).engine_store_server@ == (EngineStoreServerView {
                    regions: s.regions.insert(id, region_or_new(s.regions, id)),
                    ..s
                })
            }),
            final(self).maybe_proxy_helper == old(self).maybe_proxy_helper,
    {
        let id: u64 = header.region_id;
        let ghost m = self.engine_store_server@.regions;
        let region = self.engine_store_server.take_or_new(id);
        let ghost v = region@;
        self.engine_store_server.put_region(id, region);
        assert(m.remove(id).insert(id, v) =~= m.insert(id, v));
        EngineStoreApplyRes::Persist
    }

    /// Applies writes that are newer than the snapshot that the region stands at; older ones
    /// are left out.
    pub fn handle_write_raft_cmd(&mut self, cmds: &WriteCmdsView, header: RaftCmdHeader) -> (r: (
        EngineStoreApplyRes,
        Vec<DbWrite>,
    ))
        requires
            forall|i: int| 0 <= i < cmds@.len() ==> (#[trigger] cmds@[i]).cf < 3,
        ensures
            r.0 == EngineStoreApplyRes::NoPersist,
            ({
                let s = old(self).engine_store_server@;
                let id = header.region_id;
                let v = region_or_new(s.regions, id);
                let obsolete = v.apply_state.applied_index >= header.index;
                &&& final(self).engine_store_server@ == (EngineStoreServerView {
                    regions: s.regions.insert(
                        id,
                        if obsolete {
                            v
                        } else {
                            written(v, cmds@)
                        },
                    ),
                    ..s
                })
                &&& region::db_views(r.1@) == (if obsolete {
                    Seq::empty()
                } else {
                    puts_of(cmds@)
                })
            }),
            final(self).maybe_proxy_helper == old(self).maybe_proxy_helper,
    {
        let id: u64 = header.region_id;
        let ghost m = self.engine_store_server@.regions;
        let mut r = self.engine_store_server.take_or_new(id);
        let ghost v = r@;
        let ghost c = cmds@;
        let mut out: Vec<DbWrite> = Vec::new();
        assert(region::db_views(out@) =~= Seq::empty());
        assert(c.take(0) =~= Seq::empty());
        if r.apply_state.applied_index < header.index {
            let n: usize = cmds.len();
            let mut i: usize = 0;
            while i < n
                invariant
                    i <= n,
                    n == c.len(),
                    c == cmds@,
                    forall|j: int| 0 <= j < c.len() ==> (#[trigger] c[j]).cf < 3,
                    r@ == written(v, c.take(i as int)),
                    region::db_views(out@) == puts_of(c.take(i as int)),
                decreases n - i,
            {
                proof {
                    assert(c.take(i + 1).drop_last() =~= c.take(i as int));
                    assert(c.take(i + 1).last() == c[i as int]);
                }
                let cf: u8 = cmds.cf(i);
                let key = cmds.key(i);
                let ghost wrote = out@;
                match cmds.cmd_type(i) {
                    WriteCmdType::Put => {
                        put_kv(&mut r, cf, key, cmds.val(i));
                        let w = DbWrite::Put {
                            cf: ColumnFamilyType::Default,
                            key: bytes::copy_of(key),
                            value: bytes::copy_of(cmds.val(i)),
                        };
                        let ghost wv = w@;
                        out.push(w);
                        assert(region::db_views(out@) =~= region::db_views(wrote).push(wv));
                    },
                    WriteCmdType::Del => {
                        let ghost before = r@;
                        r.data[cf as usize].remove(key);
                        assert(r@.data =~= before.del(cf as int, key@).data);
                    },
                }
                i = i + 1;
            }
            assert(c.take(n as int) =~= c);
        }
        let ghost after = r@;
        self.engine_store_server.put_region(id, r);
        assert(m.remove(id).insert(id, after) =~= m.insert(id, after));
        (EngineStoreApplyRes::NoPersist, out)
    }

    /// Notes where the proxy's functions are.
    pub fn ffi_atomic_update_proxy(&mut self, helper: usize)
        ensures
            final(self).maybe_proxy_helper == Some(helper),
            final(self).engine_store_server == old(self).engine_store_server,
    {
        self.maybe_proxy_helper = Some(helper);
    }

    /// Forgets a region.
    pub fn ffi_handle_destroy(&mut self, region_id: u64)
        ensures
            final(self).engine_store_server@ == (EngineStoreServerView {
                regions: old(self).engine_store_server@.regions.remove(region_id),
                ..old(self).engine_store_server@
            }),
            final(self).maybe_proxy_helper == old(self).maybe_proxy_helper,
    {
        self.engine_store_server.take_or_new(region_id);
    }

    /// Puts a region that is built from a snapshot into the store.
    pub fn ffi_pre_handle_snapshot(
        &mut self,
        region_meta: Region,
        snaps: &Vec<SstData>,
        index: u64,
        term: u64,
    )
        requires
            old(self).maybe_proxy_helper is Some,
        ensures
            ({
                let s = old(self).engine_store_server@;
                let id = region_meta@.id;
                final(self).engine_store_server@ == (EngineStoreServerView {
                    regions: s.regions.insert(
                        id,
                        restored(
                            SimpleRegionView::spec_new(region_meta@),
                            sst_reader::sst_views(snaps@),
                            index,
                            term,
                        ),
                    ),
                    ..s
                })
            }),
            final(self).maybe_proxy_helper == old(self).maybe_proxy_helper,
    {
        let id: u64 = region_meta.id;
        let mut r = new_region(region_meta);
        let ghost v = r@;
        let ghost w = sst_reader::sst_views(snaps@);
        let n: usize = snaps.len();
        let mut i: usize = 0;
        assert(w.take(0) =~= Seq::empty());
        while i < n
            invariant
                i <= n,
                n == snaps@.len(),
                w == sst_reader::sst_views(snaps@),
                r@ == restored(v, w.take(i as int), index, term),
            decreases n - i,
        {
            r.apply_state.applied_index = index;
            r.apply_state.truncated_state = RaftTruncatedState { index, term };
            put_file(&mut r, &snaps[i]);
            proof {
                assert(w.take(i + 1).drop_last() =~= w.take(i as int));
                assert(w.take(i + 1).last() == snaps@[i as int]@);
            }
            i = i + 1;
        }
        assert(w.take(n as int) =~= w);
        self.engine_store_server.put_region(id, r);
    }
}

} // verus!
