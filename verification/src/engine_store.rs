//! An engine store: it holds regions, applies raft commands to them and says which
//! changes have to reach the engine below.

use std::collections::HashMap;

use vstd::prelude::*;

use crate::bytes;
use crate::bytes_map;
use crate::bytes_map::BytesMap;
use crate::ffi::{
    ColumnFamilyType, EngineStoreApplyRes, FsStats, RaftCmdHeader, WriteCmdSpec, WriteCmdType,
    WriteCmdsView,
};
use crate::keys;
use crate::messages;
use crate::messages::{
    AdminCmdType, AdminRequest, AdminRequestView, AdminResponse, AdminResponseView, Peer,
    RaftApplyState, Region, RegionEpoch, RegionLocalState, RegionView,
};
use crate::page_storage::{MockPageStorage, Pages};
use crate::region;
use crate::sst_reader;
use crate::sst_reader::{SSTReader, SstData, SstDataView};
use crate::region::{CfView, DbWrite, DbWriteView, MockRegion, MockRegionView, RegionId};

verus! {

/// What a test may ask of the engine store.
#[derive(Clone, Copy, Debug, PartialEq, Eq, Structural)]
pub struct MockConfig {
    /// Whether a flush of an unknown region is an error.
    pub panic_when_flush_no_found: bool,
}

/// How often something was done to a region.
#[derive(Clone, Copy, Debug, PartialEq, Eq, Structural)]
pub struct RegionStats {
    pub pre_handle_count: u64,
    pub fast_add_peer_count: u64,
}

impl RegionStats {
    pub open spec fn spec_default() -> RegionStats {
        RegionStats { pre_handle_count: 0, fast_add_peer_count: 0 }
    }
}

impl Default for RegionStats {
    fn default() -> (r: Self)
        ensures
            r == RegionStats::spec_default(),
    {
        RegionStats { pre_handle_count: 0, fast_add_peer_count: 0 }
    }
}

pub type Regions = Map<u64, MockRegionView>;

/// A store that holds regions in memory.
pub struct EngineStoreServer {
    pub id: u64,
    /// Whether the engine below is there.
    pub engines: bool,
    pub kvstore: HashMap<RegionId, MockRegion>,
    /// Whether a write may stay in memory until a flush is asked for.
    pub proxy_compat: bool,
    pub mock_cfg: MockConfig,
    pub region_states: HashMap<RegionId, RegionStats>,
    pub page_storage: MockPageStorage,
}

#[verifier::ext_equal]
pub struct EngineStoreServerView {
    pub id: u64,
    pub engines: bool,
    pub regions: Regions,
    pub proxy_compat: bool,
    pub mock_cfg: MockConfig,
    pub region_states: Map<u64, RegionStats>,
    pub pages: Pages,
}

impl View for EngineStoreServer {
    type V = EngineStoreServerView;

    open spec fn view(&self) -> EngineStoreServerView {
        EngineStoreServerView {
            id: self.id,
            engines: self.engines,
            regions: self.kvstore@.map_values(|r: MockRegion| r@),
            proxy_compat: self.proxy_compat,
            mock_cfg: self.mock_cfg,
            region_states: self.region_states@,
            pages: self.page_storage@,
        }
    }
}

impl EngineStoreServerView {
    pub open spec fn with_regions(self, regions: Regions) -> EngineStoreServerView {
        EngineStoreServerView { regions, ..self }
    }
}

/// The regions, with an empty one put in where a region is missing.
pub open spec fn with_entry(m: Regions, id: u64) -> Regions {
    if m.contains_key(id) {
        m
    } else {
        m.insert(id, MockRegionView::spec_new(RegionView::spec_default()))
    }
}

/// A new region that knows which of its peers is on a store.
pub open spec fn new_region_on(meta: RegionView, store_id: u64) -> MockRegionView {
    MockRegionView {
        peer: match meta.peer_on(store_id) {
            Some(p) => p,
            None => Peer::spec_default(),
        },
        ..MockRegionView::spec_new(meta)
    }
}

/// Hands the keys of the default column family that a region covers over to it, for one
/// region after the other.
pub open spec fn spread(m: Regions, kvs: Map<Seq<u8>, Seq<u8>>, ids: Seq<u64>) -> Regions
    decreases ids.len(),
{
    if ids.len() == 0 {
        m
    } else {
        let p = spread(m, kvs, ids.drop_last());
        let r = p[ids.last()];
        p.insert(ids.last(), r.put_all(2, region::moved(r.region, kvs)))
    }
}

/// Empties a region and hands its keys of the default column family over to others.
pub open spec fn move_data(m: Regions, old_id: u64, ids: Seq<u64>) -> Regions {
    spread(m.insert(old_id, m[old_id].emptied()), m[old_id].cfs[2].data, ids)
}

/// Puts the metadata of split regions in place: the region that was split keeps its data,
/// the others are new.
pub open spec fn split_metas(m: Regions, id: u64, store_id: u64, metas: Seq<RegionView>) -> Regions
    decreases metas.len(),
{
    if metas.len() == 0 {
        m
    } else {
        let p = split_metas(m, id, store_id, metas.drop_last());
        let meta = metas.last();
        if meta.id == id {
            p.insert(id, MockRegionView { region: meta, ..p[id] })
        } else {
            p.insert(meta.id, new_region_on(meta, store_id))
        }
    }
}

/// The numbers of some regions.
pub open spec fn ids_of(metas: Seq<RegionView>) -> Seq<u64> {
    Seq::new(metas.len(), |i: int| metas[i].id)
}

/// Whether a region that is merged into another one lies before it.
pub open spec fn source_at_left(source: RegionView, target: RegionView) -> bool {
    if source.start_key.len() == 0 {
        true
    } else if target.start_key.len() == 0 {
        false
    } else {
        source.end_key == target.start_key
    }
}

pub open spec fn max_of(a: u64, b: u64) -> u64 {
    if a < b {
        b
    } else {
        a
    }
}

/// The metadata of a region after another one was merged into it.
pub open spec fn merged(target: RegionView, source: RegionView) -> RegionView {
    let epoch = Some(
        RegionEpoch {
            conf_ver: target.epoch().conf_ver,
            version: (max_of(source.epoch().version, target.epoch().version) + 1) as u64,
        },
    );
    if source_at_left(source, target) {
        RegionView { region_epoch: epoch, start_key: source.start_key, ..target }
    } else {
        RegionView { region_epoch: epoch, end_key: source.end_key, ..target }
    }
}

/// Whether a change of peers takes a region off a store: it knows which store it is on,
/// and has no peer there any more.
pub open spec fn leaves(r: MockRegionView, meta: RegionView) -> bool {
    r.peer.store_id != 0 && !meta.on_store(r.peer.store_id)
}

/// The regions after an administrative command, before anything is flushed.
pub open spec fn admin_applied(
    s: EngineStoreServerView,
    req: AdminRequestView,
    resp: AdminResponseView,
    header: RaftCmdHeader,
) -> Regions {
    let id = header.region_id;
    let m = with_entry(s.regions, id);
    let r = m[id];
    match req.cmd_type {
        AdminCmdType::ChangePeer | AdminCmdType::ChangePeerV2 => {
            if leaves(r, resp.change_peer) {
                m.remove(id)
            } else {
                m.insert(
                    id,
                    (MockRegionView { region: resp.change_peer, ..r }).applied(
                        header.index,
                        header.term,
                    ),
                )
            }
        },
        AdminCmdType::BatchSplit => move_data(
            split_metas(m, id, s.id, resp.splits),
            id,
            ids_of(resp.splits),
        ),
        AdminCmdType::PrepareMerge => {
            let e = r.region.epoch();
            let epoch = Some(
                RegionEpoch { conf_ver: (e.conf_ver + 1) as u64, version: (e.version + 1) as u64 },
            );
            m.insert(
                id,
                (MockRegionView {
                    region: RegionView { region_epoch: epoch, ..r.region },
                    ..r
                }).applied(header.index, header.term),
            )
        },
        AdminCmdType::CommitMerge => {
            let source = req.commit_merge_source;
            let t = (MockRegionView { region: merged(r.region, source), ..r }).applied(
                header.index,
                header.term,
            );
            move_data(m.insert(id, t), source.id, seq![id]).remove(source.id)
        },
        AdminCmdType::RollbackMerge => {
            let e = r.region.epoch();
            let epoch = Some(RegionEpoch { version: (e.version + 1) as u64, ..e });
            m.insert(
                id,
                (MockRegionView {
                    region: RegionView { region_epoch: epoch, ..r.region },
                    ..r
                }).applied(header.index, header.term),
            )
        },
        AdminCmdType::CompactLog => m.insert(
            id,
            r.truncated(req.compact_log.compact_index, req.compact_log.compact_term).applied(
                header.index,
                header.term,
            ),
        ),
        _ => m.insert(id, r.applied(header.index, header.term)),
    }
}

/// Whether an administrative command flushes its region: it does unless the region is gone,
/// or the command cuts the log off, which only comes after a flush.
pub open spec fn admin_flushes(
    s: EngineStoreServerView,
    req: AdminRequestView,
    resp: AdminResponseView,
    header: RaftCmdHeader,
) -> bool {
    &&& admin_applied(s, req, resp, header).contains_key(header.region_id)
    &&& req.cmd_type != AdminCmdType::CompactLog
}

/// The store after an administrative command.
pub open spec fn admin_done(
    s: EngineStoreServerView,
    req: AdminRequestView,
    resp: AdminResponseView,
    header: RaftCmdHeader,
) -> EngineStoreServerView {
    let m = admin_applied(s, req, resp, header);
    let id = header.region_id;
    if admin_flushes(s, req, resp, header) {
        s.with_regions(m.insert(id, m[id].flushed()))
    } else {
        s.with_regions(m)
    }
}

/// What an administrative command writes to the engine below.
pub open spec fn admin_writes(
    s: EngineStoreServerView,
    req: AdminRequestView,
    resp: AdminResponseView,
    header: RaftCmdHeader,
) -> Seq<DbWriteView> {
    if admin_flushes(s, req, resp, header) {
        admin_applied(s, req, resp, header)[header.region_id].flush_writes()
    } else {
        Seq::empty()
    }
}

/// When an administrative command can be applied: it is newer than what was applied, its
/// region is fit for it, and its result is the one that the store comes to itself.
pub open spec fn admin_fits(
    s: EngineStoreServerView,
    req: AdminRequestView,
    resp: AdminResponseView,
    header: RaftCmdHeader,
) -> bool {
    let m = with_entry(s.regions, header.region_id);
    let r = m[header.region_id];
    let e = r.region.epoch();
    &&& r.apply_state.applied_index < header.index
    &&& admin_flushes(s, req, resp, header) ==> s.engines
    &&& match req.cmd_type {
        AdminCmdType::PrepareMerge => {
            &&& req.prepare_merge is Some
            &&& r.region.region_epoch is Some
            &&& e.version < u64::MAX
            &&& e.conf_ver < u64::MAX
            &&& resp.split_left.epoch().conf_ver == e.conf_ver + 1
        },
        AdminCmdType::CommitMerge => {
            let source = req.commit_merge_source;
            &&& max_of(source.epoch().version, e.version) < u64::MAX
            &&& if source_at_left(source, r.region) {
                resp.split_left.start_key == source.start_key
            } else {
                resp.split_left.end_key == source.end_key
            }
            &&& m.contains_key(source.id)
        },
        AdminCmdType::RollbackMerge => {
            &&& r.region.region_epoch is Some
            &&& e.version < u64::MAX
        },
        _ => true,
    }
}

/// A region after some writes.
pub open spec fn written(r: MockRegionView, cmds: Seq<WriteCmdSpec>) -> MockRegionView
    decreases cmds.len(),
{
    if cmds.len() == 0 {
        r
    } else {
        let p = written(r, cmds.drop_last());
        let c = cmds.last();
        match c.cmd_type {
            WriteCmdType::Put => p.put(c.cf as int, c.key, c.val),
            WriteCmdType::Del => p.del(c.cf as int, c.key),
        }
    }
}

impl EngineStoreServer {
    /// A store without regions.
    pub fn new(id: u64, engines: bool) -> (r: Self)
        ensures
            r@ == (EngineStoreServerView {
                id,
                engines,
                regions: Map::empty(),
                proxy_compat: false,
                mock_cfg: MockConfig { panic_when_flush_no_found: false },
                region_states: Map::empty(),
                pages: Map::empty(),
            }),
    {
        broadcast use vstd::std_specs::hash::group_hash_axioms;

        let r = EngineStoreServer {
            id,
            engines,
            kvstore: HashMap::new(),
            proxy_compat: false,
            mock_cfg: MockConfig { panic_when_flush_no_found: false },
            region_states: HashMap::new(),
            page_storage: MockPageStorage::new(),
        };
        assert(r@.regions =~= Map::empty());
        r
    }

    /// Takes a region out of the store.
    fn take_region(&mut self, id: u64) -> (r: MockRegion)
        requires
            old(self)@.regions.contains_key(id),
        ensures
            r@ == old(self)@.regions[id],
            final(self)@ == old(self)@.with_regions(old(self)@.regions.remove(id)),
    {
        broadcast use vstd::std_specs::hash::group_hash_axioms;

        let ghost m = self@.regions;
        let r = self.kvstore.remove(&id).unwrap();
        assert(self@.regions =~= m.remove(id));
        r
    }

    /// Puts a region into the store; it takes the place of an earlier one.
    pub fn put_region(&mut self, id: u64, region: MockRegion)
        ensures
            final(self)@ == old(self)@.with_regions(old(self)@.regions.insert(id, region@)),
    {
        broadcast use vstd::std_specs::hash::group_hash_axioms;

        let ghost m = self@.regions;
        let ghost v = region@;
        self.kvstore.insert(id, region);
        assert(self@.regions =~= m.insert(id, v));
    }

    /// Whether the store has a region.
    pub fn has_region(&self, id: u64) -> (r: bool)
        ensures
            r == self@.regions.contains_key(id),
    {
        broadcast use vstd::std_specs::hash::group_hash_axioms;

        self.kvstore.contains_key(&id)
    }

    /// A region of the store.
    pub fn get_region(&self, id: u64) -> (r: Option<&MockRegion>)
        ensures
            match r {
                Some(x) => self@.regions.contains_key(id) && x@ == self@.regions[id],
                None => !self@.regions.contains_key(id),
            },
    {
        broadcast use vstd::std_specs::hash::group_hash_axioms;

        self.kvstore.get(&id)
    }

    /// Takes a region out, or a new one where the store has none.
    fn take_or_new(&mut self, id: u64) -> (r: MockRegion)
        ensures
            r@ == with_entry(old(self)@.regions, id)[id],
            final(self)@ == old(self)@.with_regions(old(self)@.regions.remove(id)),
    {
        if self.has_region(id) {
            self.take_region(id)
        } else {
            assert(self@.regions.remove(id) =~= self@.regions);
            MockRegion::default()
        }
    }
}

/// Notes which peer of a region is on a store, where there is one.
pub fn set_new_region_peer(new_region: &mut MockRegion, store_id: u64)
    ensures
        final(new_region)@ == (MockRegionView {
            peer: match old(new_region)@.region.peer_on(store_id) {
                Some(p) => p,
                None => old(new_region)@.peer,
            },
            ..old(new_region)@
        }),
{
    match new_region.region.find_peer(store_id) {
        Some(p) => {
            new_region.peer = p;
        },
        None => {},
    }
}

/// A new region, with the metadata and the peer that are known.
pub fn make_new_region(maybe_from_region: Option<Region>, maybe_store_id: Option<u64>) -> (r:
    MockRegion)
    ensures
        ({
            let meta = match maybe_from_region {
                Some(m) => m@,
                None => RegionView::spec_default(),
            };
            r@ == (match maybe_store_id {
                Some(store_id) => new_region_on(meta, store_id),
                None => MockRegionView::spec_new(meta),
            })
        }),
{
    let meta = match maybe_from_region {
        Some(m) => m,
        None => Region::default(),
    };
    let mut region = MockRegion::new(meta);
    if let Some(store_id) = maybe_store_id {
        set_new_region_peer(&mut region, store_id);
    }
    region
}

/// Moves the keys of the default column family of a region to the regions that cover them;
/// the region is emptied first.
pub fn move_data_from(
    engine_store_server: &mut EngineStoreServer,
    old_region_id: u64,
    new_region_ids: &[u64],
)
    requires
        old(engine_store_server)@.regions.contains_key(old_region_id),
        forall|i: int|
            0 <= i < new_region_ids@.len() ==> old(engine_store_server)@.regions.contains_key(
                #[trigger] new_region_ids@[i],
            ),
    ensures
        final(engine_store_server)@ == old(engine_store_server)@.with_regions(
            move_data(old(engine_store_server)@.regions, old_region_id, new_region_ids@),
        ),
{
    let ghost s = engine_store_server@;
    let ghost m = s.regions;
    let mut old_region = engine_store_server.take_region(old_region_id);
    let kvs = old_region.data[2].clone();
    assert(kvs@ == m[old_region_id].cfs[2].data);
    old_region.clear_data();
    engine_store_server.put_region(old_region_id, old_region);
    let ghost m1 = m.insert(old_region_id, m[old_region_id].emptied());
    assert(m.remove(old_region_id).insert(old_region_id, m[old_region_id].emptied()) =~= m1);
    let ghost ids = new_region_ids@;
    let n: usize = new_region_ids.len();
    let mut i: usize = 0;
    assert(ids.take(0) =~= Seq::empty());
    while i < n
        invariant
            i <= n,
            n == ids.len(),
            ids == new_region_ids@,
            forall|j: int| 0 <= j < ids.len() ==> m1.contains_key(#[trigger] ids[j]),
            forall|k: u64|
                m1.contains_key(k) ==> #[trigger] engine_store_server@.regions.contains_key(k),
            engine_store_server@ == s.with_regions(spread(m1, kvs@, ids.take(i as int))),
        decreases n - i,
    {
        let id: u64 = new_region_ids[i];
        let ghost p = engine_store_server@.regions;
        assert(m1.contains_key(ids[i as int]));
        let mut r = engine_store_server.take_region(id);
        region::put_moved(&mut r, 2, &kvs);
        engine_store_server.put_region(id, r);
        proof {
            assert(ids.take(i + 1).drop_last() =~= ids.take(i as int));
            let v = p[id].put_all(2, region::moved(p[id].region, kvs@));
            assert(p.remove(id).insert(id, v) =~= p.insert(id, v));
        }
        i = i + 1;
    }
    assert(ids.take(n as int) =~= ids);
}

/// Puts the metadata of split regions in place.
fn place_splits(server: &mut EngineStoreServer, id: u64, splits: &Vec<Region>) -> (ids: Vec<u64>)
    requires
        old(server)@.regions.contains_key(id),
    ensures
        final(server)@ == old(server)@.with_regions(
            split_metas(
                old(server)@.regions,
                id,
                old(server)@.id,
                messages::region_views(splits@),
            ),
        ),
        ids@ == ids_of(messages::region_views(splits@)),
        final(server)@.regions.contains_key(id),
        forall|j: int|
            0 <= j < ids@.len() ==> final(server)@.regions.contains_key(#[trigger] ids@[j]),
{
    let ghost s = server@;
    let ghost m = s.regions;
    let ghost metas = messages::region_views(splits@);
    let node_id: u64 = server.id;
    let n: usize = splits.len();
    let mut ids: Vec<u64> = Vec::new();
    let mut i: usize = 0;
    assert(metas.take(0) =~= Seq::empty());
    while i < n
        invariant
            i <= n,
            n == splits@.len(),
            metas == messages::region_views(splits@),
            node_id == s.id,
            ids@.len() == i,
            forall|j: int| 0 <= j < i ==> #[trigger] ids@[j] == metas[j].id,
            server@.regions.contains_key(id),
            forall|j: int| 0 <= j < i ==> server@.regions.contains_key(#[trigger] ids@[j]),
            server@ == s.with_regions(split_metas(m, id, s.id, metas.take(i as int))),
        decreases n - i,
    {
        let meta = &splits[i];
        let ghost p = server@.regions;
        proof {
            assert(metas.take(i + 1).drop_last() =~= metas.take(i as int));
            assert(metas.take(i + 1).last() == meta@);
        }
        if meta.id == id {
            let mut r = server.take_region(id);
            r.region = meta.clone();
            server.put_region(id, r);
            proof {
                let v = MockRegionView { region: meta@, ..p[id] };
                assert(p.remove(id).insert(id, v) =~= p.insert(id, v));
            }
        } else {
            let r = make_new_region(Some(meta.clone()), Some(node_id));
            server.put_region(meta.id, r);
        }
        ids.push(meta.id);
        i = i + 1;
    }
    assert(metas.take(n as int) =~= metas);
    assert(ids@ =~= ids_of(metas));
    ids
}

/// The metadata of a region after another one was merged into it.
fn merge_meta(target: &mut Region, source: &Region)
    requires
        max_of(source@.epoch().version, old(target)@.epoch().version) < u64::MAX,
    ensures
        final(target)@ == merged(old(target)@, source@),
{
    let target_epoch = target.get_region_epoch();
    let source_version: u64 = source.get_region_epoch().version;
    let newest: u64 = if source_version < target_epoch.version {
        target_epoch.version
    } else {
        source_version
    };
    let at_left = if source.start_key.len() == 0 {
        true
    } else if target.start_key.len() == 0 {
        false
    } else {
        bytes::same(&source.end_key, &target.start_key)
    };
    target.region_epoch = Some(
        RegionEpoch { conf_ver: target_epoch.conf_ver, version: newest + 1 },
    );
    if at_left {
        target.start_key = bytes::copy_of(&source.start_key);
    } else {
        target.end_key = bytes::copy_of(&source.end_key);
    }
}

/// A store with what the other side of the border handed to it.
pub struct EngineStoreServerWrap {
    pub engine_store_server: EngineStoreServer,
    /// The address of the proxy's functions, once it is known.
    pub maybe_proxy_helper: Option<usize>,
    /// The address of the cluster that the store belongs to.
    pub cluster_ptr: isize,
}

impl EngineStoreServerWrap {
    pub fn new(
        engine_store_server: EngineStoreServer,
        maybe_proxy_helper: Option<usize>,
        cluster_ptr: isize,
    ) -> (r: Self)
        ensures
            r == (EngineStoreServerWrap { engine_store_server, maybe_proxy_helper, cluster_ptr }),
    {
        EngineStoreServerWrap { engine_store_server, maybe_proxy_helper, cluster_ptr }
    }

    /// Applies an administrative command. Its region is flushed, and the answer asks for
    /// the proxy's own state to be made durable.
    pub fn handle_admin_raft_cmd(
        &mut self,
        req: &AdminRequest,
        resp: &AdminResponse,
        header: RaftCmdHeader,
    ) -> (r: (EngineStoreApplyRes, Vec<DbWrite>))
        requires
            admin_fits(old(self).engine_store_server@, req@, resp@, header),
        ensures
            r.0 == EngineStoreApplyRes::Persist,
            final(self).engine_store_server@ == admin_done(
                old(self).engine_store_server@,
                req@,
                resp@,
                header,
            ),
            region::db_views(r.1@) == admin_writes(
                old(self).engine_store_server@,
                req@,
                resp@,
                header,
            ),
            final(self).maybe_proxy_helper == old(self).maybe_proxy_helper,
            final(self).cluster_ptr == old(self).cluster_ptr,
    {
        let id: u64 = header.region_id;
        let server = &mut self.engine_store_server;
        let ghost s = server@;
        let ghost m = with_entry(s.regions, id);
        let mut r = server.take_or_new(id);
        assert(m.remove(id) =~= s.regions.remove(id));
        assert(forall|v: MockRegionView|
            #![trigger s.regions.remove(id).insert(id, v)]
            s.regions.remove(id).insert(id, v) =~= m.insert(id, v));
        match req.cmd_type {
            AdminCmdType::ChangePeer | AdminCmdType::ChangePeerV2 => {
                let store_id: u64 = r.peer.store_id;
                let stays = store_id == 0 || resp.change_peer.find_peer(store_id).is_some();
                if stays {
                    r.region = resp.change_peer.clone();
                    r.set_applied(header.index, header.term);
                    server.put_region(id, r);
                }
            },
            AdminCmdType::BatchSplit => {
                server.put_region(id, r);
                assert(server@.regions =~= m);
                let ids = place_splits(server, id, &resp.splits);
                move_data_from(server, id, ids.as_slice());
            },
            AdminCmdType::PrepareMerge => {
                let epoch = r.region.get_region_epoch();
                r.region.region_epoch = Some(
                    RegionEpoch { conf_ver: epoch.conf_ver + 1, version: epoch.version + 1 },
                );
                r.set_applied(header.index, header.term);
                server.put_region(id, r);
            },
            AdminCmdType::CommitMerge => {
                let source_id: u64 = req.commit_merge_source.id;
                merge_meta(&mut r.region, &req.commit_merge_source);
                r.set_applied(header.index, header.term);
                server.put_region(id, r);
                let target: [u64; 1] = [id];
                assert(target@ =~= seq![id]);
                move_data_from(server, source_id, target.as_slice());
                server.destroy_region(source_id);
            },
            AdminCmdType::RollbackMerge => {
                let epoch = r.region.get_region_epoch();
                r.region.region_epoch = Some(
                    RegionEpoch { conf_ver: epoch.conf_ver, version: epoch.version + 1 },
                );
                r.set_applied(header.index, header.term);
                server.put_region(id, r);
            },
            AdminCmdType::CompactLog => {
                r.set_truncated(req.compact_log.compact_index, req.compact_log.compact_term);
                r.set_applied(header.index, header.term);
                server.put_region(id, r);
            },
            _ => {
                r.set_applied(header.index, header.term);
                server.put_region(id, r);
            },
        }
        assert(server@ == s.with_regions(admin_applied(s, req@, resp@, header)));
        let writes = if req.cmd_type != AdminCmdType::CompactLog && server.has_region(id) {
            server.flush_region(id)
        } else {
            Vec::new()
        };
        assert(region::db_views(writes@) =~= admin_writes(s, req@, resp@, header));
        (EngineStoreApplyRes::Persist, writes)
    }
}

impl EngineStoreServer {
    /// Takes a region out of the store for good.
    pub fn destroy_region(&mut self, id: u64)
        ensures
            final(self)@ == old(self)@.with_regions(old(self)@.regions.remove(id)),
    {
        if self.has_region(id) {
            self.take_region(id);
        } else {
            assert(self@.regions.remove(id) =~= self@.regions);
        }
    }

    /// Flushes a region.
    fn flush_region(&mut self, id: u64) -> (r: Vec<DbWrite>)
        requires
            old(self)@.regions.contains_key(id),
        ensures
            final(self)@ == old(self)@.with_regions(
                old(self)@.regions.insert(id, old(self)@.regions[id].flushed()),
            ),
            region::db_views(r@) == old(self)@.regions[id].flush_writes(),
    {
        let ghost m = self@.regions;
        let mut r = self.take_region(id);
        let writes = region::write_to_db_data_by_engine(&mut r);
        self.put_region(id, r);
        assert(m.remove(id).insert(id, m[id].flushed()) =~= m.insert(id, m[id].flushed()));
        writes
    }
}

/// A region after some sorted files were put into it, one after the other.
pub open spec fn ingested(r: MockRegionView, snaps: Seq<SstDataView>) -> MockRegionView
    decreases snaps.len(),
{
    if snaps.len() == 0 {
        r
    } else {
        ingested(r, snaps.drop_last()).put_each(snaps.last().type_.code() as int, snaps.last().kvs)
    }
}

/// Puts a sorted file into a region.
fn ingest_one(r: &mut MockRegion, snap: &SstData)
    ensures
        final(r)@ == old(r)@.put_each(snap.type_.code() as int, snap@.kvs),
{
    let ghost v = r@;
    let ghost p = snap@.kvs;
    let cf: u8 = snap.type_.into();
    let mut reader = SSTReader::new(snap);
    let ghost mut done: int = 0;
    proof {
        region::put_nothing(v, cf as int);
        assert(p.take(0) =~= Seq::empty());
        assert(p.skip(0) =~= p);
    }
    while reader.remained()
        invariant
            cf < 3,
            cf == snap.type_.code(),
            v.cfs.len() == 3,
            0 <= done <= p.len(),
            reader.rest() == p.skip(done),
            r@ == v.put_each(cf as int, p.take(done)),
        decreases p.len() - done,
    {
        let key = reader.key();
        let value = reader.value();
        region::write_kv_in_mem(r, cf as usize, key.to_slice(), value.to_slice());
        proof {
            assert(p.take(done + 1).drop_last() =~= p.take(done));
            region::put_after_put_all(
                v,
                cf as int,
                bytes_map::map_of(p.take(done)),
                p[done].0,
                p[done].1,
            );
            assert(p.skip(done).skip(1) =~= p.skip(done + 1));
        }
        reader.next();
        proof {
            done = done + 1;
        }
    }
    assert(p.take(done) =~= p);
}

/// Puts sorted files into a region.
fn ingest(r: &mut MockRegion, snaps: &Vec<SstData>)
    ensures
        final(r)@ == ingested(old(r)@, sst_reader::sst_views(snaps@)),
{
    let ghost v = r@;
    let ghost w = sst_reader::sst_views(snaps@);
    let n: usize = snaps.len();
    let mut i: usize = 0;
    assert(w.take(0) =~= Seq::empty());
    while i < n
        invariant
            i <= n,
            n == snaps@.len(),
            w == sst_reader::sst_views(snaps@),
            r@ == ingested(v, w.take(i as int)),
        decreases n - i,
    {
        ingest_one(r, &snaps[i]);
        proof {
            assert(w.take(i + 1).drop_last() =~= w.take(i as int));
            assert(w.take(i + 1).last() == snaps@[i as int]@);
        }
        i = i + 1;
    }
    assert(w.take(n as int) =~= w);
}

/// A region that was built from a snapshot and is not in the store yet.
pub struct PrehandledSnapshot {
    pub region: Option<MockRegion>,
}

/// What a region is once a snapshot was put into it.
pub open spec fn from_snapshot(
    meta: RegionView,
    snaps: Seq<SstDataView>,
    index: u64,
    term: u64,
) -> MockRegionView {
    ingested(MockRegionView::spec_new(meta), snaps).applied(index, term).truncated(index, term)
}

/// The statistics with one more snapshot counted.
pub open spec fn one_more_pre_handled(s: RegionStats) -> RegionStats {
    RegionStats {
        pre_handle_count: if s.pre_handle_count == u64::MAX {
            0
        } else {
            (s.pre_handle_count + 1) as u64
        },
        ..s
    }
}

pub open spec fn stats_of(m: Map<u64, RegionStats>, id: u64) -> RegionStats {
    if m.contains_key(id) {
        m[id]
    } else {
        RegionStats::spec_default()
    }
}

/// How much a store holds and has done.
#[derive(Clone, Copy, Debug, PartialEq, Eq, Structural)]
pub struct StoreStats {
    pub fs_stats: FsStats,
    pub engine_bytes_written: u64,
    pub engine_keys_written: u64,
    pub engine_bytes_read: u64,
    pub engine_keys_read: u64,
}

impl EngineStoreServerWrap {
    /// Applies writes. They stay in memory until a flush where the proxy can flush, and
    /// reach the engine at once otherwise.
    pub fn handle_write_raft_cmd(&mut self, cmds: &WriteCmdsView, header: RaftCmdHeader) -> (r: (
        EngineStoreApplyRes,
        Vec<DbWrite>,
    ))
        requires
            old(self).engine_store_server@.engines,
            with_entry(
                old(self).engine_store_server@.regions,
                header.region_id,
            )[header.region_id].apply_state.applied_index < header.index,
            forall|i: int| 0 <= i < cmds@.len() ==> (#[trigger] cmds@[i]).cf < 3,
        ensures
            r.0 == EngineStoreApplyRes::NoPersist,
            ({
                let s = old(self).engine_store_server@;
                let id = header.region_id;
                let v = written(with_entry(s.regions, id)[id], cmds@).applied(
                    header.index,
                    header.term,
                );
                if s.proxy_compat {
                    &&& final(self).engine_store_server@ == s.with_regions(s.regions.insert(id, v))
                    &&& r.1@.len() == 0
                } else {
                    &&& final(self).engine_store_server@ == s.with_regions(
                        s.regions.insert(id, v.flushed()),
                    )
                    &&& region::db_views(r.1@) == v.flush_writes()
                }
            }),
            final(self).maybe_proxy_helper == old(self).maybe_proxy_helper,
            final(self).cluster_ptr == old(self).cluster_ptr,
    {
        let id: u64 = header.region_id;
        let server = &mut self.engine_store_server;
        let ghost s = server@;
        let mut r = server.take_or_new(id);
        let ghost r0 = r@;
        let ghost c = cmds@;
        let n: usize = cmds.len();
        let mut i: usize = 0;
        assert(c.take(0) =~= Seq::empty());
        while i < n
            invariant
                i <= n,
                n == c.len(),
                c == cmds@,
                forall|j: int| 0 <= j < c.len() ==> (#[trigger] c[j]).cf < 3,
                r@ == written(r0, c.take(i as int)),
            decreases n - i,
        {
            proof {
                assert(c.take(i + 1).drop_last() =~= c.take(i as int));
                assert(c.take(i + 1).last() == c[i as int]);
            }
            let cf: u8 = cmds.cf(i);
            match cmds.cmd_type(i) {
                WriteCmdType::Put => {
                    region::write_kv_in_mem(&mut r, cf as usize, cmds.key(i), cmds.val(i));
                },
                WriteCmdType::Del => {
                    region::delete_kv_in_mem(&mut r, cf as usize, cmds.key(i));
                },
            }
            i = i + 1;
        }
        assert(c.take(n as int) =~= c);
        r.set_applied(header.index, header.term);
        let writes = if server.proxy_compat {
            Vec::new()
        } else {
            region::write_to_db_data_by_engine(&mut r)
        };
        let ghost v = r@;
        server.put_region(id, r);
        assert(s.regions.remove(id).insert(id, v) =~= s.regions.insert(id, v));
        (EngineStoreApplyRes::NoPersist, writes)
    }

    /// Whether a region has to be flushed before its log is cut off: it always has.
    pub fn ffi_need_flush_data(&self, region_id: u64) -> (r: u8)
        ensures
            r == 1,
    {
        1
    }

    /// Flushes a region. An unknown region counts as flushed, so that its log can still be
    /// cut off. This store flushes at once, whatever the place in the log, so that there is
    /// nothing to try again.
    pub fn ffi_try_flush_data(
        &mut self,
        region_id: u64,
        _try_until_succeed: u8,
        _index: u64,
        _term: u64,
    ) -> (r: (u8, Vec<DbWrite>))
        requires
            old(self).engine_store_server@.regions.contains_key(region_id)
                ==> old(self).engine_store_server@.engines,
            !old(self).engine_store_server@.regions.contains_key(region_id)
                ==> !old(self).engine_store_server@.mock_cfg.panic_when_flush_no_found,
        ensures
            r.0 == 1,
            ({
                let s = old(self).engine_store_server@;
                if s.regions.contains_key(region_id) {
                    let v = s.regions[region_id];
                    &&& final(self).engine_store_server@ == s.with_regions(
                        s.regions.insert(region_id, v.flushed()),
                    )
                    &&& region::db_views(r.1@) == v.flush_writes()
                } else {
                    &&& final(self).engine_store_server@ == s
                    &&& r.1@.len() == 0
                }
            }),
            final(self).maybe_proxy_helper == old(self).maybe_proxy_helper,
            final(self).cluster_ptr == old(self).cluster_ptr,
    {
        if self.engine_store_server.has_region(region_id) {
            let writes = self.engine_store_server.flush_region(region_id);
            (1, writes)
        } else {
            (1, Vec::new())
        }
    }

    /// Notes where the proxy's functions are.
    pub fn ffi_atomic_update_proxy(&mut self, helper: usize)
        ensures
            final(self).maybe_proxy_helper == Some(helper),
            final(self).engine_store_server == old(self).engine_store_server,
            final(self).cluster_ptr == old(self).cluster_ptr,
    {
        self.maybe_proxy_helper = Some(helper);
    }

    /// Forgets a region.
    pub fn ffi_handle_destroy(&mut self, region_id: u64)
        ensures
            final(self).engine_store_server@ == old(self).engine_store_server@.with_regions(
                old(self).engine_store_server@.regions.remove(region_id),
            ),
            final(self).maybe_proxy_helper == old(self).maybe_proxy_helper,
            final(self).cluster_ptr == old(self).cluster_ptr,
    {
        self.engine_store_server.destroy_region(region_id);
    }

    /// Builds a region from a snapshot and counts that this was done; the region enters the
    /// store only with `ffi_apply_pre_handled_snapshot`.
    pub fn ffi_pre_handle_snapshot(
        &mut self,
        region_meta: Region,
        snaps: &Vec<SstData>,
        index: u64,
        term: u64,
    ) -> (r: PrehandledSnapshot)
        requires
            old(self).maybe_proxy_helper is Some,
        ensures
            r.region is Some,
            r.region->0@ == from_snapshot(region_meta@, sst_reader::sst_views(snaps@), index, term),
            ({
                let s = old(self).engine_store_server@;
                let id = region_meta@.id;
                final(self).engine_store_server@ == (EngineStoreServerView {
                    region_states: s.region_states.insert(
                        id,
                        one_more_pre_handled(stats_of(s.region_states, id)),
                    ),
                    ..s
                })
            }),
            final(self).maybe_proxy_helper == old(self).maybe_proxy_helper,
            final(self).cluster_ptr == old(self).cluster_ptr,
    {
        let id: u64 = region_meta.id;
        let mut region = MockRegion::new(region_meta);
        let count = |e: RegionStats| -> (r: RegionStats)
            ensures
                r == one_more_pre_handled(e),
            { RegionStats { pre_handle_count: e.pre_handle_count.wrapping_add(1), ..e } };
        self.engine_store_server.mutate_region_states(id, count);
        ingest(&mut region, snaps);
        region.set_applied(index, term);
        region.set_truncated(index, term);
        PrehandledSnapshot { region: Some(region) }
    }

    /// Puts a region that was built from a snapshot into the store and flushes it.
    pub fn ffi_apply_pre_handled_snapshot(&mut self, snap: &mut PrehandledSnapshot) -> (r: Vec<
        DbWrite,
    >)
        requires
            old(snap).region is Some,
            old(self).engine_store_server@.engines,
        ensures
            final(snap).region is None,
            ({
                let s = old(self).engine_store_server@;
                let v = old(snap).region->0@;
                &&& final(self).engine_store_server@ == s.with_regions(
                    s.regions.insert(v.region.id, v.flushed()),
                )
                &&& region::db_views(r@) == v.flush_writes()
            }),
            final(self).maybe_proxy_helper == old(self).maybe_proxy_helper,
            final(self).cluster_ptr == old(self).cluster_ptr,
    {
        let mut region = snap.region.take().unwrap();
        let id: u64 = region.region.id;
        let writes = region::write_to_db_data_by_engine(&mut region);
        self.engine_store_server.put_region(id, region);
        writes
    }

    /// Puts sorted files into a region and flushes it.
    pub fn ffi_handle_ingest_sst(&mut self, snaps: &Vec<SstData>, header: RaftCmdHeader) -> (r: (
        EngineStoreApplyRes,
        Vec<DbWrite>,
    ))
        requires
            old(self).maybe_proxy_helper is Some,
            old(self).engine_store_server@.engines,
        ensures
            r.0 == EngineStoreApplyRes::Persist,
            ({
                let s = old(self).engine_store_server@;
                let id = header.region_id;
                let v = ingested(with_entry(s.regions, id)[id], sst_reader::sst_views(snaps@)).applied(
                    header.index,
                    header.term,
                ).truncated(header.index, header.term);
                &&& final(self).engine_store_server@ == s.with_regions(
                    s.regions.insert(id, v.flushed()),
                )
                &&& region::db_views(r.1@) == v.flush_writes()
            }),
            final(self).maybe_proxy_helper == old(self).maybe_proxy_helper,
            final(self).cluster_ptr == old(self).cluster_ptr,
    {
        let id: u64 = header.region_id;
        let server = &mut self.engine_store_server;
        let ghost s = server@;
        let mut r = server.take_or_new(id);
        ingest(&mut r, snaps);
        r.set_applied(header.index, header.term);
        r.set_truncated(header.index, header.term);
        let writes = region::write_to_db_data_by_engine(&mut r);
        let ghost v = r@;
        server.put_region(id, r);
        assert(s.regions.remove(id).insert(id, v) =~= s.regions.insert(id, v));
        (EngineStoreApplyRes::Persist, writes)
    }

    /// Fixed statistics.
    pub fn ffi_handle_compute_store_stats(&self) -> (r: StoreStats)
        ensures
            r == (StoreStats {
                fs_stats: FsStats {
                    capacity_size: 444444,
                    used_size: 111111,
                    avail_size: 333333,
                    ok: 1,
                },
                engine_bytes_written: 0,
                engine_keys_written: 0,
                engine_bytes_read: 0,
                engine_keys_read: 0,
            }),
    {
        StoreStats {
            fs_stats: FsStats {
                capacity_size: 444444,
                used_size: 111111,
                avail_size: 333333,
                ok: 1,
            },
            engine_bytes_written: 0,
            engine_keys_written: 0,
            engine_bytes_read: 0,
            engine_keys_read: 0,
        }
    }
}

/// A region whose memory was lost; the term of the last command is remembered.
pub open spec fn stopped(r: MockRegionView) -> MockRegionView {
    MockRegionView {
        cfs: Seq::new(3, |i: int| CfView::spec_empty()),
        apply_state: RaftApplyState::spec_default(),
        ..r
    }
}

/// The user's key of a key that stands in the engine, which may lack the data prefix.
pub open spec fn user_key(key: Seq<u8>) -> Seq<u8> {
    if keys::is_data_key(key) {
        keys::spec_origin_key(key)
    } else {
        key
    }
}

/// The pairs of a scan of the engine, with the users' keys.
pub open spec fn user_pairs(scan: Seq<(Seq<u8>, Seq<u8>)>) -> Seq<(Seq<u8>, Seq<u8>)> {
    Seq::new(scan.len(), |i: int| (user_key(scan[i].0), scan[i].1))
}

/// What a column family holds after it was read from the engine.
pub open spec fn loaded_cf(scan: Seq<(Seq<u8>, Seq<u8>)>) -> CfView {
    CfView {
        data: bytes_map::map_of(user_pairs(scan)),
        deleted: Set::empty(),
        written: Map::empty(),
    }
}

/// What a region holds after it was read from the engine.
pub open spec fn loaded(
    r: MockRegionView,
    lock: Seq<(Seq<u8>, Seq<u8>)>,
    write: Seq<(Seq<u8>, Seq<u8>)>,
    default: Seq<(Seq<u8>, Seq<u8>)>,
) -> MockRegionView {
    MockRegionView {
        cfs: seq![loaded_cf(lock), loaded_cf(write), loaded_cf(default)],
        ..r
    }
}

/// The pairs of a scan of the engine by users' keys; the last one of a key stands.
fn load_cf(scan: &Vec<(Vec<u8>, Vec<u8>)>) -> (r: BytesMap)
    ensures
        r@ == bytes_map::map_of(user_pairs(bytes_map::pair_views(scan@))),
{
    let ghost p = user_pairs(bytes_map::pair_views(scan@));
    let mut r = BytesMap::new();
    let n: usize = scan.len();
    let mut i: usize = 0;
    assert(p.take(0) =~= Seq::empty());
    while i < n
        invariant
            i <= n,
            n == scan@.len(),
            p == user_pairs(bytes_map::pair_views(scan@)),
            r@ == bytes_map::map_of(p.take(i as int)),
        decreases n - i,
    {
        let k = &scan[i].0;
        let origin = if keys::validate_data_key(k) {
            bytes::copy_of(keys::origin_key(k))
        } else {
            bytes::copy_of(k)
        };
        r.insert(origin, bytes::copy_of(&scan[i].1));
        proof {
            assert(p.take(i + 1).drop_last() =~= p.take(i as int));
            assert(p.take(i + 1).last() == p[i as int]);
        }
        i = i + 1;
    }
    assert(p.take(n as int) =~= p);
    r
}

impl EngineStoreServer {
    /// Changes the statistics of a region.
    pub fn mutate_region_states<F: Fn(RegionStats) -> RegionStats>(&mut self, region_id: u64, f: F)
        requires
            f.requires((stats_of(old(self)@.region_states, region_id),)),
        ensures
            exists|x: RegionStats|
                {
                    &&& f.ensures((stats_of(old(self)@.region_states, region_id),), x)
                    &&& final(self)@.region_states == #[trigger] old(self)@.region_states.insert(
                        region_id,
                        x,
                    )
                },
            final(self)@ == (EngineStoreServerView {
                region_states: final(self)@.region_states,
                ..old(self)@
            }),
    {
        broadcast use vstd::std_specs::hash::group_hash_axioms;

        let before = match self.region_states.get(&region_id) {
            Some(s) => *s,
            None => RegionStats::default(),
        };
        let after = f(before);
        self.region_states.insert(region_id, after);
        assert(old(self)@.region_states.insert(region_id, after) =~= self@.region_states);
    }

    /// The value of a key in memory.
    pub fn get_mem(&self, region_id: u64, cf: ColumnFamilyType, key: &Vec<u8>) -> (r: Option<
        &Vec<u8>,
    >)
        ensures
            match r {
                Some(v) => {
                    &&& self@.regions.contains_key(region_id)
                    &&& self@.regions[region_id].cfs[cf.code() as int].data.contains_key(key@)
                    &&& self@.regions[region_id].cfs[cf.code() as int].data[key@] == v@
                },
                None => self@.regions.contains_key(region_id)
                    ==> !self@.regions[region_id].cfs[cf.code() as int].data.contains_key(key@),
            },
    {
        match self.get_region(region_id) {
            Some(region) => {
                let i: u8 = cf.into();
                region.data[i as usize].get(key)
            },
            None => None,
        }
    }

    /// The numbers of the regions.
    pub fn region_ids(&self) -> (r: Vec<u64>)
        ensures
            forall|k: u64| #[trigger] r@.contains(k) <==> self@.regions.contains_key(k),
            r@.no_duplicates(),
    {
        broadcast use vstd::std_specs::hash::group_hash_axioms;

        let mut ids: Vec<u64> = Vec::new();
        for k in it: self.kvstore.keys()
            invariant
                it.index() == ids@.len(),
                forall|i: int| 0 <= i < ids@.len() ==> ids@[i] == *it.seq()[i],
                forall|i: int|
                    0 <= i < ids@.len() ==> self.kvstore@.contains_key(#[trigger] ids@[i]),
        {
            ids.push(*k);
        }
        assert(forall|k: u64| #[trigger] self.kvstore@.contains_key(k) ==> ids@.contains(k));
        assert forall|k: u64| #[trigger] ids@.contains(k) implies self@.regions.contains_key(k) by {
            assert(self.kvstore@.contains_key(ids@[ids@.index_of(k)]));
        }
        assert forall|k: u64| self@.regions.contains_key(k) implies #[trigger] ids@.contains(k) by {
            assert(self.kvstore@.contains_key(k));
        }
        ids
    }

    /// Loses what is in memory: every region is emptied, and nothing counts as applied.
    pub fn stop(&mut self)
        ensures
            final(self)@ == old(self)@.with_regions(
                old(self)@.regions.map_values(|r: MockRegionView| stopped(r)),
            ),
    {
        let ghost s = self@;
        let ids = self.region_ids();
        let n: usize = ids.len();
        let mut i: usize = 0;
        while i < n
            invariant
                i <= n,
                n == ids@.len(),
                ids@.no_duplicates(),
                forall|k: u64| #[trigger] ids@.contains(k) <==> s.regions.contains_key(k),
                self@ == s.with_regions(self@.regions),
                self@.regions.dom() == s.regions.dom(),
                forall|j: int|
                    0 <= j < i ==> self@.regions[#[trigger] ids@[j]] == stopped(s.regions[ids@[j]]),
                forall|j: int|
                    i <= j < n ==> self@.regions[#[trigger] ids@[j]] == s.regions[ids@[j]],
            decreases n - i,
        {
            let id: u64 = ids[i];
            let ghost m = self@.regions;
            assert(ids@.contains(id));
            assert(s.regions.dom().contains(id));
            let mut r = self.take_region(id);
            let ghost v = r@;
            let mut fresh = MockRegion::default();
            r.data = fresh.data;
            r.pending_delete = fresh.pending_delete;
            r.pending_write = fresh.pending_write;
            r.apply_state = RaftApplyState::default();
            assert(r@.cfs =~= stopped(v).cfs);
            self.put_region(id, r);
            assert(self@.regions =~= m.insert(id, stopped(v)));
            assert(self@.regions.dom() =~= s.regions.dom());
            i = i + 1;
        }
        proof {
            let want = s.regions.map_values(|r: MockRegionView| stopped(r));
            assert(self@.regions.dom() =~= want.dom());
            assert forall|k: u64| self@.regions.dom().contains(k) implies self@.regions[k]
                == want[k] by {
                assert(s.regions.contains_key(k));
                assert(ids@.contains(k));
                let j = ids@.index_of(k);
                assert(ids@[j] == k);
            }
            assert(self@.regions =~= want);
        }
    }

    /// Reads the keys of a region back from a scan of each column family.
    pub fn load_data_from_db(
        &mut self,
        region_id: u64,
        lock: &Vec<(Vec<u8>, Vec<u8>)>,
        write: &Vec<(Vec<u8>, Vec<u8>)>,
        default: &Vec<(Vec<u8>, Vec<u8>)>,
    )
        requires
            old(self)@.regions.contains_key(region_id),
        ensures
            final(self)@ == old(self)@.with_regions(
                old(self)@.regions.insert(
                    region_id,
                    loaded(
                        old(self)@.regions[region_id],
                        bytes_map::pair_views(lock@),
                        bytes_map::pair_views(write@),
                        bytes_map::pair_views(default@),
                    ),
                ),
            ),
    {
        let ghost m = self@.regions;
        let mut r = self.take_region(region_id);
        let ghost v = r@;
        let fresh = MockRegion::default();
        r.pending_delete = fresh.pending_delete;
        r.pending_write = fresh.pending_write;
        r.data = [load_cf(lock), load_cf(write), load_cf(default)];
        let ghost w = loaded(
            v,
            bytes_map::pair_views(lock@),
            bytes_map::pair_views(write@),
            bytes_map::pair_views(default@),
        );
        assert(fresh@.cfs[0].written == fresh.pending_write@[0]@);
        assert(fresh@.cfs[1].written == fresh.pending_write@[1]@);
        assert(fresh@.cfs[2].written == fresh.pending_write@[2]@);
        assert(fresh@.cfs[0].deleted == fresh.pending_delete@[0]@);
        assert(fresh@.cfs[1].deleted == fresh.pending_delete@[1]@);
        assert(fresh@.cfs[2].deleted == fresh.pending_delete@[2]@);
        assert(r@.cfs =~= w.cfs);
        self.put_region(region_id, r);
        assert(m.remove(region_id).insert(region_id, w) =~= m.insert(region_id, w));
    }

    /// Reads a region back from the engine: its states and its keys.
    pub fn load_from_db(
        &mut self,
        region_id: u64,
        apply_state: RaftApplyState,
        region_state: &RegionLocalState,
        lock: &Vec<(Vec<u8>, Vec<u8>)>,
        write: &Vec<(Vec<u8>, Vec<u8>)>,
        default: &Vec<(Vec<u8>, Vec<u8>)>,
    )
        requires
            old(self)@.regions.contains_key(region_id),
        ensures
            ({
                let s = old(self)@;
                let meta = region_state.region@;
                let r = MockRegionView {
                    apply_state,
                    region: meta,
                    peer: match meta.peer_on(s.id) {
                        Some(p) => p,
                        None => s.regions[region_id].peer,
                    },
                    ..s.regions[region_id]
                };
                final(self)@ == s.with_regions(
                    s.regions.insert(
                        region_id,
                        loaded(
                            r,
                            bytes_map::pair_views(lock@),
                            bytes_map::pair_views(write@),
                            bytes_map::pair_views(default@),
                        ),
                    ),
                )
            }),
    {
        let ghost m = self@.regions;
        let store_id: u64 = self.id;
        let mut r = self.take_region(region_id);
        r.apply_state = apply_state;
        r.region = region_state.region.clone();
        set_new_region_peer(&mut r, store_id);
        let ghost v = r@;
        self.put_region(region_id, r);
        self.load_data_from_db(region_id, lock, write, default);
        assert(forall|w: MockRegionView|
            #![trigger m.remove(region_id).insert(region_id, v).insert(region_id, w)]
            m.remove(region_id).insert(region_id, v).insert(region_id, w) =~= m.insert(
                region_id,
                w,
            ));
    }

    /// Flushes a region of the store.
    pub fn write_to_db_by_region_id(&mut self, region_id: u64) -> (r: Vec<DbWrite>)
        requires
            old(self)@.engines,
            old(self)@.regions.contains_key(region_id),
        ensures
            final(self)@ == old(self)@.with_regions(
                old(self)@.regions.insert(region_id, old(self)@.regions[region_id].flushed()),
            ),
            region::db_views(r@) == old(self)@.regions[region_id].flush_writes(),
    {
        self.flush_region(region_id)
    }
}

/// What was read of a region from the engine: its states, and a scan of each column family.
pub struct RegionRead {
    pub region_id: u64,
    pub apply_state: RaftApplyState,
    pub region_state: RegionLocalState,
    pub lock: Vec<(Vec<u8>, Vec<u8>)>,
    pub write: Vec<(Vec<u8>, Vec<u8>)>,
    pub default: Vec<(Vec<u8>, Vec<u8>)>,
}

#[verifier::ext_equal]
pub struct RegionReadView {
    pub region_id: u64,
    pub apply_state: RaftApplyState,
    pub region: RegionView,
    pub lock: Seq<(Seq<u8>, Seq<u8>)>,
    pub write: Seq<(Seq<u8>, Seq<u8>)>,
    pub default: Seq<(Seq<u8>, Seq<u8>)>,
}

impl View for RegionRead {
    type V = RegionReadView;

    open spec fn view(&self) -> RegionReadView {
        RegionReadView {
            region_id: self.region_id,
            apply_state: self.apply_state,
            region: self.region_state.region@,
            lock: bytes_map::pair_views(self.lock@),
            write: bytes_map::pair_views(self.write@),
            default: bytes_map::pair_views(self.default@),
        }
    }
}

/// The views of a list of reads.
pub open spec fn read_views(v: Seq<RegionRead>) -> Seq<RegionReadView> {
    Seq::new(v.len(), |i: int| v[i]@)
}

/// A region after it was read back from the engine.
pub open spec fn reloaded(r: MockRegionView, store_id: u64, read: RegionReadView) -> MockRegionView {
    loaded(
        MockRegionView {
            apply_state: read.apply_state,
            region: read.region,
            peer: match read.region.peer_on(store_id) {
                Some(p) => p,
                None => r.peer,
            },
            ..r
        },
        read.lock,
        read.write,
        read.default,
    )
}

/// The regions after some of them were read back from the engine, one after the other.
pub open spec fn restored(m: Regions, store_id: u64, reads: Seq<RegionReadView>) -> Regions
    decreases reads.len(),
{
    if reads.len() == 0 {
        m
    } else {
        let p = restored(m, store_id, reads.drop_last());
        let read = reads.last();
        p.insert(read.region_id, reloaded(p[read.region_id], store_id, read))
    }
}

/// Where a scan of a region's keys in the engine starts, and before which key it ends; an empty
/// end sets no bound.
pub fn scan_bounds(region_state: &RegionLocalState) -> (r: (Vec<u8>, Vec<u8>))
    ensures
        r.0@ == region_state.region@.start_key,
        r.1@ == region_state.region@.end_key,
{
    (bytes::copy_of(&region_state.region.start_key), bytes::copy_of(&region_state.region.end_key))
}

impl EngineStoreServer {
    /// Reads regions back from the engine.
    pub fn restore(&mut self, reads: &Vec<RegionRead>)
        requires
            forall|i: int|
                0 <= i < reads@.len() ==> old(self)@.regions.contains_key(
                    (#[trigger] reads@[i]).region_id,
                ),
        ensures
            final(self)@ == old(self)@.with_regions(
                restored(old(self)@.regions, old(self)@.id, read_views(reads@)),
            ),
    {
        let ghost s = self@;
        let ghost w = read_views(reads@);
        let n: usize = reads.len();
        let mut i: usize = 0;
        assert(w.take(0) =~= Seq::empty());
        while i < n
            invariant
                i <= n,
                n == reads@.len(),
                w == read_views(reads@),
                forall|j: int|
                    0 <= j < reads@.len() ==> s.regions.contains_key(
                        (#[trigger] reads@[j]).region_id,
                    ),
                forall|k: u64| #[trigger]
                    s.regions.contains_key(k) ==> self@.regions.contains_key(k),
                self@ == s.with_regions(restored(s.regions, s.id, w.take(i as int))),
            decreases n - i,
        {
            let read = &reads[i];
            proof {
                assert(w.take(i + 1).drop_last() =~= w.take(i as int));
                assert(w.take(i + 1).last() == read@);
                assert(s.regions.contains_key(reads@[i as int].region_id));
            }
            self.load_from_db(
                read.region_id,
                read.apply_state,
                &read.region_state,
                &read.lock,
                &read.write,
                &read.default,
            );
            i = i + 1;
        }
        assert(w.take(n as int) =~= w);
    }
}

} // verus!
