//! Bringing up a store and the first region of a cluster.

use std::collections::HashMap;

use vstd::prelude::*;

use crate::bytes;
use crate::ffi::ColumnFamilyType;
use crate::keys;
use crate::messages;
use crate::messages::{
    HardState, Peer, PeerRole, PeerState, RaftApplyState, RaftLocalState, RaftTruncatedState,
    Region, RegionEpoch, RegionLocalState, RegionLocalStateView, RegionView, StoreIdent,
};

verus! {

/// The range version of a new region.
pub const INIT_EPOCH_VER: u64 = 1;

/// The peer version of a new region.
pub const INIT_EPOCH_CONF_VER: u64 = 1;

/// The term of a log that was not written to yet.
pub const RAFT_INIT_LOG_TERM: u64 = 5;

/// The index of a log that was not written to yet.
pub const RAFT_INIT_LOG_INDEX: u64 = 5;

/// The first region of a cluster: it covers all keys and has one peer.
pub open spec fn spec_initial_region(store_id: u64, region_id: u64, peer_id: u64) -> RegionView {
    RegionView {
        id: region_id,
        start_key: Seq::empty(),
        end_key: Seq::empty(),
        region_epoch: Some(
            RegionEpoch { conf_ver: INIT_EPOCH_CONF_VER, version: INIT_EPOCH_VER },
        ),
        peers: seq![Peer { id: peer_id, store_id, role: PeerRole::Voter }],
    }
}

/// The first region of a cluster.
pub fn initial_region(store_id: u64, region_id: u64, peer_id: u64) -> (r: Region)
    ensures
        r@ == spec_initial_region(store_id, region_id, peer_id),
{
    let mut peers: Vec<Peer> = Vec::new();
    peers.push(Peer { id: peer_id, store_id, role: PeerRole::Voter });
    Region {
        id: region_id,
        start_key: Vec::new(),
        end_key: Vec::new(),
        region_epoch: Some(
            RegionEpoch { conf_ver: INIT_EPOCH_CONF_VER, version: INIT_EPOCH_VER },
        ),
        peers,
    }
}

/// What of the engine is scanned to see whether a store holds data: the column family, where the
/// scan starts, and before which key it ends.
pub fn store_scan_range() -> (r: (ColumnFamilyType, Vec<u8>, Vec<u8>))
    ensures
        r.0 == ColumnFamilyType::Default,
        r.1@ == keys::min_key(),
        r.2@ == keys::max_key(),
{
    let mut max_key: Vec<u8> = Vec::new();
    max_key.push(0xff);
    assert(max_key@ =~= keys::max_key());
    let min_key: Vec<u8> = Vec::new();
    assert(min_key@ =~= keys::min_key());
    (ColumnFamilyType::Default, min_key, max_key)
}

/// The scan of a store comes by every data key and by every key of the raft machinery.
pub proof fn store_scan_sees(key: Seq<u8>)
    requires
        key.len() > 0,
        key[0] == keys::DATA_PREFIX || key[0] == keys::LOCAL_PREFIX,
    ensures
        !bytes::lex_lt(key, keys::min_key()),
        bytes::lex_lt(key, keys::max_key()),
{
    assert(bytes::smaller_at(key, keys::max_key(), 0));
}

/// Whether a range holds no data, given how many pairs a scan that stops at the first one saw.
pub fn is_range_empty(count: u32) -> (r: bool)
    ensures
        r == (count == 0),
{
    count == 0
}

/// Why a store could not be brought up.
#[derive(Clone, Copy, Debug, PartialEq, Eq, Structural)]
pub enum BootstrapError {
    /// The store has data already.
    NotEmpty,
}

/// A change to what a store's raft engine holds.
pub enum MetaWrite {
    PutStoreIdent { ident: StoreIdent },
    PutPrepareBootstrapRegion { region: Region },
    PutRegionState { region_id: u64, state: RegionLocalState },
    PutApplyState { region_id: u64, apply_state: RaftApplyState },
    PutRaftState { region_id: u64, raft_state: RaftLocalState },
    RemovePrepareBootstrapRegion,
    RemoveRegionState { region_id: u64 },
    RemoveApplyState { region_id: u64 },
    /// Removes the raft state, and the log, which is empty.
    Clean { region_id: u64 },
}

pub enum MetaWriteView {
    PutStoreIdent { ident: StoreIdent },
    PutPrepareBootstrapRegion { region: RegionView },
    PutRegionState { region_id: u64, state: RegionLocalStateView },
    PutApplyState { region_id: u64, apply_state: RaftApplyState },
    PutRaftState { region_id: u64, raft_state: RaftLocalState },
    RemovePrepareBootstrapRegion,
    RemoveRegionState { region_id: u64 },
    RemoveApplyState { region_id: u64 },
    Clean { region_id: u64 },
}

impl View for MetaWrite {
    type V = MetaWriteView;

    open spec fn view(&self) -> MetaWriteView {
        match *self {
            MetaWrite::PutStoreIdent { ident } => MetaWriteView::PutStoreIdent { ident },
            MetaWrite::PutPrepareBootstrapRegion { region } =>
                MetaWriteView::PutPrepareBootstrapRegion { region: region@ },
            MetaWrite::PutRegionState { region_id, state } => MetaWriteView::PutRegionState {
                region_id,
                state: state@,
            },
            MetaWrite::PutApplyState { region_id, apply_state } => MetaWriteView::PutApplyState {
                region_id,
                apply_state,
            },
            MetaWrite::PutRaftState { region_id, raft_state } => MetaWriteView::PutRaftState {
                region_id,
                raft_state,
            },
            MetaWrite::RemovePrepareBootstrapRegion =>
                MetaWriteView::RemovePrepareBootstrapRegion,
            MetaWrite::RemoveRegionState { region_id } => MetaWriteView::RemoveRegionState {
                region_id,
            },
            MetaWrite::RemoveApplyState { region_id } => MetaWriteView::RemoveApplyState {
                region_id,
            },
            MetaWrite::Clean { region_id } => MetaWriteView::Clean { region_id },
        }
    }
}

/// The views of a list of changes.
pub open spec fn meta_views(v: Seq<MetaWrite>) -> Seq<MetaWriteView> {
    Seq::new(v.len(), |i: int| v[i]@)
}

/// Brings up a store, which must hold no data and no identity yet: gives the change that
/// writes its identity. `kv_is_empty` is what `is_range_empty` makes of a scan of the range that
/// `store_scan_range` gives.
pub fn bootstrap_store(kv_is_empty: bool, has_ident: bool, cluster_id: u64, store_id: u64) -> (r:
    Result<MetaWrite, BootstrapError>)
    ensures
        match r {
            Ok(w) => kv_is_empty && !has_ident && w@ == (MetaWriteView::PutStoreIdent {
                ident: StoreIdent { cluster_id, store_id },
            }),
            Err(e) => (!kv_is_empty || has_ident) && e == BootstrapError::NotEmpty,
        },
{
    if !kv_is_empty || has_ident {
        return Err(BootstrapError::NotEmpty);
    }
    Ok(MetaWrite::PutStoreIdent { ident: StoreIdent { cluster_id, store_id } })
}

pub open spec fn spec_initial_apply_state() -> RaftApplyState {
    RaftApplyState {
        applied_index: RAFT_INIT_LOG_INDEX,
        truncated_state: RaftTruncatedState {
            index: RAFT_INIT_LOG_INDEX,
            term: RAFT_INIT_LOG_TERM,
        },
        ..RaftApplyState::spec_default()
    }
}

pub open spec fn spec_initial_raft_state() -> RaftLocalState {
    RaftLocalState {
        hard_state: HardState { term: RAFT_INIT_LOG_TERM, vote: 0, commit: RAFT_INIT_LOG_INDEX },
        last_index: RAFT_INIT_LOG_INDEX,
    }
}

/// The changes of the first phase of bringing up a cluster.
pub open spec fn spec_prepare(region: RegionView) -> Seq<MetaWriteView> {
    seq![
        MetaWriteView::PutPrepareBootstrapRegion { region },
        MetaWriteView::PutRegionState {
            region_id: region.id,
            state: RegionLocalStateView { state: PeerState::Normal, region },
        },
        MetaWriteView::PutApplyState { region_id: region.id, apply_state: spec_initial_apply_state() },
        MetaWriteView::PutRaftState { region_id: region.id, raft_state: spec_initial_raft_state() },
    ]
}

/// The first phase of bringing up a cluster: writes the first region's metadata and states.
pub fn prepare_bootstrap_cluster(region: &Region) -> (r: Vec<MetaWrite>)
    ensures
        meta_views(r@) == spec_prepare(region@),
{
    let state = RegionLocalState { state: PeerState::Normal, region: region.clone() };
    let mut wb: Vec<MetaWrite> = Vec::new();
    wb.push(MetaWrite::PutPrepareBootstrapRegion { region: region.clone() });
    wb.push(MetaWrite::PutRegionState { region_id: region.id, state });
    wb.push(
        MetaWrite::PutApplyState {
            region_id: region.id,
            apply_state: RaftApplyState {
                applied_index: RAFT_INIT_LOG_INDEX,
                last_commit_index: 0,
                commit_index: 0,
                commit_term: 0,
                truncated_state: RaftTruncatedState {
                    index: RAFT_INIT_LOG_INDEX,
                    term: RAFT_INIT_LOG_TERM,
                },
            },
        },
    );
    wb.push(
        MetaWrite::PutRaftState {
            region_id: region.id,
            raft_state: RaftLocalState {
                hard_state: HardState {
                    term: RAFT_INIT_LOG_TERM,
                    vote: 0,
                    commit: RAFT_INIT_LOG_INDEX,
                },
                last_index: RAFT_INIT_LOG_INDEX,
            },
        },
    );
    assert(meta_views(wb@) =~= spec_prepare(region@));
    wb
}

/// The first phase of bringing up a cluster whose states stand in two engines: gives what goes
/// to the key-value engine, and what goes to the raft engine after it.
pub fn prepare_bootstrap_cluster_with(region: &Region) -> (r: (Vec<MetaWrite>, Vec<MetaWrite>))
    ensures
        meta_views((r.0)@) == spec_prepare(region@).take(3),
        meta_views((r.1)@) == spec_prepare(region@).skip(3),
{
    let mut wb = prepare_bootstrap_cluster(region);
    let ghost p = spec_prepare(region@);
    assert(meta_views(wb@).len() == 4);
    let last = wb.pop().unwrap();
    let mut raft_wb: Vec<MetaWrite> = Vec::new();
    raft_wb.push(last);
    assert(p.last() == last@);
    assert(meta_views(wb@) =~= p.take(3));
    assert(meta_views(raft_wb@) =~= p.skip(3));
    (wb, raft_wb)
}

/// The changes that take back the first phase of bringing up a cluster.
pub open spec fn spec_clear(region_id: u64) -> Seq<MetaWriteView> {
    seq![
        MetaWriteView::Clean { region_id },
        MetaWriteView::RemovePrepareBootstrapRegion,
        MetaWriteView::RemoveRegionState { region_id },
        MetaWriteView::RemoveApplyState { region_id },
    ]
}

/// Takes back the first phase of bringing up a cluster.
pub fn clear_prepare_bootstrap_cluster(region_id: u64) -> (r: Vec<MetaWrite>)
    ensures
        meta_views(r@) == spec_clear(region_id),
{
    let mut wb: Vec<MetaWrite> = Vec::new();
    wb.push(MetaWrite::Clean { region_id });
    wb.push(MetaWrite::RemovePrepareBootstrapRegion);
    wb.push(MetaWrite::RemoveRegionState { region_id });
    wb.push(MetaWrite::RemoveApplyState { region_id });
    assert(meta_views(wb@) =~= spec_clear(region_id));
    wb
}

/// Forgets that a region was prepared: the cluster is up.
pub fn clear_prepare_bootstrap_key() -> (r: Vec<MetaWrite>)
    ensures
        meta_views(r@) == seq![MetaWriteView::RemovePrepareBootstrapRegion],
{
    let mut wb: Vec<MetaWrite> = Vec::new();
    wb.push(MetaWrite::RemovePrepareBootstrapRegion);
    assert(meta_views(wb@) =~= seq![MetaWriteView::RemovePrepareBootstrapRegion]);
    wb
}

/// What a store's raft engine holds besides logs.
pub struct StoreMeta {
    pub ident: Option<StoreIdent>,
    pub prepare_bootstrap_region: Option<Region>,
    pub region_states: HashMap<u64, RegionLocalState>,
    pub apply_states: HashMap<u64, RaftApplyState>,
    pub raft_states: HashMap<u64, RaftLocalState>,
}

#[verifier::ext_equal]
pub struct StoreMetaView {
    pub ident: Option<StoreIdent>,
    pub prepare_bootstrap_region: Option<RegionView>,
    pub region_states: Map<u64, RegionLocalStateView>,
    pub apply_states: Map<u64, RaftApplyState>,
    pub raft_states: Map<u64, RaftLocalState>,
}

impl View for StoreMeta {
    type V = StoreMetaView;

    open spec fn view(&self) -> StoreMetaView {
        StoreMetaView {
            ident: self.ident,
            prepare_bootstrap_region: messages::region_opt(self.prepare_bootstrap_region),
            region_states: self.region_states@.map_values(|s: RegionLocalState| s@),
            apply_states: self.apply_states@,
            raft_states: self.raft_states@,
        }
    }
}

impl StoreMetaView {
    pub open spec fn spec_empty() -> StoreMetaView {
        StoreMetaView {
            ident: None,
            prepare_bootstrap_region: None,
            region_states: Map::empty(),
            apply_states: Map::empty(),
            raft_states: Map::empty(),
        }
    }

    pub open spec fn after(self, w: MetaWriteView) -> StoreMetaView {
        match w {
            MetaWriteView::PutStoreIdent { ident } => StoreMetaView { ident: Some(ident), ..self },
            MetaWriteView::PutPrepareBootstrapRegion { region } => StoreMetaView {
                prepare_bootstrap_region: Some(region),
                ..self
            },
            MetaWriteView::PutRegionState { region_id, state } => StoreMetaView {
                region_states: self.region_states.insert(region_id, state),
                ..self
            },
            MetaWriteView::PutApplyState { region_id, apply_state } => StoreMetaView {
                apply_states: self.apply_states.insert(region_id, apply_state),
                ..self
            },
            MetaWriteView::PutRaftState { region_id, raft_state } => StoreMetaView {
                raft_states: self.raft_states.insert(region_id, raft_state),
                ..self
            },
            MetaWriteView::RemovePrepareBootstrapRegion => StoreMetaView {
                prepare_bootstrap_region: None,
                ..self
            },
            MetaWriteView::RemoveRegionState { region_id } => StoreMetaView {
                region_states: self.region_states.remove(region_id),
                ..self
            },
            MetaWriteView::RemoveApplyState { region_id } => StoreMetaView {
                apply_states: self.apply_states.remove(region_id),
                ..self
            },
            MetaWriteView::Clean { region_id } => StoreMetaView {
                raft_states: self.raft_states.remove(region_id),
                ..self
            },
        }
    }

    /// What is held after some changes.
    pub open spec fn after_all(self, ws: Seq<MetaWriteView>) -> StoreMetaView
        decreases ws.len(),
    {
        if ws.len() == 0 {
            self
        } else {
            self.after_all(ws.drop_last()).after(ws.last())
        }
    }
}

impl StoreMeta {
    /// Nothing is held.
    pub fn new() -> (r: Self)
        ensures
            r@ == StoreMetaView::spec_empty(),
    {
        broadcast use vstd::std_specs::hash::group_hash_axioms;

        let r = StoreMeta {
            ident: None,
            prepare_bootstrap_region: None,
            region_states: HashMap::new(),
            apply_states: HashMap::new(),
            raft_states: HashMap::new(),
        };
        assert(r@.region_states =~= Map::empty());
        r
    }

    fn apply(&mut self, w: &MetaWrite)
        ensures
            final(self)@ == old(self)@.after(w@),
    {
        broadcast use vstd::std_specs::hash::group_hash_axioms;

        let ghost s = self@;
        match w {
            MetaWrite::PutStoreIdent { ident } => {
                self.ident = Some(*ident);
            },
            MetaWrite::PutPrepareBootstrapRegion { region } => {
                self.prepare_bootstrap_region = Some(region.clone());
            },
            MetaWrite::PutRegionState { region_id, state } => {
                let st = state.clone();
                self.region_states.insert(*region_id, st);
                assert(self@.region_states =~= s.region_states.insert(*region_id, state@));
            },
            MetaWrite::PutApplyState { region_id, apply_state } => {
                self.apply_states.insert(*region_id, *apply_state);
            },
            MetaWrite::PutRaftState { region_id, raft_state } => {
                self.raft_states.insert(*region_id, *raft_state);
            },
            MetaWrite::RemovePrepareBootstrapRegion => {
                self.prepare_bootstrap_region = None;
            },
            MetaWrite::RemoveRegionState { region_id } => {
                self.region_states.remove(region_id);
                assert(self@.region_states =~= s.region_states.remove(*region_id));
            },
            MetaWrite::RemoveApplyState { region_id } => {
                self.apply_states.remove(region_id);
            },
            MetaWrite::Clean { region_id } => {
                self.raft_states.remove(region_id);
            },
        }
    }

    /// Makes some changes in their order.
    pub fn consume(&mut self, batch: &Vec<MetaWrite>)
        ensures
            final(self)@ == old(self)@.after_all(meta_views(batch@)),
    {
        let ghost s = self@;
        let ghost w = meta_views(batch@);
        let n: usize = batch.len();
        let mut i: usize = 0;
        assert(w.take(0) =~= Seq::empty());
        while i < n
            invariant
                i <= n,
                n == batch@.len(),
                w == meta_views(batch@),
                self@ == s.after_all(w.take(i as int)),
            decreases n - i,
        {
            self.apply(&batch[i]);
            proof {
                assert(w.take(i + 1).drop_last() =~= w.take(i as int));
                assert(w.take(i + 1).last() == batch@[i as int]@);
            }
            i = i + 1;
        }
        assert(w.take(n as int) =~= w);
    }
}

pub(crate) proof fn after_four(
    s: StoreMetaView,
    a: MetaWriteView,
    b: MetaWriteView,
    c: MetaWriteView,
    d: MetaWriteView,
)
    ensures
        s.after_all(seq![a, b, c, d]) == s.after(a).after(b).after(c).after(d),
{
    let w = seq![a, b, c, d];
    assert(w.drop_last() =~= seq![a, b, c]);
    assert(seq![a, b, c].drop_last() =~= seq![a, b]);
    assert(seq![a, b].drop_last() =~= seq![a]);
    assert(seq![a].drop_last() =~= Seq::empty());
    reveal_with_fuel(StoreMetaView::after_all, 6);
}

/// What was prepared for a region is held until it is taken back, and taking it back leaves
/// nothing of the region behind and everything else as it was.
pub proof fn prepare_is_taken_back(s: StoreMetaView, region: RegionView)
    requires
        s.prepare_bootstrap_region is None,
        !s.region_states.contains_key(region.id),
        !s.apply_states.contains_key(region.id),
        !s.raft_states.contains_key(region.id),
    ensures
        ({
            let p = s.after_all(spec_prepare(region));
            &&& p.prepare_bootstrap_region == Some(region)
            &&& p.region_states.contains_key(region.id)
            &&& p.apply_states.contains_key(region.id)
            &&& p.raft_states.contains_key(region.id)
            &&& p.after_all(spec_clear(region.id)) == s
        }),
{
    let a = spec_prepare(region);
    let b = spec_clear(region.id);
    let p = s.after_all(a);
    after_four(s, a[0], a[1], a[2], a[3]);
    assert(a =~= seq![a[0], a[1], a[2], a[3]]);
    after_four(p, b[0], b[1], b[2], b[3]);
    assert(b =~= seq![b[0], b[1], b[2], b[3]]);
    let q = p.after_all(b);
    assert(q.region_states =~= s.region_states);
    assert(q.apply_states =~= s.apply_states);
    assert(q.raft_states =~= s.raft_states);
    assert(q =~= s);
}

} // verus!
