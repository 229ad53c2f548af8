//! Plain data of the raft machinery: regions, peers, states and commands.

use vstd::prelude::*;
use vstd::slice::slice_to_vec;

use crate::bytes;

verus! {

/// What a peer may do in its raft group.
#[derive(Clone, Copy, Debug, PartialEq, Eq, Structural)]
pub enum PeerRole {
    Voter,
    Learner,
    IncomingVoter,
    DemotingVoter,
}

/// A replica of a region.
#[derive(Clone, Copy, Debug, PartialEq, Eq, Structural)]
pub struct Peer {
    pub id: u64,
    pub store_id: u64,
    pub role: PeerRole,
}

impl Peer {
    pub open spec fn spec_default() -> Peer {
        Peer { id: 0, store_id: 0, role: PeerRole::Voter }
    }
}

impl Default for Peer {
    fn default() -> (r: Self)
        ensures
            r == Peer::spec_default(),
    {
        Peer { id: 0, store_id: 0, role: PeerRole::Voter }
    }
}

/// The versions of a region: one counts changes of its peers, one changes of its range.
#[derive(Clone, Copy, Debug, PartialEq, Eq, Structural)]
pub struct RegionEpoch {
    pub conf_ver: u64,
    pub version: u64,
}

/// A range of keys and the peers that hold it.
#[derive(Debug)]
pub struct Region {
    pub id: u64,
    pub start_key: Vec<u8>,
    pub end_key: Vec<u8>,
    pub region_epoch: Option<RegionEpoch>,
    pub peers: Vec<Peer>,
}

/// A region as a mathematical value.
#[verifier::ext_equal]
pub struct RegionView {
    pub id: u64,
    pub start_key: Seq<u8>,
    pub end_key: Seq<u8>,
    pub region_epoch: Option<RegionEpoch>,
    pub peers: Seq<Peer>,
}

impl RegionView {
    pub open spec fn spec_default() -> RegionView {
        RegionView {
            id: 0,
            start_key: Seq::empty(),
            end_key: Seq::empty(),
            region_epoch: None,
            peers: Seq::empty(),
        }
    }

    /// The epoch, with zeroes where the region has none.
    pub open spec fn epoch(self) -> RegionEpoch {
        match self.region_epoch {
            Some(e) => e,
            None => RegionEpoch { conf_ver: 0, version: 0 },
        }
    }

    /// Whether a key lies in the range; an empty end key stands for no end.
    pub open spec fn covers(self, key: Seq<u8>) -> bool {
        &&& !bytes::lex_lt(key, self.start_key)
        &&& self.end_key.len() == 0 || bytes::lex_lt(key, self.end_key)
    }

    /// Whether the region has a peer on a store.
    pub open spec fn on_store(self, store_id: u64) -> bool {
        exists|i: int| 0 <= i < self.peers.len() && (#[trigger] self.peers[i]).store_id == store_id
    }

    /// The first peer on a store.
    pub open spec fn peer_on(self, store_id: u64) -> Option<Peer> {
        first_on(self.peers, store_id)
    }
}

/// The first of some peers that is on a store.
pub open spec fn first_on(peers: Seq<Peer>, store_id: u64) -> Option<Peer>
    decreases peers.len(),
{
    if peers.len() == 0 {
        None
    } else if peers[0].store_id == store_id {
        Some(peers[0])
    } else {
        first_on(peers.skip(1), store_id)
    }
}

impl View for Region {
    type V = RegionView;

    open spec fn view(&self) -> RegionView {
        RegionView {
            id: self.id,
            start_key: self.start_key@,
            end_key: self.end_key@,
            region_epoch: self.region_epoch,
            peers: self.peers@,
        }
    }
}

impl Clone for Region {
    fn clone(&self) -> (r: Self)
        ensures
            r@ == self@,
    {
        Region {
            id: self.id,
            start_key: bytes::copy_of(&self.start_key),
            end_key: bytes::copy_of(&self.end_key),
            region_epoch: self.region_epoch,
            peers: slice_to_vec(self.peers.as_slice()),
        }
    }
}

impl Default for Region {
    fn default() -> (r: Self)
        ensures
            r@ == RegionView::spec_default(),
    {
        Region {
            id: 0,
            start_key: Vec::new(),
            end_key: Vec::new(),
            region_epoch: None,
            peers: Vec::new(),
        }
    }
}

impl Region {
    /// The epoch, with zeroes where the region has none.
    pub fn get_region_epoch(&self) -> (r: RegionEpoch)
        ensures
            r == self@.epoch(),
    {
        match self.region_epoch {
            Some(e) => e,
            None => RegionEpoch { conf_ver: 0, version: 0 },
        }
    }

    /// Whether a key lies in the range; an empty end key stands for no end.
    pub fn contains_key(&self, key: &[u8]) -> (r: bool)
        ensures
            r == self@.covers(key@),
    {
        !bytes::less(key, &self.start_key) && (self.end_key.len() == 0 || bytes::less(
            key,
            &self.end_key,
        ))
    }

    /// The first peer on a store.
    pub fn find_peer(&self, store_id: u64) -> (r: Option<Peer>)
        ensures
            r == self@.peer_on(store_id),
            r is Some == self@.on_store(store_id),
    {
        let n: usize = self.peers.len();
        let mut i: usize = 0;
        proof {
            assert(self.peers@.skip(0) =~= self.peers@);
        }
        while i < n
            invariant
                n == self.peers@.len(),
                i <= n,
                forall|j: int| 0 <= j < i ==> (#[trigger] self.peers@[j]).store_id != store_id,
                first_on(self.peers@, store_id) == first_on(self.peers@.skip(i as int), store_id),
            decreases n - i,
        {
            let ghost s = self.peers@.skip(i as int);
            assert(s[0] == self.peers@[i as int]);
            assert(s.skip(1) =~= self.peers@.skip(i as int + 1));
            if self.peers[i].store_id == store_id {
                assert(self@.peers[i as int].store_id == store_id);
                return Some(self.peers[i]);
            }
            i = i + 1;
        }
        None
    }
}

/// Up to where a log has been cut off.
#[derive(Clone, Copy, Debug, PartialEq, Eq, Structural)]
pub struct RaftTruncatedState {
    pub index: u64,
    pub term: u64,
}

/// How far a region has been applied.
#[derive(Clone, Copy, Debug, PartialEq, Eq, Structural)]
pub struct RaftApplyState {
    pub applied_index: u64,
    pub last_commit_index: u64,
    pub commit_index: u64,
    pub commit_term: u64,
    pub truncated_state: RaftTruncatedState,
}

impl RaftApplyState {
    pub open spec fn spec_default() -> RaftApplyState {
        RaftApplyState {
            applied_index: 0,
            last_commit_index: 0,
            commit_index: 0,
            commit_term: 0,
            truncated_state: RaftTruncatedState { index: 0, term: 0 },
        }
    }
}

impl Default for RaftApplyState {
    fn default() -> (r: Self)
        ensures
            r == RaftApplyState::spec_default(),
    {
        RaftApplyState {
            applied_index: 0,
            last_commit_index: 0,
            commit_index: 0,
            commit_term: 0,
            truncated_state: RaftTruncatedState { index: 0, term: 0 },
        }
    }
}

/// What raft itself must keep across restarts.
#[derive(Clone, Copy, Debug, PartialEq, Eq, Structural)]
pub struct HardState {
    pub term: u64,
    pub vote: u64,
    pub commit: u64,
}

/// The raft state of a region's replica.
#[derive(Clone, Copy, Debug, PartialEq, Eq, Structural)]
pub struct RaftLocalState {
    pub hard_state: HardState,
    pub last_index: u64,
}

/// Where a replica stands in its life.
#[derive(Clone, Copy, Debug, PartialEq, Eq, Structural)]
pub enum PeerState {
    Normal,
    Applying,
    Tombstone,
    Merging,
    Unavailable,
}

/// A region's metadata as a store keeps it.
#[derive(Debug)]
pub struct RegionLocalState {
    pub state: PeerState,
    pub region: Region,
}

#[verifier::ext_equal]
pub struct RegionLocalStateView {
    pub state: PeerState,
    pub region: RegionView,
}

impl View for RegionLocalState {
    type V = RegionLocalStateView;

    open spec fn view(&self) -> RegionLocalStateView {
        RegionLocalStateView { state: self.state, region: self.region@ }
    }
}

impl Clone for RegionLocalState {
    fn clone(&self) -> (r: Self)
        ensures
            r@ == self@,
    {
        RegionLocalState { state: self.state, region: self.region.clone() }
    }
}

/// Who a store is.
#[derive(Clone, Copy, Debug, PartialEq, Eq, Structural)]
pub struct StoreIdent {
    pub cluster_id: u64,
    pub store_id: u64,
}

/// The kinds of administrative commands.
#[derive(Clone, Copy, Debug, PartialEq, Eq, Structural)]
pub enum AdminCmdType {
    InvalidAdmin,
    ChangePeer,
    Split,
    CompactLog,
    TransferLeader,
    ComputeHash,
    VerifyHash,
    PrepareMerge,
    CommitMerge,
    RollbackMerge,
    BatchSplit,
    ChangePeerV2,
    PrepareFlashback,
    FinishFlashback,
    BatchSwitchWitness,
    UpdateGcPeer,
}

/// Up to where a log is to be cut off.
#[derive(Clone, Copy, Debug, PartialEq, Eq, Structural)]
pub struct CompactLogRequest {
    pub compact_index: u64,
    pub compact_term: u64,
}

/// An administrative command.
#[derive(Debug)]
pub struct AdminRequest {
    pub cmd_type: AdminCmdType,
    pub compact_log: CompactLogRequest,
    /// The region to merge into.
    pub prepare_merge: Option<Region>,
    /// The region that is merged.
    pub commit_merge_source: Region,
}

#[verifier::ext_equal]
pub struct AdminRequestView {
    pub cmd_type: AdminCmdType,
    pub compact_log: CompactLogRequest,
    pub prepare_merge: Option<RegionView>,
    pub commit_merge_source: RegionView,
}

/// The view of an optional region.
pub open spec fn region_opt(r: Option<Region>) -> Option<RegionView> {
    match r {
        Some(r) => Some(r@),
        None => None,
    }
}

impl View for AdminRequest {
    type V = AdminRequestView;

    open spec fn view(&self) -> AdminRequestView {
        AdminRequestView {
            cmd_type: self.cmd_type,
            compact_log: self.compact_log,
            prepare_merge: region_opt(self.prepare_merge),
            commit_merge_source: self.commit_merge_source@,
        }
    }
}

impl AdminRequestView {
    /// A command of a kind with everything else left empty.
    pub open spec fn spec_new(cmd_type: AdminCmdType) -> AdminRequestView {
        AdminRequestView {
            cmd_type,
            compact_log: CompactLogRequest { compact_index: 0, compact_term: 0 },
            prepare_merge: None,
            commit_merge_source: RegionView::spec_default(),
        }
    }
}

impl AdminRequest {
    /// A command of a kind with everything else left empty.
    pub fn new(cmd_type: AdminCmdType) -> (r: Self)
        ensures
            r@ == AdminRequestView::spec_new(cmd_type),
    {
        AdminRequest {
            cmd_type,
            compact_log: CompactLogRequest { compact_index: 0, compact_term: 0 },
            prepare_merge: None,
            commit_merge_source: Region::default(),
        }
    }
}

impl Clone for AdminRequest {
    fn clone(&self) -> (r: Self)
        ensures
            r@ == self@,
    {
        AdminRequest {
            cmd_type: self.cmd_type,
            compact_log: self.compact_log,
            prepare_merge: match &self.prepare_merge {
                Some(r) => Some(r.clone()),
                None => None,
            },
            commit_merge_source: self.commit_merge_source.clone(),
        }
    }
}

/// The views of a list of regions.
pub open spec fn region_views(v: Seq<Region>) -> Seq<RegionView> {
    Seq::new(v.len(), |i: int| v[i]@)
}

/// What an administrative command resulted in.
#[derive(Debug)]
pub struct AdminResponse {
    /// The region after its peers changed.
    pub change_peer: Region,
    /// The regions after a split.
    pub splits: Vec<Region>,
    /// The region after a merge step.
    pub split_left: Region,
}

#[verifier::ext_equal]
pub struct AdminResponseView {
    pub change_peer: RegionView,
    pub splits: Seq<RegionView>,
    pub split_left: RegionView,
}

impl AdminResponseView {
    pub open spec fn spec_default() -> AdminResponseView {
        AdminResponseView {
            change_peer: RegionView::spec_default(),
            splits: Seq::empty(),
            split_left: RegionView::spec_default(),
        }
    }
}

impl View for AdminResponse {
    type V = AdminResponseView;

    open spec fn view(&self) -> AdminResponseView {
        AdminResponseView {
            change_peer: self.change_peer@,
            splits: region_views(self.splits@),
            split_left: self.split_left@,
        }
    }
}

impl Default for AdminResponse {
    fn default() -> (r: Self)
        ensures
            r@ == AdminResponseView::spec_default(),
    {
        let r = AdminResponse {
            change_peer: Region::default(),
            splits: Vec::new(),
            split_left: Region::default(),
        };
        assert(r@.splits =~= Seq::empty());
        r
    }
}

impl Clone for AdminResponse {
    fn clone(&self) -> (r: Self)
        ensures
            r@ == self@,
    {
        let n: usize = self.splits.len();
        let mut splits: Vec<Region> = Vec::new();
        let mut i: usize = 0;
        while i < n
            invariant
                n == self.splits@.len(),
                i <= n,
                splits@.len() == i,
                forall|j: int| 0 <= j < i ==> (#[trigger] splits@[j])@ == self.splits@[j]@,
            decreases n - i,
        {
            splits.push(self.splits[i].clone());
            i = i + 1;
        }
        assert(region_views(splits@) =~= region_views(self.splits@));
        AdminResponse {
            change_peer: self.change_peer.clone(),
            splits,
            split_left: self.split_left.clone(),
        }
    }
}

} // verus!
