//! An observer of raft that forwards to the engine store, and that answers the first appends
//! to a new peer with a snapshot of its own.

use vstd::prelude::*;

use crate::cached_region;
use crate::cached_region::{CachedRegionInfo, CachedRegionManager};
use crate::command;
use crate::command::{
    AdminPlan, ApplyCtxInfo, Cmd, PreExecAdmin, QueryPlan, RaftCmdRequest, RegionState,
    SstMetaInfo,
};
use crate::engine_store::StoreStats;
use crate::ffi::{EngineStoreApplyRes, RaftCmdHeader};
use crate::forwarder;
use crate::forwarder::{PostApply, Prehandled, RegionChangeEvent, SafeTsUpdate};
use crate::messages::{
    AdminCmdType, AdminRequest, Peer, RaftApplyState, Region, RegionEpoch, RegionLocalState,
    RegionView,
};
use crate::snapshot;
use crate::snapshot::{PreHandleRequest, PrehandleContext, PrehandleTask, SnapKey, Snapshot};

verus! {

/// The kinds of messages that raft sends.
#[derive(Clone, Copy, Debug, PartialEq, Eq, Structural)]
pub enum MessageType {
    MsgHup,
    MsgBeat,
    MsgPropose,
    MsgAppend,
    MsgAppendResponse,
    MsgRequestVote,
    MsgRequestVoteResponse,
    MsgSnapshot,
    MsgHeartbeat,
    MsgHeartbeatResponse,
    MsgUnreachable,
    MsgSnapStatus,
    MsgCheckQuorum,
    MsgTransferLeader,
    MsgTimeoutNow,
    MsgReadIndex,
    MsgReadIndexResp,
    MsgRequestPreVote,
    MsgRequestPreVoteResponse,
}

/// A message between two peers of a region.
#[derive(Clone, Copy, Debug, PartialEq, Eq, Structural)]
pub struct RaftMessage {
    pub region_id: u64,
    pub from_peer: Peer,
    pub to_peer: Peer,
    pub msg_type: MessageType,
    pub index: u64,
    pub term: u64,
    pub commit: u64,
}

/// What becomes of a message.
#[derive(Clone, Copy, Debug, PartialEq, Eq, Structural)]
pub enum MsgVerdict {
    /// It is known whether raft is to skip the message.
    Skip(bool),
    /// The engine store has to be told, and then a snapshot made by `compose_snapshot` has to be
    /// sent; raft is not to skip the message.
    SendSnapshot(UseLeaderForRegion),
}

/// What the engine store is told before a snapshot of a region is made up: that the data of the
/// region is the leader's.
#[derive(Clone, Copy, Debug, PartialEq, Eq, Structural)]
pub struct UseLeaderForRegion {
    pub region_id: u64,
}

/// The version of the layout of snapshots.
pub const SNAPSHOT_VERSION: u64 = 2;

/// A snapshot message that a store makes up itself.
pub struct SnapshotMessage {
    /// Under which key the snapshot is registered.
    pub key: SnapKey,
    /// The region in the snapshot's data.
    pub region: Region,
    pub file_size: u64,
    pub version: u64,
    pub voters: Vec<u64>,
    pub learners: Vec<u64>,
    pub index: u64,
    pub term: u64,
    pub region_epoch: RegionEpoch,
    pub region_id: u64,
    pub from_peer: Peer,
    pub to_peer: Peer,
    pub msg_type: MessageType,
}

#[verifier::ext_equal]
pub struct SnapshotMessageView {
    pub key: SnapKey,
    pub region: RegionView,
    pub file_size: u64,
    pub version: u64,
    pub voters: Seq<u64>,
    pub learners: Seq<u64>,
    pub index: u64,
    pub term: u64,
    pub region_epoch: RegionEpoch,
    pub region_id: u64,
    pub from_peer: Peer,
    pub to_peer: Peer,
    pub msg_type: MessageType,
}

impl View for SnapshotMessage {
    type V = SnapshotMessageView;

    open spec fn view(&self) -> SnapshotMessageView {
        SnapshotMessageView {
            key: self.key,
            region: self.region@,
            file_size: self.file_size,
            version: self.version,
            voters: self.voters@,
            learners: self.learners@,
            index: self.index,
            term: self.term,
            region_epoch: self.region_epoch,
            region_id: self.region_id,
            from_peer: self.from_peer,
            to_peer: self.to_peer,
            msg_type: self.msg_type,
        }
    }
}

/// A snapshot message in answer to an append: the region as the store has it, without data,
/// between the two peers of the append and at its place in the log.
pub fn compose_snapshot(
    msg: &RaftMessage,
    apply_state: &RaftApplyState,
    region_state: &RegionLocalState,
) -> (r: SnapshotMessage)
    ensures
        r@ == (SnapshotMessageView {
            key: SnapKey {
                region_id: msg.region_id,
                term: apply_state.commit_term,
                idx: apply_state.applied_index,
            },
            region: region_state.region@,
            file_size: 0,
            version: SNAPSHOT_VERSION,
            voters: seq![msg.from_peer.id],
            learners: seq![msg.to_peer.id],
            index: msg.index,
            term: msg.term,
            region_epoch: region_state.region@.epoch(),
            region_id: msg.region_id,
            from_peer: msg.from_peer,
            to_peer: msg.to_peer,
            msg_type: MessageType::MsgSnapshot,
        }),
{
    let mut voters: Vec<u64> = Vec::new();
    voters.push(msg.from_peer.id);
    let mut learners: Vec<u64> = Vec::new();
    learners.push(msg.to_peer.id);
    SnapshotMessage {
        key: SnapKey::new(msg.region_id, apply_state.commit_term, apply_state.applied_index),
        region: region_state.region.clone(),
        file_size: 0,
        version: SNAPSHOT_VERSION,
        voters,
        learners,
        index: msg.index,
        term: msg.term,
        region_epoch: region_state.region.get_region_epoch(),
        region_id: msg.region_id,
        from_peer: msg.from_peer,
        to_peer: msg.to_peer,
        msg_type: MessageType::MsgSnapshot,
    }
}

/// How large a store is.
#[derive(Clone, Copy, Debug, PartialEq, Eq, Structural)]
pub struct StoreSizeInfo {
    pub capacity: u64,
    pub used: u64,
    pub avail: u64,
}

/// How large a store is, as its engine tells it.
#[derive(Clone, Copy, Debug, PartialEq, Eq, Structural)]
pub struct FsStatsExt {
    pub used: u64,
    pub capacity: u64,
    pub available: u64,
}

/// The sizes in an engine store's statistics.
pub fn into_fs_stats_ext(stats: StoreStats) -> (r: FsStatsExt)
    ensures
        r == (FsStatsExt {
            used: stats.fs_stats.used_size,
            capacity: stats.fs_stats.capacity_size,
            available: stats.fs_stats.avail_size,
        }),
{
    FsStatsExt {
        used: stats.fs_stats.used_size,
        capacity: stats.fs_stats.capacity_size,
        available: stats.fs_stats.avail_size,
    }
}

/// The way from an engine to its engine store.
#[derive(Clone, Copy, Debug, PartialEq, Eq, Structural)]
pub struct TiFlashFFIHub {
    /// The address of the engine store's functions.
    pub engine_store_server_helper: isize,
}

impl TiFlashFFIHub {
    /// The sizes in the statistics that the engine store answered with.
    pub fn get_store_stats(&self, stats: StoreStats) -> (r: FsStatsExt)
        ensures
            r == (FsStatsExt {
                used: stats.fs_stats.used_size,
                capacity: stats.fs_stats.capacity_size,
                available: stats.fs_stats.avail_size,
            }),
    {
        into_fs_stats_ext(stats)
    }
}

/// What an observer is called for.
#[derive(Clone, Copy, Debug, PartialEq, Eq, Structural)]
pub enum ObserverKind {
    Admin,
    Query,
    ApplySnapshot,
    RegionChange,
    PdTask,
    UpdateSafeTs,
}

/// The observer comes before all others, so that none can bypass it.
pub const TIFLASH_OBSERVER_PRIORITY: u32 = 0;

/// An observer of raft.
pub struct TiFlashObserver {
    pub store_id: u64,
    pub cached_region_info: CachedRegionManager,
    pub pre_handle_snapshot_ctx: PrehandleContext,
    /// Whether snapshots can be handled in the background.
    pub apply_snap_pool: bool,
    pub snap_handle_pool_size: usize,
    /// How many snapshots the background has taken on and not been asked for.
    pub pending_applies_count: isize,
    pub pending_delete_ssts: Vec<SstMetaInfo>,
}

#[verifier::ext_equal]
pub struct TiFlashObserverView {
    pub store_id: u64,
    pub cached: Map<u64, CachedRegionInfo>,
    pub tracer: Map<SnapKey, PrehandleTask>,
    pub apply_snap_pool: bool,
    pub snap_handle_pool_size: usize,
    pub pending_applies_count: isize,
    pub pending_delete_ssts: Seq<SstMetaInfo>,
}

impl View for TiFlashObserver {
    type V = TiFlashObserverView;

    open spec fn view(&self) -> TiFlashObserverView {
        TiFlashObserverView {
            store_id: self.store_id,
            cached: self.cached_region_info@,
            tracer: self.pre_handle_snapshot_ctx@,
            apply_snap_pool: self.apply_snap_pool,
            snap_handle_pool_size: self.snap_handle_pool_size,
            pending_applies_count: self.pending_applies_count,
            pending_delete_ssts: self.pending_delete_ssts@,
        }
    }
}

impl TiFlashObserverView {
    pub open spec fn with_cached(self, cached: Map<u64, CachedRegionInfo>) -> TiFlashObserverView {
        TiFlashObserverView { cached, ..self }
    }

    /// What becomes of an append: the first one of a region, and all until it is initialized,
    /// go to raft; later ones are skipped until the peer was created, and from then on are
    /// answered with a snapshot, before which the engine store is told of the region.
    pub open spec fn append_verdict(self, region_id: u64) -> MsgVerdict {
        if !self.cached.contains_key(region_id) || !self.cached[region_id].inited {
            MsgVerdict::Skip(false)
        } else if !self.cached[region_id].replicated_or_created {
            MsgVerdict::Skip(true)
        } else {
            MsgVerdict::SendSnapshot(UseLeaderForRegion { region_id })
        }
    }

    /// What is remembered after an append: its region is known.
    pub open spec fn append_seen(self, region_id: u64) -> TiFlashObserverView {
        if self.cached.contains_key(region_id) {
            self
        } else {
            self.with_cached(self.cached.insert(region_id, CachedRegionInfo::spec_default()))
        }
    }
}

impl TiFlashObserver {
    /// An observer that has seen nothing.
    pub fn new(store_id: u64, snap_handle_pool_size: usize) -> (r: Self)
        ensures
            r@ == (TiFlashObserverView {
                store_id,
                cached: Map::empty(),
                tracer: Map::empty(),
                apply_snap_pool: true,
                snap_handle_pool_size,
                pending_applies_count: 0,
                pending_delete_ssts: Seq::empty(),
            }),
    {
        TiFlashObserver {
            store_id,
            cached_region_info: CachedRegionManager::new(),
            pre_handle_snapshot_ctx: PrehandleContext::new(),
            apply_snap_pool: true,
            snap_handle_pool_size,
            pending_applies_count: 0,
            pending_delete_ssts: Vec::new(),
        }
    }

    /// Registers the observer for everything that it is called for. Registering it twice makes
    /// it be called twice.
    pub fn register_to(&self, registry: &mut Vec<(u32, ObserverKind)>)
        ensures
            final(registry)@ == old(registry)@ + seq![
                (TIFLASH_OBSERVER_PRIORITY, ObserverKind::Admin),
                (TIFLASH_OBSERVER_PRIORITY, ObserverKind::Query),
                (TIFLASH_OBSERVER_PRIORITY, ObserverKind::ApplySnapshot),
                (TIFLASH_OBSERVER_PRIORITY, ObserverKind::RegionChange),
                (TIFLASH_OBSERVER_PRIORITY, ObserverKind::PdTask),
                (TIFLASH_OBSERVER_PRIORITY, ObserverKind::UpdateSafeTs),
            ],
    {
        registry.push((TIFLASH_OBSERVER_PRIORITY, ObserverKind::Admin));
        registry.push((TIFLASH_OBSERVER_PRIORITY, ObserverKind::Query));
        registry.push((TIFLASH_OBSERVER_PRIORITY, ObserverKind::ApplySnapshot));
        registry.push((TIFLASH_OBSERVER_PRIORITY, ObserverKind::RegionChange));
        registry.push((TIFLASH_OBSERVER_PRIORITY, ObserverKind::PdTask));
        registry.push((TIFLASH_OBSERVER_PRIORITY, ObserverKind::UpdateSafeTs));
    }

    /// Replaces what is remembered of a region by what a function makes of it.
    pub fn access_cached_region_info_mut<
        F: Fn(Option<CachedRegionInfo>) -> Option<CachedRegionInfo>,
    >(&mut self, region_id: u64, f: F) -> (r: Result<(), String>)
        requires
            f.requires((cached_region::info_of(old(self)@.cached, region_id),)),
        ensures
            r is Ok,
            exists|x: Option<CachedRegionInfo>|
                {
                    &&& f.ensures((cached_region::info_of(old(self)@.cached, region_id),), x)
                    &&& final(self)@ == old(self)@.with_cached(
                        #[trigger] cached_region::with_info(old(self)@.cached, region_id, x),
                    )
                },
    {
        self.cached_region_info.access_cached_region_info_mut(region_id, f)
    }

    /// What becomes of a message that may be an append.
    pub fn is_first_msg_append(&mut self, msg: &RaftMessage) -> (r: MsgVerdict)
        ensures
            if msg.msg_type == MessageType::MsgAppend {
                &&& r == old(self)@.append_verdict(msg.region_id)
                &&& final(self)@ == old(self)@.append_seen(msg.region_id)
            } else {
                &&& r == MsgVerdict::Skip(false)
                &&& final(self)@ == old(self)@
            },
    {
        if msg.msg_type != MessageType::MsgAppend {
            return MsgVerdict::Skip(false);
        }
        match self.cached_region_info.get_cached_region_info(msg.region_id) {
            Some(info) => {
                if !info.inited {
                    MsgVerdict::Skip(false)
                } else if !info.replicated_or_created {
                    MsgVerdict::Skip(true)
                } else {
                    MsgVerdict::SendSnapshot(UseLeaderForRegion { region_id: msg.region_id })
                }
            },
            None => {
                self.cached_region_info.set_cached_region_info(
                    msg.region_id,
                    Some(CachedRegionInfo::default()),
                );
                MsgVerdict::Skip(false)
            },
        }
    }

    /// What becomes of a message: only appends may be skipped.
    pub fn should_skip_raft_message(&mut self, msg: &RaftMessage) -> (r: MsgVerdict)
        ensures
            if msg.msg_type == MessageType::MsgAppend {
                &&& r == old(self)@.append_verdict(msg.region_id)
                &&& final(self)@ == old(self)@.append_seen(msg.region_id)
            } else {
                &&& r == MsgVerdict::Skip(false)
                &&& final(self)@ == old(self)@
            },
    {
        if msg.commit == 0 && msg.msg_type == MessageType::MsgHeartbeat {
            MsgVerdict::Skip(false)
        } else if msg.msg_type == MessageType::MsgAppend {
            self.is_first_msg_append(msg)
        } else {
            MsgVerdict::Skip(false)
        }
    }

    /// Remembers that a region's peer was created.
    pub fn on_peer_created(&mut self, region_id: u64)
        ensures
            final(self)@ == old(self)@.with_cached(
                cached_region::with_info(
                    old(self)@.cached,
                    region_id,
                    forwarder::after_role_change(
                        cached_region::info_of(old(self)@.cached, region_id),
                        true,
                    ),
                ),
            ),
    {
        let f = |info: Option<CachedRegionInfo>| -> (r: Option<CachedRegionInfo>)
            ensures
                r == forwarder::after_role_change(info, true),
            {
                let base = match info {
                    Some(x) => x,
                    None => CachedRegionInfo::default(),
                };
                Some(CachedRegionInfo { replicated_or_created: true, ..base })
            };
        let _ = self.access_cached_region_info_mut(region_id, f);
    }

    /// What has to happen before an administrative command of a region is executed.
    pub fn pre_exec_admin(
        &self,
        ob_region: &Region,
        req: &AdminRequest,
        index: u64,
        term: u64,
    ) -> (r: PreExecAdmin)
        ensures
            r == command::before_admin(ob_region.id, req.cmd_type, index, term),
    {
        command::pre_exec_admin(ob_region.id, req.cmd_type, index, term)
    }

    /// What is handed to the engine store after an administrative command.
    pub fn post_exec_admin(&self, ob_region: &Region, cmd: &Cmd, region_state: &RegionState) -> (r:
        AdminPlan)
        requires
            !cmd.response.has_error && command::is_merge(cmd.request.admin_type())
                ==> region_state.modified_region is Some,
        ensures
            command::is_admin_plan(r, ob_region@.id, *cmd, *region_state),
    {
        command::plan_admin(ob_region.id, cmd, region_state)
    }

    /// Whether the region's state is made durable, given the engine store's answer to what
    /// `post_exec_admin` handed over.
    pub fn post_exec_admin_done(
        &self,
        plan: &AdminPlan,
        res: EngineStoreApplyRes,
        region_state: &RegionState,
    ) -> (r: bool)
        ensures
            r == (match *plan {
                AdminPlan::Failed { .. } => res == EngineStoreApplyRes::Persist
                    && !region_state.pending_remove,
                AdminPlan::Admin { .. } => res != EngineStoreApplyRes::NoPersist
                    && !region_state.pending_remove,
            }),
    {
        match plan {
            AdminPlan::Failed { .. } => command::write_persists(res, region_state),
            AdminPlan::Admin { .. } => command::admin_persists(res, region_state),
        }
    }

    /// What is handed to the engine store, without any writes, for an empty command.
    pub fn on_empty_cmd(&self, ob_region: &Region, index: u64, term: u64) -> (r: RaftCmdHeader)
        ensures
            r == (RaftCmdHeader { region_id: ob_region@.id, index, term }),
    {
        RaftCmdHeader::new(ob_region.id, index, term)
    }

    /// What is handed to the engine store after a write command.
    pub fn post_exec_query<'a>(&self, ob_region: &Region, cmd: &'a Cmd) -> (r: QueryPlan<'a>)
        requires
            cmd.response.has_error || command::requests_fit(cmd.request.requests@),
        ensures
            command::is_query_plan(r, ob_region@.id, *cmd),
    {
        command::plan_query(ob_region.id, cmd)
    }

    /// Does what the engine store's answer to what `post_exec_query` handed over calls for,
    /// and says whether the region's state is made durable.
    pub fn post_exec_query_done(
        &mut self,
        ob_region: &Region,
        plan: &QueryPlan,
        res: EngineStoreApplyRes,
        region_state: &RegionState,
        apply_ctx_info: &mut ApplyCtxInfo,
    ) -> (r: bool)
        ensures
            match *plan {
                QueryPlan::Write { .. } => {
                    &&& r == (res == EngineStoreApplyRes::Persist && !region_state.pending_remove)
                    &&& final(self)@ == old(self)@
                    &&& *final(apply_ctx_info) == *old(apply_ctx_info)
                },
                QueryPlan::Ingest { .. } => {
                    &&& r == (res != EngineStoreApplyRes::NoPersist && !region_state.pending_remove)
                    &&& final(self)@ == (TiFlashObserverView {
                        pending_delete_ssts: final(self)@.pending_delete_ssts,
                        ..old(self)@
                    })
                    &&& command::ingest_finished(
                        old(self)@.pending_delete_ssts,
                        final(self)@.pending_delete_ssts,
                        *old(apply_ctx_info),
                        *final(apply_ctx_info),
                        ob_region@.id,
                        res,
                    )
                },
            },
    {
        match plan {
            QueryPlan::Write { .. } => command::write_persists(res, region_state),
            QueryPlan::Ingest { .. } => command::finish_ingest(
                &mut self.pending_delete_ssts,
                apply_ctx_info,
                ob_region.id,
                res,
                region_state,
            ),
        }
    }

    /// What is handed to the engine store when consistent reads move on.
    pub fn on_update_safe_ts(&self, region_id: u64, self_safe_ts: u64, leader_safe_ts: u64) -> (r:
        SafeTsUpdate)
        ensures
            r == (SafeTsUpdate { region_id, self_safe_ts, leader_safe_ts }),
    {
        SafeTsUpdate { region_id, self_safe_ts, leader_safe_ts }
    }

    /// Says which region the engine store has to forget, if any.
    pub fn on_region_changed(&self, ob_region: &Region, e: RegionChangeEvent) -> (r: Option<u64>)
        ensures
            r == (if e == RegionChangeEvent::Destroy {
                Some(ob_region@.id)
            } else {
                None
            }),
    {
        if e == RegionChangeEvent::Destroy {
            Some(ob_region.id)
        } else {
            None
        }
    }

    /// Whether the state of a region may be made durable now.
    pub fn pre_persist(&self, is_finished: bool, cmd: Option<&RaftCmdRequest>) -> (r: bool)
        requires
            is_finished || cmd is Some,
        ensures
            r == (is_finished || cmd->0.admin_type() == AdminCmdType::CommitMerge
                || cmd->0.admin_type() == AdminCmdType::RollbackMerge),
    {
        command::pre_persist(is_finished, cmd)
    }

    /// Whether the apply state is written with each command: it is not.
    pub fn pre_write_apply_state(&self) -> (r: bool)
        ensures
            !r,
    {
        false
    }

    /// Puts the engine store's sizes in place.
    pub fn on_compute_engine_size(&self, stats: StoreStats, store_size: &mut Option<StoreSizeInfo>)
        ensures
            *final(store_size) == Some(
                StoreSizeInfo {
                    capacity: stats.fs_stats.capacity_size,
                    used: stats.fs_stats.used_size,
                    avail: stats.fs_stats.avail_size,
                },
            ),
    {
        *store_size = Some(
            StoreSizeInfo {
                capacity: stats.fs_stats.capacity_size,
                used: stats.fs_stats.used_size,
                avail: stats.fs_stats.avail_size,
            },
        );
    }

    /// Registers a snapshot that is there, and starts to handle it where there is a
    /// background.
    pub fn pre_apply_snapshot(
        &mut self,
        ob_region: &Region,
        peer_id: u64,
        snap_key: &SnapKey,
        snap: Option<&Snapshot>,
        recv: u64,
    ) -> (r: Option<PreHandleRequest>)
        requires
            snap is Some ==> snapshot::snapshot_fits(snap->0.cf_files@),
        ensures
            ({
                let s = old(self)@;
                let registered = TiFlashObserverView {
                    tracer: s.tracer.insert(*snap_key, (PrehandleTask { recv, peer_id })),
                    ..s
                };
                if snap is None {
                    &&& r is None
                    &&& final(self)@ == s
                } else if s.apply_snap_pool {
                    &&& r is Some
                    &&& r->0@ == snapshot::request_for(
                        ob_region@,
                        peer_id,
                        *snap_key,
                        snap->0.cf_files@,
                    )
                    &&& final(self)@ == (TiFlashObserverView {
                        pending_applies_count: s.pending_applies_count.wrapping_add(1),
                        ..registered
                    })
                } else {
                    &&& r is None
                    &&& final(self)@ == registered
                }
            }),
    {
        let snap = match snap {
            None => return None,
            Some(s) => s,
        };
        let task = PrehandleTask::new(recv, peer_id);
        self.pre_handle_snapshot_ctx.insert(*snap_key, task);
        let ssts = snapshot::retrieve_sst_files(snap);
        if self.apply_snap_pool {
            self.pending_applies_count = self.pending_applies_count.wrapping_add(1);
            Some(snapshot::pre_handle_snapshot_impl(task.peer_id, ssts, ob_region, snap_key))
        } else {
            None
        }
    }

    /// Goes on with a snapshot that raft has applied. Its region counts as initialized from
    /// now on; where it did before, nothing is left to do.
    pub fn post_apply_snapshot(
        &mut self,
        ob_region: &Region,
        peer_id: u64,
        snap_key: &SnapKey,
        snap: Option<&Snapshot>,
    ) -> (r: PostApply)
        requires
            old(self)@.cached.contains_key(ob_region@.id),
            snap is Some && !old(self)@.cached[ob_region@.id].inited && !old(
                self,
            )@.tracer.contains_key(*snap_key) ==> snapshot::snapshot_fits(snap->0.cf_files@),
        ensures
            ({
                let s = old(self)@;
                let id = ob_region@.id;
                let inited = s.with_cached(
                    s.cached.insert(id, (CachedRegionInfo { inited: true, ..s.cached[id] })),
                );
                if s.cached[id].inited || snap is None {
                    &&& r is Finished
                    &&& final(self)@ == inited
                } else if s.tracer.contains_key(*snap_key) {
                    &&& r == PostApply::AwaitTask(s.tracer[*snap_key])
                    &&& final(self)@ == (TiFlashObserverView {
                        tracer: s.tracer.remove(*snap_key),
                        ..inited
                    })
                } else {
                    &&& r is PreHandle
                    &&& r->PreHandle_0@ == snapshot::request_for(
                        ob_region@,
                        peer_id,
                        *snap_key,
                        snap->0.cf_files@,
                    )
                    &&& final(self)@ == inited
                }
            }),
    {
        let region_id: u64 = ob_region.id;
        let info = self.cached_region_info.get_cached_region_info(region_id).unwrap();
        let should_skip = info.inited;
        self.cached_region_info.set_cached_region_info(
            region_id,
            Some(CachedRegionInfo { inited: true, ..info }),
        );
        if should_skip {
            return PostApply::Finished;
        }
        let snap = match snap {
            None => return PostApply::Finished,
            Some(s) => s,
        };
        match self.pre_handle_snapshot_ctx.remove(*snap_key) {
            Some(t) => PostApply::AwaitTask(t),
            None => {
                assert(self@.tracer =~= old(self)@.tracer);
                let ssts = snapshot::retrieve_sst_files(snap);
                PostApply::PreHandle(
                    snapshot::pre_handle_snapshot_impl(peer_id, ssts, ob_region, snap_key),
                )
            },
        }
    }

    /// Goes on with a snapshot once the background has answered: with the address of its
    /// result, or with nothing where it failed.
    pub fn post_apply_snapshot_received(
        &mut self,
        ob_region: &Region,
        peer_id: u64,
        snap_key: &SnapKey,
        snap: &Snapshot,
        received: Option<usize>,
    ) -> (r: Prehandled)
        requires
            received is None ==> snapshot::snapshot_fits(snap.cf_files@),
        ensures
            final(self)@ == (TiFlashObserverView {
                pending_applies_count: old(self)@.pending_applies_count.wrapping_sub(1),
                ..old(self)@
            }),
            match received {
                Some(ptr) => r == Prehandled::Apply(ptr),
                None => r is PreHandle && r->PreHandle_0@ == snapshot::request_for(
                    ob_region@,
                    peer_id,
                    *snap_key,
                    snap.cf_files@,
                ),
            },
    {
        self.pending_applies_count = self.pending_applies_count.wrapping_sub(1);
        match received {
            Some(ptr) => Prehandled::Apply(ptr),
            None => {
                let ssts = snapshot::retrieve_sst_files(snap);
                Prehandled::PreHandle(
                    snapshot::pre_handle_snapshot_impl(peer_id, ssts, ob_region, snap_key),
                )
            },
        }
    }

    /// Whether snapshots are handled before raft applies them: they are.
    pub fn should_pre_apply_snapshot(&self) -> (r: bool)
        ensures
            r,
    {
        true
    }
}

} // verus!
